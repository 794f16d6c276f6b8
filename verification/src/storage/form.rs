//! The body of an upload: a multipart form, of which the first named file is kept.
use vstd::prelude::*;
use vstd::string::*;
use std::io::Read;
use multipart::server::MultipartData;
use crate::storage::api::{ParseUploadResp, upload_mime, upload_mime_spec, upload_query};
use crate::storage::errors::Error;
use crate::storage::ttl::{TTL, Unit, parse_ttl, ttl_text_readable};
use crate::text::parse_uint;
use crate::util::{true_text, pairs_last_wins};
use crate::text::same_text;
use crate::storage::needle::PAIR_NAME_PREFIX;
use std::collections::BTreeMap;

verus! {

/// The type of `multipart::server::Multipart`: a multipart body being read part by part.
#[verifier::external_type_specification]
#[verifier::external_body]
#[verifier::reject_recursive_types(R)]
pub struct ExMultipart<R>(multipart::server::Multipart<R>);

/// The part that the `k`-th read (from 0) of the multipart body `body` with boundary
/// `boundary` gives, after `k` reads that each read a file's bytes to the end: whether it
/// is a file, its file name if it gives one, its content type as `top/sub`, and its bytes
/// (`None` where they could not be read); `None` where the read finds no more parts or
/// fails.
pub uninterp spec fn nth_part(body: Seq<u8>, boundary: Seq<char>, k: nat) -> Option<
    (bool, Option<Seq<char>>, Seq<char>, Option<Seq<u8>>),
>;

/// One part, its texts taken by their views, and a failed read of its bytes as `None`.
pub open spec fn part_view(p: (bool, Option<String>, String, Result<Vec<u8>, String>)) -> (
    bool,
    Option<Seq<char>>,
    Seq<char>,
    Option<Seq<u8>>,
) {
    (
        p.0,
        match p.1 {
            Some(f) => Some(f@),
            None => None,
        },
        p.2@,
        match p.3 {
            Ok(d) => Some(d@),
            Err(_) => None,
        },
    )
}

/// A multipart body being read, with the body and boundary it was opened on and how many
/// parts were read from it.
pub struct PartReader<'a> {
    inner: multipart::server::Multipart<&'a [u8]>,
    body: Ghost<Seq<u8>>,
    boundary: Ghost<Seq<char>>,
    count: Ghost<nat>,
}

impl<'a> PartReader<'a> {
    /// The body this reader was opened on.
    pub closed spec fn body(&self) -> Seq<u8> {
        self.body@
    }

    /// The boundary this reader was opened on.
    pub closed spec fn boundary(&self) -> Seq<char> {
        self.boundary@
    }

    /// How many parts were read.
    pub closed spec fn count(&self) -> nat {
        self.count@
    }
}

/// `multipart::server::Multipart::with_body`: a reader of the body `body` with boundary
/// `boundary`, before any part is read. Nothing is claimed of it.
#[verifier::external_body]
fn open_multipart<'a>(body: &'a [u8], boundary: &str) -> multipart::server::Multipart<&'a [u8]> {
    multipart::server::Multipart::with_body(body, boundary)
}

/// A reader of the multipart body `body` with boundary `boundary`.
fn open_parts<'a>(body: &'a [u8], boundary: &str) -> (r: PartReader<'a>)
    ensures
        r.body() == body@,
        r.boundary() == boundary@,
        r.count() == 0,
{
    PartReader { inner: open_multipart(body, boundary), body: Ghost(body@), boundary: Ghost(boundary@), count: Ghost(0) }
}

/// `Multipart::read_entry`, then, for a file, `Read::read_to_end` on it: the next part
/// (see [`nth_part`]), told apart as file or text, with a file's name, content type and
/// bytes (or the text of the error reading them); `None` where no part is left or reading
/// it failed. The claim is that the part depends only on the body, the boundary and how
/// many parts were read before; nothing is claimed of an error's text.
#[verifier::external_body]
fn next_part(r: &mut PartReader) -> (p: Option<(bool, Option<String>, String, Result<Vec<u8>, String>)>)
    ensures
        final(r).body() == old(r).body(),
        final(r).boundary() == old(r).boundary(),
        final(r).count() == old(r).count() + 1,
        match p {
            Some(x) => nth_part(old(r).body(), old(r).boundary(), old(r).count()) == Some(part_view(x)),
            None => nth_part(old(r).body(), old(r).boundary(), old(r).count()) is None,
        },
{
    r.count = Ghost((r.count@ + 1) as nat);
    match r.inner.read_entry() {
        Ok(Some(field)) => match field.data {
            MultipartData::File(mut f) => {
                let mut d = Vec::new();
                let read = f.read_to_end(&mut d);
                let ct = format!("{}/{}", f.content_type.0.as_str(), f.content_type.1.as_str());
                Some((true, f.filename.clone(), ct, read.map(|_| d).map_err(|e| e.to_string())))
            },
            MultipartData::Text(_) => Some((false, None, String::new(), Ok(Vec::new()))),
        },
        _ => None,
    }
}

/// The first `n` parts of the multipart body `body` with boundary `boundary`, as far as
/// they can be read: none after a read that finds no part.
pub open spec fn parts_upto(body: Seq<u8>, boundary: Seq<char>, n: nat) -> Seq<
    (bool, Option<Seq<char>>, Seq<char>, Option<Seq<u8>>),
>
    decreases n,
{
    if n == 0 {
        seq![]
    } else {
        let prev = parts_upto(body, boundary, (n - 1) as nat);
        if prev.len() == n - 1 && nth_part(body, boundary, (n - 1) as nat) is Some {
            prev.push(nth_part(body, boundary, (n - 1) as nat)->0)
        } else {
            prev
        }
    }
}

/// What reading the parts `ps` up to a named file leaves: the file name, the content
/// types of the files read, one after the other, and the bytes of the last file read;
/// `None` where the bytes of a file read could not be read.
pub open spec fn first_file_scan(ps: Seq<(bool, Option<Seq<char>>, Seq<char>, Option<Seq<u8>>)>) -> Option<
    (Seq<char>, Seq<char>, Seq<u8>),
>
    decreases ps.len(),
{
    if ps.len() == 0 {
        Some((seq![], seq![], seq![]))
    } else {
        match first_file_scan(ps.drop_last()) {
            None => None,
            Some((name, types, data)) => if name.len() > 0 {
                Some((name, types, data))
            } else {
                let p = ps.last();
                if !p.0 {
                    Some((name, types, data))
                } else {
                    match p.3 {
                        None => None,
                        Some(d) => Some(
                            (
                                match p.1 {
                                    Some(f) => f,
                                    None => name,
                                },
                                types + p.2,
                                d,
                            ),
                        ),
                    }
                }
            },
        }
    }
}

/// The parts that reading the multipart body `body` with boundary `boundary` may look
/// at: as many reads as the body has bytes, and one more (a read that finds a part takes
/// more than one byte of the body).
pub open spec fn body_parts(body: Seq<u8>, boundary: Seq<char>) -> Seq<(bool, Option<Seq<char>>, Seq<char>, Option<Seq<u8>>)> {
    parts_upto(body, boundary, (body.len() + 1) as nat)
}

/// After a read that finds no part, the parts stay as they are.
proof fn lemma_parts_end(body: Seq<u8>, boundary: Seq<char>, k: nat, m: nat)
    requires
        parts_upto(body, boundary, k).len() == k,
        nth_part(body, boundary, k) is None,
        k < m,
    ensures
        parts_upto(body, boundary, m) == parts_upto(body, boundary, k),
    decreases m,
{
    if m > k + 1 {
        lemma_parts_end(body, boundary, k, (m - 1) as nat);
    }
}

/// The parts of fewer reads are the first of the parts of more.
proof fn lemma_parts_prefix(body: Seq<u8>, boundary: Seq<char>, k: nat, m: nat)
    requires
        parts_upto(body, boundary, k).len() == k,
        k <= m,
    ensures
        parts_upto(body, boundary, m).len() >= k,
        parts_upto(body, boundary, m).take(k as int) == parts_upto(body, boundary, k),
    decreases m,
{
    if m > k {
        lemma_parts_prefix(body, boundary, k, (m - 1) as nat);
        let prev = parts_upto(body, boundary, (m - 1) as nat);
        if prev.len() == m - 1 && nth_part(body, boundary, (m - 1) as nat) is Some {
            assert(prev.push(nth_part(body, boundary, (m - 1) as nat)->0).take(k as int) =~= prev.take(k as int));
        }
    } else {
        assert(parts_upto(body, boundary, m).take(k as int) =~= parts_upto(body, boundary, k));
    }
}

/// The first named file of a multipart body: its name, the content types of the file
/// parts read up to it (one after the other), and its bytes; see [`first_file_scan`] and
/// [`body_parts`]. Fails with the reading error where a file's bytes could not be read.
pub fn first_file_part(body: &[u8], boundary: &str) -> (r: Result<(String, String, Vec<u8>), Error>)
    ensures
        match first_file_scan(body_parts(body@, boundary@)) {
            Some((name, types, data)) => r matches Ok(t) && t.0@ == name && t.1@ == types && t.2@ == data,
            None => r matches Err(Error::Other(_)),
        },
{
    let mut rd = open_parts(body, boundary);
    let ghost bd = body@;
    let ghost bn = boundary@;
    let ghost total = (bd.len() + 1) as nat;
    let bound: u128 = body.len() as u128 + 1;
    let mut name = String::new();
    let mut types = String::new();
    let mut data: Vec<u8> = Vec::new();
    let mut i: u128 = 0;
    while i < bound
        invariant
            bound == total,
            total == (bd.len() + 1) as nat,
            i <= bound,
            bd == body@,
            bn == boundary@,
            rd.body() == bd,
            rd.boundary() == bn,
            rd.count() == i,
            parts_upto(bd, bn, i as nat).len() == i,
            first_file_scan(parts_upto(bd, bn, i as nat)) == Some((name@, types@, data@)),
            name@.len() == 0,
        decreases bound - i,
    {
        let ghost k = i as nat;
        let part = next_part(&mut rd);
        match part {
            None => {
                proof {
                    lemma_parts_end(bd, bn, k, total);
                    assert(body_parts(bd, bn) == parts_upto(bd, bn, total));
                }
                return Ok((name, types, data));
            },
            Some((is_file, fname, ct, d)) => {
                let ghost p = part_view((is_file, fname, ct, d));
                assert(parts_upto(bd, bn, k + 1) == parts_upto(bd, bn, k).push(p));
                assert(parts_upto(bd, bn, k + 1).drop_last() =~= parts_upto(bd, bn, k));
                if is_file {
                    match d {
                        Err(m) => {
                            proof {
                                assert(first_file_scan(parts_upto(bd, bn, k + 1)) is None);
                                lemma_parts_prefix(bd, bn, k + 1, total);
                                assert(body_parts(bd, bn) == parts_upto(bd, bn, total));
                                assert(body_parts(bd, bn).take(k + 1 as int) == parts_upto(bd, bn, k + 1));
                                lemma_scan_stops(body_parts(bd, bn), k + 1 as int);
                            }
                            return Err(Error::Other(m));
                        },
                        Ok(dd) => {
                            match fname {
                                Some(f) => {
                                    name = f;
                                },
                                None => {},
                            }
                            types.append(ct.as_str());
                            data = dd;
                        },
                    }
                }
                assert(first_file_scan(parts_upto(bd, bn, k + 1)) == Some((name@, types@, data@)));
                if name.unicode_len() > 0 {
                    proof {
                        lemma_parts_prefix(bd, bn, k + 1, total);
                        lemma_scan_stops(body_parts(bd, bn), k + 1 as int);
                    }
                    return Ok((name, types, data));
                }
            },
        }
        i = i + 1;
    }
    Ok((name, types, data))
}

/// Once a named file is found, or a file could not be read, the parts after it change
/// nothing.
proof fn lemma_scan_stops(ps: Seq<(bool, Option<Seq<char>>, Seq<char>, Option<Seq<u8>>)>, k: int)
    requires
        0 <= k <= ps.len(),
        first_file_scan(ps.take(k)) is None || (first_file_scan(ps.take(k)) matches Some(t) && t.0.len() > 0),
    ensures
        first_file_scan(ps) == first_file_scan(ps.take(k)),
    decreases ps.len() - k,
{
    if k < ps.len() {
        assert(ps.take(k + 1).drop_last() =~= ps.take(k));
        lemma_scan_stops(ps, k + 1);
    } else {
        assert(ps.take(k) =~= ps);
    }
}

/// What an upload of the multipart body `body` (with boundary `boundary`) carries, with
/// the query values `cm`, `ts`, `ttl` and the stored pairs `pairs`: the first named file
/// (see [`first_file_part`]) with the MIME type kept for it (see [`upload_mime_spec`]) and
/// what the query asks for (see [`upload_query`]).
pub fn parse_upload(
    body: &[u8],
    boundary: &str,
    cm: Option<&str>,
    ts: Option<&str>,
    ttl: Option<&str>,
    pairs: Option<Vec<u8>>,
) -> (r: Result<ParseUploadResp, Error>)
    requires
        ttl matches Some(t) ==> ttl_text_readable(t.spec_bytes()),
    ensures
        match first_file_scan(body_parts(body@, boundary@)) {
            Some((name, types, data)) => r matches Ok(u) && u.file_name@ == name && u.data@ == data && u.mime_type@
                == upload_mime_spec(name, types, u.is_chunked_file) && u.pairs == pairs && u.is_chunked_file == (cm matches Some(
                s,
            ) && true_text(s@)) && u.modified_time == match ts {
                Some(s) => match parse_uint(s.spec_bytes(), 10, 0xffff_ffff_ffff_ffff) {
                    Some(v) => v as u64,
                    None => 0,
                },
                None => 0,
            } && u.ttl == match ttl {
                Some(t) => match parse_ttl(t.spec_bytes()) {
                    Some(v) => v,
                    None => TTL { count: 0, unit: Unit::Empty },
                },
                None => TTL { count: 0, unit: Unit::Empty },
            },
            None => r matches Err(Error::Other(_)),
        },
{
    let (file_name, post_mtype, data) = first_file_part(body, boundary)?;
    let (is_chunked_file, modified_time, ttl) = upload_query(cm, ts, ttl);
    let mime_type = upload_mime(file_name.as_str(), post_mtype.as_str(), is_chunked_file);
    Ok(ParseUploadResp { file_name, data, mime_type, pairs, modified_time, ttl, is_chunked_file })
}


/// The JSON text of an object with the members `m`, ordered by name.
pub uninterp spec fn json_object_of(m: Map<Seq<char>, Seq<char>>) -> Seq<u8>;

/// `serde_json::to_vec` of a `BTreeMap` made from `pairs` (a later pair with the same
/// name replacing an earlier one): the JSON object text of the members, ordered by name,
/// or the text of serde_json's error. Only that the text depends on those members alone
/// is claimed; nothing is claimed of an error's text.
#[verifier::external_body]
fn json_object_bytes(pairs: &Vec<(String, String)>) -> (r: Result<Vec<u8>, String>)
    ensures
        r matches Ok(b) ==> b@ == json_object_of(pairs_last_wins(pairs@.map_values(|p: (String, String)| (p.0@, p.1@)))),
{
    let m: BTreeMap<&str, &str> = pairs.iter().map(|p| (p.0.as_str(), p.1.as_str())).collect();
    serde_json::to_vec(&m).map_err(|e| e.to_string())
}

/// The header name `name` starts with `Zergling-`, the prefix of stored pairs.
pub open spec fn pair_header(name: Seq<char>) -> bool {
    name.len() >= 9 && name.take(9) == PAIR_NAME_PREFIX@
}

/// The headers of `hs` whose name starts with `Zergling-`, in order.
pub open spec fn pair_headers(hs: Seq<(Seq<char>, Seq<char>)>) -> Seq<(Seq<char>, Seq<char>)>
    decreases hs.len(),
{
    if hs.len() == 0 {
        seq![]
    } else if pair_header(hs.last().0) {
        pair_headers(hs.drop_last()).push(hs.last())
    } else {
        pair_headers(hs.drop_last())
    }
}

/// Whether the header name `name` starts with `Zergling-`.
fn is_pair_header(name: &str) -> (r: bool)
    ensures
        r == pair_header(name@),
{
    proof {
        reveal_strlit("Zergling-");
    }
    let n = name.unicode_len();
    if n < 9 {
        return false;
    }
    let head = name.substring_char(0, 9);
    assert(head@ =~= name@.take(9));
    same_text(head, PAIR_NAME_PREFIX)
}

/// The pairs an upload stores from its headers `headers`: `None` when no header name
/// starts with `Zergling-`; else the JSON text of those headers (the last one of a name
/// winning), ordered by name, failing with serde_json's error where it cannot be written.
pub fn upload_pairs(headers: &Vec<(String, String)>) -> (r: Result<Option<Vec<u8>>, Error>)
    ensures
        ({
            let ps = pair_headers(headers@.map_values(|p: (String, String)| (p.0@, p.1@)));
            &&& ps.len() == 0 ==> r == Ok::<Option<Vec<u8>>, Error>(None)
            &&& ps.len() > 0 ==> (r matches Ok(Some(b)) ==> b@ == json_object_of(pairs_last_wins(ps)))
            &&& ps.len() > 0 ==> (r is Ok ==> r matches Ok(Some(_)))
        }),
{
    let ghost hv = headers@.map_values(|p: (String, String)| (p.0@, p.1@));
    let mut picked: Vec<(String, String)> = Vec::new();
    let mut i: usize = 0;
    while i < headers.len()
        invariant
            i <= headers@.len(),
            hv == headers@.map_values(|p: (String, String)| (p.0@, p.1@)),
            picked@.map_values(|p: (String, String)| (p.0@, p.1@)) == pair_headers(hv.take(i as int)),
        decreases headers@.len() - i,
    {
        assert(hv.take(i + 1).drop_last() =~= hv.take(i as int));
        assert(hv.take(i + 1).last() == (headers@[i as int].0@, headers@[i as int].1@));
        if is_pair_header(headers[i].0.as_str()) {
            let ghost p0 = picked@;
            picked.push((headers[i].0.clone(), headers[i].1.clone()));
            assert(picked@.map_values(|p: (String, String)| (p.0@, p.1@)) =~= p0.map_values(
                |p: (String, String)| (p.0@, p.1@),
            ).push(hv.take(i + 1).last()));
        }
        i = i + 1;
    }
    assert(hv.take(headers@.len() as int) =~= hv);
    if picked.len() == 0 {
        return Ok(None);
    }
    match json_object_bytes(&picked) {
        Ok(b) => Ok(Some(b)),
        Err(m) => Err(Error::Other(m)),
    }
}

} // verus!
