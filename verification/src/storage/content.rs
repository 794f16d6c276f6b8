//! What a read of a needle sends back: its body, unzipped where the answer asks for
//! it, and the headers stored with it.
use vstd::prelude::*;
use std::collections::BTreeMap;
use std::io::Read;
use crate::storage::api::ReadAnswer;
use crate::storage::errors::Error;
use crate::storage::needle::{Needle, flag_set, FLAG_HAS_PAIRS};

verus! {

/// The bytes that gzip data `data` unzips to, or `None` where it is no valid gzip
/// stream.
pub uninterp spec fn gunzipped(data: Seq<u8>) -> Option<Seq<u8>>;

/// `libflate::gzip::Decoder` read to its end: the bytes that the gzip stream `data`
/// unzips to, or the text of the error where the header, the compressed blocks or the
/// trailer's checksum are wrong. Only that the answer depends on `data` alone is claimed;
/// nothing is claimed of the error's text.
#[verifier::external_body]
fn gunzip(data: &[u8]) -> (r: Result<Vec<u8>, String>)
    ensures
        r matches Ok(v) ==> gunzipped(data@) == Some(v@),
        r is Err ==> gunzipped(data@) is None,
{
    let mut out: Vec<u8> = Vec::new();
    match libflate::gzip::Decoder::new(data) {
        Ok(mut d) => match d.read_to_end(&mut out) {
            Ok(_) => Ok(out),
            Err(e) => Err(e.to_string()),
        },
        Err(e) => Err(e.to_string()),
    }
}

/// The header names and values of the JSON object `b`, every value a string, in the
/// order of their names; `None` where `b` is no such object.
pub uninterp spec fn json_string_pairs(b: Seq<u8>) -> Option<Seq<(Seq<char>, Seq<char>)>>;

/// `serde_json::from_slice` into a map from strings to strings: the members of the JSON
/// object `b` (a later member with the same name replacing an earlier one), ordered by
/// name, or the text of serde_json's error where `b` is no JSON object whose values are all
/// strings. Only that the answer depends on `b` alone is claimed; nothing is claimed of the
/// error's text.
#[verifier::external_body]
fn parse_json_pairs(b: &[u8]) -> (r: Result<Vec<(String, String)>, String>)
    ensures
        r matches Ok(v) ==> json_string_pairs(b@) == Some(v@.map_values(|p: (String, String)| (p.0@, p.1@))),
        r is Err ==> json_string_pairs(b@) is None,
{
    match serde_json::from_slice::<BTreeMap<String, String>>(b) {
        Ok(m) => Ok(m.into_iter().collect()),
        Err(e) => Err(e.to_string()),
    }
}

/// The body sent for needle `n` under `answer`: nothing unless the content is sent; the
/// data as stored, or unzipped where the answer asks for that, failing with the unzipping
/// error where the data is no gzip stream.
pub fn answer_body(n: &Needle, answer: ReadAnswer) -> (r: Result<Vec<u8>, Error>)
    ensures
        match answer {
            ReadAnswer::Content { gunzip: true, .. } => match gunzipped(n@.data) {
                Some(d) => r matches Ok(b) && b@ == d,
                None => r matches Err(Error::Other(_)),
            },
            ReadAnswer::Content { gunzip: false, .. } => r matches Ok(b) && b@ == n@.data,
            _ => r matches Ok(b) && b@.len() == 0,
        },
{
    match answer {
        ReadAnswer::Content { gunzip: true, .. } => match gunzip(n.data.as_slice()) {
            Ok(d) => Ok(d),
            Err(m) => Err(Error::Other(m)),
        },
        ReadAnswer::Content { gunzip: false, .. } => Ok(n.data.clone()),
        _ => Ok(Vec::new()),
    }
}

/// The headers sent with the content of needle `n` under `answer`: none unless the
/// content is sent; then the pairs stored with the needle, if it has any, in the order
/// of their names, and `Content-Encoding: gzip` last where the answer sends the data
/// zipped.
pub open spec fn answer_headers_spec(
    n_flags: u8,
    pairs: Option<Seq<(Seq<char>, Seq<char>)>>,
    answer: ReadAnswer,
) -> Seq<(Seq<char>, Seq<char>)> {
    match answer {
        ReadAnswer::Content { gzip_header, .. } => {
            let stored = if flag_set(n_flags, FLAG_HAS_PAIRS) {
                pairs->0
            } else {
                seq![]
            };
            if gzip_header {
                stored.push(("Content-Encoding"@, "gzip"@))
            } else {
                stored
            }
        },
        _ => seq![],
    }
}

/// The headers sent with needle `n` under `answer`: see [`answer_headers_spec`]. Fails,
/// with the JSON error, where the content is sent and the needle's pairs are no JSON
/// object of strings.
pub fn answer_headers(n: &Needle, answer: ReadAnswer) -> (r: Result<Vec<(String, String)>, Error>)
    ensures
        (answer is Content && flag_set(n@.flags, FLAG_HAS_PAIRS) && json_string_pairs(n@.pairs) is None) ==> (r matches Err(
            Error::Other(_),
        )),
        !(answer is Content && flag_set(n@.flags, FLAG_HAS_PAIRS) && json_string_pairs(n@.pairs) is None) ==> (r matches Ok(
            h,
        ) && h@.map_values(|p: (String, String)| (p.0@, p.1@)) == answer_headers_spec(
            n@.flags,
            json_string_pairs(n@.pairs),
            answer,
        )),
{
    proof {
        reveal_strlit("Content-Encoding");
        reveal_strlit("gzip");
    }
    let gzip_header = match answer {
        ReadAnswer::Content { gzip_header, .. } => gzip_header,
        _ => {
            let h: Vec<(String, String)> = Vec::new();
            assert(h@.map_values(|p: (String, String)| (p.0@, p.1@)) =~= seq![]);
            return Ok(h);
        },
    };
    let mut h: Vec<(String, String)> = Vec::new();
    if n.has_pairs() {
        match parse_json_pairs(n.pairs.as_slice()) {
            Ok(v) => {
                h = v;
            },
            Err(m) => {
                return Err(Error::Other(m));
            },
        }
    }
    assert(h@.map_values(|p: (String, String)| (p.0@, p.1@)) =~= if flag_set(n@.flags, FLAG_HAS_PAIRS) {
        json_string_pairs(n@.pairs)->0
    } else {
        seq![]
    });
    if gzip_header {
        let ghost h0 = h@;
        h.push((String::from_str("Content-Encoding"), String::from_str("gzip")));
        assert(h@.map_values(|p: (String, String)| (p.0@, p.1@)) =~= h0.map_values(
            |p: (String, String)| (p.0@, p.1@),
        ).push(("Content-Encoding"@, "gzip"@)));
    }
    Ok(h)
}

} // verus!
