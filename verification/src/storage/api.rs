//! What a volume server does for its requests: which request goes where, reading the
//! path of a file, what an upload asks for, and how a read is answered.
use vstd::prelude::*;
use vstd::string::*;
use crate::text::{same_text, parse_uint, parse_uint_bytes, parse_i64_bytes, parse_i64_spec};
use crate::operation::Location;
use crate::storage::needle::flag_set;
use crate::storage::needle::FLAG_GZIP;
use crate::util::{parse_bool, true_text};
use crate::storage::errors::Error;
use crate::storage::codec::{checksum_castagnoli, crc32c};
use crate::storage::needle::{Needle, NeedleView, empty_needle, parse_path_spec, PathOutcome, key_hash_cuttable, fid_key_part, fid_is_cuttable,
    FLAG_HAS_PAIRS, FLAG_HAS_NAME, FLAG_HAS_MIME, FLAG_HAS_LAST_MODIFIED_DATE, FLAG_HAS_TTL, FLAG_IS_CHUNK_MANIFEST};
use crate::storage::ttl::{TTL, Unit, parse_ttl, ttl_text_readable, ttl_minutes};
use vstd::utf8::encode_utf8;

verus! {

/// The greeting a server answers requests it has no other answer for with.
pub const PHRASE: &'static str = "Hello, World!";

/// Where a request to a volume server goes.
#[derive(Clone, Copy, Debug, PartialEq, Eq, Structural)]
pub enum VolRoute {
    /// `GET /status`.
    Status,
    /// `GET /admin/assign_volume`.
    AssignVolume,
    /// `GET /favicon.ico`, answered with a greeting.
    Favicon,
    /// `GET /metrics`.
    Metrics,
    /// `POST /test_multipart`.
    TestMultipart,
    /// `POST /test_echo`.
    TestEcho,
    /// Any other `GET` or `HEAD`: a read.
    GetOrHead,
    /// Any other `POST`: a write.
    Post,
    /// `DELETE`.
    Delete,
    /// Any other request, answered with a greeting.
    Other,
}

/// Where a request with method `method` for path `path` goes.
pub open spec fn vol_route_spec(method: Seq<char>, path: Seq<char>) -> VolRoute {
    let get = method == "GET"@;
    let post = method == "POST"@;
    if get && path == "/status"@ {
        VolRoute::Status
    } else if get && path == "/admin/assign_volume"@ {
        VolRoute::AssignVolume
    } else if get && path == "/favicon.ico"@ {
        VolRoute::Favicon
    } else if get && path == "/metrics"@ {
        VolRoute::Metrics
    } else if post && path == "/test_multipart"@ {
        VolRoute::TestMultipart
    } else if post && path == "/test_echo"@ {
        VolRoute::TestEcho
    } else if get || method == "HEAD"@ {
        VolRoute::GetOrHead
    } else if post {
        VolRoute::Post
    } else if method == "DELETE"@ {
        VolRoute::Delete
    } else {
        VolRoute::Other
    }
}

/// Where a request with method `method` for path `path` goes.
pub fn route(method: &str, path: &str) -> (r: VolRoute)
    ensures
        r == vol_route_spec(method@, path@),
{
    proof {
        reveal_strlit("GET");
        reveal_strlit("POST");
        reveal_strlit("HEAD");
        reveal_strlit("DELETE");
        reveal_strlit("/status");
        reveal_strlit("/admin/assign_volume");
        reveal_strlit("/favicon.ico");
        reveal_strlit("/metrics");
        reveal_strlit("/test_multipart");
        reveal_strlit("/test_echo");
    }
    let get = same_text(method, "GET");
    let post = same_text(method, "POST");
    if get && same_text(path, "/status") {
        VolRoute::Status
    } else if get && same_text(path, "/admin/assign_volume") {
        VolRoute::AssignVolume
    } else if get && same_text(path, "/favicon.ico") {
        VolRoute::Favicon
    } else if get && same_text(path, "/metrics") {
        VolRoute::Metrics
    } else if post && same_text(path, "/test_multipart") {
        VolRoute::TestMultipart
    } else if post && same_text(path, "/test_echo") {
        VolRoute::TestEcho
    } else if get || same_text(method, "HEAD") {
        VolRoute::GetOrHead
    } else if post {
        VolRoute::Post
    } else if same_text(method, "DELETE") {
        VolRoute::Delete
    } else {
        VolRoute::Other
    }
}

/// The indices of the characters `c` in `s`, in order.
pub open spec fn char_positions(s: Seq<char>, c: char) -> Seq<int>
    decreases s.len(),
{
    if s.len() == 0 {
        seq![]
    } else if s.last() == c {
        char_positions(s.drop_last(), c).push(s.len() - 1)
    } else {
        char_positions(s.drop_last(), c)
    }
}

/// The index of the last character `c` in `s`.
pub open spec fn last_index(s: Seq<char>, c: char) -> Option<int> {
    let p = char_positions(s, c);
    if p.len() == 0 {
        None
    } else {
        Some(p.last())
    }
}

/// The `k`-th piece of `s` cut at the characters `/` (as `split("/")` gives them).
pub open spec fn slash_part(s: Seq<char>, k: int) -> Seq<char> {
    let p = char_positions(s, '/');
    let start = if k == 0 {
        0
    } else {
        p[k - 1] + 1
    };
    let end = if k < p.len() {
        p[k]
    } else {
        s.len() as int
    };
    s.subrange(start, end)
}

/// How many pieces cutting `s` at the characters `/` gives.
pub open spec fn slash_count(s: Seq<char>) -> int {
    (char_positions(s, '/').len() + 1) as int
}

/// The extension std's `Path::extension` gives of a file name `name` (no `/` in it):
/// what follows its last dot, unless the name is `.`, `..`, or has no dot but a leading
/// one; empty when there is none.
pub open spec fn path_extension(name: Seq<char>) -> Seq<char> {
    if name.len() == 0 || name == seq!['.'] || name == seq!['.', '.'] {
        seq![]
    } else {
        match last_index(name, '.') {
            Some(i) => if i == 0 {
                seq![]
            } else {
                name.subrange(i + 1, name.len() as int)
            },
            None => seq![],
        }
    }
}

/// What a file's path such as `/3/01637037d6/name.jpg`, `/3/01637037d6.jpg`,
/// `/3,01637037d6.jpg`, `/3/01637037d6` or `/3,01637037d6` names: the volume, the file
/// id, the file name, the extension, and whether only a volume is named.
pub open spec fn url_parts(path: Seq<char>) -> (Seq<char>, Seq<char>, Seq<char>, Seq<char>, bool) {
    let n = slash_count(path);
    if n == 4 {
        (slash_part(path, 1), slash_part(path, 2), slash_part(path, 3), path_extension(slash_part(path, 3)), false)
    } else if n == 3 {
        let f = slash_part(path, 2);
        match last_index(f, '.') {
            Some(i) => (slash_part(path, 1), f.take(i), seq![], f.skip(i + 1), false),
            None => (slash_part(path, 1), f, seq![], seq![], false),
        }
    } else {
        let end = match last_index(path, '.') {
            Some(d) => d,
            None => path.len() as int,
        };
        let ext = match last_index(path, '.') {
            Some(d) => path.subrange(d + 1, path.len() as int),
            None => seq![],
        };
        match last_index(path, ',') {
            Some(c) => (path.subrange(1, c), path.subrange(c + 1, end), seq![], ext, false),
            None => (path.subrange(1, end), seq![], seq![], ext, true),
        }
    }
}

/// A path with other than two or three `/` can be cut as `parse_url_path` cuts it
/// without failing: its first character is one byte, the volume part is not empty, and
/// a comma comes before the last dot.
pub open spec fn url_path_ok(path: Seq<char>) -> bool {
    let n = slash_count(path);
    n == 4 || n == 3 || ({
        let end = match last_index(path, '.') {
            Some(d) => d,
            None => path.len() as int,
        };
        &&& path.len() > 0 && (path[0] as u32) < 128
        &&& match last_index(path, ',') {
            Some(c) => c + 1 <= end && c >= 1,
            None => end >= 1,
        }
    })
}

proof fn lemma_char_positions(s: Seq<char>, c: char)
    ensures
        forall|k: int| 0 <= k < char_positions(s, c).len() ==> 0 <= #[trigger] char_positions(s, c)[k] < s.len()
            && s[char_positions(s, c)[k]] == c,
        forall|a: int, b: int| 0 <= a < b < char_positions(s, c).len() ==> #[trigger] char_positions(s, c)[a]
            < #[trigger] char_positions(s, c)[b],
        char_positions(s, c).len() > 0 ==> forall|j: int| char_positions(s, c).last() < j < s.len() ==> s[j] != c,
        char_positions(s, c).len() == 0 ==> forall|j: int| 0 <= j < s.len() ==> s[j] != c,
    decreases s.len(),
{
    if s.len() > 0 {
        lemma_char_positions(s.drop_last(), c);
        assert forall|j: int| 0 <= j < s.len() - 1 implies s[j] == s.drop_last()[j] by {}
    }
}

/// The indices of the characters `c` in `s`, in order.
fn positions_of(s: &str, c: char) -> (r: Vec<usize>)
    ensures
        r@.len() == char_positions(s@, c).len(),
        forall|k: int| 0 <= k < r@.len() ==> r@[k] as int == #[trigger] char_positions(s@, c)[k],
{
    let n = s.unicode_len();
    let mut r: Vec<usize> = Vec::new();
    let mut i: usize = 0;
    while i < n
        invariant
            i <= n,
            n == s@.len(),
            r@.len() == char_positions(s@.take(i as int), c).len(),
            forall|k: int| 0 <= k < r@.len() ==> r@[k] as int == #[trigger] char_positions(s@.take(i as int), c)[k],
        decreases n - i,
    {
        assert(s@.take(i + 1).drop_last() =~= s@.take(i as int));
        if s.get_char(i) == c {
            r.push(i);
        }
        i = i + 1;
    }
    assert(s@.take(i as int) =~= s@);
    r
}

/// The extension std's `Path::extension` gives of the file name `name`.
fn extension_of(name: &str) -> (r: String)
    ensures
        r@ == path_extension(name@),
{
    let n = name.unicode_len();
    if n == 0 {
        return String::new();
    }
    if n == 1 && name.get_char(0) == '.' {
        assert(name@ =~= seq!['.']);
        return String::new();
    }
    if n == 2 && name.get_char(0) == '.' && name.get_char(1) == '.' {
        assert(name@ =~= seq!['.', '.']);
        return String::new();
    }
    proof {
        if n == 1 {
            assert(name@ != seq!['.', '.']);
        }
        if n == 2 {
            assert(name@ != seq!['.']);
        }
    }
    let p = positions_of(name, '.');
    if p.len() == 0 {
        return String::new();
    }
    let i = p[p.len() - 1];
    if i == 0 {
        return String::new();
    }
    proof {
        lemma_char_positions(name@, '.');
    }
    name.substring_char(i + 1, n).to_string()
}

/// What a file's path names: the volume, the file id, the file name, the extension, and
/// whether only a volume is named (see [`url_parts`]).
pub fn parse_url_path(path: &str) -> (r: (String, String, String, String, bool))
    requires
        url_path_ok(path@),
    ensures
        (r.0@, r.1@, r.2@, r.3@, r.4) == url_parts(path@),
{
    let n = path.unicode_len();
    let slashes = positions_of(path, '/');
    proof {
        lemma_char_positions(path@, '/');
    }
    let ghost p = char_positions(path@, '/');
    if slashes.len() == 3 {
        assert(slashes@[0] as int == p[0] && slashes@[1] as int == p[1] && slashes@[2] as int == p[2]);
        assert(p[0] < p[1] && p[1] < p[2]);
        let vid = path.substring_char(slashes[0] + 1, slashes[1]).to_string();
        let fid = path.substring_char(slashes[1] + 1, slashes[2]).to_string();
        let filename = path.substring_char(slashes[2] + 1, n).to_string();
        let ext = extension_of(filename.as_str());
        (vid, fid, filename, ext, false)
    } else if slashes.len() == 2 {
        assert(slashes@[0] as int == p[0] && slashes@[1] as int == p[1]);
        assert(p[0] < p[1]);
        let vid = path.substring_char(slashes[0] + 1, slashes[1]).to_string();
        let f = path.substring_char(slashes[1] + 1, n);
        let fl = f.unicode_len();
        let dots = positions_of(f, '.');
        proof {
            lemma_char_positions(f@, '.');
        }
        if dots.len() > 0 {
            let i = dots[dots.len() - 1];
            let fid = f.substring_char(0, i).to_string();
            let ext = f.substring_char(i + 1, fl).to_string();
            assert(fid@ =~= f@.take(i as int));
            assert(ext@ =~= f@.skip(i + 1));
            (vid, fid, String::new(), ext, false)
        } else {
            (vid, f.to_string(), String::new(), String::new(), false)
        }
    } else {
        let dots = positions_of(path, '.');
        let commas = positions_of(path, ',');
        proof {
            lemma_char_positions(path@, '.');
            lemma_char_positions(path@, ',');
        }
        let mut end = n;
        let mut ext = String::new();
        if dots.len() > 0 {
            let d = dots[dots.len() - 1];
            ext = path.substring_char(d + 1, n).to_string();
            end = d;
        }
        if commas.len() > 0 {
            let c = commas[commas.len() - 1];
            let fid = path.substring_char(c + 1, end).to_string();
            let vid = path.substring_char(1, c).to_string();
            (vid, fid, String::new(), ext, false)
        } else {
            let vid = path.substring_char(1, end).to_string();
            (vid, String::new(), String::new(), ext, true)
        }
    }
}

/// Whether `path` can be cut as [`parse_url_path`] cuts it (see [`url_path_ok`]).
pub fn url_path_is_ok(path: &str) -> (r: bool)
    ensures
        r == url_path_ok(path@),
{
    let n = path.unicode_len();
    let slashes = positions_of(path, '/');
    if slashes.len() == 3 || slashes.len() == 2 {
        return true;
    }
    let dots = positions_of(path, '.');
    let commas = positions_of(path, ',');
    proof {
        lemma_char_positions(path@, '.');
        lemma_char_positions(path@, ',');
    }
    if n == 0 || (path.get_char(0) as u32) >= 128 {
        return false;
    }
    let end = if dots.len() > 0 {
        dots[dots.len() - 1]
    } else {
        n
    };
    if commas.len() > 0 {
        let c = commas[commas.len() - 1];
        c < end && c >= 1
    } else {
        end >= 1
    }
}

/// The MIME type, as its top and sub levels, that mime_guess gives for an extension.
pub uninterp spec fn guessed_mime(ext: Seq<char>) -> (Seq<char>, Seq<char>);

/// `mime_guess::get_mime_type`: the MIME type registered for an extension (looked up
/// without regard to case), or `application/octet-stream` when there is none. Only that
/// the answer depends on the extension alone is claimed.
#[verifier::external_body]
fn guess_mime(ext: &str) -> (r: (String, String))
    ensures
        (r.0@, r.1@) == guessed_mime(ext@),
{
    let m = mime_guess::get_mime_type(ext);
    (m.0.as_str().to_string(), m.1.as_str().to_string())
}

/// The index of the first character `c` in `s`.
pub open spec fn first_index(s: Seq<char>, c: char) -> Option<int> {
    let p = char_positions(s, c);
    if p.len() == 0 {
        None
    } else {
        Some(p[0])
    }
}

/// The MIME type the file name `file_name` suggests: the guess for its extension taken
/// from its first dot (dot included), unless that is `application/octet-stream`; empty
/// when there is none.
pub open spec fn guess_from_name(file_name: Seq<char>) -> Seq<char> {
    match first_index(file_name, '.') {
        Some(i) => {
            let (t, sub) = guessed_mime(file_name.skip(i));
            if t != "application"@ || sub != "octet-stream"@ {
                t + seq!['/'] + sub
            } else {
                seq![]
            }
        },
        None => seq![],
    }
}

/// The MIME type kept for an upload: the posted type `post`, but only when it is given
/// and the file name does not already suggest it; none for a chunk manifest.
pub open spec fn upload_mime_spec(file_name: Seq<char>, post: Seq<char>, chunked: bool) -> Seq<char> {
    if chunked {
        seq![]
    } else if post.len() != 0 && guess_from_name(file_name) != post {
        post
    } else {
        seq![]
    }
}

/// The MIME type kept for an upload of file `file_name` posted as `post_mtype`: see
/// [`upload_mime_spec`].
pub fn upload_mime(file_name: &str, post_mtype: &str, is_chunked_file: bool) -> (r: String)
    ensures
        r@ == upload_mime_spec(file_name@, post_mtype@, is_chunked_file),
{
    if is_chunked_file {
        return String::new();
    }
    let mut guess = String::new();
    let dots = positions_of(file_name, '.');
    proof {
        lemma_char_positions(file_name@, '.');
        reveal_strlit("application");
        reveal_strlit("octet-stream");
        reveal_strlit("/");
    }
    if dots.len() > 0 {
        let n = file_name.unicode_len();
        assert(dots@[0] as int == char_positions(file_name@, '.')[0]);
        let ext = file_name.substring_char(dots[0], n);
        assert(ext@ =~= file_name@.skip(dots@[0] as int));
        let (t, sub) = guess_mime(ext);
        if !same_text(t.as_str(), "application") || !same_text(sub.as_str(), "octet-stream") {
            guess.append(t.as_str());
            guess.append("/");
            guess.append(sub.as_str());
        }
    }
    assert(guess@ == guess_from_name(file_name@));
    if post_mtype.unicode_len() != 0 && !same_text(guess.as_str(), post_mtype) {
        String::from_str(post_mtype)
    } else {
        String::new()
    }
}

/// What an upload's query asks for: whether the file is a chunk manifest (`cm`, read
/// as a boolean, false when missing or unreadable), its modification time (`ts`, 0
/// when missing or unreadable), and its time to live (`ttl`, none when missing or
/// unreadable).
pub fn upload_query(cm: Option<&str>, ts: Option<&str>, ttl: Option<&str>) -> (r: (bool, u64, TTL))
    requires
        ttl matches Some(t) ==> ttl_text_readable(t.spec_bytes()),
    ensures
        r.0 == (cm matches Some(s) && true_text(s@)),
        r.1 == match ts {
            Some(s) => match parse_uint(s.spec_bytes(), 10, 0xffff_ffff_ffff_ffff) {
                Some(v) => v as u64,
                None => 0,
            },
            None => 0,
        },
        r.2 == match ttl {
            Some(t) => match parse_ttl(t.spec_bytes()) {
                Some(v) => v,
                None => TTL { count: 0, unit: Unit::Empty },
            },
            None => TTL { count: 0, unit: Unit::Empty },
        },
{
    proof {
        reveal_strlit("false");
        reveal_strlit("1");
        reveal_strlit("t");
        reveal_strlit("T");
        reveal_strlit("TRUE");
        reveal_strlit("true");
        reveal_strlit("True");
    }
    let cm_text = match cm {
        Some(s) => s,
        None => "false",
    };
    let is_chunked_file = match parse_bool(cm_text) {
        Ok(b) => b,
        Err(_) => false,
    };
    proof {
        if cm is None {
            assert(cm_text@ == "false"@);
            assert("false"@.len() == 5);
            assert("1"@.len() == 1 && "t"@.len() == 1 && "T"@.len() == 1);
            assert("TRUE"@.len() == 4 && "true"@.len() == 4 && "True"@.len() == 4);
            assert(!true_text(cm_text@));
        }
    }
    let modified_time = match ts {
        Some(s) => match parse_uint_bytes(s.as_bytes(), 10, 0xffff_ffff_ffff_ffff) {
            Some(v) => v,
            None => 0,
        },
        None => 0,
    };
    let t = match ttl {
        Some(s) => match TTL::new(s) {
            Ok(v) => v,
            Err(_) => TTL::default(),
        },
        None => TTL::default(),
    };
    (is_chunked_file, modified_time, t)
}

/// What an upload carries: the file's name and bytes, the MIME type kept for it, its
/// pairs (as the JSON text of the `Zergling-` headers, when there are any), its
/// modification time (0 for now), its time to live, and whether it is a chunk manifest.
#[derive(Debug)]
pub struct ParseUploadResp {
    pub file_name: String,
    pub data: Vec<u8>,
    pub mime_type: String,
    pub pairs: Option<Vec<u8>>,
    pub modified_time: u64,
    pub ttl: TTL,
    pub is_chunked_file: bool,
}

/// The needle an upload `u` makes at time `now`, before its key and cookie are read.
pub open spec fn upload_view(u: ParseUploadResp, now: u64) -> NeedleView {
    let f0: u8 = 0;
    let f1: u8 = if u.pairs is Some { f0 | FLAG_HAS_PAIRS } else { f0 };
    let f2: u8 = if u.file_name@.len() > 0 { f1 | FLAG_HAS_NAME } else { f1 };
    let f3: u8 = if encode_utf8(u.mime_type@).len() < 256 { f2 | FLAG_HAS_MIME } else { f2 };
    let f4: u8 = f3 | FLAG_HAS_LAST_MODIFIED_DATE;
    let f5: u8 = if ttl_minutes(u.ttl) != 0 { f4 | FLAG_HAS_TTL } else { f4 };
    let f6: u8 = if u.is_chunked_file { f5 | FLAG_IS_CHUNK_MANIFEST } else { f5 };
    NeedleView {
        data: u.data@,
        pairs: match u.pairs {
            Some(p) => p@,
            None => seq![],
        },
        name: if u.file_name@.len() > 0 { encode_utf8(u.file_name@) } else { seq![] },
        mime: if encode_utf8(u.mime_type@).len() < 256 { encode_utf8(u.mime_type@) } else { seq![] },
        last_modified: if u.modified_time == 0 { now } else { u.modified_time },
        ttl: if ttl_minutes(u.ttl) != 0 { u.ttl } else { empty_needle().ttl },
        flags: f6,
        checksum: crc32c(u.data@),
        ..empty_needle()
    }
}

/// Setting other flags keeps the has-pairs flag as it was.
proof fn lemma_other_flags_keep_pairs(y: u8)
    ensures
        (y | FLAG_HAS_NAME) & FLAG_HAS_PAIRS == y & FLAG_HAS_PAIRS,
        (y | FLAG_HAS_MIME) & FLAG_HAS_PAIRS == y & FLAG_HAS_PAIRS,
        (y | FLAG_HAS_LAST_MODIFIED_DATE) & FLAG_HAS_PAIRS == y & FLAG_HAS_PAIRS,
        (y | FLAG_HAS_TTL) & FLAG_HAS_PAIRS == y & FLAG_HAS_PAIRS,
        (y | FLAG_IS_CHUNK_MANIFEST) & FLAG_HAS_PAIRS == y & FLAG_HAS_PAIRS,
        (0u8 | FLAG_HAS_PAIRS) & FLAG_HAS_PAIRS > 0,
        0u8 & FLAG_HAS_PAIRS == 0,
{
    assert((y | 0x02u8) & 0x20u8 == y & 0x20u8) by (bit_vector);
    assert((y | 0x04u8) & 0x20u8 == y & 0x20u8) by (bit_vector);
    assert((y | 0x08u8) & 0x20u8 == y & 0x20u8) by (bit_vector);
    assert((y | 0x10u8) & 0x20u8 == y & 0x20u8) by (bit_vector);
    assert((y | 0x80u8) & 0x20u8 == y & 0x20u8) by (bit_vector);
    assert((0u8 | 0x20u8) & 0x20u8 > 0) by (bit_vector);
    assert(0u8 & 0x20u8 == 0) by (bit_vector);
}

/// Law: the needle an upload makes, whatever its file id text `b` reads as, carries the
/// has-pairs flag exactly when the upload has pairs, and then carries those pairs, so
/// that they are stored with the needle and sent back as headers when it is read.
pub proof fn law_upload_keeps_pairs(u: ParseUploadResp, now: u64, b: Seq<u8>)
    ensures
        flag_set(parse_path_spec(upload_view(u, now), b).0.flags, FLAG_HAS_PAIRS) <==> u.pairs is Some,
        u.pairs matches Some(p) ==> parse_path_spec(upload_view(u, now), b).0.pairs == p@,
{
    let v = upload_view(u, now);
    let f0: u8 = 0;
    let f1: u8 = if u.pairs is Some { f0 | FLAG_HAS_PAIRS } else { f0 };
    let f2: u8 = if u.file_name@.len() > 0 { f1 | FLAG_HAS_NAME } else { f1 };
    let f3: u8 = if encode_utf8(u.mime_type@).len() < 256 { f2 | FLAG_HAS_MIME } else { f2 };
    let f4: u8 = f3 | FLAG_HAS_LAST_MODIFIED_DATE;
    let f5: u8 = if ttl_minutes(u.ttl) != 0 { f4 | FLAG_HAS_TTL } else { f4 };
    lemma_other_flags_keep_pairs(f1);
    lemma_other_flags_keep_pairs(f2);
    lemma_other_flags_keep_pairs(f3);
    lemma_other_flags_keep_pairs(f4);
    lemma_other_flags_keep_pairs(f5);
    assert(v.flags & FLAG_HAS_PAIRS == f1 & FLAG_HAS_PAIRS);
    let r = parse_path_spec(v, b).0;
    assert(r.flags == v.flags && r.pairs == v.pairs);
}

/// The file id part of an upload's path: from after its first comma (or the start) to
/// its last dot (or the end).
pub open spec fn upload_fid_part(path: Seq<char>) -> Seq<char> {
    let start = match first_index(path, ',') {
        Some(i) => i + 1,
        None => 0,
    };
    let end = match last_index(path, '.') {
        Some(i) => i,
        None => path.len() as int,
    };
    path.subrange(start, end)
}

/// The file id part of an upload's path can be cut out (its first comma comes before
/// its last dot) and read without failing.
pub open spec fn upload_path_ok(path: Seq<char>) -> bool {
    let start = match first_index(path, ',') {
        Some(i) => i + 1,
        None => 0,
    };
    let end = match last_index(path, '.') {
        Some(i) => i,
        None => path.len() as int,
    };
    start <= end && key_hash_cuttable(fid_key_part(encode_utf8(path.subrange(start, end))))
}

/// Whether the file id part of the upload path `path` can be cut out and read without
/// failing (see [`upload_path_ok`]), as [`needle_from_upload`] requires.
pub fn upload_path_is_ok(path: &str) -> (r: bool)
    ensures
        r == upload_path_ok(path@),
{
    let commas = positions_of(path, ',');
    let dots = positions_of(path, '.');
    proof {
        lemma_char_positions(path@, ',');
        lemma_char_positions(path@, '.');
    }
    let len = path.unicode_len();
    let start = if commas.len() > 0 {
        commas[0] + 1
    } else {
        0
    };
    let end = if dots.len() > 0 {
        dots[dots.len() - 1]
    } else {
        len
    };
    if start > end {
        return false;
    }
    let part = path.substring_char(start, end);
    fid_is_cuttable(part)
}

/// The needle that upload `u` to `path` makes at time `now` (a modification time of 0
/// becomes `now`), with the key and cookie read from the file id in the path.
pub fn needle_from_upload(u: ParseUploadResp, path: &str, now: u64) -> (r: Result<Needle, Error>)
    requires
        upload_path_ok(path@),
    ensures
        ({
            let (v, outcome) = parse_path_spec(upload_view(u, now), encode_utf8(upload_fid_part(path@)));
            match outcome {
                PathOutcome::Parsed => r matches Ok(n) && n@ == v,
                _ => r is Err,
            }
        }),
{
    let ghost u0 = u;
    let mut n = Needle::default();
    n.data = u.data;
    match u.pairs {
        Some(p) => {
            n.flags = n.flags | FLAG_HAS_PAIRS;
            n.pairs = p;
        },
        None => {},
    }
    if u.file_name.unicode_len() > 0 {
        n.name = u.file_name.as_str().as_bytes_vec();
        n.set_name();
    }
    if u.mime_type.as_str().as_bytes().len() < 256 {
        n.mime = u.mime_type.as_str().as_bytes_vec();
        n.set_has_mime();
    }
    let modified_time = if u.modified_time == 0 {
        now
    } else {
        u.modified_time
    };
    n.last_modified = modified_time;
    n.set_has_last_modified_date();
    if u.ttl.minutes() != 0 {
        n.ttl = u.ttl;
        n.set_has_ttl();
    }
    if u.is_chunked_file {
        n.set_is_chunk_manifest();
    }
    n.checksum = checksum_castagnoli(n.data.as_slice());
    proof {
        let v = upload_view(u0, now);
        assert(n@.data == v.data);
        assert(n@.pairs == v.pairs);
        assert(n@.name == v.name);
        assert(n@.mime == v.mime);
        assert(n@.last_modified == v.last_modified);
        assert(n@.ttl == v.ttl);
        assert(n@.checksum == v.checksum);
        assert(n@.flags == v.flags);
    }
    assert(n@ == upload_view(u0, now));
    let commas = positions_of(path, ',');
    let dots = positions_of(path, '.');
    proof {
        lemma_char_positions(path@, ',');
        lemma_char_positions(path@, '.');
    }
    let len = path.unicode_len();
    let start = if commas.len() > 0 {
        commas[0] + 1
    } else {
        0
    };
    let end = if dots.len() > 0 {
        dots[dots.len() - 1]
    } else {
        len
    };
    let part = path.substring_char(start, end);
    match n.parse_path(part) {
        Ok(()) => Ok(n),
        Err(e) => Err(e),
    }
}

/// How a read of a needle is answered.
#[derive(Debug, PartialEq, Eq, Structural, Clone, Copy)]
pub enum ReadAnswer {
    /// Not found (the cookie does not match).
    NotFound,
    /// Not modified since the client's copy; with the last modification time to send,
    /// if any.
    NotModified { last_modified: Option<u64> },
    /// The needle's data, with the last modification time to send (if any), whether to
    /// send it as gzip (`Content-Encoding: gzip`), and whether to unzip it first.
    Content { last_modified: Option<u64>, gzip_header: bool, gunzip: bool },
}

/// How the read of the stored needle `n` is answered, for a request with cookie
/// `cookie`, an `If-Modified-Since` time `since` (in seconds, if given), an
/// `If-None-Match` value `none_match` (if given), and an `Accept-Encoding` header
/// (whether it lists gzip, if given), when `etag` is the needle's entity tag.
pub open spec fn read_answer_spec(
    n: NeedleView,
    cookie: u32,
    since: Option<u64>,
    none_match: Option<Seq<char>>,
    etag: Seq<char>,
    accepts_gzip: Option<bool>,
) -> ReadAnswer {
    let lm = if n.last_modified != 0 {
        Some(n.last_modified)
    } else {
        None
    };
    if n.cookie != cookie {
        ReadAnswer::NotFound
    } else if n.last_modified != 0 && (since matches Some(t) && t <= n.last_modified) {
        ReadAnswer::NotModified { last_modified: lm }
    } else if none_match == Some(etag) {
        ReadAnswer::NotModified { last_modified: lm }
    } else {
        let gz = flag_set(n.flags, FLAG_GZIP);
        ReadAnswer::Content {
            last_modified: lm,
            gzip_header: gz && accepts_gzip == Some(true),
            gunzip: gz && accepts_gzip == Some(false),
        }
    }
}

/// How the read of the stored needle `n` is answered: see [`read_answer_spec`].
pub fn read_answer(
    n: &Needle,
    cookie: u32,
    if_modified_since: Option<u64>,
    if_none_match: Option<&str>,
    accepts_gzip: Option<bool>,
    path_file_name: &str,
) -> (r: ReadAnswer)
    ensures
        r == read_answer_spec(
            n@,
            cookie,
            if_modified_since,
            match if_none_match {
                Some(t) => Some(t@),
                None => None,
            },
            n.etag_text(),
            accepts_gzip,
        ),
{
    if n.cookie != cookie {
        return ReadAnswer::NotFound;
    }
    let lm = if n.last_modified != 0 {
        Some(n.last_modified)
    } else {
        None
    };
    if n.last_modified != 0 {
        match if_modified_since {
            Some(t) => {
                if t <= n.last_modified {
                    return ReadAnswer::NotModified { last_modified: lm };
                }
            },
            None => {},
        }
    }
    let etag = n.etag();
    match if_none_match {
        Some(t) => {
            if same_text(t, etag.as_str()) {
                return ReadAnswer::NotModified { last_modified: lm };
            }
        },
        None => {},
    }
    let gz = n.is_gzipped();
    ReadAnswer::Content {
        last_modified: lm,
        gzip_header: gz && accepts_gzip == Some(true),
        gunzip: gz && accepts_gzip == Some(false),
    }
}

/// The addresses to copy a write or delete of `path` to, for the locations `locs`:
/// `http://`, the location's address and the path, for each location, in order, but
/// this server's own, `self_url`.
pub open spec fn replica_urls_spec(locs: Seq<Location>, self_url: Seq<char>, path: Seq<char>) -> Seq<Seq<char>>
    decreases locs.len(),
{
    if locs.len() == 0 {
        seq![]
    } else {
        let r = replica_urls_spec(locs.drop_last(), self_url, path);
        if locs.last().url@ != self_url {
            r.push("http://"@ + locs.last().url@ + path)
        } else {
            r
        }
    }
}

/// The addresses to copy a write or delete of `path` to: see [`replica_urls_spec`].
pub fn replica_urls(locations: &Vec<Location>, self_url: &str, path: &str) -> (r: Vec<String>)
    ensures
        r@.len() == replica_urls_spec(locations@, self_url@, path@).len(),
        forall|k: int| 0 <= k < r@.len() ==> (#[trigger] r@[k])@ == replica_urls_spec(locations@, self_url@, path@)[k],
{
    let mut r: Vec<String> = Vec::new();
    let mut i: usize = 0;
    proof {
        reveal_strlit("http://");
    }
    while i < locations.len()
        invariant
            i <= locations@.len(),
            r@.len() == replica_urls_spec(locations@.take(i as int), self_url@, path@).len(),
            forall|k: int| 0 <= k < r@.len() ==> (#[trigger] r@[k])@ == replica_urls_spec(locations@.take(i as int), self_url@, path@)[k],
        decreases locations@.len() - i,
    {
        assert(locations@.take(i + 1).drop_last() =~= locations@.take(i as int));
        if !same_text(locations[i].url.as_str(), self_url) {
            let mut u = String::from_str("http://");
            u.append(locations[i].url.as_str());
            u.append(path);
            r.push(u);
        }
        i = i + 1;
    }
    assert(locations@.take(i as int) =~= locations@);
    r
}

/// The preallocation an assign request asks for: its `preallocate` read as an i64, or 0
/// when it has none or it cannot be read.
pub fn preallocate_param(preallocate: Option<&str>) -> (r: i64)
    ensures
        r == match preallocate {
            Some(p) => match parse_i64_spec(p.spec_bytes()) {
                Some(v) => v as i64,
                None => 0,
            },
            None => 0,
        },
{
    match preallocate {
        Some(p) => match parse_i64_bytes(p.as_bytes()) {
            Some(v) => v,
            None => 0,
        },
        None => 0,
    }
}

} // verus!
