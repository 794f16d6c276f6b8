//! A needle: one stored blob with its metadata, and its on-disk record.
//!
//! A record is a 16-byte header (cookie, id, size), a body of `size` bytes (data size,
//! data, flags, then name, mime, last-modified and ttl as the flags say), a 4-byte
//! checksum, and zero padding up to a multiple of 8 bytes.
use vstd::prelude::*;
use vstd::string::*;
use crate::storage::codec::{
    u32_be_bytes, be_u32_bytes, be_u32_value, be_u64_bytes, be_u64_value, read_u32_be, read_u64_be, push_u32_be,
    push_u64_be, crc32c, checksum_castagnoli,
};
use crate::storage::errors::Error;
use crate::storage::ttl::{TTL, Unit, unit_from_index, ttl_from_bytes, unit_index};
use crate::storage::version::{Version, CURRENT_VERSION, VERSION2};
use crate::text::{dec_str, dec_string, parse_uint, parse_uint_bytes};

verus! {

pub const NEEDLE_HEADER_SIZE: u32 = 16;
pub const NEEDLE_PADDING_SIZE: u32 = 8;
pub const NEEDLE_CHECKSUM_SIZE: u32 = 4;
pub const MAX_POSSIBLE_VOLUME_SIZE: u64 = 34359738368;
pub const FLAG_GZIP: u8 = 0x01;
pub const FLAG_HAS_NAME: u8 = 0x02;
pub const FLAG_HAS_MIME: u8 = 0x04;
pub const FLAG_HAS_LAST_MODIFIED_DATE: u8 = 0x08;
pub const FLAG_HAS_TTL: u8 = 0x10;
pub const FLAG_HAS_PAIRS: u8 = 0x20;
pub const FLAG_IS_DELETE: u8 = 0x40;
pub const FLAG_IS_CHUNK_MANIFEST: u8 = 0x80;
pub const LAST_MODIFIED_BYTES_LENGTH: usize = 8;
pub const TTL_BYTES_LENGTH: usize = 2;
pub const NEEDLE_FLAG_OFFSET: usize = 20;
pub const NEEDLE_ID_OFFSET: usize = 4;
pub const NEEDLE_SIZE_OFFSET: usize = 12;

/// The prefix of the request headers that are kept with a needle as pairs.
pub const PAIR_NAME_PREFIX: &'static str = "Zergling-";

/// A stored blob and its metadata.
#[derive(Debug)]
pub struct Needle {
    pub cookie: u32,
    pub id: u64,
    pub size: u32,
    pub data_size: u32,
    pub data: Vec<u8>,
    pub flags: u8,
    pub name_size: u8,
    pub name: Vec<u8>,
    pub mime_size: u8,
    pub mime: Vec<u8>,
    pub pairs_size: u16,
    pub pairs: Vec<u8>,
    pub last_modified: u64,
    pub ttl: TTL,
    pub checksum: u32,
    pub padding: Vec<u8>,
}

/// The fields of a needle, with its byte vectors as sequences.
pub struct NeedleView {
    pub cookie: u32,
    pub id: u64,
    pub size: u32,
    pub data_size: u32,
    pub data: Seq<u8>,
    pub flags: u8,
    pub name_size: u8,
    pub name: Seq<u8>,
    pub mime_size: u8,
    pub mime: Seq<u8>,
    pub pairs_size: u16,
    pub pairs: Seq<u8>,
    pub last_modified: u64,
    pub ttl: TTL,
    pub checksum: u32,
    pub padding: Seq<u8>,
}

impl View for Needle {
    type V = NeedleView;

    open spec fn view(&self) -> NeedleView {
        NeedleView {
            cookie: self.cookie,
            id: self.id,
            size: self.size,
            data_size: self.data_size,
            data: self.data@,
            flags: self.flags,
            name_size: self.name_size,
            name: self.name@,
            mime_size: self.mime_size,
            mime: self.mime@,
            pairs_size: self.pairs_size,
            pairs: self.pairs@,
            last_modified: self.last_modified,
            ttl: self.ttl,
            checksum: self.checksum,
            padding: self.padding@,
        }
    }
}

/// The needle with every field zero or empty.
pub open spec fn empty_needle() -> NeedleView {
    NeedleView {
        cookie: 0,
        id: 0,
        size: 0,
        data_size: 0,
        data: seq![],
        flags: 0,
        name_size: 0,
        name: seq![],
        mime_size: 0,
        mime: seq![],
        pairs_size: 0,
        pairs: seq![],
        last_modified: 0,
        ttl: TTL { count: 0, unit: Unit::Empty },
        checksum: 0,
        padding: seq![],
    }
}

/// The flag `f` is set in `flags`.
pub open spec fn flag_set(flags: u8, f: u8) -> bool {
    flags & f > 0
}

/// How many zero bytes follow the checksum of a record whose body has `size` bytes.
pub open spec fn padding_len(size: u32) -> int {
    let left = (NEEDLE_HEADER_SIZE + size + NEEDLE_CHECKSUM_SIZE) % (NEEDLE_PADDING_SIZE as int);
    if left > 0 {
        NEEDLE_PADDING_SIZE - left
    } else {
        0
    }
}

/// The length of a whole record whose body has `size` bytes.
pub open spec fn actual_size(size: u32) -> int {
    NEEDLE_HEADER_SIZE + size + NEEDLE_CHECKSUM_SIZE + padding_len(size)
}

/// The length of a whole record whose body has `size` bytes: header, body, checksum and
/// padding up to a multiple of 8.
pub fn get_actual_size(size: u32) -> (r: u64)
    ensures
        r == actual_size(size),
        r % 8 == 0,
        actual_size(size) - 8 < NEEDLE_HEADER_SIZE + size + NEEDLE_CHECKSUM_SIZE <= actual_size(
            size,
        ),
{
    let total: u64 = NEEDLE_HEADER_SIZE as u64 + size as u64 + NEEDLE_CHECKSUM_SIZE as u64;
    let left = total % NEEDLE_PADDING_SIZE as u64;
    let padding: u64 = if left > 0 {
        NEEDLE_PADDING_SIZE as u64 - left
    } else {
        0
    };
    assert((total + padding) % 8 == 0) by (nonlinear_arith)
        requires
            left == total % 8,
            padding == (if left > 0 { 8 - left } else { 0 }),
    ;
    total + padding
}

/// The byte offset that a stored offset stands for: offsets count units of 8 bytes.
pub fn true_offset(offset: u32) -> (r: u64)
    ensures
        r == offset * 8,
{
    assert(offset as u64 * 8 <= 0xffff_ffff * 8) by (nonlinear_arith);
    offset as u64 * NEEDLE_PADDING_SIZE as u64
}

/// `n` zero bytes.
pub open spec fn zeros(n: int) -> Seq<u8> {
    Seq::new(n as nat, |i: int| 0u8)
}

/// The body size that `append` computes for a needle: 4 bytes of data size, the data,
/// the flags byte, and each optional part that the flags ask for (a non-empty needle),
/// or 0 when there is no data. Sizes of name and mime are their lengths modulo 256,
/// and the sum wraps at 2^32.
pub open spec fn record_size(v: NeedleView) -> u32 {
    let ds = (v.data.len() % 0x1_0000_0000) as u32;
    if ds > 0 {
        ((5 + ds + (if flag_set(v.flags, FLAG_HAS_NAME) {
            1 + v.name.len() % 256
        } else {
            0
        }) + (if flag_set(v.flags, FLAG_HAS_MIME) {
            1 + v.mime.len() % 256
        } else {
            0
        }) + (if flag_set(v.flags, FLAG_HAS_LAST_MODIFIED_DATE) {
            8int
        } else {
            0
        }) + (if flag_set(v.flags, FLAG_HAS_TTL) {
            2int
        } else {
            0
        })) % 0x1_0000_0000) as u32
    } else {
        0
    }
}

/// The name part of a body: its length byte and the name, when the flag asks for it.
pub open spec fn name_part(v: NeedleView) -> Seq<u8> {
    if flag_set(v.flags, FLAG_HAS_NAME) {
        seq![(v.name.len() % 256) as u8] + v.name
    } else {
        seq![]
    }
}

/// The mime part of a body: its length byte and the mime type, when the flag asks for it.
pub open spec fn mime_part(v: NeedleView) -> Seq<u8> {
    if flag_set(v.flags, FLAG_HAS_MIME) {
        seq![(v.mime.len() % 256) as u8] + v.mime
    } else {
        seq![]
    }
}

/// The last-modified part of a body: eight big-endian bytes, when the flag asks for it.
pub open spec fn last_modified_part(v: NeedleView) -> Seq<u8> {
    if flag_set(v.flags, FLAG_HAS_LAST_MODIFIED_DATE) {
        be_u64_bytes(v.last_modified)
    } else {
        seq![]
    }
}

/// The ttl part of a body: count and unit number, when the flag asks for it.
pub open spec fn ttl_part(v: NeedleView) -> Seq<u8> {
    if flag_set(v.flags, FLAG_HAS_TTL) {
        seq![v.ttl.count, unit_index(v.ttl.unit)]
    } else {
        seq![]
    }
}

/// The body that `append` writes after the size field: data size, data, flags, and the
/// optional name, mime, last-modified and ttl parts; nothing when there is no data.
pub open spec fn record_body(v: NeedleView) -> Seq<u8> {
    let ds = (v.data.len() % 0x1_0000_0000) as u32;
    if ds > 0 {
        be_u32_bytes(ds) + v.data + seq![v.flags] + name_part(v) + mime_part(v)
            + last_modified_part(v) + ttl_part(v)
    } else {
        seq![]
    }
}

/// The whole record that `append` writes for a needle `v`.
pub open spec fn record_bytes(v: NeedleView) -> Seq<u8> {
    be_u32_bytes(v.cookie) + be_u64_bytes(v.id) + be_u32_bytes(record_size(v)) + record_body(v)
        + be_u32_bytes(v.checksum) + zeros(padding_len(record_size(v)))
}

/// The first step of reading a body `b`: data size, data and flags, when `b` is not
/// empty. Gives the needle, the position after the step, and whether the step stays
/// inside `b`.
pub open spec fn read_data_step(v: NeedleView, b: Seq<u8>) -> (NeedleView, int, bool) {
    let len = b.len() as int;
    if 0 < len {
        if len < 4 {
            (v, 0int, false)
        } else {
            let ds = be_u32_value(b);
            if 4 + ds >= len {
                (v, 0int, false)
            } else {
                (
                    NeedleView { data_size: ds, data: b.subrange(4, 4 + ds), flags: b[4 + ds], ..v },
                    5 + ds,
                    true,
                )
            }
        }
    } else {
        (v, 0int, true)
    }
}

/// Reading the name at position `i` of `b`, when bytes are left and the flag asks for it.
pub open spec fn read_name_step(v: NeedleView, i: int, b: Seq<u8>) -> (NeedleView, int, bool) {
    if i < b.len() && flag_set(v.flags, FLAG_HAS_NAME) {
        let ns = b[i];
        if i + 1 + ns > b.len() {
            (v, i, false)
        } else {
            (NeedleView { name_size: ns, name: b.subrange(i + 1, i + 1 + ns), ..v }, i + 1 + ns, true)
        }
    } else {
        (v, i, true)
    }
}

/// Reading the mime type at position `i` of `b`, when bytes are left and the flag asks for it.
pub open spec fn read_mime_step(v: NeedleView, i: int, b: Seq<u8>) -> (NeedleView, int, bool) {
    if i < b.len() && flag_set(v.flags, FLAG_HAS_MIME) {
        let ms = b[i];
        if i + 1 + ms > b.len() {
            (v, i, false)
        } else {
            (NeedleView { mime_size: ms, mime: b.subrange(i + 1, i + 1 + ms), ..v }, i + 1 + ms, true)
        }
    } else {
        (v, i, true)
    }
}

/// Reading the last-modified date at position `i` of `b`, when bytes are left and the
/// flag asks for it.
pub open spec fn read_last_modified_step(v: NeedleView, i: int, b: Seq<u8>) -> (NeedleView, int, bool) {
    if i < b.len() && flag_set(v.flags, FLAG_HAS_LAST_MODIFIED_DATE) {
        if i + 8 > b.len() {
            (v, i, false)
        } else {
            (NeedleView { last_modified: be_u64_value(b.subrange(i, i + 8)), ..v }, i + 8, true)
        }
    } else {
        (v, i, true)
    }
}

/// Reading the ttl at position `i` of `b`, when bytes are left and the flag asks for it;
/// its unit number must be known.
pub open spec fn read_ttl_step(v: NeedleView, i: int, b: Seq<u8>) -> (NeedleView, int, bool) {
    if i < b.len() && flag_set(v.flags, FLAG_HAS_TTL) {
        if i + 2 > b.len() || unit_from_index(b[i + 1]) is None {
            (v, i, false)
        } else {
            (NeedleView { ttl: ttl_from_bytes(b.subrange(i, i + 2)), ..v }, i + 2, true)
        }
    } else {
        (v, i, true)
    }
}

/// What `read_needle_data` does to a needle `v` that reads the body `b`, and whether it
/// can read it without failing: each part must lie inside `b`, a ttl must name a known
/// unit, and pairs cannot be read.
pub open spec fn read_data_spec(v: NeedleView, b: Seq<u8>) -> (NeedleView, bool) {
    let s1 = read_data_step(v, b);
    let s2 = read_name_step(s1.0, s1.1, b);
    let s3 = read_mime_step(s2.0, s2.1, b);
    let s4 = read_last_modified_step(s3.0, s3.1, b);
    let s5 = read_ttl_step(s4.0, s4.1, b);
    let no_pairs = !(s5.1 < b.len() && flag_set(s5.0.flags, FLAG_HAS_PAIRS));
    (s5.0, s1.2 && s2.2 && s3.2 && s4.2 && s5.2 && no_pairs)
}

impl Default for Needle {
    fn default() -> (r: Needle)
        ensures
            r@ == empty_needle(),
    {
        Needle {
            cookie: 0,
            id: 0,
            size: 0,
            data_size: 0,
            data: Vec::new(),
            flags: 0,
            name_size: 0,
            name: Vec::new(),
            mime_size: 0,
            mime: Vec::new(),
            pairs_size: 0,
            pairs: Vec::new(),
            last_modified: 0,
            ttl: TTL::default(),
            checksum: 0,
            padding: Vec::new(),
        }
    }
}

impl Needle {
    /// Reads cookie, id and size from the first 16 bytes of a record.
    pub fn parse_needle_header(&mut self, bytes: &Vec<u8>)
        requires
            bytes@.len() >= 16,
        ensures
            final(self)@ == (NeedleView {
                cookie: be_u32_value(bytes@),
                id: be_u64_value(bytes@.subrange(4, 12)),
                size: be_u32_value(bytes@.subrange(12, 16)),
                ..old(self)@
            }),
    {
        self.cookie = read_u32_be(bytes.as_slice());
        let id_bytes = copy_range(bytes.as_slice(), 4, 12);
        self.id = read_u64_be(id_bytes.as_slice());
        let size_bytes = copy_range(bytes.as_slice(), 12, 16);
        self.size = read_u32_be(size_bytes.as_slice());
    }

    /// Reads the body of a record (the `size` bytes after the header) into this needle.
    pub fn read_needle_data(&mut self, bytes: &[u8])
        requires
            read_data_spec(old(self)@, bytes@).1,
        ensures
            final(self)@ == read_data_spec(old(self)@, bytes@).0,
    {
        let ghost b = bytes@;
        let len = bytes.len();
        let mut idx: usize = 0;
        if idx < len {
            self.data_size = read_u32_be(bytes);
            idx = 4;
            let end = idx + self.data_size as usize;
            self.data = copy_range(bytes, idx, end);
            idx = end;
            self.flags = bytes[idx];
            idx = idx + 1;
        }
        if idx < len && self.has_name() {
            self.name_size = bytes[idx];
            idx = idx + 1;
            let end = idx + self.name_size as usize;
            self.name = copy_range(bytes, idx, end);
            idx = end;
        }
        if idx < len && self.has_mime() {
            self.mime_size = bytes[idx];
            idx = idx + 1;
            let end = idx + self.mime_size as usize;
            self.mime = copy_range(bytes, idx, end);
            idx = end;
        }
        if idx < len && self.has_last_modified_date() {
            let lm = copy_range(bytes, idx, idx + LAST_MODIFIED_BYTES_LENGTH);
            self.last_modified = read_u64_be(lm.as_slice());
            idx = idx + LAST_MODIFIED_BYTES_LENGTH;
        }
        if idx < len && self.has_ttl() {
            let t = copy_range(bytes, idx, idx + TTL_BYTES_LENGTH);
            self.ttl = TTL::from_bytes(t);
        }
    }

    /// The flag of a ttl is set.
    pub fn has_ttl(&self) -> (r: bool)
        ensures
            r == flag_set(self.flags, FLAG_HAS_TTL),
    {
        self.flags & FLAG_HAS_TTL > 0
    }

    /// Sets the flag of a ttl.
    pub fn set_has_ttl(&mut self)
        ensures
            final(self)@ == (NeedleView { flags: old(self).flags | FLAG_HAS_TTL, ..old(self)@ }),
    {
        self.flags = self.flags | FLAG_HAS_TTL;
    }

    /// The flag of a name is set.
    pub fn has_name(&self) -> (r: bool)
        ensures
            r == flag_set(self.flags, FLAG_HAS_NAME),
    {
        self.flags & FLAG_HAS_NAME > 0
    }

    /// Sets the flag of a name.
    pub fn set_name(&mut self)
        ensures
            final(self)@ == (NeedleView { flags: old(self).flags | FLAG_HAS_NAME, ..old(self)@ }),
    {
        self.flags = self.flags | FLAG_HAS_NAME;
    }

    /// The flag of a mime type is set.
    pub fn has_mime(&self) -> (r: bool)
        ensures
            r == flag_set(self.flags, FLAG_HAS_MIME),
    {
        self.flags & FLAG_HAS_MIME > 0
    }

    /// Sets the flag of a mime type.
    pub fn set_has_mime(&mut self)
        ensures
            final(self)@ == (NeedleView { flags: old(self).flags | FLAG_HAS_MIME, ..old(self)@ }),
    {
        self.flags = self.flags | FLAG_HAS_MIME;
    }

    /// The flag of gzipped data is set.
    pub fn is_gzipped(&self) -> (r: bool)
        ensures
            r == flag_set(self.flags, FLAG_GZIP),
    {
        self.flags & FLAG_GZIP > 0
    }

    /// Sets the flag of gzipped data.
    pub fn set_gzipped(&mut self)
        ensures
            final(self)@ == (NeedleView { flags: old(self).flags | FLAG_GZIP, ..old(self)@ }),
    {
        self.flags = self.flags | FLAG_GZIP;
    }

    /// The flag of pairs is set.
    pub fn has_pairs(&self) -> (r: bool)
        ensures
            r == flag_set(self.flags, FLAG_HAS_PAIRS),
    {
        self.flags & FLAG_HAS_PAIRS > 0
    }

    /// The flag of a last-modified date is set.
    pub fn has_last_modified_date(&self) -> (r: bool)
        ensures
            r == flag_set(self.flags, FLAG_HAS_LAST_MODIFIED_DATE),
    {
        self.flags & FLAG_HAS_LAST_MODIFIED_DATE > 0
    }

    /// Sets the flag of a last-modified date.
    pub fn set_has_last_modified_date(&mut self)
        ensures
            final(self)@ == (NeedleView {
                flags: old(self).flags | FLAG_HAS_LAST_MODIFIED_DATE,
                ..old(self)@
            }),
    {
        self.flags = self.flags | FLAG_HAS_LAST_MODIFIED_DATE;
    }

    /// Sets the flag of a chunk manifest.
    pub fn set_is_chunk_manifest(&mut self)
        ensures
            final(self)@ == (NeedleView {
                flags: old(self).flags | FLAG_IS_CHUNK_MANIFEST,
                ..old(self)@
            }),
    {
        self.flags = self.flags | FLAG_IS_CHUNK_MANIFEST;
    }

    /// The flag of a chunk manifest is set.
    pub fn is_chunk_manifest(&self) -> (r: bool)
        ensures
            r == flag_set(self.flags, FLAG_IS_CHUNK_MANIFEST),
    {
        self.flags & FLAG_IS_CHUNK_MANIFEST > 0
    }

    /// The flag of a deleted needle is set.
    pub fn is_delete(&self) -> (r: bool)
        ensures
            r == flag_set(self.flags, FLAG_IS_DELETE),
    {
        self.flags & FLAG_IS_DELETE > 0
    }

    /// Sets the flag of a deleted needle.
    pub fn set_is_delete(&mut self)
        ensures
            final(self)@ == (NeedleView { flags: old(self).flags | FLAG_IS_DELETE, ..old(self)@ }),
    {
        self.flags = self.flags | FLAG_IS_DELETE;
    }
}

/// The bytes of `b` from `start` to `end`, copied.
pub fn copy_range(b: &[u8], start: usize, end: usize) -> (r: Vec<u8>)
    requires
        start <= end <= b@.len(),
    ensures
        r@ == b@.subrange(start as int, end as int),
{
    let mut v: Vec<u8> = Vec::new();
    let mut i: usize = start;
    while i < end
        invariant
            start <= i <= end <= b@.len(),
            v@ == b@.subrange(start as int, i as int),
        decreases end - i,
    {
        v.push(b[i]);
        i = i + 1;
        assert(v@ =~= b@.subrange(start as int, i as int));
    }
    v
}

/// The needle after `append`: data, name and mime sizes taken from the lengths, and the
/// body size computed.
pub open spec fn appended_view(v: NeedleView) -> NeedleView {
    NeedleView {
        data_size: (v.data.len() % 0x1_0000_0000) as u32,
        name_size: (v.name.len() % 256) as u8,
        mime_size: (v.mime.len() % 256) as u8,
        size: record_size(v),
        ..v
    }
}

impl Needle {
    /// Writes the record of this needle at the end of `w`, in the current version.
    /// Returns the data size and the length of the whole record.
    pub fn append(&mut self, w: &mut Vec<u8>, version: Version) -> (r: Result<(u32, u64), Error>)
        requires
            (old(self).data@.len() % 0x1_0000_0000) as u32 > 0 ==> !flag_set(
                old(self).flags,
                FLAG_HAS_PAIRS,
            ),
        ensures
            version != CURRENT_VERSION ==> (r matches Err(Error::Other(_)) && final(self)@ == old(
                self,
            )@ && final(w)@ == old(w)@),
            version == CURRENT_VERSION ==> {
                &&& final(self)@ == appended_view(old(self)@)
                &&& final(w)@ == old(w)@ + record_bytes(old(self)@)
                &&& r == Ok::<(u32, u64), Error>(
                    (
                        (old(self)@.data.len() % 0x1_0000_0000) as u32,
                        actual_size(record_size(old(self)@)) as u64,
                    ),
                )
            },
    {
        if version != CURRENT_VERSION {
            return Err(Error::Other(String::from_str("no supported version")));
        }
        let ghost v = self@;
        push_u32_be(w, self.cookie);
        push_u64_be(w, self.id);
        let size = self.compute_record_size();
        self.data_size = (self.data.len() as u64 % 0x1_0000_0000) as u32;
        self.name_size = (self.name.len() as u64 % 256) as u8;
        self.mime_size = (self.mime.len() as u64 % 256) as u8;
        self.size = size;
        push_u32_be(w, self.size);
        let ghost head = w@;
        self.push_body(w);
        assert(w@ =~= head + record_body(v));
        let ghost body_end = w@;
        push_u32_be(w, self.checksum);
        let actual = get_actual_size(self.size);
        let padding = actual - NEEDLE_HEADER_SIZE as u64 - self.size as u64 - NEEDLE_CHECKSUM_SIZE as u64;
        let ghost before_pad = w@;
        let mut i: u64 = 0;
        while i < padding
            invariant
                i <= padding,
                w@ =~= before_pad + zeros(i as int),
            decreases padding - i,
        {
            w.push(0u8);
            i = i + 1;
            assert(w@ =~= before_pad + zeros(i as int));
        }
        assert(w@ =~= old(w)@ + record_bytes(v));
        Ok((self.data_size, actual))
    }
}

/// Appends all of `src` to `w`.
pub fn push_bytes(w: &mut Vec<u8>, src: &[u8])
    ensures
        final(w)@ == old(w)@ + src@,
{
    let mut i: usize = 0;
    while i < src.len()
        invariant
            i <= src@.len(),
            w@ =~= old(w)@ + src@.subrange(0, i as int),
        decreases src@.len() - i,
    {
        w.push(src[i]);
        i = i + 1;
        assert(w@ =~= old(w)@ + src@.subrange(0, i as int));
    }
    assert(src@.subrange(0, src@.len() as int) =~= src@);
}

impl Needle {
    /// The body size that `append` computes for this needle.
    fn compute_record_size(&self) -> (r: u32)
        ensures
            r == record_size(self@),
    {
        let ds = (self.data.len() as u64 % 0x1_0000_0000) as u32;
        let mut size: u64 = 0;
        if ds > 0 {
            size = 5 + ds as u64;
            if self.has_name() {
                size = size + 1 + (self.name.len() as u64 % 256);
            }
            if self.has_mime() {
                size = size + 1 + (self.mime.len() as u64 % 256);
            }
            if self.has_last_modified_date() {
                size = size + LAST_MODIFIED_BYTES_LENGTH as u64;
            }
            if self.has_ttl() {
                size = size + TTL_BYTES_LENGTH as u64;
            }
        }
        (size % 0x1_0000_0000) as u32
    }

    /// Writes the body of the record (after the size field) at the end of `w`.
    fn push_body(&self, w: &mut Vec<u8>)
        requires
            self.data_size == (self.data@.len() % 0x1_0000_0000) as u32,
            self.name_size == (self.name@.len() % 256) as u8,
            self.mime_size == (self.mime@.len() % 256) as u8,
        ensures
            final(w)@ == old(w)@ + record_body(self@),
    {
        let ghost v = self@;
        if self.data_size > 0 {
            push_u32_be(w, self.data_size);
            push_bytes(w, self.data.as_slice());
            w.push(self.flags);
            let ghost p1 = w@;
            assert(p1 =~= old(w)@ + (be_u32_bytes(self.data_size) + v.data + seq![v.flags]));
            self.push_name_part(w);
            let ghost p2 = w@;
            self.push_mime_part(w);
            let ghost p3 = w@;
            if self.has_last_modified_date() {
                push_u64_be(w, self.last_modified);
            }
            assert(w@ =~= p3 + last_modified_part(v));
            let ghost p4 = w@;
            if self.has_ttl() {
                let t = self.ttl.bytes();
                w.push(t[0]);
                w.push(t[1]);
            }
            assert(w@ =~= p4 + ttl_part(v));
            assert(w@ =~= old(w)@ + record_body(v));
        } else {
            assert(w@ =~= old(w)@ + record_body(v));
        }
    }

    fn push_name_part(&self, w: &mut Vec<u8>)
        requires
            self.name_size == (self.name@.len() % 256) as u8,
        ensures
            final(w)@ == old(w)@ + name_part(self@),
    {
        if self.has_name() {
            w.push(self.name_size);
            push_bytes(w, self.name.as_slice());
        }
        assert(w@ =~= old(w)@ + name_part(self@));
    }

    fn push_mime_part(&self, w: &mut Vec<u8>)
        requires
            self.mime_size == (self.mime@.len() % 256) as u8,
        ensures
            final(w)@ == old(w)@ + mime_part(self@),
    {
        if self.has_mime() {
            w.push(self.mime_size);
            push_bytes(w, self.mime.as_slice());
        }
        assert(w@ =~= old(w)@ + mime_part(self@));
    }
}

/// The needle after reading the header `b`: cookie, id and size from its first 16 bytes.
pub open spec fn header_view(v: NeedleView, b: Seq<u8>) -> NeedleView {
    NeedleView {
        cookie: be_u32_value(b),
        id: be_u64_value(b.subrange(4, 12)),
        size: be_u32_value(b.subrange(12, 16)),
        ..v
    }
}

/// The needle after reading a record `b` whose body should have `size` bytes, once the
/// header agrees with `size`: the body read (for version 2) and the checksum read.
pub open spec fn read_record_view(v: NeedleView, b: Seq<u8>, size: u32, version: u8) -> NeedleView {
    let h = header_view(v, b);
    let d = if version == VERSION2 {
        read_data_spec(h, b.subrange(16, 16 + size)).0
    } else {
        h
    };
    NeedleView { checksum: be_u32_value(b.subrange(16 + size, 20 + size)), ..d }
}

/// What reading the record `b`, whose body should have `size` bytes, makes of a needle
/// `v`, and whether the read succeeds: the record must be long enough, its header must
/// agree with `size`, and its checksum must be the CRC-32C of the data read.
pub open spec fn read_date_spec(v: NeedleView, b: Seq<u8>, size: u32, version: u8) -> (NeedleView, bool) {
    if b.len() < actual_size(size) {
        (v, false)
    } else if header_view(v, b).size != size {
        (header_view(v, b), false)
    } else {
        let n = read_record_view(v, b, size, version);
        (n, n.checksum == crc32c(n.data))
    }
}

/// A record `b` of a body of `size` bytes can be read without failing: when it is long
/// enough and its header agrees, a version-2 body must be readable.
pub open spec fn record_readable(v: NeedleView, b: Seq<u8>, size: u32, version: u8) -> bool {
    b.len() >= actual_size(size) && header_view(v, b).size == size && version == VERSION2
        ==> read_data_spec(header_view(v, b), b.subrange(16, 16 + size)).1
}

impl Needle {
    /// Reads a needle from the bytes `bytes` read at its offset, where the index says
    /// that its body has `size` bytes; checks the size and the checksum.
    pub fn read_date(&mut self, bytes: &[u8], size: u32, version: Version) -> (r: Result<(), Error>)
        requires
            size <= 0xffff_ffff - 20,
            record_readable(old(self)@, bytes@, size, version),
        ensures
            bytes@.len() < actual_size(size) ==> (r matches Err(Error::UnexpectedEof))
                && final(self)@ == old(self)@,
            bytes@.len() >= actual_size(size) && header_view(old(self)@, bytes@).size != size ==> (r
                matches Err(Error::Other(_))) && final(self)@ == header_view(old(self)@, bytes@),
            bytes@.len() >= actual_size(size) && header_view(old(self)@, bytes@).size == size ==> {
                let n = read_record_view(old(self)@, bytes@, size, version);
                &&& final(self)@ == n
                &&& n.checksum != crc32c(n.data) ==> (r matches Err(Error::Other(_)))
                &&& n.checksum == crc32c(n.data) ==> r is Ok
            },
            final(self)@ == read_date_spec(old(self)@, bytes@, size, version).0,
            r is Ok <==> read_date_spec(old(self)@, bytes@, size, version).1,
    {
        let actual = get_actual_size(size);
        if (bytes.len() as u64) < actual {
            return Err(Error::UnexpectedEof);
        }
        let head = copy_range(bytes, 0, 16);
        self.parse_needle_header(&head);
        assert(head@.subrange(4, 12) =~= bytes@.subrange(4, 12));
        assert(head@.subrange(12, 16) =~= bytes@.subrange(12, 16));
        if self.size != size {
            return Err(Error::Other(String::from_str("file entry not found")));
        }
        if version == VERSION2 {
            let end = (NEEDLE_HEADER_SIZE + self.size) as usize;
            let body = copy_range(bytes, NEEDLE_HEADER_SIZE as usize, end);
            self.read_needle_data(body.as_slice());
        }
        let start = (NEEDLE_HEADER_SIZE + size) as usize;
        let sum = copy_range(bytes, start, start + NEEDLE_CHECKSUM_SIZE as usize);
        self.checksum = read_u32_be(sum.as_slice());
        let cal_checksum = checksum_castagnoli(self.data.as_slice());
        if self.checksum != cal_checksum {
            return Err(Error::Other(String::from_str("CRC error, may be data on disk corrupted")));
        }
        Ok(())
    }
}

/// The length of the body of a needle with data, counted without any wrapping.
pub open spec fn body_len(v: NeedleView) -> int {
    4int + v.data.len() + 1 + name_part(v).len() + mime_part(v).len() + last_modified_part(v).len()
        + ttl_part(v).len()
}

/// A needle with data, short name and mime, no pairs, and a record that fits in its size
/// field: the needles whose records read back as they were written.
pub open spec fn round_trips(v: NeedleView) -> bool {
    &&& v.data.len() > 0
    &&& v.name.len() < 256
    &&& v.mime.len() < 256
    &&& !flag_set(v.flags, FLAG_HAS_PAIRS)
    &&& body_len(v) <= 0xffff_ffff - 20
}

proof fn lemma_body_layout(v: NeedleView)
    requires
        round_trips(v),
    ensures
        record_size(v) as int == body_len(v),
        record_body(v).len() == body_len(v),
        (v.data.len() % 0x1_0000_0000) as u32 == v.data.len(),
{
    assert((v.data.len() % 0x1_0000_0000) as u32 == v.data.len());
    assert(v.name.len() % 256 == v.name.len());
    assert(v.mime.len() % 256 == v.mime.len());
}

/// Where the parts of a written body lie.
proof fn lemma_body_slices(v: NeedleView)
    requires
        round_trips(v),
    ensures
        ({
            let b = record_body(v);
            let ds = v.data.len() as int;
            let o1 = 5 + ds;
            let o2 = o1 + name_part(v).len();
            let o3 = o2 + mime_part(v).len();
            let o4 = o3 + last_modified_part(v).len();
            &&& b.len() == o4 + ttl_part(v).len()
            &&& b.subrange(0, 4) == be_u32_bytes(ds as u32)
            &&& b.subrange(4, 4 + ds) == v.data
            &&& b[4 + ds] == v.flags
            &&& b.subrange(o1, o2) == name_part(v)
            &&& b.subrange(o2, o3) == mime_part(v)
            &&& b.subrange(o3, o4) == last_modified_part(v)
            &&& b.subrange(o4, b.len() as int) == ttl_part(v)
        }),
{
    lemma_body_layout(v);
    let b = record_body(v);
    let ds = v.data.len() as u32;
    let o1 = 5 + ds;
    let o2 = o1 + name_part(v).len();
    let o3 = o2 + mime_part(v).len();
    let o4 = o3 + last_modified_part(v).len();
    let o5 = o4 + ttl_part(v).len();
    assert(b.subrange(0, 4) =~= be_u32_bytes(ds));
    assert(b.subrange(4, 4 + ds) =~= v.data);
    assert(b.subrange(o1, o2) =~= name_part(v));
    assert(b.subrange(o2, o3) =~= mime_part(v));
    assert(b.subrange(o3, o4) =~= last_modified_part(v));
    assert(b.subrange(o4, o5) =~= ttl_part(v));
}

proof fn lemma_name_step(x: NeedleView, i: int, b: Seq<u8>, v: NeedleView)
    requires
        x.flags == v.flags,
        v.name.len() < 256,
        0 <= i,
        i + name_part(v).len() <= b.len(),
        b.subrange(i, i + name_part(v).len()) == name_part(v),
    ensures
        read_name_step(x, i, b) == (if flag_set(v.flags, FLAG_HAS_NAME) {
            (NeedleView { name_size: v.name.len() as u8, name: v.name, ..x }, i + name_part(v).len(), true)
        } else {
            (x, i, true)
        }),
{
    if flag_set(v.flags, FLAG_HAS_NAME) {
        let p = name_part(v);
        assert(b[i] == b.subrange(i, i + p.len())[0]);
        assert(b.subrange(i + 1, i + p.len()) =~= b.subrange(i, i + p.len()).subrange(1, p.len() as int));
        assert(p.subrange(1, p.len() as int) =~= v.name);
    }
}

proof fn lemma_mime_step(x: NeedleView, i: int, b: Seq<u8>, v: NeedleView)
    requires
        x.flags == v.flags,
        v.mime.len() < 256,
        0 <= i,
        i + mime_part(v).len() <= b.len(),
        b.subrange(i, i + mime_part(v).len()) == mime_part(v),
    ensures
        read_mime_step(x, i, b) == (if flag_set(v.flags, FLAG_HAS_MIME) {
            (NeedleView { mime_size: v.mime.len() as u8, mime: v.mime, ..x }, i + mime_part(v).len(), true)
        } else {
            (x, i, true)
        }),
{
    if flag_set(v.flags, FLAG_HAS_MIME) {
        let p = mime_part(v);
        assert(b[i] == b.subrange(i, i + p.len())[0]);
        assert(b.subrange(i + 1, i + p.len()) =~= b.subrange(i, i + p.len()).subrange(1, p.len() as int));
        assert(p.subrange(1, p.len() as int) =~= v.mime);
    }
}

proof fn lemma_last_modified_step(x: NeedleView, i: int, b: Seq<u8>, v: NeedleView)
    requires
        x.flags == v.flags,
        0 <= i,
        i + last_modified_part(v).len() <= b.len(),
        b.subrange(i, i + last_modified_part(v).len()) == last_modified_part(v),
    ensures
        read_last_modified_step(x, i, b) == (if flag_set(v.flags, FLAG_HAS_LAST_MODIFIED_DATE) {
            (NeedleView { last_modified: v.last_modified, ..x }, i + 8, true)
        } else {
            (x, i, true)
        }),
{
    if flag_set(v.flags, FLAG_HAS_LAST_MODIFIED_DATE) {
        crate::storage::codec::lemma_be_u64_roundtrip(v.last_modified);
    }
}

proof fn lemma_ttl_step(x: NeedleView, i: int, b: Seq<u8>, v: NeedleView)
    requires
        x.flags == v.flags,
        0 <= i,
        i + ttl_part(v).len() == b.len(),
        b.subrange(i, b.len() as int) == ttl_part(v),
    ensures
        read_ttl_step(x, i, b) == (if flag_set(v.flags, FLAG_HAS_TTL) {
            (NeedleView { ttl: v.ttl, ..x }, i + 2, true)
        } else {
            (x, i, true)
        }),
{
    if flag_set(v.flags, FLAG_HAS_TTL) {
        assert(b[i + 1] == ttl_part(v)[1]);
        assert(unit_from_index(unit_index(v.ttl.unit)) == Some(v.ttl.unit));
        assert(b.subrange(i, i + 2) =~= seq![v.ttl.count, unit_index(v.ttl.unit)]);
    }
}

/// Reading the body that `append` wrote gives back every field that the flags ask for.
#[verifier::rlimit(60)]
proof fn lemma_read_body(v: NeedleView, w: NeedleView)
    requires
        round_trips(v),
    ensures
        read_data_spec(w, record_body(v)).1,
        ({
            let n = read_data_spec(w, record_body(v)).0;
            &&& n.data_size == v.data.len()
            &&& n.data == v.data
            &&& n.flags == v.flags
            &&& flag_set(v.flags, FLAG_HAS_NAME) ==> n.name == v.name && n.name_size == v.name.len()
            &&& flag_set(v.flags, FLAG_HAS_MIME) ==> n.mime == v.mime && n.mime_size == v.mime.len()
            &&& flag_set(v.flags, FLAG_HAS_LAST_MODIFIED_DATE) ==> n.last_modified == v.last_modified
            &&& flag_set(v.flags, FLAG_HAS_TTL) ==> n.ttl == v.ttl
            &&& n.cookie == w.cookie && n.id == w.id && n.size == w.size && n.checksum == w.checksum
        }),
{
    lemma_body_layout(v);
    lemma_body_slices(v);
    let b = record_body(v);
    let ds = v.data.len() as u32;
    let o1 = 5 + ds;
    let o2 = o1 + name_part(v).len();
    let o3 = o2 + mime_part(v).len();
    let o4 = o3 + last_modified_part(v).len();
    crate::storage::codec::lemma_be_u32_roundtrip(ds);
    assert(be_u32_value(b) == be_u32_value(b.subrange(0, 4)));
    let s1 = read_data_step(w, b);
    assert(s1 == (NeedleView { data_size: ds, data: v.data, flags: v.flags, ..w }, o1, true));
    let s2 = read_name_step(s1.0, s1.1, b);
    lemma_name_step(s1.0, o1, b, v);
    let s3 = read_mime_step(s2.0, s2.1, b);
    lemma_mime_step(s2.0, o2, b, v);
    let s4 = read_last_modified_step(s3.0, s3.1, b);
    lemma_last_modified_step(s3.0, o3, b, v);
    let s5 = read_ttl_step(s4.0, s4.1, b);
    lemma_ttl_step(s4.0, o4, b, v);
}

/// The needle `n` holds what was written from `v`: the header, the data, the flags, each
/// optional part that the flags ask for, and the checksum.
pub open spec fn reads_back(n: NeedleView, v: NeedleView) -> bool {
    &&& n.cookie == v.cookie
    &&& n.id == v.id
    &&& n.size == record_size(v)
    &&& n.data_size == v.data.len()
    &&& n.data == v.data
    &&& n.flags == v.flags
    &&& flag_set(v.flags, FLAG_HAS_NAME) ==> n.name == v.name && n.name_size == v.name.len()
    &&& flag_set(v.flags, FLAG_HAS_MIME) ==> n.mime == v.mime && n.mime_size == v.mime.len()
    &&& flag_set(v.flags, FLAG_HAS_LAST_MODIFIED_DATE) ==> n.last_modified == v.last_modified
    &&& flag_set(v.flags, FLAG_HAS_TTL) ==> n.ttl == v.ttl
    &&& n.checksum == v.checksum
}

/// Law: the record that `append` writes for a needle reads back through `read_date`,
/// with the body size that `append` returned, as that needle: it is as long as its
/// size says, its header agrees, nothing in it fails to read, and every field the flags
/// ask for comes back. (So its checksum verifies exactly when it was the CRC-32C of the data.)
pub proof fn law_append_then_read(v: NeedleView, w: NeedleView)
    requires
        round_trips(v),
    ensures
        record_size(v) <= 0xffff_ffff - 20,
        record_bytes(v).len() == actual_size(record_size(v)),
        header_view(w, record_bytes(v)).size == record_size(v),
        record_readable(w, record_bytes(v), record_size(v), VERSION2),
        reads_back(read_record_view(w, record_bytes(v), record_size(v), VERSION2), v),
{
    lemma_body_layout(v);
    let size = record_size(v);
    let body = record_body(v);
    let b = record_bytes(v);
    assert(b == be_u32_bytes(v.cookie) + be_u64_bytes(v.id) + be_u32_bytes(size) + body
        + be_u32_bytes(v.checksum) + zeros(padding_len(size)));
    assert(b.subrange(0, 4) =~= be_u32_bytes(v.cookie));
    assert(b.subrange(4, 12) =~= be_u64_bytes(v.id));
    assert(b.subrange(12, 16) =~= be_u32_bytes(size));
    assert(b.subrange(16, 16 + size) =~= body);
    assert(b.subrange(16 + size, 20 + size) =~= be_u32_bytes(v.checksum));
    crate::storage::codec::lemma_be_u32_roundtrip(v.cookie);
    crate::storage::codec::lemma_be_u64_roundtrip(v.id);
    crate::storage::codec::lemma_be_u32_roundtrip(size);
    crate::storage::codec::lemma_be_u32_roundtrip(v.checksum);
    assert(be_u32_value(b) == be_u32_value(b.subrange(0, 4)));
    let h = header_view(w, b);
    lemma_read_body(v, h);
}

/// The position of the first byte `c` in `b`, if there is one.
pub open spec fn first_index_of(b: Seq<u8>, c: u8) -> Option<int>
    decreases b.len(),
{
    if b.len() == 0 {
        None
    } else if b[0] == c {
        Some(0)
    } else {
        match first_index_of(b.drop_first(), c) {
            Some(i) => Some(i + 1),
            None => None,
        }
    }
}

/// The key-and-cookie part of a file id's text: everything before the first `_`.
pub open spec fn fid_key_part(b: Seq<u8>) -> Seq<u8> {
    match first_index_of(b, 95u8) {
        Some(i) => b.take(i),
        None => b,
    }
}

/// The delta part of a file id's text: everything after the first `_`, if any.
pub open spec fn fid_delta_part(b: Seq<u8>) -> Seq<u8> {
    match first_index_of(b, 95u8) {
        Some(i) => b.skip(i + 1),
        None => seq![],
    }
}

/// A key-and-cookie text has an acceptable length: more than 8 and at most 24 bytes.
pub open spec fn key_hash_len_ok(h: Seq<u8>) -> bool {
    8 < h.len() <= 24
}

/// The text can be cut before its last 8 bytes: no UTF-8 character is split there
/// (the byte there is no continuation byte).
pub open spec fn key_hash_cuttable(h: Seq<u8>) -> bool {
    key_hash_len_ok(h) ==> !(128 <= h[h.len() - 8] < 192)
}

/// The key and cookie that a key-and-cookie text spells: the key in hexadecimal, then
/// the cookie in its last 8 bytes, also in hexadecimal.
pub open spec fn parse_key_hash_spec(h: Seq<u8>) -> Option<(u64, u32)> {
    if !key_hash_len_ok(h) {
        None
    } else {
        match (
            parse_uint(h.take(h.len() - 8), 16, 0xffff_ffff_ffff_ffff),
            parse_uint(h.skip(h.len() - 8), 16, 0xffff_ffff),
        ) {
            (Some(k), Some(c)) => Some((k as u64, c as u32)),
            _ => None,
        }
    }
}

/// Splits a key-and-cookie text into the key and the cookie.
pub fn parse_key_hash_bytes(hash: &[u8]) -> (r: Result<(u64, u32), Error>)
    requires
        key_hash_cuttable(hash@),
    ensures
        !key_hash_len_ok(hash@) ==> (r matches Err(Error::Other(_))),
        key_hash_len_ok(hash@) ==> match parse_key_hash_spec(hash@) {
            Some(kc) => r == Ok::<(u64, u32), Error>(kc),
            None => r matches Err(Error::ParseIntError),
        },
{
    if hash.len() <= 8 || hash.len() > 24 {
        return Err(Error::Other(String::from_str("key_hash too short or too long")));
    }
    let key_end = hash.len() - 8;
    let key_bytes = copy_range(hash, 0, key_end);
    let cookie_bytes = copy_range(hash, key_end, hash.len());
    assert(key_bytes@ =~= hash@.take(key_end as int));
    assert(cookie_bytes@ =~= hash@.skip(key_end as int));
    let key = match parse_uint_bytes(key_bytes.as_slice(), 16, 0xffff_ffff_ffff_ffff) {
        Some(k) => k,
        None => {
            return Err(Error::ParseIntError);
        },
    };
    let cookie = match parse_uint_bytes(cookie_bytes.as_slice(), 16, 0xffff_ffff) {
        Some(c) => c,
        None => {
            return Err(Error::ParseIntError);
        },
    };
    Ok((key, cookie as u32))
}

/// Splits a key-and-cookie text into the key and the cookie: more than 8 and at most 24
/// bytes, the key in hexadecimal, then the cookie in hexadecimal in the last 8 bytes.
pub fn parse_key_hash(hash: &str) -> (r: Result<(u64, u32), Error>)
    requires
        key_hash_cuttable(hash.spec_bytes()),
    ensures
        !key_hash_len_ok(hash.spec_bytes()) ==> (r matches Err(Error::Other(_))),
        key_hash_len_ok(hash.spec_bytes()) ==> match parse_key_hash_spec(hash.spec_bytes()) {
            Some(kc) => r == Ok::<(u64, u32), Error>(kc),
            None => r matches Err(Error::ParseIntError),
        },
{
    parse_key_hash_bytes(hash.as_bytes())
}

/// Where the first byte `c` lies, it lies inside `b`, and it is `c`.
pub proof fn lemma_first_index_of(b: Seq<u8>, c: u8)
    ensures
        first_index_of(b, c) matches Some(i) ==> 0 <= i < b.len() && b[i] == c,
    decreases b.len(),
{
    if b.len() > 0 && b[0] != c {
        lemma_first_index_of(b.drop_first(), c);
    }
}

/// Finds the first byte `c` in `b`.
pub fn find_byte(b: &[u8], c: u8) -> (r: Option<usize>)
    ensures
        match r {
            Some(i) => first_index_of(b@, c) == Some(i as int) && i < b@.len() && b@[i as int] == c,
            None => first_index_of(b@, c) is None,
        },
{
    proof {
        lemma_first_index_of(b@, c);
    }
    let mut i: usize = 0;
    assert(b@.skip(0) =~= b@);
    while i < b.len()
        invariant
            i <= b@.len(),
            first_index_of(b@, c) == (match first_index_of(b@.skip(i as int), c) {
                Some(j) => Some(j + i),
                None => None::<int>,
            }),
        decreases b@.len() - i,
    {
        assert(b@.skip(i as int).drop_first() =~= b@.skip(i + 1));
        if b[i] == c {
            return Some(i);
        }
        i = i + 1;
    }
    assert(b@.skip(i as int).len() == 0);
    None
}

/// Whether the key-and-cookie part of the file id text `fid` can be cut before its
/// cookie (see [`key_hash_cuttable`]), as [`Needle::parse_path`] requires.
pub fn fid_is_cuttable(fid: &str) -> (r: bool)
    ensures
        r == key_hash_cuttable(fid_key_part(fid.spec_bytes())),
{
    let b = fid.as_bytes();
    let end = match find_byte(b, 95u8) {
        Some(i) => i,
        None => b.len(),
    };
    assert(fid_key_part(b@) =~= b@.take(end as int));
    if end <= 8 || end > 24 {
        return true;
    }
    let c = b[end - 8];
    !(128 <= c && c < 192)
}

impl Needle {
    /// Reads the id and the cookie of this needle from a file id's text such as
    /// `01637037d6` (key, then an 8-digit cookie, in hexadecimal), optionally followed by
    /// `_` and a decimal delta that is added to the key.
    pub fn parse_path(&mut self, fid: &str) -> (r: Result<(), Error>)
        requires
            key_hash_cuttable(fid_key_part(fid.spec_bytes())),
        ensures
            final(self)@ == parse_path_spec(old(self)@, fid.spec_bytes()).0,
            match parse_path_spec(old(self)@, fid.spec_bytes()).1 {
                PathOutcome::Parsed => r is Ok,
                PathOutcome::BadNumber => r matches Err(Error::ParseIntError),
                _ => r matches Err(Error::Other(_)),
            },
    {
        let b = fid.as_bytes();
        if b.len() <= 8 {
            return Err(Error::Other(String::from_str("invalid fid")));
        }
        let (id, delta) = split_fid(b);
        let (key, cookie) = parse_key_hash_bytes(id.as_slice())?;
        self.id = key;
        self.cookie = cookie;
        if delta.len() > 0 {
            match parse_uint_bytes(delta.as_slice(), 10, 0xffff_ffff_ffff_ffff) {
                Some(x) => {
                    self.id = self.id.wrapping_add(x);
                },
                None => {
                    return Err(Error::ParseIntError);
                },
            }
        }
        Ok(())
    }

    /// The entity tag of this needle: the four bytes of its checksum, most significant
    /// first, each in decimal, one after another.
    pub open spec fn etag_text(&self) -> Seq<char> {
        let b = be_u32_bytes(self.checksum);
        dec_str(b[0] as nat) + dec_str(b[1] as nat) + dec_str(b[2] as nat) + dec_str(b[3] as nat)
    }

    /// The entity tag of this needle: see [`Needle::etag_text`].
    pub fn etag(&self) -> (r: String)
        ensures
            r@ == self.etag_text(),
    {
        let b = u32_be_bytes(self.checksum);
        let mut s = dec_string(b[0] as u64);
        let s1 = dec_string(b[1] as u64);
        let s2 = dec_string(b[2] as u64);
        let s3 = dec_string(b[3] as u64);
        s.append(s1.as_str());
        s.append(s2.as_str());
        s.append(s3.as_str());
        s
    }
}

/// Whether `read_needle_data` can read the body `bytes` into the needle `n` without failing.
pub fn body_is_readable(n: &Needle, bytes: &[u8]) -> (r: bool)
    ensures
        r == read_data_spec(n@, bytes@).1,
{
    let ghost b = bytes@;
    let ghost v = n@;
    let len = bytes.len();
    let mut idx: usize = 0;
    let mut flags = n.flags;
    if idx < len {
        if len < 4 {
            return false;
        }
        let ds = read_u32_be(bytes);
        if ds as usize >= len - 4 {
            return false;
        }
        idx = 4 + ds as usize;
        flags = bytes[idx];
        idx = idx + 1;
    }
    let ghost s1 = read_data_step(v, b);
    assert(s1.1 == idx && s1.2 && s1.0.flags == flags);
    if idx < len && flags & FLAG_HAS_NAME > 0 {
        let ns = bytes[idx] as usize;
        if ns > len - idx - 1 {
            return false;
        }
        idx = idx + 1 + ns;
    }
    let ghost s2 = read_name_step(s1.0, s1.1, b);
    assert(s2.1 == idx && s2.2 && s2.0.flags == flags);
    if idx < len && flags & FLAG_HAS_MIME > 0 {
        let ms = bytes[idx] as usize;
        if ms > len - idx - 1 {
            return false;
        }
        idx = idx + 1 + ms;
    }
    let ghost s3 = read_mime_step(s2.0, s2.1, b);
    assert(s3.1 == idx && s3.2 && s3.0.flags == flags);
    if idx < len && flags & FLAG_HAS_LAST_MODIFIED_DATE > 0 {
        if len - idx < 8 {
            return false;
        }
        idx = idx + 8;
    }
    let ghost s4 = read_last_modified_step(s3.0, s3.1, b);
    assert(s4.1 == idx && s4.2 && s4.0.flags == flags);
    if idx < len && flags & FLAG_HAS_TTL > 0 {
        if len - idx < 2 || bytes[idx + 1] > 6 {
            return false;
        }
        idx = idx + 2;
    }
    let ghost s5 = read_ttl_step(s4.0, s4.1, b);
    assert(s5.1 == idx && s5.2 && s5.0.flags == flags);
    !(idx < len && flags & FLAG_HAS_PAIRS > 0)
}

/// Whether `read_date` can read the record `bytes` of a body of `size` bytes into the
/// needle `n` without failing.
pub fn record_is_readable(n: &Needle, bytes: &[u8], size: u32, version: Version) -> (r: bool)
    requires
        size <= 0xffff_ffff - 20,
    ensures
        r == record_readable(n@, bytes@, size, version),
{
    let actual = get_actual_size(size);
    if (bytes.len() as u64) < actual || version != VERSION2 {
        return true;
    }
    let sb = copy_range(bytes, 12, 16);
    let hs = read_u32_be(sb.as_slice());
    if hs != size {
        return true;
    }
    let body = copy_range(bytes, 16, 16 + size as usize);
    let mut h = Needle::default();
    h.flags = n.flags;
    let ghost hv = header_view(n@, bytes@);
    assert(read_data_spec(hv, body@).1 == read_data_spec(h@, body@).1) by {
        lemma_readable_ignores_all_but_flags(hv, h@, body@);
    }
    body_is_readable(&h, body.as_slice())
}

/// Whether a body can be read depends on the needle read into only through its flags.
proof fn lemma_readable_ignores_all_but_flags(v: NeedleView, w: NeedleView, b: Seq<u8>)
    requires
        v.flags == w.flags,
    ensures
        read_data_spec(v, b).1 == read_data_spec(w, b).1,
{
    let s1 = read_data_step(v, b);
    let t1 = read_data_step(w, b);
    assert(s1.1 == t1.1 && s1.2 == t1.2 && s1.0.flags == t1.0.flags);
    let s2 = read_name_step(s1.0, s1.1, b);
    let t2 = read_name_step(t1.0, t1.1, b);
    assert(s2.1 == t2.1 && s2.2 == t2.2 && s2.0.flags == t2.0.flags);
    let s3 = read_mime_step(s2.0, s2.1, b);
    let t3 = read_mime_step(t2.0, t2.1, b);
    assert(s3.1 == t3.1 && s3.2 == t3.2 && s3.0.flags == t3.0.flags);
    let s4 = read_last_modified_step(s3.0, s3.1, b);
    let t4 = read_last_modified_step(t3.0, t3.1, b);
    assert(s4.1 == t4.1 && s4.2 == t4.2 && s4.0.flags == t4.0.flags);
    let s5 = read_ttl_step(s4.0, s4.1, b);
    let t5 = read_ttl_step(t4.0, t4.1, b);
    assert(s5.1 == t5.1 && s5.2 == t5.2 && s5.0.flags == t5.0.flags);
}

/// How reading a file id's text ends.
pub enum PathOutcome {
    /// The key and cookie were read.
    Parsed,
    /// The text has at most 8 bytes.
    TooShort,
    /// The key-and-cookie part is too short or too long.
    BadLength,
    /// A number could not be read.
    BadNumber,
}

/// What reading the file id's text `b` makes of needle `v`, and how it ends: the key and
/// cookie are set once they are read, and then the delta, if any, is added to the key
/// (wrapping at 2^64).
pub open spec fn parse_path_spec(v: NeedleView, b: Seq<u8>) -> (NeedleView, PathOutcome) {
    let h = fid_key_part(b);
    let d = fid_delta_part(b);
    if b.len() <= 8 {
        (v, PathOutcome::TooShort)
    } else if !key_hash_len_ok(h) {
        (v, PathOutcome::BadLength)
    } else {
        match parse_key_hash_spec(h) {
            None => (v, PathOutcome::BadNumber),
            Some((k, c)) => {
                let v1 = NeedleView { id: k, cookie: c, ..v };
                if d.len() == 0 {
                    (v1, PathOutcome::Parsed)
                } else {
                    match parse_uint(d, 10, 0xffff_ffff_ffff_ffff) {
                        None => (v1, PathOutcome::BadNumber),
                        Some(x) => (
                            NeedleView { id: ((k + x) % 0x1_0000_0000_0000_0000) as u64, ..v1 },
                            PathOutcome::Parsed,
                        ),
                    }
                }
            },
        }
    }
}

/// In `h`, then `c`, then `d`, where `h` has no `c`, the first `c` comes right after `h`.
proof fn lemma_first_index_after(h: Seq<u8>, c: u8, d: Seq<u8>)
    requires
        !h.contains(c),
    ensures
        first_index_of(h + seq![c] + d, c) == Some(h.len() as int),
    decreases h.len(),
{
    let b = h + seq![c] + d;
    if h.len() == 0 {
        assert(b[0] == c);
    } else {
        assert(h[0] != c);
        assert(!h.drop_first().contains(c)) by {
            if h.drop_first().contains(c) {
                let i = choose|i: int| 0 <= i < h.drop_first().len() && h.drop_first()[i] == c;
                assert(h[i + 1] == c);
            }
        }
        lemma_first_index_after(h.drop_first(), c, d);
        assert(b.drop_first() =~= h.drop_first() + seq![c] + d);
    }
}

/// Law: a file id with a delta (`_` and a decimal number after the key and cookie) reads
/// as the same file id without it, with the delta added to the key (wrapping at 2^64).
pub proof fn law_delta_adds_to_key(v: NeedleView, h: Seq<u8>, d: Seq<u8>, x: u64)
    requires
        !h.contains(95u8),
        parse_path_spec(v, h).1 == PathOutcome::Parsed,
        d.len() > 0,
        parse_uint(d, 10, 0xffff_ffff_ffff_ffff) == Some(x as int),
    ensures
        parse_path_spec(v, h + seq![95u8] + d).1 == PathOutcome::Parsed,
        parse_path_spec(v, h + seq![95u8] + d).0 == (NeedleView {
            id: ((parse_path_spec(v, h).0.id + x) % 0x1_0000_0000_0000_0000) as u64,
            ..parse_path_spec(v, h).0
        }),
{
    let b = h + seq![95u8] + d;
    lemma_first_index_after(h, 95u8, d);
    assert(fid_key_part(b) =~= h);
    assert(fid_delta_part(b) =~= d);
    assert(first_index_of(h, 95u8) is None) by {
        lemma_first_index_of(h, 95u8);
    }
    assert(fid_key_part(h) == h);
    assert(fid_delta_part(h) == Seq::<u8>::empty());
}

/// The key-and-cookie part and the delta part of a file id's text.
fn split_fid(b: &[u8]) -> (r: (Vec<u8>, Vec<u8>))
    ensures
        r.0@ == fid_key_part(b@),
        r.1@ == fid_delta_part(b@),
{
    let n = b.len();
    match find_byte(b, 95u8) {
        Some(idx) => {
            let i = copy_range(b, 0, idx);
            let d = copy_range(b, idx + 1, n);
            assert(i@ =~= b@.take(idx as int));
            assert(d@ =~= b@.skip(idx + 1));
            (i, d)
        },
        None => {
            let i = copy_range(b, 0, n);
            let d: Vec<u8> = Vec::new();
            assert(i@ =~= b@);
            assert(d@ =~= seq![]);
            (i, d)
        },
    }
}

} // verus!

