//! The index of a volume: the location of each needle, and counters about them.
use vstd::prelude::*;
use crate::storage::codec::{be_u32_value, be_u64_value, read_u32_be, read_u64_be, be_u32_bytes, be_u64_bytes, push_u32_be, push_u64_be, lemma_be_u32_roundtrip, lemma_be_u64_roundtrip};
use crate::storage::errors::Error;
use crate::storage::needle::{
    actual_size, copy_range, get_actual_size, true_offset, FLAG_IS_DELETE, NEEDLE_FLAG_OFFSET,
    NEEDLE_ID_OFFSET, NEEDLE_SIZE_OFFSET, flag_set, padding_len,
};
use crate::storage::needle_value::NeedleValue;
use crate::storage::needle_value_map::{lookup, MemNeedleValueMap, NeedleValueMap};

verus! {

/// Where the index of a volume is kept. Only memory is offered.
#[derive(Copy, Clone, Debug, PartialEq, Eq, Structural)]
pub enum NeedleMapType {
    NeedleMapInMemory,
}

impl Default for NeedleMapType {
    fn default() -> (r: NeedleMapType)
        ensures
            r == NeedleMapType::NeedleMapInMemory,
    {
        NeedleMapType::NeedleMapInMemory
    }
}

/// The size of the super block at the start of a volume file.
pub const SUPER_BLOCK_SIZE: usize = 8;

struct Metric {
    maximum_file_key: u64,
    file_count: u64,
    deleted_count: u64,
    deleted_byte_count: u64,
    file_byte_count: u64,
}

/// The index of a volume: the location of each needle, the largest key seen, and counts
/// of writes, of replaced or deleted needles, and of their bytes.
pub struct NeedleMapper {
    nvp: MemNeedleValueMap,
    metric: Metric,
}

/// The state of an index.
pub struct NeedleMapperView {
    pub entries: Map<u64, NeedleValue>,
    pub maximum_file_key: u64,
    pub file_count: u64,
    pub deleted_count: u64,
    pub deleted_byte_count: u64,
    pub file_byte_count: u64,
}

impl View for NeedleMapper {
    type V = NeedleMapperView;

    closed spec fn view(&self) -> NeedleMapperView {
        NeedleMapperView {
            entries: self.nvp.entries(),
            maximum_file_key: self.metric.maximum_file_key,
            file_count: self.metric.file_count,
            deleted_count: self.metric.deleted_count,
            deleted_byte_count: self.metric.deleted_byte_count,
            file_byte_count: self.metric.file_byte_count,
        }
    }
}

/// An empty index with all counters at zero.
pub open spec fn empty_mapper() -> NeedleMapperView {
    NeedleMapperView {
        entries: Map::empty(),
        maximum_file_key: 0,
        file_count: 0,
        deleted_count: 0,
        deleted_byte_count: 0,
        file_byte_count: 0,
    }
}

/// `a + b` wrapping at 2^64.
pub open spec fn wadd(a: u64, b: u64) -> u64 {
    ((a + b) % 0x1_0000_0000_0000_0000) as u64
}

/// The index after setting the location of `key`: the key joins the maximum, the write is
/// counted with its size, and a location it replaces counts as deleted with its size.
pub open spec fn mapper_set(m: NeedleMapperView, key: u64, nv: NeedleValue) -> NeedleMapperView {
    let replaced = lookup(m.entries, key);
    NeedleMapperView {
        entries: m.entries.insert(key, nv),
        maximum_file_key: if key > m.maximum_file_key {
            key
        } else {
            m.maximum_file_key
        },
        file_count: wadd(m.file_count, 1),
        file_byte_count: wadd(m.file_byte_count, nv.size as u64),
        deleted_count: match replaced {
            Some(_) => wadd(m.deleted_count, 1),
            None => m.deleted_count,
        },
        deleted_byte_count: match replaced {
            Some(n) => wadd(m.deleted_byte_count, n.size as u64),
            None => m.deleted_byte_count,
        },
    }
}

/// The index after removing `key`: a location it had counts as deleted with its size.
pub open spec fn mapper_delete(m: NeedleMapperView, key: u64) -> NeedleMapperView {
    let removed = lookup(m.entries, key);
    NeedleMapperView {
        entries: m.entries.remove(key),
        deleted_count: match removed {
            Some(_) => wadd(m.deleted_count, 1),
            None => m.deleted_count,
        },
        deleted_byte_count: match removed {
            Some(n) => wadd(m.deleted_byte_count, n.size as u64),
            None => m.deleted_byte_count,
        },
        ..m
    }
}

impl Default for NeedleMapper {
    fn default() -> (r: NeedleMapper)
        ensures
            r@ == empty_mapper(),
    {
        NeedleMapper {
            nvp: MemNeedleValueMap::new(),
            metric: Metric {
                maximum_file_key: 0,
                file_count: 0,
                deleted_count: 0,
                deleted_byte_count: 0,
                file_byte_count: 0,
            },
        }
    }
}

impl NeedleMapper {
    /// An empty index of the given kind.
    pub fn new(kind: NeedleMapType) -> (r: NeedleMapper)
        ensures
            r@ == empty_mapper(),
    {
        match kind {
            NeedleMapType::NeedleMapInMemory => NeedleMapper::default(),
        }
    }

    /// Sets the location of `key`; returns the location that it had.
    pub fn set(&mut self, key: u64, needle_value: NeedleValue) -> (r: Option<NeedleValue>)
        ensures
            final(self)@ == mapper_set(old(self)@, key, needle_value),
            r == lookup(old(self)@.entries, key),
    {
        if key > self.metric.maximum_file_key {
            self.metric.maximum_file_key = key;
        }
        self.metric.file_count = self.metric.file_count.wrapping_add(1);
        self.metric.file_byte_count = self.metric.file_byte_count.wrapping_add(
            needle_value.size as u64,
        );
        let old = self.nvp.set(key, needle_value);
        if let Some(n) = old {
            self.metric.deleted_count = self.metric.deleted_count.wrapping_add(1);
            self.metric.deleted_byte_count = self.metric.deleted_byte_count.wrapping_add(
                n.size as u64,
            );
        }
        old
    }

    /// Removes `key`; returns the location that it had.
    pub fn delete(&mut self, key: u64) -> (r: Option<NeedleValue>)
        ensures
            final(self)@ == mapper_delete(old(self)@, key),
            r == lookup(old(self)@.entries, key),
    {
        let old = self.nvp.delete(key);
        if let Some(n) = old {
            self.metric.deleted_count = self.metric.deleted_count.wrapping_add(1);
            self.metric.deleted_byte_count = self.metric.deleted_byte_count.wrapping_add(
                n.size as u64,
            );
        }
        old
    }

    /// The location of `key`, if it has one.
    pub fn get(&self, key: u64) -> (r: Option<NeedleValue>)
        ensures
            r == lookup(self@.entries, key),
    {
        self.nvp.get(key)
    }

    /// How many locations were set.
    pub fn file_count(&self) -> (r: u64)
        ensures
            r == self@.file_count,
    {
        self.metric.file_count
    }

    /// How many locations were replaced or removed.
    pub fn delete_count(&self) -> (r: u64)
        ensures
            r == self@.deleted_count,
    {
        self.metric.deleted_count
    }

    /// How many body bytes the replaced or removed locations had.
    pub fn deleted_byte_count(&self) -> (r: u64)
        ensures
            r == self@.deleted_byte_count,
    {
        self.metric.deleted_byte_count
    }

    /// The largest key that was set.
    pub fn max_file_key(&self) -> (r: u64)
        ensures
            r == self@.maximum_file_key,
    {
        self.metric.maximum_file_key
    }

    /// How many body bytes were set.
    pub fn content_size(&self) -> (r: u64)
        ensures
            r == self@.file_byte_count,
    {
        self.metric.file_byte_count
    }
}

/// Law: after the location of a key is set, the index hands back that location for it,
/// and the largest key seen is at least that key.
pub proof fn law_get_after_set(m: NeedleMapperView, key: u64, nv: NeedleValue)
    ensures
        lookup(mapper_set(m, key, nv).entries, key) == Some(nv),
        mapper_set(m, key, nv).maximum_file_key >= key,
        mapper_set(m, key, nv).maximum_file_key >= m.maximum_file_key,
{
}

/// Law: after a key is removed, the index hands back nothing for it; every other key
/// keeps its location.
pub proof fn law_get_after_delete(m: NeedleMapperView, key: u64, other: u64)
    requires
        other != key,
    ensures
        lookup(mapper_delete(m, key).entries, key) is None,
        lookup(mapper_delete(m, key).entries, other) == lookup(m.entries, other),
{
}

/// Law: setting one key leaves the location of every other key as it was.
pub proof fn law_set_keeps_others(m: NeedleMapperView, key: u64, nv: NeedleValue, other: u64)
    requires
        other != key,
    ensures
        lookup(mapper_set(m, key, nv).entries, other) == lookup(m.entries, other),
{
}

/// The key, offset and size that a 16-byte index entry holds, each big-endian.
pub open spec fn idx_entry_spec(b: Seq<u8>) -> (u64, u32, u32) {
    (be_u64_value(b), be_u32_value(b.subrange(8, 12)), be_u32_value(b.subrange(12, 16)))
}

/// The complete 16-byte entries of an index file, in order.
pub open spec fn index_entries(idx: Seq<u8>) -> Seq<(u64, u32, u32)> {
    Seq::new(idx.len() / 16, |i: int| idx_entry_spec(idx.subrange(16 * i, 16 * i + 16)))
}

/// The 16 bytes of index entry `e`: key, offset and size, each big-endian.
pub open spec fn entry_bytes(e: (u64, u32, u32)) -> Seq<u8> {
    be_u64_bytes(e.0) + be_u32_bytes(e.1) + be_u32_bytes(e.2)
}

/// The bytes of an index file holding the entries `es`, in order.
pub open spec fn index_file_of(es: Seq<(u64, u32, u32)>) -> Seq<u8>
    decreases es.len(),
{
    if es.len() == 0 {
        seq![]
    } else {
        index_file_of(es.drop_last()) + entry_bytes(es.last())
    }
}

/// The bytes of index entry (`key`, `offset`, `size`): see [`entry_bytes`].
pub fn index_entry_bytes(key: u64, offset: u32, size: u32) -> (r: Vec<u8>)
    ensures
        r@ == entry_bytes((key, offset, size)),
{
    let mut r: Vec<u8> = Vec::new();
    push_u64_be(&mut r, key);
    push_u32_be(&mut r, offset);
    push_u32_be(&mut r, size);
    assert(r@ =~= entry_bytes((key, offset, size)));
    r
}

/// The bytes of an index file are 16 per entry, and each entry's 16 bytes are its own.
proof fn lemma_index_file_of(es: Seq<(u64, u32, u32)>)
    ensures
        index_file_of(es).len() == 16 * es.len(),
        forall|i: int| 0 <= i < es.len() ==> index_file_of(es).subrange(16 * i, 16 * i + 16) == entry_bytes(#[trigger] es[i]),
    decreases es.len(),
{
    if es.len() > 0 {
        let pre = es.drop_last();
        lemma_index_file_of(pre);
        let b = index_file_of(es);
        assert forall|i: int| 0 <= i < es.len() implies b.subrange(16 * i, 16 * i + 16) == entry_bytes(#[trigger] es[i]) by {
            if i < es.len() - 1 {
                assert(pre[i] == es[i]);
                assert(b.subrange(16 * i, 16 * i + 16) =~= index_file_of(pre).subrange(16 * i, 16 * i + 16));
            } else {
                assert(b.subrange(16 * i, 16 * i + 16) =~= entry_bytes(es.last()));
            }
        }
    }
}

/// Law: the entries read back from the bytes of an index file written entry by entry are
/// the entries written, in order.
pub proof fn law_index_entries_roundtrip(es: Seq<(u64, u32, u32)>)
    ensures
        index_entries(index_file_of(es)) == es,
{
    lemma_index_file_of(es);
    let b = index_file_of(es);
    assert(b.len() / 16 == es.len()) by (nonlinear_arith)
        requires
            b.len() == 16 * es.len(),
    ;
    assert forall|i: int| 0 <= i < es.len() implies #[trigger] index_entries(b)[i] == es[i] by {
        let e = es[i];
        let x = b.subrange(16 * i, 16 * i + 16);
        assert(x == entry_bytes(e));
        lemma_be_u64_roundtrip(e.0);
        lemma_be_u32_roundtrip(e.1);
        lemma_be_u32_roundtrip(e.2);
        assert(x.subrange(0, 8) =~= be_u64_bytes(e.0));
        assert(x.subrange(8, 12) =~= be_u32_bytes(e.1));
        assert(x.subrange(12, 16) =~= be_u32_bytes(e.2));
        assert(be_u64_value(x) == be_u64_value(be_u64_bytes(e.0)));
    }
    assert(index_entries(b) =~= es);
}

/// One index entry applied to an index, with the offset and size of the entry of the
/// largest offset so far: a positive offset sets the key, offset 0 removes it.
pub open spec fn index_step(s: (NeedleMapperView, u32, u32), e: (u64, u32, u32)) -> (
    NeedleMapperView,
    u32,
    u32,
) {
    let (m, last_offset, last_size) = s;
    let (key, offset, size) = e;
    let m2 = if offset > 0 {
        mapper_set(m, key, NeedleValue { offset, size })
    } else {
        mapper_delete(m, key)
    };
    if offset > last_offset {
        (m2, offset, size)
    } else {
        (m2, last_offset, last_size)
    }
}

/// The entries `es` applied in order.
pub open spec fn apply_index(s: (NeedleMapperView, u32, u32), es: Seq<(u64, u32, u32)>) -> (
    NeedleMapperView,
    u32,
    u32,
)
    decreases es.len(),
{
    if es.len() == 0 {
        s
    } else {
        index_step(apply_index(s, es.drop_last()), es.last())
    }
}

/// Where the needles that the index does not cover start in the data file: just after
/// the needle of the largest offset, or after the super block.
pub open spec fn scan_start(last_offset: u32, last_size: u32) -> int {
    if last_offset > 0 {
        last_offset * 8 + actual_size(last_size)
    } else {
        SUPER_BLOCK_SIZE as int
    }
}

/// The index after reading the needles of the data file `data` from `off` on: while 21
/// bytes are left, the needle header there sets its key at that offset, or removes the
/// key when the needle's delete flag is set; the next needle follows the whole record.
pub open spec fn scan_data(m: NeedleMapperView, data: Seq<u8>, off: int) -> NeedleMapperView
    decreases (if off <= data.len() {
        data.len() - off
    } else {
        0
    }),
{
    if off < 0 || off + 21 > data.len() {
        m
    } else {
        let key = be_u64_value(data.subrange(off + 4, off + 12));
        let size = be_u32_value(data.subrange(off + 12, off + 16));
        let flag = data[off + 20];
        proof {
            let left = (20 + size) % 8;
            assert(0 <= left < 8);
            assert(padding_len(size) >= 0);
            assert(actual_size(size) >= 20);
        }
        let m2 = if flag_set(flag, FLAG_IS_DELETE) {
            mapper_delete(m, key)
        } else {
            mapper_set(m, key, NeedleValue { offset: ((off / 8) % 0x1_0000_0000) as u32, size })
        };
        scan_data(m2, data, off + actual_size(size))
    }
}

/// The index entries for the needles of the data file `data` read from `off` on (see
/// [`scan_data`]): each needle's key, its offset in units of 8 bytes (0 for a deleted
/// needle), and its size.
pub open spec fn scan_entries(data: Seq<u8>, off: int) -> Seq<(u64, u32, u32)>
    decreases (if off <= data.len() {
        data.len() - off
    } else {
        0
    }),
{
    if off < 0 || off + 21 > data.len() {
        seq![]
    } else {
        let key = be_u64_value(data.subrange(off + 4, off + 12));
        let size = be_u32_value(data.subrange(off + 12, off + 16));
        let flag = data[off + 20];
        proof {
            let left = (20 + size) % 8;
            assert(0 <= left < 8);
            assert(padding_len(size) >= 0);
            assert(actual_size(size) >= 20);
        }
        let offset: u32 = if flag_set(flag, FLAG_IS_DELETE) {
            0
        } else {
            ((off / 8) % 0x1_0000_0000) as u32
        };
        seq![(key, offset, size)] + scan_entries(data, off + actual_size(size))
    }
}

/// Reads one 16-byte index entry: key, offset and size.
fn idx_entry(buf: &[u8]) -> (r: (u64, u32, u32))
    requires
        buf@.len() >= 16,
    ensures
        r == idx_entry_spec(buf@),
{
    let key = read_u64_be(buf);
    let ob = copy_range(buf, 8, 12);
    let sb = copy_range(buf, 12, 16);
    (key, read_u32_be(ob.as_slice()), read_u32_be(sb.as_slice()))
}

/// The entries of an index file: every complete 16-byte entry, in order, and an error
/// when an incomplete entry ends the file.
pub fn index_file_entries(index: &[u8]) -> (r: (Vec<(u64, u32, u32)>, Result<(), Error>))
    ensures
        r.0@ == index_entries(index@),
        index@.len() % 16 == 0 ==> r.1 is Ok,
        index@.len() % 16 != 0 ==> (r.1 matches Err(Error::UnexpectedEof)),
{
    let n = index.len() / 16;
    let mut entries: Vec<(u64, u32, u32)> = Vec::new();
    let mut i: usize = 0;
    let mut pos: usize = 0;
    let len = index.len();
    while i < n
        invariant
            len == index@.len(),
            n == index@.len() / 16,
            i <= n,
            pos == 16 * i,
            pos <= index@.len(),
            entries@ =~= index_entries(index@).take(i as int),
        decreases n - i,
    {
        assert(16 * i + 16 <= index@.len()) by (nonlinear_arith)
            requires
                i < n,
                n == index@.len() / 16,
        ;
        let buf = copy_range(index, pos, pos + 16);
        let e = idx_entry(buf.as_slice());
        entries.push(e);
        i = i + 1;
        pos = pos + 16;
    }
    assert(index_entries(index@).take(n as int) =~= index_entries(index@));
    if index.len() % 16 != 0 {
        (entries, Err(Error::UnexpectedEof))
    } else {
        (entries, Ok(()))
    }
}

/// Walks through the index file `index`: calls `call` with the key, offset and size of
/// each complete entry, in order, and stops at the first error it returns, which is
/// returned; an incomplete entry at the end is an `UnexpectedEof` after the complete
/// ones.
pub fn walk_index_file<F: Fn(u64, u32, u32) -> Result<(), Error>>(index: &[u8], call: &F) -> (r: Result<(), Error>)
    requires
        forall|k: u64, o: u32, s: u32| call_requires(*call, (k, o, s)),
    ensures
        r is Ok ==> index@.len() % 16 == 0 && forall|i: int| 0 <= i < index_entries(index@).len() ==> call_ensures(
            *call,
            #[trigger] index_entries(index@)[i],
            Ok::<(), Error>(()),
        ),
        r matches Err(e) ==> {
            ||| exists|i: int| 0 <= i < index_entries(index@).len() && call_ensures(*call, #[trigger] index_entries(index@)[i], Err::<(), Error>(e))
                && forall|j: int| 0 <= j < i ==> call_ensures(*call, #[trigger] index_entries(index@)[j], Ok::<(), Error>(()))
            ||| index@.len() % 16 != 0 && e is UnexpectedEof && forall|i: int| 0 <= i < index_entries(index@).len() ==> call_ensures(
                *call,
                #[trigger] index_entries(index@)[i],
                Ok::<(), Error>(()),
            )
        },
{
    let (entries, walked) = index_file_entries(index);
    let mut i: usize = 0;
    while i < entries.len()
        invariant
            i <= entries@.len(),
            entries@ == index_entries(index@),
            forall|k: u64, o: u32, s: u32| call_requires(*call, (k, o, s)),
            forall|j: int| 0 <= j < i ==> call_ensures(*call, #[trigger] index_entries(index@)[j], Ok::<(), Error>(())),
        decreases entries@.len() - i,
    {
        let (k, o, s) = entries[i];
        let res = call(k, o, s);
        assert(call_ensures(*call, (k, o, s), res));
        assert(index_entries(index@)[i as int] == (k, o, s));
        match res {
            Ok(x) => {
                assert(x == ());
                assert(res == Ok::<(), Error>(()));
                assert(call_ensures(*call, index_entries(index@)[i as int], Ok::<(), Error>(())));
            },
            Err(e) => {
                return Err(e);
            },
        }
        i = i + 1;
    }
    walked
}

impl NeedleMapper {
    /// Loads the index of a volume from the bytes of its index file and of its data
    /// file: applies every complete index entry, fails if an incomplete entry ends the
    /// index file, and otherwise reads the needles that follow the last indexed one.
    /// Returns the index entries of the needles so read, which the index file lacks.
    pub fn load_idx_file(&mut self, index_file: &[u8], data_file: &[u8]) -> (r: Result<Vec<(u64, u32, u32)>, Error>)
        requires
            data_file@.len() <= 0x7fff_ffff_ffff_ffff,
        ensures
            ({
                let s = apply_index((old(self)@, 0u32, 0u32), index_entries(index_file@));
                &&& index_file@.len() % 16 != 0 ==> (r matches Err(Error::UnexpectedEof))
                    && final(self)@ == s.0
                &&& index_file@.len() % 16 == 0 ==> (r matches Ok(v) && v@ == scan_entries(data_file@, scan_start(s.1, s.2)))
                    && final(self)@ == scan_data(s.0, data_file@, scan_start(s.1, s.2))
            }),
    {
        let (entries, walked) = index_file_entries(index_file);
        let mut last_offset: u32 = 0;
        let mut last_size: u32 = 0;
        let mut i: usize = 0;
        let ghost start = old(self)@;
        while i < entries.len()
            invariant
                i <= entries@.len(),
                entries@ == index_entries(index_file@),
                (self@, last_offset, last_size) == apply_index(
                    (start, 0u32, 0u32),
                    entries@.take(i as int),
                ),
            decreases entries@.len() - i,
        {
            let (key, offset, size) = entries[i];
            assert(entries@.take(i + 1).drop_last() =~= entries@.take(i as int));
            if offset > 0 {
                self.set(key, NeedleValue { offset, size });
            } else {
                self.delete(key);
            }
            if offset > last_offset {
                last_offset = offset;
                last_size = size;
            }
            i = i + 1;
        }
        assert(entries@.take(i as int) =~= entries@);
        if walked.is_err() {
            return Err(Error::UnexpectedEof);
        }
        let mut next_offset: u64 = if last_offset > 0 {
            true_offset(last_offset) + get_actual_size(last_size)
        } else {
            SUPER_BLOCK_SIZE as u64
        };
        let ghost first = self@;
        let ghost start_off = scan_start(last_offset, last_size);
        let mut found: Vec<(u64, u32, u32)> = Vec::new();
        let len = data_file.len() as u64;
        while next_offset <= len && len - next_offset >= 21
            invariant
                len == data_file@.len(),
                data_file@.len() <= usize::MAX,
                len <= 0x7fff_ffff_ffff_ffff,
                next_offset <= len + 0x10_0000_0000,
                scan_data(first, data_file@, scan_start(last_offset, last_size)) == scan_data(
                    self@,
                    data_file@,
                    next_offset as int,
                ),
                start_off == scan_start(last_offset, last_size),
                scan_entries(data_file@, start_off) == found@ + scan_entries(data_file@, next_offset as int),
            decreases len + 0x10_0000_0000 - next_offset,
        {
            let off = next_offset as usize;
            let kb = copy_range(data_file, off + NEEDLE_ID_OFFSET, off + NEEDLE_ID_OFFSET + 8);
            let key = read_u64_be(kb.as_slice());
            let sb = copy_range(data_file, off + NEEDLE_SIZE_OFFSET, off + NEEDLE_SIZE_OFFSET + 4);
            let size = read_u32_be(sb.as_slice());
            let flag = data_file[off + NEEDLE_FLAG_OFFSET];
            let ghost f0 = found@;
            if flag & FLAG_IS_DELETE > 0 {
                self.delete(key);
                found.push((key, 0, size));
            } else {
                let offset = ((next_offset / 8) % 0x1_0000_0000) as u32;
                self.set(key, NeedleValue { offset, size });
                found.push((key, offset, size));
            }
            let ghost cur = next_offset as int;
            next_offset = next_offset + get_actual_size(size);
            proof {
                assert(scan_entries(data_file@, cur) == seq![found@.last()] + scan_entries(data_file@, next_offset as int));
                assert(found@ =~= f0 + seq![found@.last()]);
                assert(f0 + scan_entries(data_file@, cur) =~= found@ + scan_entries(data_file@, next_offset as int));
            }
        }
        proof {
            assert(scan_entries(data_file@, next_offset as int) =~= seq![]);
            assert(found@ + scan_entries(data_file@, next_offset as int) =~= found@);
        }
        Ok(found)
    }
}

} // verus!
