//! A volume: an append-only file of needle records with its index. This module holds
//! what a volume decides; opening, reading and writing its files is left to the caller.
use vstd::prelude::*;
use crate::storage::codec::{be_u16_bytes, be_u16_value, read_u16_be, u16_be_bytes};
use crate::storage::errors::Error;
use crate::storage::needle::{
    Needle, NeedleView, appended_view, actual_size, record_bytes, record_readable,
    record_size, read_record_view, header_view, flag_set, FLAG_HAS_PAIRS, FLAG_HAS_TTL,
    FLAG_HAS_LAST_MODIFIED_DATE, NEEDLE_PADDING_SIZE, round_trips, reads_back, law_append_then_read,
};
use crate::storage::needle_map::{NeedleMapType, NeedleMapper, NeedleMapperView, mapper_set, SUPER_BLOCK_SIZE, law_get_after_set};
use crate::storage::needle_value::NeedleValue;
use crate::storage::needle_value_map::lookup;
use crate::storage::replica_placement::{ReplicaPlacement, placement_of_bytes, three_digits};
use crate::storage::ttl::{TTL, Unit, ttl_from_bytes, ttl_minutes, unit_from_index, unit_index};
use crate::storage::version::{Version, CURRENT_VERSION};
use crate::storage::volume_info::VolumeInfo;
use crate::storage::VolumeId;
use crate::storage::codec::crc32c;
use crate::text::{dec_str, dec_string};

verus! {

/// The first bytes of a volume file: format version, replication, ttl and compaction
/// revision.
#[derive(Copy, Clone, Debug, PartialEq, Eq, Structural)]
pub struct SuperBlock {
    pub version: Version,
    pub replica_placement: ReplicaPlacement,
    pub ttl: TTL,
    pub compact_revision: u16,
}

impl Default for SuperBlock {
    fn default() -> (r: SuperBlock)
        ensures
            r == (SuperBlock {
                version: CURRENT_VERSION,
                replica_placement: ReplicaPlacement {
                    same_rack_count: 0,
                    diff_rack_count: 0,
                    diff_data_center_count: 0,
                },
                ttl: TTL { count: 0, unit: Unit::Empty },
                compact_revision: 0,
            }),
    {
        SuperBlock {
            version: CURRENT_VERSION,
            replica_placement: ReplicaPlacement::default(),
            ttl: TTL::default(),
            compact_revision: 0,
        }
    }
}

/// The super block that the bytes `b` hold.
pub open spec fn super_block_of(b: Seq<u8>) -> SuperBlock {
    SuperBlock {
        version: b[0],
        replica_placement: placement_of_bytes(three_digits(b[1])),
        ttl: ttl_from_bytes(b.subrange(2, 4)),
        compact_revision: be_u16_value(b.subrange(4, 6)),
    }
}

/// The bytes of a super block: version, replication byte, ttl, revision, then zeros up
/// to 8 bytes.
pub open spec fn super_block_bytes(sb: SuperBlock) -> Seq<u8> {
    seq![
        sb.version,
        sb.replica_placement.byte_spec(),
        sb.ttl.count,
        unit_index(sb.ttl.unit),
    ] + be_u16_bytes(sb.compact_revision) + seq![0u8, 0u8]
}

impl ReplicaPlacement {
    /// The byte that stores this placement.
    pub open spec fn byte_spec(&self) -> u8 {
        ((self.diff_data_center_count * 100 + self.diff_rack_count * 10 + self.same_rack_count)
            % 256) as u8
    }
}

impl SuperBlock {
    /// Reads a super block from the first bytes of a volume file.
    pub fn parse(buf: Vec<u8>) -> (r: Result<SuperBlock, Error>)
        requires
            buf@.len() >= 6,
            unit_from_index(buf@[3]) is Some,
        ensures
            r matches Ok(sb) && sb == super_block_of(buf@),
    {
        let rp = ReplicaPlacement::from_u8(buf[1])?;
        let mut t: Vec<u8> = Vec::new();
        t.push(buf[2]);
        t.push(buf[3]);
        assert(t@ =~= buf@.subrange(2, 4));
        let ttl = TTL::from_bytes(t);
        let mut c: Vec<u8> = Vec::new();
        c.push(buf[4]);
        c.push(buf[5]);
        let cr = read_u16_be(c.as_slice());
        assert(c@ =~= buf@.subrange(4, 6));
        Ok(SuperBlock { version: buf[0], replica_placement: rp, ttl, compact_revision: cr })
    }

    /// The eight bytes of this super block.
    pub fn bytes(&self) -> (r: Vec<u8>)
        ensures
            r@ == super_block_bytes(*self),
    {
        let mut buf: Vec<u8> = Vec::new();
        buf.push(self.version);
        buf.push(self.replica_placement.byte());
        let t = self.ttl.bytes();
        buf.push(t[0]);
        buf.push(t[1]);
        let c = u16_be_bytes(self.compact_revision);
        buf.push(c[0]);
        buf.push(c[1]);
        buf.push(0);
        buf.push(0);
        assert(buf@ =~= super_block_bytes(*self));
        buf
    }
}

/// Law: a super block read back from its bytes keeps its version, ttl and compaction
/// revision, and its replication comes back as the three-digit text of its byte reads.
pub proof fn law_super_block_roundtrip(sb: SuperBlock)
    ensures
        super_block_bytes(sb).len() == SUPER_BLOCK_SIZE,
        unit_from_index(super_block_bytes(sb)[3]) is Some,
        super_block_of(super_block_bytes(sb)).version == sb.version,
        super_block_of(super_block_bytes(sb)).ttl == sb.ttl,
        super_block_of(super_block_bytes(sb)).compact_revision == sb.compact_revision,
        super_block_of(super_block_bytes(sb)).replica_placement == placement_of_bytes(
            three_digits(sb.replica_placement.byte_spec()),
        ),
{
    let b = super_block_bytes(sb);
    assert(b.subrange(2, 4) =~= seq![sb.ttl.count, unit_index(sb.ttl.unit)]);
    assert(b.subrange(4, 6) =~= be_u16_bytes(sb.compact_revision));
    crate::storage::codec::lemma_be_u16_roundtrip(sb.compact_revision);
    assert(unit_from_index(unit_index(sb.ttl.unit)) == Some(sb.ttl.unit));
}

/// Law: a replication whose three counts are equal and at most 2 (`000`, `111`, `222`)
/// comes back whole from a super block's bytes.
pub proof fn law_super_block_keeps_uniform_placement(sb: SuperBlock)
    requires
        sb.replica_placement.same_rack_count == sb.replica_placement.diff_rack_count,
        sb.replica_placement.diff_rack_count == sb.replica_placement.diff_data_center_count,
        sb.replica_placement.same_rack_count <= 2,
    ensures
        super_block_of(super_block_bytes(sb)) == sb,
{
    law_super_block_roundtrip(sb);
    let d = sb.replica_placement.same_rack_count;
    assert(sb.replica_placement.byte_spec() == d * 111);
    assert(three_digits((d * 111) as u8) == seq![(d + 48) as u8, (d + 48) as u8, (d + 48) as u8]);
}

/// A volume: its id, directory and collection, its index, its super block, and the time
/// it was last written. Its files are held by the caller, which reads and writes them
/// where this type says.
pub struct Volume {
    pub id: VolumeId,
    pub dir: String,
    pub collection: String,
    pub nm: NeedleMapper,
    pub needle_map_kind: NeedleMapType,
    pub replica_placement: ReplicaPlacement,
    pub read_only: bool,
    pub super_block: SuperBlock,
    pub last_modified_time: u64,
    pub last_compact_index_offset: u64,
    pub last_compact_revision: u16,
}

/// The base name of a volume's files: the directory (with a `/` added if it has none at
/// its end), then the collection and `_` if there is a collection, then the id.
pub open spec fn volume_file_name(dir: Seq<char>, collection: Seq<char>, id: u32) -> Seq<char> {
    let d = if dir.len() > 0 && dir.last() == '/' {
        dir
    } else {
        dir + seq!['/']
    };
    if collection.len() == 0 {
        d + dec_str(id as nat)
    } else {
        d + collection + seq!['_'] + dec_str(id as nat)
    }
}

/// `offset` moved up to the next multiple of 8.
pub open spec fn align_up(offset: u64) -> int {
    if offset % 8 != 0 {
        offset + (8 - offset % 8)
    } else {
        offset as int
    }
}

/// A time to live has passed: `now` is at or past `last_modified` plus the minutes
/// (in seconds, wrapping at 2^64, then read as an i64).
pub open spec fn ttl_passed(last_modified: u64, minutes: int, now: i64) -> bool {
    now >= (((last_modified + minutes * 60) % 0x1_0000_0000_0000_0000) as u64) as i64
}

/// `v` is a volume just made by `Volume::new` from these arguments.
pub open spec fn is_new_volume(
    v: &Volume,
    dir: Seq<char>,
    collection: Seq<char>,
    id: u32,
    kind: NeedleMapType,
    rp: ReplicaPlacement,
    ttl: TTL,
) -> bool {
    &&& v.id == id
    &&& v.dir@ == dir
    &&& v.collection@ == collection
    &&& v.nm@ == crate::storage::needle_map::empty_mapper()
    &&& v.needle_map_kind == kind
    &&& v.super_block == (SuperBlock {
        version: CURRENT_VERSION,
        replica_placement: rp,
        ttl,
        compact_revision: 0,
    })
    &&& v.replica_placement == (ReplicaPlacement {
        same_rack_count: 0,
        diff_rack_count: 0,
        diff_data_center_count: 0,
    })
    &&& !v.read_only
    &&& v.last_modified_time == 0
    &&& v.last_compact_index_offset == 0
    &&& v.last_compact_revision == 0
}

/// Whether volume `v` has expired at `now`: its size limit is not 0, it is not empty (the
/// bytes its index has set are not 0), it has a ttl, and `now` is past its last write
/// plus its ttl (in seconds, wrapping at 2^64).
pub open spec fn volume_expired(v: &Volume, volume_size_limit: u64, now: u64) -> bool {
    volume_size_limit != 0 && v.nm@.file_byte_count != 0 && ttl_minutes(v.super_block.ttl) != 0 && now
        > (v.last_modified_time + ttl_minutes(v.super_block.ttl) * 60) % 0x1_0000_0000_0000_0000
}

/// Whether volume `v` expired long enough ago at `now` to be removed: it has a ttl, and
/// its ttl plus a delay of a tenth of the ttl, at most `max_delay_minutes`, after its last
/// write (in seconds, wrapping at 2^64) lies before `now`.
pub open spec fn volume_expired_long_enough(v: &Volume, max_delay_minutes: u64, now: u64) -> bool {
    let m = ttl_minutes(v.super_block.ttl);
    let delay = if m / 10 > max_delay_minutes {
        max_delay_minutes as int
    } else {
        m / 10
    };
    m != 0 && ((m + delay) * 60 + v.last_modified_time) % 0x1_0000_0000_0000_0000 < now
}

impl Volume {
    /// A volume with an empty index and a super block of the given replication and ttl.
    /// Its own replication field starts at the default; its files are still to be opened.
    pub fn new(
        dir: &str,
        collection: &str,
        id: VolumeId,
        needle_map_kind: NeedleMapType,
        replica_placement: ReplicaPlacement,
        ttl: TTL,
        _pre_allocate: i64,
    ) -> (r: Volume)
        ensures
            is_new_volume(&r, dir@, collection@, id, needle_map_kind, replica_placement, ttl),
            r.id == id,
            r.dir@ == dir@,
            r.collection@ == collection@,
            r.nm@ == crate::storage::needle_map::empty_mapper(),
            r.needle_map_kind == needle_map_kind,
            r.super_block == (SuperBlock {
                version: CURRENT_VERSION,
                replica_placement,
                ttl,
                compact_revision: 0,
            }),
            r.replica_placement == (ReplicaPlacement {
                same_rack_count: 0,
                diff_rack_count: 0,
                diff_data_center_count: 0,
            }),
            !r.read_only,
            r.last_modified_time == 0,
            r.last_compact_index_offset == 0,
            r.last_compact_revision == 0,
    {
        let sb = SuperBlock {
            version: CURRENT_VERSION,
            replica_placement,
            ttl,
            compact_revision: 0,
        };
        Volume {
            id,
            dir: String::from_str(dir),
            collection: String::from_str(collection),
            super_block: sb,
            needle_map_kind,
            nm: NeedleMapper::default(),
            read_only: false,
            last_compact_index_offset: 0,
            last_compact_revision: 0,
            last_modified_time: 0,
            replica_placement: ReplicaPlacement::default(),
        }
    }

    /// Takes the super block read from the start of the data file.
    pub fn read_super_block(&mut self, buf: Vec<u8>) -> (r: Result<(), Error>)
        requires
            buf@.len() >= 6,
            unit_from_index(buf@[3]) is Some,
        ensures
            r is Ok,
            final(self).super_block == super_block_of(buf@),
            final(self).nm@ == old(self).nm@,
            final(self).id == old(self).id,
            final(self).read_only == old(self).read_only,
            final(self).last_modified_time == old(self).last_modified_time,
    {
        self.super_block = SuperBlock::parse(buf)?;
        Ok(())
    }

    /// The format version of this volume.
    pub fn version(&self) -> (r: Version)
        ensures
            r == self.super_block.version,
    {
        self.super_block.version
    }

    /// The base name of this volume's files.
    pub fn file_name(&self) -> (r: String)
        ensures
            r@ == volume_file_name(self.dir@, self.collection@, self.id),
    {
        let mut rt = self.dir.clone();
        let n = rt.unicode_len();
        proof {
            reveal_strlit("/");
            reveal_strlit("_");
        }
        if n == 0 || rt.as_str().get_char(n - 1) != '/' {
            rt.append("/");
        }
        if self.collection.unicode_len() == 0 {
            let id = dec_string(self.id as u64);
            rt.append(id.as_str());
        } else {
            rt.append(self.collection.as_str());
            rt.append("_");
            let id = dec_string(self.id as u64);
            rt.append(id.as_str());
        }
        rt
    }

    /// The name of this volume's data file: the base name and `.dat`.
    pub fn data_file_name(&self) -> (r: String)
        ensures
            r@ == volume_file_name(self.dir@, self.collection@, self.id) + seq!['.', 'd', 'a', 't'],
    {
        let mut f = self.file_name();
        proof {
            reveal_strlit(".dat");
        }
        f.append(".dat");
        f
    }

    /// The name of this volume's index file: the base name and `.idx`.
    pub fn index_file_name(&self) -> (r: String)
        ensures
            r@ == volume_file_name(self.dir@, self.collection@, self.id) + seq!['.', 'i', 'd', 'x'],
    {
        let mut f = self.file_name();
        proof {
            reveal_strlit(".idx");
        }
        f.append(".idx");
        f
    }

    /// The size of this volume's content: the bytes its index has set.
    pub fn content_size(&self) -> (r: u64)
        ensures
            r == self.nm@.file_byte_count,
    {
        self.nm.content_size()
    }

    /// What the directory server should know of this volume.
    pub fn get_volume_info(&self) -> (r: VolumeInfo)
        ensures
            r.id == self.id,
            r.size == self.nm@.file_byte_count,
            r.replica_placement == self.super_block.replica_placement,
            r.ttl == self.super_block.ttl,
            r.collection == self.collection,
            r.version == self.super_block.version,
            r.file_count == self.nm@.file_count as i64,
            r.delete_count == self.nm@.deleted_count as i64,
            r.delte_byte_count == self.nm@.deleted_byte_count,
            r.read_only == self.read_only,
    {
        VolumeInfo {
            id: self.id,
            size: self.content_size(),
            replica_placement: self.super_block.replica_placement,
            ttl: self.super_block.ttl,
            collection: self.collection.clone(),
            version: self.version(),
            file_count: self.nm.file_count() as i64,
            delete_count: self.nm.delete_count() as i64,
            delte_byte_count: self.nm.deleted_byte_count(),
            read_only: self.read_only,
        }
    }

    /// Whether this volume has expired at `now` (seconds since the epoch). A volume does
    /// not expire when the size limit is 0, when it is empty, or when it has no ttl; else
    /// it has expired when `now` is past its last write plus its ttl.
    pub fn expired(&self, volume_size_limit: u64, now: u64) -> (r: bool)
        ensures
            r == volume_expired(self, volume_size_limit, now),
    {
        if volume_size_limit == 0 {
            return false;
        }
        if self.content_size() == 0 {
            return false;
        }
        let minutes = self.super_block.ttl.minutes();
        if minutes == 0 {
            return false;
        }
        if now > self.last_modified_time.wrapping_add(minutes as u64 * 60) {
            return true;
        }
        false
    }

    /// Whether this volume's own replication asks for more than one copy.
    pub fn need_to_replicate(&self) -> (r: bool)
        ensures
            r == ((self.replica_placement.diff_data_center_count
                + self.replica_placement.diff_rack_count + self.replica_placement.same_rack_count
                + 1) % 256 > 1),
    {
        self.replica_placement.get_copy_count() > 1
    }

    /// Whether this volume expired long enough ago at `now` to be removed: its ttl plus a
    /// delay of a tenth of the ttl, at most `max_delay_minutes`, lies before `now`.
    pub fn expired_long_enough(&self, max_delay_minutes: u64, now: u64) -> (r: bool)
        ensures
            r == volume_expired_long_enough(self, max_delay_minutes, now),
    {
        let ttl = self.super_block.ttl;
        let minutes = ttl.minutes() as u64;
        if minutes == 0 {
            return false;
        }
        let mut delay: u64 = minutes / 10;
        if delay > max_delay_minutes {
            delay = max_delay_minutes;
        }
        let t = ((minutes as u128 + delay as u128) * 60 + self.last_modified_time as u128)
            % 0x1_0000_0000_0000_0000;
        if (t as u64) < now {
            return true;
        }
        false
    }
}

/// Two volumes agree on everything but the index and the time of the last write.
pub open spec fn same_but_index(a: &Volume, b: &Volume) -> bool {
    &&& a.id == b.id
    &&& a.dir == b.dir
    &&& a.collection == b.collection
    &&& a.needle_map_kind == b.needle_map_kind
    &&& a.replica_placement == b.replica_placement
    &&& a.read_only == b.read_only
    &&& a.super_block == b.super_block
    &&& a.last_compact_index_offset == b.last_compact_index_offset
    &&& a.last_compact_revision == b.last_compact_revision
}

/// The outcome of reading needle `n` from volume `v`, given the record bytes `blob` read
/// at its location and the time `now`: the needle after the read, and the error if any.
pub enum ReadOutcome {
    /// The read succeeded.
    Found,
    /// The index has no location for the key.
    NotFound,
    /// The index says the needle was deleted.
    AlreadyDeleted,
    /// The record could not be read or its checksum did not match.
    BadRecord,
    /// The needle's time to live has passed.
    Expired,
}

/// What reading needle `n` from a volume with index `m` and version `version` gives, with
/// the record bytes `blob` read at its location and the time `now` in seconds.
pub open spec fn read_needle_spec(
    m: NeedleMapperView,
    version: u8,
    n: NeedleView,
    blob: Seq<u8>,
    now: i64,
) -> (NeedleView, ReadOutcome) {
    match lookup(m.entries, n.id) {
        None => (n, ReadOutcome::NotFound),
        Some(nv) => if nv.offset == 0 {
            (n, ReadOutcome::AlreadyDeleted)
        } else {
            let (rn, ok) = crate::storage::needle::read_date_spec(n, blob, nv.size, version);
            if !ok {
                (rn, ReadOutcome::BadRecord)
            } else if flag_set(rn.flags, FLAG_HAS_TTL) && flag_set(rn.flags, FLAG_HAS_LAST_MODIFIED_DATE)
                && ttl_minutes(rn.ttl) > 0 && ttl_passed(rn.last_modified, ttl_minutes(rn.ttl), now) {
                (rn, ReadOutcome::Expired)
            } else {
                (rn, ReadOutcome::Found)
            }
        },
    }
}

/// The record bytes `blob` for needle `n` can be read without failing.
pub open spec fn needle_readable(m: NeedleMapperView, version: u8, n: NeedleView, blob: Seq<u8>) -> bool {
    match lookup(m.entries, n.id) {
        Some(nv) => nv.offset != 0 ==> nv.size <= 0xffff_ffff - 20 && record_readable(
            n,
            blob,
            nv.size,
            version,
        ),
        None => true,
    }
}

/// What `write_needle` does: the volume `a` becomes `b`, the needle `n0` becomes `n1`,
/// the output `o0` becomes `o1`, and the result is `r`.
pub open spec fn write_needle_post(
    a: &Volume,
    b: &Volume,
    n0: NeedleView,
    n1: NeedleView,
    file_end: u64,
    o0: Seq<u8>,
    o1: Seq<u8>,
    r: Result<(u32, u64), Error>,
) -> bool {
    &&& a.read_only || a.super_block.version != CURRENT_VERSION ==> (r matches Err(Error::Other(_)))
        && b.nm@ == a.nm@ && b.last_modified_time == a.last_modified_time && n1 == n0 && o1 == o0
    &&& !a.read_only && a.super_block.version == CURRENT_VERSION ==> {
        let off = align_up(file_end);
        &&& n1 == appended_view(n0)
        &&& o1 == o0 + record_bytes(n0)
        &&& b.nm@ == mapper_set(
            a.nm@,
            n0.id,
            NeedleValue { offset: ((off / 8) % 0x1_0000_0000) as u32, size: record_size(n0) },
        )
        &&& b.last_modified_time == if a.last_modified_time < n0.last_modified {
            n0.last_modified
        } else {
            a.last_modified_time
        }
        &&& r == Ok::<(u32, u64), Error>(((n0.data.len() % 0x1_0000_0000) as u32, off as u64))
    }
    &&& same_but_index(b, a)
}

/// Law: a needle written to a volume reads back from it. When the volume takes writes,
/// the record was placed after the super block (at an offset the index can keep), the
/// needle's checksum is the CRC-32C of its data and its time to live has not passed,
/// reading by its id from the bytes that were written can be made without failing,
/// succeeds, and gives the needle back.
pub proof fn law_read_after_write(
    a: Volume,
    b: Volume,
    n0: NeedleView,
    n1: NeedleView,
    file_end: u64,
    o1: Seq<u8>,
    r: Result<(u32, u64), Error>,
    w: NeedleView,
    now: i64,
)
    requires
        write_needle_post(&a, &b, n0, n1, file_end, seq![], o1, r),
        !a.read_only,
        a.super_block.version == CURRENT_VERSION,
        round_trips(n0),
        n0.checksum == crc32c(n0.data),
        8 <= file_end <= 8 * 0xffff_fffe,
        w.id == n0.id,
        !(flag_set(n0.flags, FLAG_HAS_TTL) && flag_set(n0.flags, FLAG_HAS_LAST_MODIFIED_DATE) && ttl_minutes(n0.ttl) > 0
            && ttl_passed(n0.last_modified, ttl_minutes(n0.ttl), now)),
    ensures
        needle_readable(b.nm@, b.super_block.version, w, o1),
        read_needle_spec(b.nm@, b.super_block.version, w, o1, now).1 == ReadOutcome::Found,
        reads_back(read_needle_spec(b.nm@, b.super_block.version, w, o1, now).0, n0),
{
    assert(o1 =~= record_bytes(n0));
    let off = align_up(file_end);
    assert(8 <= off <= 8 * 0xffff_ffff);
    assert(off / 8 >= 1 && off / 8 <= 0xffff_ffff) by (nonlinear_arith)
        requires
            8 <= off <= 8 * 0xffff_ffff,
    ;
    let nv = NeedleValue { offset: ((off / 8) % 0x1_0000_0000) as u32, size: record_size(n0) };
    assert(nv.offset != 0);
    law_get_after_set(a.nm@, n0.id, nv);
    assert(lookup(b.nm@.entries, n0.id) == Some(nv));
    law_append_then_read(n0, w);
    let rn = read_record_view(w, o1, nv.size, b.super_block.version);
    assert(reads_back(rn, n0));
}

/// What `read_needle` does: the needle `n0` becomes `n1` and the result is `r`, reading
/// from volume `v` the record bytes `blob` at time `now`.
pub open spec fn read_needle_post(
    v: &Volume,
    n0: NeedleView,
    n1: NeedleView,
    blob: Seq<u8>,
    now: i64,
    r: Result<u32, Error>,
) -> bool {
    let (rv, outcome) = read_needle_spec(v.nm@, v.super_block.version, n0, blob, now);
    &&& n1 == rv
    &&& outcome == ReadOutcome::Found <==> r is Ok
    &&& r matches Ok(len) ==> len == (rv.data.len() % 0x1_0000_0000) as u32
    &&& outcome == ReadOutcome::NotFound ==> (r matches Err(Error::Other(m)) && m@ =~= seq![
        'N',
        'o',
        't',
        ' ',
        'F',
        'o',
        'u',
        'n',
        'd',
    ])
    &&& outcome == ReadOutcome::Expired ==> (r matches Err(Error::Other(m)) && m@ =~= seq![
        'N',
        'o',
        't',
        ' ',
        'F',
        'o',
        'u',
        'n',
        'd',
    ])
    &&& outcome == ReadOutcome::AlreadyDeleted ==> (r matches Err(Error::Other(m)) && m@ =~= seq![
        'A',
        'l',
        'r',
        'e',
        'a',
        'd',
        'y',
        ' ',
        'D',
        'e',
        'l',
        'e',
        't',
        'e',
        'd',
    ])
}

/// What `delete_needle` does: the volume `a` becomes `b` and the result is `r`, deleting
/// the needle with id `key`. A read-only volume refuses and stays as it was; any other
/// drops the key from its index and answers the size that the key had there, or 0.
pub open spec fn delete_needle_post(a: &Volume, b: &Volume, key: u64, r: Result<u32, Error>) -> bool {
    &&& a.read_only ==> (r matches Err(Error::Other(_))) && b.nm@ == a.nm@
    &&& !a.read_only ==> b.nm@ == crate::storage::needle_map::mapper_delete(a.nm@, key) && r == Ok::<u32, Error>(
        match lookup(a.nm@.entries, key) {
            Some(nv) => nv.size,
            None => 0u32,
        },
    )
    &&& b.last_modified_time == a.last_modified_time
    &&& same_but_index(b, a)
}

/// Law: once a needle is deleted from a volume, reading it by its id finds nothing,
/// whatever record bytes are handed to the read and whenever it is made.
pub proof fn law_read_after_delete(
    a: Volume,
    b: Volume,
    key: u64,
    r: Result<u32, Error>,
    w: NeedleView,
    blob: Seq<u8>,
    now: i64,
)
    requires
        delete_needle_post(&a, &b, key, r),
        r is Ok,
        w.id == key,
    ensures
        needle_readable(b.nm@, b.super_block.version, w, blob),
        read_needle_spec(b.nm@, b.super_block.version, w, blob, now).1 == ReadOutcome::NotFound,
{
    assert(!a.read_only);
    assert(!b.nm@.entries.contains_key(key));
}

impl Volume {
    /// Whether the record bytes `blob` for needle `n` can be read without failing.
    pub fn can_read_needle(&self, n: &Needle, blob: &[u8]) -> (r: bool)
        ensures
            r == needle_readable(self.nm@, self.super_block.version, n@, blob@),
    {
        match self.nm.get(n.id) {
            None => true,
            Some(nv) => {
                if nv.offset == 0 {
                    true
                } else if nv.size > 0xffff_ffff - 20 {
                    false
                } else {
                    crate::storage::needle::record_is_readable(n, blob, nv.size, self.super_block.version)
                }
            },
        }
    }

    /// Writes needle `n`: appends its record to `out` and returns its data size and the
    /// byte offset in the data file where `out` must be written, which is `file_end`
    /// moved up to a multiple of 8. The index gets the needle's new location and the time
    /// of the last write becomes the needle's if that is later.
    pub fn write_needle(&mut self, n: &mut Needle, file_end: u64, out: &mut Vec<u8>) -> (r: Result<
        (u32, u64),
        Error,
    >)
        requires
            (old(n)@.data.len() % 0x1_0000_0000) as u32 > 0 ==> !flag_set(
                old(n)@.flags,
                FLAG_HAS_PAIRS,
            ),
            file_end <= 0xffff_ffff_ffff_fff0,
        ensures
            write_needle_post(&*old(self), &*final(self), old(n)@, final(n)@, file_end, old(out)@, final(out)@, r),
    {
        if self.read_only {
            let mut msg = self.data_file_name();
            proof {
                reveal_strlit(" is read-only");
            }
            msg.append(" is read-only");
            return Err(Error::Other(msg));
        }
        let mut offset = file_end;
        if offset % NEEDLE_PADDING_SIZE as u64 != 0 {
            offset = offset + (NEEDLE_PADDING_SIZE as u64 - offset % NEEDLE_PADDING_SIZE as u64);
        }
        let version = self.version();
        let size = match n.append(out, version) {
            Ok(s) => s.0,
            Err(err) => {
                return Err(err);
            },
        };
        let index_offset = ((offset / NEEDLE_PADDING_SIZE as u64) % 0x1_0000_0000) as u32;
        self.nm.set(n.id, NeedleValue { offset: index_offset, size: n.size });
        if self.last_modified_time < n.last_modified {
            self.last_modified_time = n.last_modified;
        }
        Ok((size, offset))
    }

    /// Deletes needle `n` (whose id says which): the index forgets its location. Returns
    /// the size that the index had for it, or 0 when it had none.
    pub fn delete_needle(&mut self, n: &Needle) -> (r: Result<u32, Error>)
        ensures
            delete_needle_post(&*old(self), &*final(self), n@.id, r),
    {
        if self.read_only {
            let mut msg = self.data_file_name();
            proof {
                reveal_strlit(" is read-only");
            }
            msg.append(" is read-only");
            return Err(Error::Other(msg));
        }
        match self.nm.delete(n.id) {
            Some(nv) => Ok(nv.size),
            None => Ok(0),
        }
    }

    /// Reads needle `n` (whose id says which) from the record bytes `blob` that were read
    /// at the location the index gives for it, at time `now` (seconds since the epoch).
    /// Returns the length of the data read.
    pub fn read_needle(&self, n: &mut Needle, blob: &[u8], now: i64) -> (r: Result<u32, Error>)
        requires
            needle_readable(self.nm@, self.super_block.version, old(n)@, blob@),
        ensures
            read_needle_post(self, old(n)@, final(n)@, blob@, now, r),
    {
        proof {
            reveal_strlit("Not Found");
            reveal_strlit("Already Deleted");
        }
        let nv = match self.nm.get(n.id) {
            Some(nv) => nv,
            None => {
                return Err(Error::Other(String::from_str("Not Found")));
            },
        };
        if nv.offset == 0 {
            return Err(Error::Other(String::from_str("Already Deleted")));
        }
        let version = self.version();
        n.read_date(blob, nv.size, version)?;
        let nread = (n.data.len() as u64 % 0x1_0000_0000) as u32;
        if n.has_ttl() && n.has_last_modified_date() {
            let minutes = n.ttl.minutes();
            if minutes > 0 {
                let deadline = n.last_modified.wrapping_add(minutes as u64 * 60);
                if now >= deadline as i64 {
                    return Err(Error::Other(String::from_str("Not Found")));
                }
            }
        }
        Ok(nread)
    }
}

} // verus!
