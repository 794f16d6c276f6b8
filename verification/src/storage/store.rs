//! The store of a volume server: its directories and their volumes.
use vstd::prelude::*;
use std::collections::HashMap;
use crate::storage::disk_location::{DiskLocation, tells_expired, told_of, volume_message_ok, removable, removable_ids, is_removable_volume};
use crate::storage::errors::Error;
use crate::storage::needle::{Needle, NeedleView, flag_set, FLAG_HAS_PAIRS, FLAG_HAS_TTL, FLAG_HAS_LAST_MODIFIED_DATE, round_trips, reads_back};
use crate::storage::needle_map::NeedleMapType;
use crate::storage::volume::{Volume, write_needle_post, read_needle_post, needle_readable, is_new_volume, volume_expired, volume_expired_long_enough, delete_needle_post, read_needle_spec, ReadOutcome, ttl_passed};
use crate::pb::zergling::{Heartbeat, VolumeInformationMessage, empty_heartbeat};
use crate::storage::replica_placement::ReplicaPlacement;
use crate::storage::ttl::{TTL, ttl_minutes};
use crate::storage::codec::crc32c;
use crate::storage::version::CURRENT_VERSION;
use crate::storage::VolumeId;
use crate::text::{dec_str, dec_string, parse_uint, parse_uint_bytes};
use crate::storage::needle::{first_index_of, lemma_first_index_of, find_byte, copy_range};
use crate::storage::ttl::{parse_ttl, ttl_text_readable};
use crate::storage::replica_placement::placement_of_bytes;
use vstd::string::*;

verus! {

broadcast use vstd::std_specs::hash::group_hash_axioms;

/// The store of a volume server.
pub struct Store {
    pub ip: String,
    pub port: u16,
    pub public_url: String,
    pub locations: Vec<DiskLocation>,
    pub data_center: String,
    pub rack: String,
    pub connected: bool,
    pub volume_size_limit: u64,
    pub needle_map_type: NeedleMapType,
}

/// The first directory, in order, that holds volume `vid`, searching from `start`.
pub open spec fn first_location_from(locs: Seq<DiskLocation>, vid: VolumeId, start: int) -> Option<int>
    decreases locs.len() - start,
{
    if start < 0 || start >= locs.len() {
        None
    } else if locs[start].volumes@.contains_key(vid) {
        Some(start)
    } else {
        first_location_from(locs, vid, start + 1)
    }
}

/// The first directory, in order, that holds volume `vid`.
pub open spec fn first_location(locs: Seq<DiskLocation>, vid: VolumeId) -> Option<int> {
    first_location_from(locs, vid, 0)
}

/// Some directory holds volume `vid`.
pub open spec fn holds_volume(locs: Seq<DiskLocation>, vid: VolumeId) -> bool {
    exists|i: int| 0 <= i < locs.len() && (#[trigger] locs[i]).volumes@.contains_key(vid)
}

/// The message of a missing volume: `volume <vid> not found`.
pub open spec fn volume_not_found_text(vid: VolumeId) -> Seq<char> {
    seq!['v', 'o', 'l', 'u', 'm', 'e', ' '] + dec_str(vid as nat) + seq![
        ' ',
        'n',
        'o',
        't',
        ' ',
        'f',
        'o',
        'u',
        'n',
        'd',
    ]
}

proof fn lemma_first_location_from(locs: Seq<DiskLocation>, vid: VolumeId, start: int)
    requires
        0 <= start,
    ensures
        first_location_from(locs, vid, start) matches Some(i) ==> start <= i < locs.len()
            && locs[i].volumes@.contains_key(vid) && forall|j: int|
            start <= j < i ==> !(#[trigger] locs[j]).volumes@.contains_key(vid),
        first_location_from(locs, vid, start) is None ==> forall|j: int|
            start <= j < locs.len() ==> !(#[trigger] locs[j]).volumes@.contains_key(vid),
    decreases locs.len() - start,
{
    if start < locs.len() && !locs[start].volumes@.contains_key(vid) {
        lemma_first_location_from(locs, vid, start + 1);
    }
}

/// The first directory that holds `vid` holds it, and no directory holds it when there is none.
pub proof fn lemma_first_location(locs: Seq<DiskLocation>, vid: VolumeId)
    ensures
        first_location(locs, vid) matches Some(i) ==> 0 <= i < locs.len() && locs[i].volumes@.contains_key(vid),
        first_location(locs, vid) is None <==> !holds_volume(locs, vid),
{
    lemma_first_location_from(locs, vid, 0);
}

/// What `write_volume_needle` does: the store `a` becomes `b`, the needle `n0` becomes
/// `n1`, the output `o0` becomes `o1`, and the result is `r`, writing to volume `vid` whose
/// data file ends at `file_end`.
pub open spec fn write_volume_needle_post(
    a: &Store,
    b: &Store,
    vid: VolumeId,
    n0: NeedleView,
    n1: NeedleView,
    file_end: u64,
    o0: Seq<u8>,
    o1: Seq<u8>,
    r: Result<(u32, u64), Error>,
) -> bool {
    match first_location(a.locations@, vid) {
        None => (r matches Err(Error::Other(m)) && m@ == volume_not_fount_text(vid))
            && b.locations@ == a.locations@ && n1 == n0
            && o1 == o0,
        Some(i) => {
            let v0 = a.locations@[i].volumes@[vid];
            &&& v0.read_only ==> (r matches Err(Error::Other(_))) && b.locations@ == a.locations@ && n1 == n0 && o1 == o0
            &&& !v0.read_only ==> {
                let v1 = b.locations@[i].volumes@[vid];
                &&& b.locations@.len() == a.locations@.len()
                &&& forall|j: int| 0 <= j < a.locations@.len() && j != i ==> b.locations@[j] == a.locations@[j]
                &&& b.locations@[i].directory == a.locations@[i].directory
                &&& b.locations@[i].max_volume_count == a.locations@[i].max_volume_count
                &&& b.locations@[i].volumes@ == a.locations@[i].volumes@.insert(vid, v1)
                &&& write_needle_post(&v0, &v1, n0, n1, file_end, o0, o1, r)
            }
        },
    }
}

/// Law: a needle written to a writable volume of the store reads back from it. When the
/// record was placed after the super block (at an offset the index can keep), the needle's
/// checksum is the CRC-32C of its data and its time to live has not passed, reading by its
/// id from the bytes that were written can be made without failing, succeeds, and gives
/// the needle back.
pub proof fn law_store_read_after_write(
    a: Store,
    b: Store,
    vid: VolumeId,
    n0: NeedleView,
    n1: NeedleView,
    file_end: u64,
    o1: Seq<u8>,
    r: Result<(u32, u64), Error>,
    w: NeedleView,
    now: i64,
)
    requires
        write_volume_needle_post(&a, &b, vid, n0, n1, file_end, seq![], o1, r),
        first_location(a.locations@, vid) matches Some(i) && !a.locations@[i].volumes@[vid].read_only
            && a.locations@[i].volumes@[vid].super_block.version == CURRENT_VERSION,
        round_trips(n0),
        n0.checksum == crc32c(n0.data),
        8 <= file_end <= 8 * 0xffff_fffe,
        w.id == n0.id,
        !(flag_set(n0.flags, FLAG_HAS_TTL) && flag_set(n0.flags, FLAG_HAS_LAST_MODIFIED_DATE) && ttl_minutes(n0.ttl) > 0
            && ttl_passed(n0.last_modified, ttl_minutes(n0.ttl), now)),
    ensures
        first_location(b.locations@, vid) == first_location(a.locations@, vid),
        first_location(b.locations@, vid) matches Some(i) && needle_readable(
            b.locations@[i].volumes@[vid].nm@,
            b.locations@[i].volumes@[vid].super_block.version,
            w,
            o1,
        ) && read_needle_spec(
            b.locations@[i].volumes@[vid].nm@,
            b.locations@[i].volumes@[vid].super_block.version,
            w,
            o1,
            now,
        ).1 == ReadOutcome::Found && reads_back(
            read_needle_spec(b.locations@[i].volumes@[vid].nm@, b.locations@[i].volumes@[vid].super_block.version, w, o1, now).0,
            n0,
        ),
{
    lemma_first_location(a.locations@, vid);
    lemma_first_location_from(a.locations@, vid, 0);
    lemma_first_location_from(b.locations@, vid, 0);
    let i = first_location(a.locations@, vid)->0;
    assert(b.locations@[i].volumes@.contains_key(vid));
    assert forall|j: int| 0 <= j < i implies !(#[trigger] b.locations@[j]).volumes@.contains_key(vid) by {
        assert(b.locations@[j] == a.locations@[j]);
    }
    let v0 = a.locations@[i].volumes@[vid];
    let v1 = b.locations@[i].volumes@[vid];
    crate::storage::volume::law_read_after_write(v0, v1, n0, n1, file_end, o1, r, w, now);
}

/// One of the first `n` directories of `locs` holds a volume that the message `m` tells
/// has expired at `now` under the size limit `limit`.
pub open spec fn some_location_tells(locs: Seq<DiskLocation>, n: int, limit: u64, now: u64, m: VolumeInformationMessage) -> bool {
    exists|l: int| 0 <= l < n && l < locs.len() && #[trigger] tells_expired(locs[l].volumes@, limit, now, m)
}

/// What `delete_volume_needle` does to the directories: the store `a` becomes `b` and the
/// result is `r`, deleting the needle with id `key` from volume `vid`.
pub open spec fn delete_volume_needle_post(a: &Store, b: &Store, vid: VolumeId, key: u64, r: Result<u32, Error>) -> bool {
    match first_location(a.locations@, vid) {
        None => r == Ok::<u32, Error>(0) && b.locations@ == a.locations@,
        Some(i) => {
            let v0 = a.locations@[i].volumes@[vid];
            let v1 = b.locations@[i].volumes@[vid];
            &&& b.locations@.len() == a.locations@.len()
            &&& forall|j: int| 0 <= j < a.locations@.len() && j != i ==> b.locations@[j] == a.locations@[j]
            &&& b.locations@[i].directory == a.locations@[i].directory
            &&& b.locations@[i].max_volume_count == a.locations@[i].max_volume_count
            &&& b.locations@[i].volumes@ == a.locations@[i].volumes@.insert(vid, v1)
            &&& delete_needle_post(&v0, &v1, key, r)
        },
    }
}

/// Law: once a needle is deleted from a volume of the store, reading it from that volume
/// by its id finds nothing, whatever record bytes are handed to the read and whenever it
/// is made.
pub proof fn law_store_read_after_delete(
    a: Store,
    b: Store,
    vid: VolumeId,
    key: u64,
    r: Result<u32, Error>,
    w: NeedleView,
    blob: Seq<u8>,
    now: i64,
)
    requires
        delete_volume_needle_post(&a, &b, vid, key, r),
        holds_volume(a.locations@, vid),
        r is Ok,
        w.id == key,
    ensures
        first_location(b.locations@, vid) == first_location(a.locations@, vid),
        first_location(b.locations@, vid) matches Some(i) && needle_readable(
            b.locations@[i].volumes@[vid].nm@,
            b.locations@[i].volumes@[vid].super_block.version,
            w,
            blob,
        ) && read_needle_spec(
            b.locations@[i].volumes@[vid].nm@,
            b.locations@[i].volumes@[vid].super_block.version,
            w,
            blob,
            now,
        ).1 == ReadOutcome::NotFound,
{
    lemma_first_location(a.locations@, vid);
    lemma_first_location_from(a.locations@, vid, 0);
    lemma_first_location_from(b.locations@, vid, 0);
    let i = first_location(a.locations@, vid)->0;
    assert(b.locations@[i].volumes@.contains_key(vid));
    assert forall|j: int| 0 <= j < i implies !(#[trigger] b.locations@[j]).volumes@.contains_key(vid) by {
        assert(b.locations@[j] == a.locations@[j]);
    }
    let v0 = a.locations@[i].volumes@[vid];
    let v1 = b.locations@[i].volumes@[vid];
    crate::storage::volume::law_read_after_delete(v0, v1, key, r, w, blob, now);
}

impl Store {
    /// A store with one directory per folder, holding up to the matching count of volumes,
    /// each still empty (the caller loads the volumes already on disk).
    pub fn new(
        ip: &str,
        port: u16,
        public_url: &str,
        folders: Vec<String>,
        max_counts: Vec<i64>,
        needle_map_kind: NeedleMapType,
    ) -> (r: Store)
        requires
            max_counts@.len() >= folders@.len(),
        ensures
            r.ip@ == ip@,
            r.port == port,
            r.public_url@ == public_url@,
            r.locations@.len() == folders@.len(),
            forall|i: int| 0 <= i < folders@.len() ==> {
                &&& (#[trigger] r.locations@[i]).directory@ == folders@[i]@
                &&& r.locations@[i].max_volume_count == max_counts@[i]
                &&& r.locations@[i].volumes@ == Map::<VolumeId, Volume>::empty()
            },
            r.data_center@.len() == 0,
            r.rack@.len() == 0,
            !r.connected,
            r.volume_size_limit == 0,
            r.needle_map_type == needle_map_kind,
    {
        let mut locations: Vec<DiskLocation> = Vec::new();
        let mut i: usize = 0;
        while i < folders.len()
            invariant
                i <= folders@.len(),
                max_counts@.len() >= folders@.len(),
                locations@.len() == i,
                forall|j: int| 0 <= j < i ==> {
                    &&& (#[trigger] locations@[j]).directory@ == folders@[j]@
                    &&& locations@[j].max_volume_count == max_counts@[j]
                    &&& locations@[j].volumes@ == Map::<VolumeId, Volume>::empty()
                },
            decreases folders@.len() - i,
        {
            let location = DiskLocation::new(folders[i].as_str(), max_counts[i]);
            locations.push(location);
            i = i + 1;
        }
        Store {
            ip: String::from_str(ip),
            port,
            public_url: String::from_str(public_url),
            locations,
            needle_map_type: needle_map_kind,
            data_center: String::new(),
            rack: String::new(),
            connected: false,
            volume_size_limit: 0,
        }
    }

    /// The first directory that holds volume `vid`.
    fn location_index(&self, vid: VolumeId) -> (r: Option<usize>)
        ensures
            match r {
                Some(i) => first_location(self.locations@, vid) == Some(i as int),
                None => first_location(self.locations@, vid) is None,
            },
    {
        let mut i: usize = 0;
        while i < self.locations.len()
            invariant
                i <= self.locations@.len(),
                first_location(self.locations@, vid) == first_location_from(self.locations@, vid, i as int),
            decreases self.locations@.len() - i,
        {
            if self.locations[i].volumes.contains_key(&vid) {
                return Some(i);
            }
            i = i + 1;
        }
        None
    }

    /// Whether some directory holds volume `vid`.
    pub fn has_volume(&self, vid: VolumeId) -> (r: bool)
        ensures
            r == holds_volume(self.locations@, vid),
    {
        proof {
            lemma_first_location(self.locations@, vid);
        }
        self.location_index(vid).is_some()
    }

    /// Volume `vid`, from the first directory that holds it.
    pub fn find_volume(&self, vid: VolumeId) -> (r: Option<&Volume>)
        ensures
            match first_location(self.locations@, vid) {
                Some(i) => r == Some(&self.locations@[i].volumes@[vid]),
                None => r is None,
            },
    {
        proof {
            lemma_first_location(self.locations@, vid);
        }
        match self.location_index(vid) {
            Some(i) => self.locations[i].volumes.get(&vid),
            None => None,
        }
    }

    /// Reads needle `n` from volume `vid`, with the record bytes `blob` read at the
    /// needle's location and the time `now`.
    pub fn read_volume_needle(&self, vid: VolumeId, n: &mut Needle, blob: &[u8], now: i64) -> (r: Result<u32, Error>)
        requires
            first_location(self.locations@, vid) matches Some(i) ==> needle_readable(
                self.locations@[i].volumes@[vid].nm@,
                self.locations@[i].volumes@[vid].super_block.version,
                old(n)@,
                blob@,
            ),
        ensures
            match first_location(self.locations@, vid) {
                Some(i) => read_needle_post(&self.locations@[i].volumes@[vid], old(n)@, final(n)@, blob@, now, r),
                None => (r matches Err(Error::Other(m)) && m@ == volume_not_found_text(vid)) && final(n)@ == old(n)@,
            },
    {
        match self.find_volume(vid) {
            Some(v) => v.read_needle(n, blob, now),
            None => Err(Error::Other(volume_not_found_message(vid))),
        }
    }

    /// Deletes needle `n` from volume `vid`, in the first directory that holds it (see
    /// [`delete_needle_post`]). Without such a volume nothing is deleted and the answer is 0.
    pub fn delete_volume_needle(&mut self, vid: VolumeId, n: &Needle) -> (r: Result<u32, Error>)
        ensures
            same_settings(&*old(self), &*final(self)),
            delete_volume_needle_post(&*old(self), &*final(self), vid, n@.id, r),
    {
        proof {
            lemma_first_location(self.locations@, vid);
        }
        let i = match self.location_index(vid) {
            Some(i) => i,
            None => {
                return Ok(0);
            },
        };
        let ghost lorig = self.locations@;
        let mut v = match self.locations[i].volumes.remove(&vid) {
            Some(v) => v,
            None => {
                return Ok(0);
            },
        };
        let ghost v0 = v;
        assert(lorig[i as int].volumes@[vid] == v0);
        let r = v.delete_needle(n);
        let ghost v1 = v;
        self.locations[i].volumes.insert(vid, v);
        proof {
            assert(self.locations@[i as int].volumes@[vid] == v1);
            assert(self.locations@[i as int].volumes@ == lorig[i as int].volumes@.insert(vid, v1));
            assert(delete_needle_post(&v0, &v1, n@.id, r));
            assert(forall|j: int| 0 <= j < lorig.len() && j != i ==> self.locations@[j] == lorig[j]);
        }
        r
    }

    /// Deletes volume `vid` from the directories of this store. Removing a volume from a
    /// directory is not offered yet, so only a store without directories may be asked:
    /// no directory then deleted it, which is an error.
    pub fn delete_volume(&mut self, vid: VolumeId) -> (r: Result<(), Error>)
        requires
            old(self).locations@.len() == 0,
        ensures
            r matches Err(Error::Other(m)) && m@ == volume_not_on_disk_text(vid),
            *final(self) == *old(self),
    {
        proof {
            reveal_strlit("volume ");
            reveal_strlit(" not fount on dis");
        }
        let mut s = String::from_str("volume ");
        let d = dec_string(vid as u64);
        s.append(d.as_str());
        s.append(" not fount on dis");
        Err(Error::Other(s))
    }
}

/// The message of a volume that no directory deleted: `volume <vid> not fount on dis`.
pub open spec fn volume_not_on_disk_text(vid: VolumeId) -> Seq<char> {
    seq!['v', 'o', 'l', 'u', 'm', 'e', ' '] + dec_str(vid as nat) + " not fount on dis"@
}

/// The message of a missing volume.
pub fn volume_not_found_message(vid: VolumeId) -> (r: String)
    ensures
        r@ == volume_not_found_text(vid),
{
    proof {
        reveal_strlit("volume ");
        reveal_strlit(" not found");
    }
    let mut s = String::from_str("volume ");
    let d = dec_string(vid as u64);
    s.append(d.as_str());
    s.append(" not found");
    s
}

/// The volume ids in each directory.
pub open spec fn keys_of(locs: Seq<DiskLocation>) -> Seq<Set<VolumeId>> {
    Seq::new(locs.len(), |i: int| locs[i].volumes@.dom())
}

/// The most volumes each directory may hold.
pub open spec fn maxes_of(locs: Seq<DiskLocation>) -> Seq<i64> {
    Seq::new(locs.len(), |i: int| locs[i].max_volume_count)
}

/// How many more volumes a directory may hold: its maximum less its volumes, wrapping
/// at 2^64.
pub open spec fn free_of(max: i64, ids: Set<VolumeId>) -> i64 {
    vstd::wrapping::i64_specs::wrapping_sub(max, ids.len() as i64)
}

/// The directory with the most room, searching from `i`: the first that has more room
/// than `best`, and than every directory before it.
pub open spec fn free_scan(keys: Seq<Set<VolumeId>>, maxes: Seq<i64>, i: int, best: i64, rt: Option<int>) -> Option<int>
    decreases keys.len() - i,
{
    if i < 0 || i >= keys.len() {
        rt
    } else if free_of(maxes[i], keys[i]) > best {
        free_scan(keys, maxes, i + 1, free_of(maxes[i], keys[i]), Some(i))
    } else {
        free_scan(keys, maxes, i + 1, best, rt)
    }
}

/// The directory where a new volume goes: the first with the most room, if any has room.
pub open spec fn free_location(keys: Seq<Set<VolumeId>>, maxes: Seq<i64>) -> Option<int> {
    free_scan(keys, maxes, 0, 0, None)
}

/// What the scan from `i` keeps so far: with a pick, it has room `best`, at least that of
/// every directory before `i`, and more than that of every directory before it; without
/// one, no directory before `i` has room.
pub open spec fn scan_so_far(keys: Seq<Set<VolumeId>>, maxes: Seq<i64>, i: int, best: i64, rt: Option<int>) -> bool {
    &&& 0 <= i <= keys.len()
    &&& match rt {
        Some(r) => {
            &&& 0 <= r < i
            &&& best == free_of(maxes[r], keys[r])
            &&& best > 0
            &&& forall|j: int| 0 <= j < i ==> #[trigger] free_of(maxes[j], keys[j]) <= best
            &&& forall|j: int| 0 <= j < r ==> #[trigger] free_of(maxes[j], keys[j]) < best
        },
        None => best == 0 && forall|j: int| 0 <= j < i ==> #[trigger] free_of(maxes[j], keys[j]) <= 0,
    }
}

proof fn lemma_free_scan_best(keys: Seq<Set<VolumeId>>, maxes: Seq<i64>, i: int, best: i64, rt: Option<int>)
    requires
        keys.len() == maxes.len(),
        scan_so_far(keys, maxes, i, best, rt),
    ensures
        match free_scan(keys, maxes, i, best, rt) {
            Some(r) => {
                &&& 0 <= r < keys.len()
                &&& free_of(maxes[r], keys[r]) > 0
                &&& forall|j: int| 0 <= j < keys.len() ==> #[trigger] free_of(maxes[j], keys[j]) <= free_of(maxes[r], keys[r])
                &&& forall|j: int| 0 <= j < r ==> #[trigger] free_of(maxes[j], keys[j]) < free_of(maxes[r], keys[r])
            },
            None => forall|j: int| 0 <= j < keys.len() ==> #[trigger] free_of(maxes[j], keys[j]) <= 0,
        },
    decreases keys.len() - i,
{
    if i < keys.len() {
        let f = free_of(maxes[i], keys[i]);
        if f > best {
            assert(scan_so_far(keys, maxes, i + 1, f, Some(i)));
            lemma_free_scan_best(keys, maxes, i + 1, f, Some(i));
        } else {
            assert(scan_so_far(keys, maxes, i + 1, best, rt));
            lemma_free_scan_best(keys, maxes, i + 1, best, rt);
        }
    }
}

/// Law: a new volume goes to the directory with the most free room (its most volumes
/// less the volumes it holds), the first of them where several have as much, and only if
/// it has room; none is picked when no directory has room.
pub proof fn law_free_location_has_most_room(keys: Seq<Set<VolumeId>>, maxes: Seq<i64>)
    requires
        keys.len() == maxes.len(),
    ensures
        free_location(keys, maxes) matches Some(r) ==> {
            &&& 0 <= r < keys.len()
            &&& free_of(maxes[r], keys[r]) > 0
            &&& forall|j: int| 0 <= j < keys.len() ==> #[trigger] free_of(maxes[j], keys[j]) <= free_of(maxes[r], keys[r])
            &&& forall|j: int| 0 <= j < r ==> #[trigger] free_of(maxes[j], keys[j]) < free_of(maxes[r], keys[r])
        },
        free_location(keys, maxes) is None ==> forall|j: int| 0 <= j < keys.len() ==> #[trigger] free_of(maxes[j], keys[j]) <= 0,
{
    assert(scan_so_far(keys, maxes, 0, 0, None));
    lemma_free_scan_best(keys, maxes, 0, 0, None);
}

/// Some directory holds `vid`.
pub open spec fn keys_hold(keys: Seq<Set<VolumeId>>, vid: VolumeId) -> bool {
    exists|i: int| 0 <= i < keys.len() && (#[trigger] keys[i]).contains(vid)
}

/// The volume ids after adding volume `vid`, if it can be added: it must be new, and a
/// directory must have room.
pub open spec fn model_add(keys: Seq<Set<VolumeId>>, maxes: Seq<i64>, vid: VolumeId) -> Option<Seq<Set<VolumeId>>> {
    if keys_hold(keys, vid) {
        None
    } else {
        match free_location(keys, maxes) {
            Some(i) => Some(keys.update(i, keys[i].insert(vid))),
            None => None,
        }
    }
}

/// The volume ids after adding the volumes `ids` in order, and whether all were added;
/// adding stops at the first that cannot be added.
pub open spec fn model_add_all(keys: Seq<Set<VolumeId>>, maxes: Seq<i64>, ids: Seq<VolumeId>) -> (Seq<Set<VolumeId>>, bool)
    decreases ids.len(),
{
    if ids.len() == 0 {
        (keys, true)
    } else {
        let (k1, ok) = model_add_all(keys, maxes, ids.drop_last());
        if !ok {
            (k1, false)
        } else {
            match model_add(k1, maxes, ids.last()) {
                Some(k2) => (k2, true),
                None => (k1, false),
            }
        }
    }
}

/// The pieces of `b` between the bytes `sep`, as std's `split` gives them (at least one).
pub open spec fn split_bytes(b: Seq<u8>, sep: u8) -> Seq<Seq<u8>>
    decreases b.len(),
{
    match first_index_of(b, sep) {
        None => seq![b],
        Some(i) => {
            proof {
                lemma_first_index_of(b, sep);
            }
            seq![b.take(i)] + split_bytes(b.skip(i + 1), sep)
        },
    }
}

/// The largest u32.
pub open spec fn u32_max() -> int {
    0xffff_ffff
}

/// The volume ids that one piece of a volume list names: a single id, or `start-end`
/// for the ids from start to end (none when end is the largest u32, whose successor
/// wraps to 0 at 2^32). Nothing when a number cannot be read.
pub open spec fn range_ids(piece: Seq<u8>) -> Option<Seq<VolumeId>> {
    let parts = split_bytes(piece, 45u8);
    if parts.len() == 1 {
        match parse_uint(parts[0], 10, u32_max()) {
            Some(x) => Some(seq![x as u32]),
            None => None,
        }
    } else {
        match (parse_uint(parts[0], 10, u32_max()), parse_uint(parts[1], 10, u32_max())) {
            (Some(a), Some(e)) => Some(
                if e == u32_max() {
                    seq![]
                } else {
                    Seq::new(if a <= e { (e - a + 1) as nat } else { 0 }, |k: int| (a + k) as u32)
                },
            ),
            _ => None,
        }
    }
}

/// The volume ids that the pieces `rs` name, in order, and whether every piece could be
/// read; the ids stop before the first piece that cannot be read.
pub open spec fn ids_of_ranges(rs: Seq<Seq<u8>>) -> (Seq<VolumeId>, bool)
    decreases rs.len(),
{
    if rs.len() == 0 {
        (seq![], true)
    } else {
        let (a, ok) = ids_of_ranges(rs.drop_last());
        if !ok {
            (a, false)
        } else {
            match range_ids(rs.last()) {
                Some(ids) => (a + ids, true),
                None => (a, false),
            }
        }
    }
}

/// The volume ids that a volume list such as `1,3-5` names, and whether it could be read.
pub open spec fn volume_list_ids(list: Seq<u8>) -> (Seq<VolumeId>, bool) {
    ids_of_ranges(split_bytes(list, 44u8))
}

/// The directories `b` are the directories `a` with new volumes added: the same
/// directories in the same order, every volume of `a` kept as it was, and every volume
/// that is new made by `Volume::new` in its directory with these arguments.
pub open spec fn store_grew(
    a: Seq<DiskLocation>,
    b: Seq<DiskLocation>,
    collection: Seq<char>,
    kind: NeedleMapType,
    rp: ReplicaPlacement,
    ttl: TTL,
) -> bool {
    &&& a.len() == b.len()
    &&& forall|i: int| 0 <= i < a.len() ==> (#[trigger] b[i]).directory == a[i].directory
        && b[i].max_volume_count == a[i].max_volume_count
    &&& forall|i: int, k: VolumeId| 0 <= i < a.len() && #[trigger] a[i].volumes@.contains_key(k)
        ==> b[i].volumes@.contains_key(k) && b[i].volumes@[k] == a[i].volumes@[k]
    &&& forall|i: int, k: VolumeId| 0 <= i < a.len() && #[trigger] b[i].volumes@.contains_key(k)
        && !a[i].volumes@.contains_key(k) ==> is_new_volume(
        &b[i].volumes@[k],
        a[i].directory@,
        collection,
        k,
        kind,
        rp,
        ttl,
    )
}

/// The fields of a store other than its directories are as they were.
pub open spec fn same_settings(a: &Store, b: &Store) -> bool {
    &&& a.ip == b.ip
    &&& a.port == b.port
    &&& a.public_url == b.public_url
    &&& a.data_center == b.data_center
    &&& a.rack == b.rack
    &&& a.connected == b.connected
    &&& a.volume_size_limit == b.volume_size_limit
    &&& a.needle_map_type == b.needle_map_type
}

proof fn lemma_keys_hold(locs: Seq<DiskLocation>, vid: VolumeId)
    ensures
        keys_hold(keys_of(locs), vid) == holds_volume(locs, vid),
{
    if holds_volume(locs, vid) {
        let i = choose|i: int| 0 <= i < locs.len() && (#[trigger] locs[i]).volumes@.contains_key(vid);
        assert(keys_of(locs)[i].contains(vid));
    }
    if keys_hold(keys_of(locs), vid) {
        let i = choose|i: int| 0 <= i < keys_of(locs).len() && (#[trigger] keys_of(locs)[i]).contains(vid);
        assert(locs[i].volumes@.contains_key(vid));
    }
}

proof fn lemma_free_scan_in_range(keys: Seq<Set<VolumeId>>, maxes: Seq<i64>, i: int, best: i64, rt: Option<int>)
    requires
        0 <= i,
        rt matches Some(j) ==> 0 <= j < keys.len(),
    ensures
        free_scan(keys, maxes, i, best, rt) matches Some(j) ==> 0 <= j < keys.len(),
    decreases keys.len() - i,
{
    if i < keys.len() {
        if free_of(maxes[i], keys[i]) > best {
            lemma_free_scan_in_range(keys, maxes, i + 1, free_of(maxes[i], keys[i]), Some(i));
        } else {
            lemma_free_scan_in_range(keys, maxes, i + 1, best, rt);
        }
    }
}

impl Store {
    /// The directory where a new volume goes: the first with the most room, if any has room.
    fn find_free_location(&self) -> (r: Option<usize>)
        ensures
            match r {
                Some(i) => free_location(keys_of(self.locations@), maxes_of(self.locations@)) == Some(i as int)
                    && i < self.locations@.len(),
                None => free_location(keys_of(self.locations@), maxes_of(self.locations@)) is None,
            },
    {
        let ghost keys = keys_of(self.locations@);
        let ghost maxes = maxes_of(self.locations@);
        let mut rt: Option<usize> = None;
        let mut max_free: i64 = 0;
        let mut i: usize = 0;
        while i < self.locations.len()
            invariant
                i <= self.locations@.len(),
                keys == keys_of(self.locations@),
                maxes == maxes_of(self.locations@),
                rt matches Some(j) ==> j < i,
                free_location(keys, maxes) == free_scan(
                    keys,
                    maxes,
                    i as int,
                    max_free,
                    match rt {
                        Some(j) => Some(j as int),
                        None => None,
                    },
                ),
            decreases self.locations@.len() - i,
        {
            let location = &self.locations[i];
            let free = location.max_volume_count.wrapping_sub(location.volumes.len() as i64);
            assert(keys[i as int] == location.volumes@.dom());
            assert(location.volumes@.dom().len() == location.volumes@.len());
            if free > max_free {
                max_free = free;
                rt = Some(i);
            }
            i = i + 1;
        }
        rt
    }

    /// Adds a new volume `vid` in the directory with the most room.
    pub fn do_add_volume(
        &mut self,
        vid: VolumeId,
        collection: &str,
        needle_map_kind: NeedleMapType,
        replica_placement: ReplicaPlacement,
        ttl: TTL,
        pre_allocate: i64,
    ) -> (r: Result<(), Error>)
        ensures
            match model_add(keys_of(old(self).locations@), maxes_of(old(self).locations@), vid) {
                Some(k) => r is Ok && keys_of(final(self).locations@) == k,
                None => (r matches Err(Error::Other(_))) && final(self).locations@ == old(self).locations@,
            },
            store_grew(old(self).locations@, final(self).locations@, collection@, needle_map_kind, replica_placement, ttl),
            same_settings(&*old(self), &*final(self)),
    {
        proof {
            lemma_keys_hold(self.locations@, vid);
        }
        if self.has_volume(vid) {
            return Err(Error::Other(String::from_str("volume id already exists")));
        }
        let i = match self.find_free_location() {
            Some(i) => i,
            None => {
                return Err(Error::Other(String::from_str("no more free space left")));
            },
        };
        let ghost old_locs = self.locations@;
        let volume = Volume::new(
            self.locations[i].directory.as_str(),
            collection,
            vid,
            needle_map_kind,
            replica_placement,
            ttl,
            pre_allocate,
        );
        self.locations[i].volumes.insert(vid, volume);
        proof {
            assert(keys_of(self.locations@) =~= keys_of(old_locs).update(
                i as int,
                keys_of(old_locs)[i as int].insert(vid),
            ));
        }
        Ok(())
    }
}

/// Cuts `b` at every byte `sep`, as std's `split` does.
pub fn split_on(b: &[u8], sep: u8) -> (r: Vec<Vec<u8>>)
    ensures
        r@.len() == split_bytes(b@, sep).len(),
        forall|i: int| 0 <= i < r@.len() ==> (#[trigger] r@[i])@ == split_bytes(b@, sep)[i],
    decreases b@.len(),
{
    let n = b.len();
    match find_byte(b, sep) {
        None => {
            let mut r: Vec<Vec<u8>> = Vec::new();
            r.push(copy_range(b, 0, b.len()));
            assert(b@.subrange(0, b@.len() as int) =~= b@);
            r
        },
        Some(i) => {
            let head = copy_range(b, 0, i);
            let tail = copy_range(b, i + 1, n);
            assert(head@ =~= b@.take(i as int));
            assert(tail@ =~= b@.skip(i + 1));
            let rest = split_on(tail.as_slice(), sep);
            let mut r: Vec<Vec<u8>> = Vec::new();
            r.push(head);
            let mut j: usize = 0;
            while j < rest.len()
                invariant
                    j <= rest@.len(),
                    r@.len() == j + 1,
                    r@[0]@ == b@.take(i as int),
                    forall|k: int| 1 <= k <= j ==> (#[trigger] r@[k])@ == rest@[k - 1]@,
                decreases rest@.len() - j,
            {
                r.push(copy_range(rest[j].as_slice(), 0, rest[j].len()));
                assert(rest@[j as int]@.subrange(0, rest@[j as int]@.len() as int) =~= rest@[j as int]@);
                j = j + 1;
            }
            r
        },
    }
}


/// `a` is a prefix of `b`.
pub open spec fn is_prefix(a: Seq<VolumeId>, b: Seq<VolumeId>) -> bool {
    a.len() <= b.len() && b.take(a.len() as int) == a
}

/// The ids named by the first `j` pieces begin the ids named by all pieces, and once a
/// piece cannot be read, later pieces change nothing.
proof fn lemma_ids_prefix(rs: Seq<Seq<u8>>, j: int)
    requires
        0 <= j <= rs.len(),
    ensures
        is_prefix(ids_of_ranges(rs.take(j)).0, ids_of_ranges(rs).0),
        !ids_of_ranges(rs.take(j)).1 ==> ids_of_ranges(rs) == ids_of_ranges(rs.take(j)),
    decreases rs.len() - j,
{
    if j < rs.len() {
        lemma_ids_prefix(rs, j + 1);
        assert(rs.take(j + 1).drop_last() =~= rs.take(j));
        let a = ids_of_ranges(rs.take(j)).0;
        let b = ids_of_ranges(rs.take(j + 1)).0;
        let c = ids_of_ranges(rs).0;
        assert(is_prefix(a, b)) by {
            assert(b.take(a.len() as int) =~= a);
        }
        assert(c.take(a.len() as int) =~= c.take(b.len() as int).take(a.len() as int));
    } else {
        assert(rs.take(j) =~= rs);
        assert(ids_of_ranges(rs).0.take(ids_of_ranges(rs).0.len() as int) =~= ids_of_ranges(rs).0);
    }
}

/// Once adding fails, adding more ids changes nothing.
proof fn lemma_add_all_stops(k: Seq<Set<VolumeId>>, m: Seq<i64>, a: Seq<VolumeId>, b: Seq<VolumeId>)
    requires
        !model_add_all(k, m, a).1,
        is_prefix(a, b),
    ensures
        model_add_all(k, m, b) == model_add_all(k, m, a),
    decreases b.len(),
{
    if b.len() > a.len() {
        assert(is_prefix(a, b.drop_last())) by {
            assert(b.drop_last().take(a.len() as int) =~= b.take(a.len() as int));
        }
        lemma_add_all_stops(k, m, a, b.drop_last());
    } else {
        assert(b =~= a);
    }
}

proof fn lemma_model_add_all_push(keys: Seq<Set<VolumeId>>, maxes: Seq<i64>, ids: Seq<VolumeId>, x: VolumeId)
    ensures
        model_add_all(keys, maxes, ids.push(x)) == ({
            let (k1, ok) = model_add_all(keys, maxes, ids);
            if !ok {
                (k1, false)
            } else {
                match model_add(k1, maxes, x) {
                    Some(k2) => (k2, true),
                    None => (k1, false),
                }
            }
        }),
{
    assert(ids.push(x).drop_last() =~= ids);
}

/// The time to live a volume is added with, read from the bytes `b`: none (a count of 0)
/// when `b` is empty, else what `b` spells, if anything.
pub open spec fn volume_ttl(b: Seq<u8>) -> Option<TTL> {
    if b.len() == 0 {
        Some(TTL { count: 0, unit: crate::storage::ttl::Unit::Empty })
    } else {
        parse_ttl(b)
    }
}

impl Store {
    /// Adds the volumes of the volume list `volume_list` (such as `1,3-5`) with the given
    /// collection, replication and ttl texts, one after another, each in the directory
    /// with the most room; stops at the first that cannot be read or added. An empty ttl
    /// text means no ttl.
    pub fn add_volume(
        &mut self,
        volume_list: &str,
        collection: &str,
        needle_map_kind: NeedleMapType,
        replica_placement: &str,
        ttl_str: &str,
        pre_allocate: i64,
    ) -> (r: Result<(), Error>)
        requires
            ttl_text_readable(ttl_str.spec_bytes()),
        ensures
            replica_placement.spec_bytes().len() != 3 ==> (r matches Err(Error::ParseReplicaPlacement(_)))
                && final(self).locations@ == old(self).locations@,
            replica_placement.spec_bytes().len() == 3 && volume_ttl(ttl_str.spec_bytes()) is None ==> (r matches Err(
                Error::ParseTTL(_),
            )) && final(self).locations@ == old(self).locations@,
            replica_placement.spec_bytes().len() == 3 ==> (volume_ttl(ttl_str.spec_bytes()) matches Some(ttl) ==> {
                let (ids, read_ok) = volume_list_ids(volume_list.spec_bytes());
                let (keys, added_ok) = model_add_all(keys_of(old(self).locations@), maxes_of(old(self).locations@), ids);
                &&& keys_of(final(self).locations@) == keys
                &&& store_grew(
                    old(self).locations@,
                    final(self).locations@,
                    collection@,
                    needle_map_kind,
                    placement_of_bytes(replica_placement.spec_bytes()),
                    ttl,
                )
                &&& !added_ok ==> (r matches Err(Error::Other(_)))
                &&& added_ok && !read_ok ==> (r matches Err(Error::ParseIntError))
                &&& added_ok && read_ok ==> r is Ok
            }),
            same_settings(&*old(self), &*final(self)),
    {
        let rp = ReplicaPlacement::new(replica_placement)?;
        let ttl = if ttl_str.as_bytes().len() == 0 {
            TTL::default()
        } else {
            TTL::new(ttl_str)?
        };
        let pieces = split_on(volume_list.as_bytes(), 44u8);
        let ghost rs = split_bytes(volume_list.spec_bytes(), 44u8);
        let ghost keys0 = keys_of(self.locations@);
        let ghost maxes = maxes_of(self.locations@);
        let ghost locs0 = self.locations@;
        let ghost mut done: Seq<VolumeId> = seq![];
        let mut j: usize = 0;
        assert(rs.take(0) =~= seq![]);
        while j < pieces.len()
            invariant
                j <= pieces@.len(),
                pieces@.len() == rs.len(),
                rs == split_bytes(volume_list.spec_bytes(), 44u8),
                keys0 == keys_of(old(self).locations@),
                maxes == maxes_of(old(self).locations@),
                forall|i: int| 0 <= i < pieces@.len() ==> (#[trigger] pieces@[i])@ == rs[i],
                ids_of_ranges(rs.take(j as int)) == (done, true),
                model_add_all(keys0, maxes, done) == (keys_of(self.locations@), true),
                maxes_of(self.locations@) == maxes,
                store_grew(locs0, self.locations@, collection@, needle_map_kind, rp, ttl),
                same_settings(&*old(self), &*self),
                replica_placement.spec_bytes().len() == 3,
                volume_ttl(ttl_str.spec_bytes()) == Some(ttl),
                rp == placement_of_bytes(replica_placement.spec_bytes()),
                locs0 == old(self).locations@,
            decreases pieces@.len() - j,
        {
            assert(rs.take(j + 1).drop_last() =~= rs.take(j as int));
            assert(rs.take(j + 1).last() == rs[j as int]);
            let parts = split_on(pieces[j].as_slice(), 45u8);
            if parts.len() == 1 {
                let vid = match parse_uint_bytes(parts[0].as_slice(), 10, 0xffff_ffff) {
                    Some(v) => v as u32,
                    None => {
                        proof {
                            assert(range_ids(rs[j as int]) is None);
                            assert(ids_of_ranges(rs.take(j + 1)) == (done, false));
                            lemma_ids_prefix(rs, j + 1);
                            assert(rs.take(rs.len() as int) =~= rs);
                        }
                        return Err(Error::ParseIntError);
                    },
                };
                proof {
                    lemma_model_add_all_push(keys0, maxes, done, vid);
                    assert(ids_of_ranges(rs.take(j + 1)) == (done.push(vid), true)) by {
                        assert(done + seq![vid] =~= done.push(vid));
                    }
                    lemma_ids_prefix(rs, j + 1);
                }
                match self.do_add_volume(vid, collection, needle_map_kind, rp, ttl, pre_allocate) {
                    Ok(()) => {},
                    Err(e) => {
                        proof {
                            lemma_add_all_stops(keys0, maxes, done.push(vid), ids_of_ranges(rs).0);
                        }
                        return Err(e);
                    },
                }
                proof {
                    done = done.push(vid);
                }
            } else {
                let start = match parse_uint_bytes(parts[0].as_slice(), 10, 0xffff_ffff) {
                    Some(v) => v,
                    None => {
                        proof {
                            assert(range_ids(rs[j as int]) is None);
                            assert(ids_of_ranges(rs.take(j + 1)) == (done, false));
                            lemma_ids_prefix(rs, j + 1);
                            assert(rs.take(rs.len() as int) =~= rs);
                        }
                        return Err(Error::ParseIntError);
                    },
                };
                let end = match parse_uint_bytes(parts[1].as_slice(), 10, 0xffff_ffff) {
                    Some(v) => v,
                    None => {
                        proof {
                            assert(range_ids(rs[j as int]) is None);
                            assert(ids_of_ranges(rs.take(j + 1)) == (done, false));
                            lemma_ids_prefix(rs, j + 1);
                            assert(rs.take(rs.len() as int) =~= rs);
                        }
                        return Err(Error::ParseIntError);
                    },
                };
                let ghost before = done;
                let ghost rids = if end == u32_max() {
                    seq![]
                } else {
                    Seq::new(if start <= end { (end - start + 1) as nat } else { 0 }, |k: int| (start + k) as u32)
                };
                assert(range_ids(rs[j as int]) == Some(rids));
                assert(ids_of_ranges(rs.take(j + 1)) == (before + rids, true));
                proof {
                    lemma_ids_prefix(rs, j + 1);
                }
                if end < 0xffff_ffff && start <= end {
                    let mut id: u64 = start;
                    while id <= end
                        invariant
                            start <= id <= end + 1,
                            end < 0xffff_ffff,
                            done == before + Seq::new((id - start) as nat, |k: int| (start + k) as u32),
                            model_add_all(keys0, maxes, done) == (keys_of(self.locations@), true),
                            maxes_of(self.locations@) == maxes,
                            store_grew(locs0, self.locations@, collection@, needle_map_kind, rp, ttl),
                            same_settings(&*old(self), &*self),
                            replica_placement.spec_bytes().len() == 3,
                            volume_ttl(ttl_str.spec_bytes()) == Some(ttl),
                            rp == placement_of_bytes(replica_placement.spec_bytes()),
                            rids == Seq::new((end - start + 1) as nat, |k: int| (start + k) as u32),
                            is_prefix(before + rids, ids_of_ranges(rs).0),
                            rs == split_bytes(volume_list.spec_bytes(), 44u8),
                            locs0 == old(self).locations@,
                            keys0 == keys_of(old(self).locations@),
                            maxes == maxes_of(old(self).locations@),
                        decreases end + 1 - id,
                    {
                        proof {
                            lemma_model_add_all_push(keys0, maxes, done, id as u32);
                        }
                        match self.do_add_volume(id as u32, collection, needle_map_kind, rp, ttl, pre_allocate) {
                            Ok(()) => {},
                            Err(e) => {
                                proof {
                                    let full = ids_of_ranges(rs).0;
                                    let p = done.push(id as u32);
                                    assert(p =~= (before + rids).take(p.len() as int));
                                    assert(is_prefix(p, full)) by {
                                        assert(full.take(p.len() as int) =~= full.take((before + rids).len() as int).take(p.len() as int));
                                    }
                                    lemma_add_all_stops(keys0, maxes, p, full);
                                }
                                return Err(e);
                            },
                        }
                        proof {
                            done = done.push(id as u32);
                        }
                        id = id + 1;
                        assert(done =~= before + Seq::new((id - start) as nat, |k: int| (start + k) as u32));
                    }
                }
                assert(rids.len() == 0 ==> before + rids =~= before);
                assert(done =~= before + rids);
            }
            j = j + 1;
        }
        assert(rs.take(j as int) =~= rs);
        Ok(())
    }
}

/// The message of a volume that is not here, as writing says it: `volume <vid> not fount`.
pub open spec fn volume_not_fount_text(vid: VolumeId) -> Seq<char> {
    seq!['v', 'o', 'l', 'u', 'm', 'e', ' '] + dec_str(vid as nat) + seq![
        ' ',
        'n',
        'o',
        't',
        ' ',
        'f',
        'o',
        'u',
        'n',
        't',
    ]
}

/// The sum of the most volumes of the first `n` directories, wrapping at 2^64.
pub open spec fn sum_max_volumes(locs: Seq<DiskLocation>, n: int) -> i64
    decreases n,
{
    if n <= 0 || n > locs.len() {
        0
    } else {
        vstd::wrapping::i64_specs::wrapping_add(sum_max_volumes(locs, n - 1), locs[n - 1].max_volume_count)
    }
}

/// How long a volume stays after it expired before it is removed, at most.
pub const MAX_TTL_VOLUME_REMOVAL_DELAY_MINUTES: u64 = 10;

impl Store {
    /// Writes needle `n` to volume `vid`: appends its record to `out` and returns its data
    /// size and the byte offset in the volume's data file, whose end is now at `file_end`,
    /// where `out` must be written.
    pub fn write_volume_needle(
        &mut self,
        vid: VolumeId,
        n: &mut Needle,
        file_end: u64,
        out: &mut Vec<u8>,
    ) -> (r: Result<(u32, u64), Error>)
        requires
            (old(n)@.data.len() % 0x1_0000_0000) as u32 > 0 ==> !flag_set(old(n)@.flags, FLAG_HAS_PAIRS),
            file_end <= 0xffff_ffff_ffff_fff0,
        ensures
            same_settings(&*old(self), &*final(self)),
            write_volume_needle_post(&*old(self), &*final(self), vid, old(n)@, final(n)@, file_end, old(out)@, final(out)@, r),
    {
        proof {
            lemma_first_location(self.locations@, vid);
            reveal_strlit(" not fount");
        }
        let i = match self.location_index(vid) {
            Some(i) => i,
            None => {
                let m = volume_message(vid, " not fount");
                assert(m@ =~= volume_not_fount_text(vid));
                return Err(Error::Other(m));
            },
        };
        let read_only = match self.locations[i].volumes.get(&vid) {
            Some(v) => v.read_only,
            None => false,
        };
        if read_only {
            return Err(Error::Other(volume_message(vid, " is read only")));
        }
        let ghost lorig = self.locations@;
        let mut v = match self.locations[i].volumes.remove(&vid) {
            Some(v) => v,
            None => {
                return Err(Error::Other(volume_message(vid, " not fount")));
            },
        };
        let ghost v0 = v;
        assert(lorig[i as int].volumes@[vid] == v0);
        let r = v.write_needle(n, file_end, out);
        let ghost v1 = v;
        self.locations[i].volumes.insert(vid, v);
        proof {
            assert(self.locations@[i as int].volumes@[vid] == v1);
            assert(self.locations@[i as int].volumes@ == lorig[i as int].volumes@.insert(vid, v1));
            assert(forall|j: int| 0 <= j < lorig.len() && j != i ==> self.locations@[j] == lorig[j]);
        }
        r
    }

    /// The heartbeat of this store at `now` (seconds since the epoch): see
    /// [`heartbeat_post`].
    pub fn heartbeat(&self, now: u64) -> (r: Heartbeat)
        ensures
            heartbeat_post(self, now, r),
    {
        let mut max_file_key: u64 = 0;
        let mut max_volume_count: i64 = 0;
        let mut volumes: Vec<VolumeInformationMessage> = Vec::new();
        let mut i: usize = 0;
        while i < self.locations.len()
            invariant
                i <= self.locations@.len(),
                forall|j: int| 0 <= j < volumes@.len() ==> some_location_tells(
                    self.locations@,
                    i as int,
                    self.volume_size_limit,
                    now,
                    #[trigger] volumes@[j],
                ),
                forall|l: int, k: VolumeId| 0 <= l < i && #[trigger] self.locations@[l].volumes@.contains_key(k)
                    && volume_expired(&self.locations@[l].volumes@[k], self.volume_size_limit, now) ==> told_of(
                    volumes@,
                    k,
                    self.locations@[l].volumes@[k],
                ),
                max_volume_count == sum_max_volumes(self.locations@, i as int),
                forall|j: int, k: VolumeId| 0 <= j < i && #[trigger] self.locations@[j].volumes@.contains_key(k)
                    ==> self.locations@[j].volumes@[k].nm@.maximum_file_key <= max_file_key,
                max_file_key == 0 || exists|j: int, k: VolumeId| 0 <= j < i && #[trigger] self.locations@[j].volumes@.contains_key(k)
                    && self.locations@[j].volumes@[k].nm@.maximum_file_key == max_file_key,
            decreases self.locations@.len() - i,
        {
            let location = &self.locations[i];
            max_volume_count = max_volume_count.wrapping_add(location.max_volume_count);
            let m = location.max_file_key();
            if m > max_file_key {
                max_file_key = m;
            }
            let mut found = location.expired_volume_messages(self.volume_size_limit, now);
            let ghost v0 = volumes@;
            let ghost f0 = found@;
            volumes.append(&mut found);
            proof {
                assert(volumes@ == v0 + f0);
                assert forall|j: int| 0 <= j < volumes@.len() implies some_location_tells(
                    self.locations@,
                    i + 1,
                    self.volume_size_limit,
                    now,
                    #[trigger] volumes@[j],
                ) by {
                    if j < v0.len() {
                        assert(volumes@[j] == v0[j]);
                        assert(some_location_tells(self.locations@, i as int, self.volume_size_limit, now, v0[j]));
                    } else {
                        assert(volumes@[j] == f0[j - v0.len()]);
                        assert(tells_expired(self.locations@[i as int].volumes@, self.volume_size_limit, now, f0[j - v0.len()]));
                    }
                }
                assert forall|l: int, k: VolumeId| 0 <= l < i + 1 && #[trigger] self.locations@[l].volumes@.contains_key(k)
                    && volume_expired(&self.locations@[l].volumes@[k], self.volume_size_limit, now) implies told_of(
                    volumes@,
                    k,
                    self.locations@[l].volumes@[k],
                ) by {
                    let w = self.locations@[l].volumes@[k];
                    if l < i {
                        let j = choose|j: int| 0 <= j < v0.len() && volume_message_ok(k, w, #[trigger] v0[j]);
                        assert(volumes@[j] == v0[j]);
                    } else {
                        assert(told_of(f0, k, w));
                        let j = choose|j: int| 0 <= j < f0.len() && volume_message_ok(k, w, #[trigger] f0[j]);
                        assert(volumes@[v0.len() + j] == f0[j]);
                    }
                }
            }
            i = i + 1;
        }
        let mut beat = Heartbeat::new();
        beat.ip = self.ip.clone();
        beat.port = self.port as u32;
        beat.public_url = self.public_url.clone();
        beat.max_volume_count = max_volume_count as u32;
        beat.max_file_key = max_file_key;
        beat.data_center = self.data_center.clone();
        beat.rack = self.rack.clone();
        beat.volumes = volumes;
        beat
    }
}

/// `v` is a volume to remove at `now` of one of the first `n` directories of `locs`.
pub open spec fn removed_from_some(locs: Seq<DiskLocation>, n: int, v: Volume, limit: u64, now: u64) -> bool {
    exists|i: int| 0 <= i < n && i < locs.len() && #[trigger] is_removable_volume(
        locs[i].volumes@,
        v,
        limit,
        MAX_TTL_VOLUME_REMOVAL_DELAY_MINUTES,
        now,
    )
}

impl Store {
    /// The heartbeat of this store at `now` (see [`heartbeat_post`], of the store as it
    /// was), after which the volumes to remove (see [`removable`]) are taken out of their
    /// directories and returned, each once, in no stated order; the caller removes their
    /// files.
    pub fn collect_heartbeat(&mut self, now: u64) -> (r: (Heartbeat, Vec<Volume>))
        ensures
            heartbeat_post(&*old(self), now, r.0),
            same_settings(&*old(self), &*final(self)),
            final(self).locations@.len() == old(self).locations@.len(),
            forall|i: int| 0 <= i < old(self).locations@.len() ==> {
                &&& (#[trigger] final(self).locations@[i]).directory == old(self).locations@[i].directory
                &&& final(self).locations@[i].max_volume_count == old(self).locations@[i].max_volume_count
                &&& final(self).locations@[i].volumes@ == old(self).locations@[i].volumes@.remove_keys(
                    removable_ids(old(self).locations@[i].volumes@, old(self).volume_size_limit, MAX_TTL_VOLUME_REMOVAL_DELAY_MINUTES, now),
                )
            },
            forall|j: int| 0 <= j < r.1@.len() ==> removed_from_some(
                old(self).locations@,
                old(self).locations@.len() as int,
                #[trigger] r.1@[j],
                old(self).volume_size_limit,
                now,
            ),
            forall|i: int, k: VolumeId| 0 <= i < old(self).locations@.len() && #[trigger] removable(
                old(self).locations@[i].volumes@,
                k,
                old(self).volume_size_limit,
                MAX_TTL_VOLUME_REMOVAL_DELAY_MINUTES,
                now,
            ) ==> exists|j: int| 0 <= j < r.1@.len() && r.1@[j] == old(self).locations@[i].volumes@[k],
    {
        let beat = self.heartbeat(now);
        let ghost l0 = self.locations@;
        let limit = self.volume_size_limit;
        let mut removed: Vec<Volume> = Vec::new();
        let mut i: usize = 0;
        while i < self.locations.len()
            invariant
                i <= self.locations@.len(),
                self.locations@.len() == l0.len(),
                l0 == old(self).locations@,
                limit == old(self).volume_size_limit,
                same_settings(&*old(self), &*self),
                forall|x: int| i <= x < l0.len() ==> #[trigger] self.locations@[x] == l0[x],
                forall|x: int| 0 <= x < i ==> {
                    &&& (#[trigger] self.locations@[x]).directory == l0[x].directory
                    &&& self.locations@[x].max_volume_count == l0[x].max_volume_count
                    &&& self.locations@[x].volumes@ == l0[x].volumes@.remove_keys(
                        removable_ids(l0[x].volumes@, limit, MAX_TTL_VOLUME_REMOVAL_DELAY_MINUTES, now),
                    )
                },
                forall|j: int| 0 <= j < removed@.len() ==> removed_from_some(l0, i as int, #[trigger] removed@[j], limit, now),
                forall|x: int, k: VolumeId| 0 <= x < i && #[trigger] removable(l0[x].volumes@, k, limit, MAX_TTL_VOLUME_REMOVAL_DELAY_MINUTES, now)
                    ==> exists|j: int| 0 <= j < removed@.len() && removed@[j] == l0[x].volumes@[k],
            decreases l0.len() - i,
        {
            let mut gone = self.locations[i].remove_volumes(limit, MAX_TTL_VOLUME_REMOVAL_DELAY_MINUTES, now);
            let ghost r0 = removed@;
            let ghost g0 = gone@;
            removed.append(&mut gone);
            proof {
                assert(removed@ == r0 + g0);
                assert forall|j: int| 0 <= j < removed@.len() implies removed_from_some(l0, i + 1, #[trigger] removed@[j], limit, now) by {
                    if j < r0.len() {
                        assert(removed@[j] == r0[j]);
                        assert(removed_from_some(l0, i as int, r0[j], limit, now));
                        let x = choose|x: int| 0 <= x < i && #[trigger] is_removable_volume(l0[x].volumes@, r0[j], limit, MAX_TTL_VOLUME_REMOVAL_DELAY_MINUTES, now);
                        assert(is_removable_volume(l0[x].volumes@, removed@[j], limit, MAX_TTL_VOLUME_REMOVAL_DELAY_MINUTES, now));
                    } else {
                        assert(removed@[j] == g0[j - r0.len()]);
                        assert(is_removable_volume(l0[i as int].volumes@, removed@[j], limit, MAX_TTL_VOLUME_REMOVAL_DELAY_MINUTES, now));
                    }
                }
                assert forall|x: int, k: VolumeId| 0 <= x < i + 1 && #[trigger] removable(l0[x].volumes@, k, limit, MAX_TTL_VOLUME_REMOVAL_DELAY_MINUTES, now)
                    implies exists|j: int| 0 <= j < removed@.len() && removed@[j] == l0[x].volumes@[k] by {
                    if x < i {
                        let j = choose|j: int| 0 <= j < r0.len() && r0[j] == l0[x].volumes@[k];
                        assert(removed@[j] == r0[j]);
                    } else {
                        let j = choose|j: int| 0 <= j < g0.len() && g0[j] == l0[x].volumes@[k];
                        assert(removed@[r0.len() + j] == g0[j]);
                    }
                }
            }
            i = i + 1;
        }
        (beat, removed)
    }
}

/// What the heartbeat `r` of store `st` at `now` says: its address, the sum of its
/// directories' capacities, the largest key in any of its volumes, its data center and
/// rack, and a message for each volume that has expired under the size limit (see
/// [`tells_expired`]).
pub open spec fn heartbeat_post(st: &Store, now: u64, r: Heartbeat) -> bool {
    &&& r.ip == st.ip
    &&& r.port == st.port as u32
    &&& r.public_url == st.public_url
    &&& r.max_volume_count == sum_max_volumes(st.locations@, st.locations@.len() as int) as u32
    &&& forall|i: int, k: VolumeId| 0 <= i < st.locations@.len() && #[trigger] st.locations@[i].volumes@.contains_key(k)
        ==> st.locations@[i].volumes@[k].nm@.maximum_file_key <= r.max_file_key
    &&& r.max_file_key == 0 || exists|i: int, k: VolumeId| 0 <= i < st.locations@.len() && #[trigger] st.locations@[i].volumes@.contains_key(k)
        && st.locations@[i].volumes@[k].nm@.maximum_file_key == r.max_file_key
    &&& r.data_center == st.data_center
    &&& r.rack == st.rack
    &&& r.admin_port == 0
    &&& forall|j: int| 0 <= j < r.volumes@.len() ==> some_location_tells(
        st.locations@,
        st.locations@.len() as int,
        st.volume_size_limit,
        now,
        #[trigger] r.volumes@[j],
    )
    &&& forall|i: int, k: VolumeId| 0 <= i < st.locations@.len() && #[trigger] st.locations@[i].volumes@.contains_key(k)
        && volume_expired(&st.locations@[i].volumes@[k], st.volume_size_limit, now) ==> told_of(
        r.volumes@,
        k,
        st.locations@[i].volumes@[k],
    )
}

/// `volume <vid>` and then `tail`.
fn volume_message(vid: VolumeId, tail: &str) -> (r: String)
    ensures
        r@ == seq!['v', 'o', 'l', 'u', 'm', 'e', ' '] + dec_str(vid as nat) + tail@,
{
    proof {
        reveal_strlit("volume ");
    }
    let mut s = String::from_str("volume ");
    let d = dec_string(vid as u64);
    s.append(d.as_str());
    s.append(tail);
    s
}

} // verus!
