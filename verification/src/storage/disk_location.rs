//! A directory of a volume server, and the volumes in it.
use vstd::prelude::*;
use std::collections::HashMap;
use vstd::std_specs::iter::IteratorSpec;
use crate::storage::volume::{Volume, volume_expired, volume_expired_long_enough};
use crate::pb::zergling::VolumeInformationMessage;
use crate::storage::ttl::unit_index;
use crate::storage::VolumeId;

verus! {

broadcast use vstd::std_specs::hash::group_hash_axioms;

/// A directory that holds up to `max_volume_count` volumes.
pub struct DiskLocation {
    pub directory: String,
    pub max_volume_count: i64,
    pub volumes: HashMap<VolumeId, Volume>,
}

impl DiskLocation {
    /// A directory with no volumes yet.
    pub fn new(dir: &str, max_volume_count: i64) -> (r: DiskLocation)
        ensures
            r.directory@ == dir@,
            r.max_volume_count == max_volume_count,
            r.volumes@ == Map::<VolumeId, Volume>::empty(),
    {
        DiskLocation {
            directory: String::from_str(dir),
            max_volume_count,
            volumes: HashMap::new(),
        }
    }

    /// The largest key set in any volume here, or 0 when there is none.
    pub fn max_file_key(&self) -> (r: u64)
        ensures
            forall|k: VolumeId| #[trigger]
                self.volumes@.contains_key(k) ==> self.volumes@[k].nm@.maximum_file_key <= r,
            r == 0 || exists|k: VolumeId| #[trigger]
                self.volumes@.contains_key(k) && self.volumes@[k].nm@.maximum_file_key == r,
    {
        let mut m: u64 = 0;
        for (vid, v) in it: self.volumes.iter()
            invariant
                it.seq() == vstd::std_specs::hash::spec_hash_map_iter(&self.volumes).remaining(),
                forall|i: int| 0 <= i < it.index() ==> (#[trigger] it.seq()[i]).1.nm@.maximum_file_key <= m,
                m == 0 || exists|k: VolumeId| #[trigger]
                    self.volumes@.contains_key(k) && self.volumes@[k].nm@.maximum_file_key == m,
        {
            let k = v.nm.max_file_key();
            if k > m {
                assert(self.volumes@.contains_key(*it.seq()[it.index() as int].0));
                m = k;
            }
        }
        m
    }
}


/// The message `m` tells the directory server of volume `v`, kept under id `vid`: its
/// id, its size as its index counts it, collection, counts, read-only state, replication
/// byte, version and ttl.
pub open spec fn volume_message_ok(vid: VolumeId, v: Volume, m: VolumeInformationMessage) -> bool {
    &&& m.id == vid
    &&& m.size == v.nm@.file_byte_count
    &&& m.collection@ == v.collection@
    &&& m.file_count == v.nm@.file_count
    &&& m.delete_count == v.nm@.deleted_count
    &&& m.deleted_byte_count == v.nm@.deleted_byte_count
    &&& m.read_only == v.read_only
    &&& m.replica_placement == v.super_block.replica_placement.byte_spec() as u32
    &&& m.version == v.super_block.version as u32
    &&& m.ttl == v.super_block.ttl.count + unit_index(v.super_block.ttl.unit) * 256
}

/// The message `m` tells of a volume of `vols` that has expired at `now` under the size
/// limit `limit`.
pub open spec fn tells_expired(vols: Map<VolumeId, Volume>, limit: u64, now: u64, m: VolumeInformationMessage) -> bool {
    exists|k: VolumeId| #[trigger] vols.contains_key(k) && volume_expired(&vols[k], limit, now) && volume_message_ok(k, vols[k], m)
}

/// Some message of `ms` tells of volume `v`, kept under id `k`.
pub open spec fn told_of(ms: Seq<VolumeInformationMessage>, k: VolumeId, v: Volume) -> bool {
    exists|j: int| 0 <= j < ms.len() && volume_message_ok(k, v, #[trigger] ms[j])
}

impl DiskLocation {
    /// The messages of the volumes here that have expired at `now` (seconds since the
    /// epoch) under the size limit `volume_size_limit`: one for each such volume, in no
    /// stated order, and none for another.
    pub fn expired_volume_messages(&self, volume_size_limit: u64, now: u64) -> (r: Vec<VolumeInformationMessage>)
        ensures
            forall|j: int| 0 <= j < r@.len() ==> tells_expired(self.volumes@, volume_size_limit, now, #[trigger] r@[j]),
            forall|k: VolumeId| #[trigger] self.volumes@.contains_key(k) && volume_expired(&self.volumes@[k], volume_size_limit, now)
                ==> told_of(r@, k, self.volumes@[k]),
    {
        let mut r: Vec<VolumeInformationMessage> = Vec::new();
        for (vid, v) in it: self.volumes.iter()
            invariant
                it.seq() == vstd::std_specs::hash::spec_hash_map_iter(&self.volumes).remaining(),
                forall|j: int| 0 <= j < r@.len() ==> tells_expired(self.volumes@, volume_size_limit, now, #[trigger] r@[j]),
                forall|i: int| 0 <= i < it.index() && volume_expired(&(#[trigger] it.seq()[i]).1, volume_size_limit, now)
                    ==> told_of(r@, *it.seq()[i].0, *it.seq()[i].1),
        {
            assert(it.seq()[it.index() as int] == (vid, v));
            assert(self.volumes@.contains_key(*vid) && self.volumes@[*vid] == *v);
            if v.expired(volume_size_limit, now) {
                let ghost r0 = r@;
                let m = VolumeInformationMessage {
                    id: *vid,
                    size: v.content_size(),
                    collection: v.collection.clone(),
                    file_count: v.nm.file_count(),
                    delete_count: v.nm.delete_count(),
                    deleted_byte_count: v.nm.deleted_byte_count(),
                    read_only: v.read_only,
                    replica_placement: v.super_block.replica_placement.byte() as u32,
                    version: v.super_block.version as u32,
                    ttl: v.super_block.ttl.to_u32(),
                };
                r.push(m);
                assert(volume_message_ok(*vid, *v, r@[r0.len() as int]));
                assert(tells_expired(self.volumes@, volume_size_limit, now, r@[r0.len() as int]));
                assert forall|j: int| 0 <= j < r@.len() implies tells_expired(self.volumes@, volume_size_limit, now, #[trigger] r@[j]) by {
                    if j < r0.len() {
                        assert(r@[j] == r0[j]);
                    }
                }
                assert forall|k: VolumeId, w: Volume| told_of(r0, k, w) implies told_of(r@, k, w) by {
                    let j = choose|j: int| 0 <= j < r0.len() && volume_message_ok(k, w, #[trigger] r0[j]);
                    assert(r@[j] == r0[j]);
                }
                assert(told_of(r@, *vid, *v));
            }
        }
        proof {
            assert forall|k: VolumeId| #[trigger] self.volumes@.contains_key(k) && volume_expired(&self.volumes@[k], volume_size_limit, now)
                implies told_of(r@, k, self.volumes@[k]) by {
                let s = vstd::std_specs::hash::spec_hash_map_iter(&self.volumes).remaining();
                assert(s.contains((&k, &self.volumes@[k])));
                let i = choose|i: int| 0 <= i < s.len() && s[i] == (&k, &self.volumes@[k]);
                assert(volume_expired(&s[i].1, volume_size_limit, now));
            }
        }
        r
    }
}


impl DiskLocation {
    /// The ids of the volumes here to remove at `now`: those that have not expired under
    /// the size limit `volume_size_limit` but whose ttl ran out more than
    /// `max_delay_minutes` ago. Each such id once, in no stated order, and no other.
    pub fn volumes_to_remove(&self, volume_size_limit: u64, max_delay_minutes: u64, now: u64) -> (r: Vec<VolumeId>)
        ensures
            r@.no_duplicates(),
            forall|k: VolumeId| #[trigger] r@.contains(k) <==> self.volumes@.contains_key(k) && !volume_expired(
                &self.volumes@[k],
                volume_size_limit,
                now,
            ) && volume_expired_long_enough(&self.volumes@[k], max_delay_minutes, now),
    {
        let mut r: Vec<VolumeId> = Vec::new();
        for (vid, v) in it: self.volumes.iter()
            invariant
                it.seq() == vstd::std_specs::hash::spec_hash_map_iter(&self.volumes).remaining(),
                it.seq().no_duplicates(),
                r@.no_duplicates(),
                forall|k: VolumeId| #[trigger] r@.contains(k) <==> exists|i: int| 0 <= i < it.index() && *(#[trigger] it.seq()[i]).0 == k
                    && !volume_expired(it.seq()[i].1, volume_size_limit, now)
                    && volume_expired_long_enough(it.seq()[i].1, max_delay_minutes, now),
        {
            let ghost idx = it.index();
            assert(it.seq()[idx as int] == (vid, v));
            assert(self.volumes@.contains_key(*vid) && self.volumes@[*vid] == *v);
            if !v.expired(volume_size_limit, now) && v.expired_long_enough(max_delay_minutes, now) {
                let ghost r0 = r@;
                assert(!r0.contains(*vid)) by {
                    if r0.contains(*vid) {
                        let i = choose|i: int| 0 <= i < idx && *(#[trigger] it.seq()[i]).0 == *vid
                            && !volume_expired(it.seq()[i].1, volume_size_limit, now)
                            && volume_expired_long_enough(it.seq()[i].1, max_delay_minutes, now);
                        assert(*it.seq()[i].0 == *it.seq()[idx as int].0);
                        assert(self.volumes@[*it.seq()[i].0] == *it.seq()[i].1);
                        assert(it.seq()[i] == it.seq()[idx as int]);
                    }
                }
                r.push(*vid);
                assert forall|k: VolumeId| #[trigger] r@.contains(k) <==> exists|i: int| 0 <= i < idx + 1 && *(#[trigger] it.seq()[i]).0 == k
                    && !volume_expired(it.seq()[i].1, volume_size_limit, now)
                    && volume_expired_long_enough(it.seq()[i].1, max_delay_minutes, now) by {
                    if r@.contains(k) {
                        if k != *vid {
                            let q = choose|q: int| 0 <= q < r@.len() && r@[q] == k;
                            assert(r0[q] == k);
                            assert(r0.contains(k));
                        }
                    }
                    if k == *vid {
                        assert(r@[r0.len() as int] == k);
                    } else {
                        if exists|i: int| 0 <= i < idx + 1 && *(#[trigger] it.seq()[i]).0 == k
                            && !volume_expired(it.seq()[i].1, volume_size_limit, now)
                            && volume_expired_long_enough(it.seq()[i].1, max_delay_minutes, now) {
                            assert(r0.contains(k));
                            let q = choose|q: int| 0 <= q < r0.len() && r0[q] == k;
                            assert(r@[q] == k);
                        }
                    }
                }
            } else {
                assert forall|k: VolumeId| #[trigger] r@.contains(k) <==> exists|i: int| 0 <= i < idx + 1 && *(#[trigger] it.seq()[i]).0 == k
                    && !volume_expired(it.seq()[i].1, volume_size_limit, now)
                    && volume_expired_long_enough(it.seq()[i].1, max_delay_minutes, now) by {
                }
            }
        }
        proof {
            let s = vstd::std_specs::hash::spec_hash_map_iter(&self.volumes).remaining();
            assert forall|k: VolumeId| #[trigger] r@.contains(k) <==> self.volumes@.contains_key(k) && !volume_expired(
                &self.volumes@[k],
                volume_size_limit,
                now,
            ) && volume_expired_long_enough(&self.volumes@[k], max_delay_minutes, now) by {
                if self.volumes@.contains_key(k) {
                    assert(s.contains((&k, &self.volumes@[k])));
                }
            }
        }
        r
    }
}


/// Volume `k` of `vols` is to be removed at `now`: it has not expired under the size
/// limit `limit`, but its ttl ran out more than `delay` minutes ago.
pub open spec fn removable(vols: Map<VolumeId, Volume>, k: VolumeId, limit: u64, delay: u64, now: u64) -> bool {
    vols.contains_key(k) && !volume_expired(&vols[k], limit, now) && volume_expired_long_enough(&vols[k], delay, now)
}

/// `v` is a volume of `vols` to remove at `now`.
pub open spec fn is_removable_volume(vols: Map<VolumeId, Volume>, v: Volume, limit: u64, delay: u64, now: u64) -> bool {
    exists|k: VolumeId| #[trigger] removable(vols, k, limit, delay, now) && v == vols[k]
}

/// The ids of the volumes of `vols` to remove at `now`.
pub open spec fn removable_ids(vols: Map<VolumeId, Volume>, limit: u64, delay: u64, now: u64) -> Set<VolumeId> {
    Set::new(|k: VolumeId| removable(vols, k, limit, delay, now))
}

impl DiskLocation {
    /// Takes out the volumes here to remove at `now` (see [`removable`]) and returns
    /// them, each once, in no stated order.
    pub fn remove_volumes(&mut self, volume_size_limit: u64, max_delay_minutes: u64, now: u64) -> (r: Vec<Volume>)
        ensures
            final(self).directory == old(self).directory,
            final(self).max_volume_count == old(self).max_volume_count,
            final(self).volumes@ == old(self).volumes@.remove_keys(
                removable_ids(old(self).volumes@, volume_size_limit, max_delay_minutes, now),
            ),
            forall|j: int| 0 <= j < r@.len() ==> is_removable_volume(old(self).volumes@, #[trigger] r@[j], volume_size_limit, max_delay_minutes, now),
            forall|k: VolumeId| #[trigger] removable(old(self).volumes@, k, volume_size_limit, max_delay_minutes, now) ==> exists|j: int|
                0 <= j < r@.len() && r@[j] == old(self).volumes@[k],
    {
        let ids = self.volumes_to_remove(volume_size_limit, max_delay_minutes, now);
        let ghost v0 = self.volumes@;
        let ghost gone = removable_ids(v0, volume_size_limit, max_delay_minutes, now);
        let mut r: Vec<Volume> = Vec::new();
        let mut i: usize = 0;
        while i < ids.len()
            invariant
                i <= ids@.len(),
                ids@.no_duplicates(),
                forall|k: VolumeId| #[trigger] ids@.contains(k) <==> removable(v0, k, volume_size_limit, max_delay_minutes, now),
                self.volumes@ == v0.remove_keys(ids@.take(i as int).to_set()),
                self.directory == old(self).directory,
                self.max_volume_count == old(self).max_volume_count,
                v0 == old(self).volumes@,
                r@.len() == i,
                forall|j: int| 0 <= j < i ==> #[trigger] r@[j] == v0[ids@[j]],
            decreases ids@.len() - i,
        {
            let id = ids[i];
            assert(ids@.contains(id));
            assert(!ids@.take(i as int).to_set().contains(id)) by {
                if ids@.take(i as int).to_set().contains(id) {
                    let a = choose|a: int| 0 <= a < i && ids@.take(i as int)[a] == id;
                    assert(ids@[a] == ids@[i as int]);
                }
            }
            let v = self.volumes.remove(&id);
            match v {
                Some(v) => {
                    r.push(v);
                },
                None => {
                    proof {
                        assert(false);
                    }
                },
            }
            proof {
                assert(ids@.take(i + 1).to_set() =~= ids@.take(i as int).to_set().insert(id)) by {
                    assert(ids@.take(i + 1) =~= ids@.take(i as int).push(id));
                    ids@.take(i as int).lemma_push_to_set_commute(id);
                }
                assert(self.volumes@ =~= v0.remove_keys(ids@.take(i + 1).to_set()));
            }
            i = i + 1;
        }
        proof {
            assert(ids@.take(ids@.len() as int) =~= ids@);
            assert(ids@.to_set() =~= gone);
            assert forall|j: int| 0 <= j < r@.len() implies is_removable_volume(v0, #[trigger] r@[j], volume_size_limit, max_delay_minutes, now) by {
                let k = ids@[j];
                assert(ids@.contains(k));
                assert(removable(v0, k, volume_size_limit, max_delay_minutes, now) && r@[j] == v0[k]);
            }
            assert forall|k: VolumeId| #[trigger] removable(v0, k, volume_size_limit, max_delay_minutes, now) implies exists|j: int|
                0 <= j < r@.len() && r@[j] == v0[k] by {
                assert(ids@.contains(k));
                let j = choose|j: int| 0 <= j < ids@.len() && ids@[j] == k;
                assert(r@[j] == v0[ids@[j]]);
            }
        }
        r
    }
}

} // verus!
