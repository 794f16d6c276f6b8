//! A data center: the racks in it.
use vstd::prelude::*;
use crate::directory::errors::Error;
use crate::directory::topology::chance::random_u32;
use crate::directory::topology::node::{max_vid, DataNode, NodeLoc};
use crate::directory::topology::rack::{Rack, wsum, reserve_pick, reserve_scan, draw_index, lemma_wsum_take, lemma_reserve_pick, nodes_free, nodes_has, nodes_max};
use crate::storage::VolumeId;
use vstd::string::*;

verus! {

/// The free room of each rack of `racks`.
pub open spec fn racks_free(racks: Seq<Rack>) -> Seq<i64> {
    Seq::new(racks.len(), |i: int| wsum(nodes_free(racks[i].nodes@)))
}

/// The volumes held in each rack of `racks`.
pub open spec fn racks_has(racks: Seq<Rack>) -> Seq<i64> {
    Seq::new(racks.len(), |i: int| wsum(nodes_has(racks[i].nodes@)))
}

/// The most volumes of each rack of `racks`.
pub open spec fn racks_max(racks: Seq<Rack>) -> Seq<i64> {
    Seq::new(racks.len(), |i: int| wsum(nodes_max(racks[i].nodes@)))
}

/// Law: the free room of a data center is the most volumes of its racks less the
/// volumes they hold (sums and difference wrapping at 2^64).
pub proof fn law_dc_free_is_max_less_held(racks: Seq<Rack>)
    ensures
        wsum(racks_free(racks)) == vstd::wrapping::i64_specs::wrapping_sub(wsum(racks_max(racks)), wsum(racks_has(racks))),
{
    assert forall|i: int| 0 <= i < racks.len() implies #[trigger] racks_free(racks)[i] == vstd::wrapping::i64_specs::wrapping_sub(
        racks_max(racks)[i],
        racks_has(racks)[i],
    ) by {
        crate::directory::topology::rack::law_rack_free_is_max_less_held(racks[i].nodes@);
    }
    crate::directory::topology::rack::lemma_wsum_of_differences(racks_free(racks), racks_max(racks), racks_has(racks));
}

/// The index of the first rack of `racks` with id `id`.
pub open spec fn find_rack(racks: Seq<Rack>, id: Seq<char>) -> Option<int> {
    if exists|i: int| 0 <= i < racks.len() && (#[trigger] racks[i]).id@ == id {
        Some(choose|i: int| 0 <= i < racks.len() && (#[trigger] racks[i]).id@ == id && forall|j: int|
            0 <= j < i ==> (#[trigger] racks[j]).id@ != id)
    } else {
        None
    }
}

/// `l` names a node of the data centers `dcs`.
pub open spec fn loc_ok(dcs: Seq<DataCenter>, l: NodeLoc) -> bool {
    &&& l.dc < dcs.len()
    &&& l.rack < dcs[l.dc as int].racks@.len()
    &&& l.node < dcs[l.dc as int].racks@[l.rack as int].nodes@.len()
}

/// The node that `l` names in the data centers `dcs`.
pub open spec fn node_at(dcs: Seq<DataCenter>, l: NodeLoc) -> DataNode {
    dcs[l.dc as int].racks@[l.rack as int].nodes@[l.node as int]
}

/// Every place of `locs` names a node of `dcs`.
pub open spec fn locs_ok(dcs: Seq<DataCenter>, locs: Seq<NodeLoc>) -> bool {
    forall|i: int| 0 <= i < locs.len() ==> loc_ok(dcs, #[trigger] locs[i])
}

/// The node that `l` names.
pub fn node_ref(dcs: &Vec<DataCenter>, l: NodeLoc) -> (r: &DataNode)
    requires
        loc_ok(dcs@, l),
    ensures
        *r == node_at(dcs@, l),
{
    &dcs[l.dc].racks[l.rack].nodes[l.node]
}

/// The message of a failed reservation in data center `id`.
pub open spec fn dc_reserve_fail_text(id: Seq<char>) -> Seq<char> {
    "reserve_one_volume on dc "@ + id + " fail"@
}

/// A data center of racks.
#[derive(Debug)]
pub struct DataCenter {
    pub id: String,
    pub max_volume_id: VolumeId,
    pub racks: Vec<Rack>,
}

impl DataCenter {
    /// `r` is what reserving a volume in this data center gives for the random draws
    /// `d1` (which picks the rack, as [`reserve_pick`] does over the racks' free room)
    /// and `d2` (which picks the node in that rack): the rack and node, or a failure.
    pub open spec fn reserved_with(&self, d1: u32, d2: u32, r: Result<(usize, usize), Error>) -> bool {
        match reserve_pick(racks_free(self.racks@), d1) {
            Some(k) => match reserve_pick(nodes_free(self.racks@[k].nodes@), d2) {
                Some(n) => r == Ok::<(usize, usize), Error>((k as usize, n as usize)),
                None => r matches Err(Error::NoFreeSpace(m)) && m@ == crate::directory::topology::rack::rack_reserve_fail_text(
                    self.racks@[k].id@,
                ),
            },
            None => r matches Err(Error::NoFreeSpace(m)) && m@ == dc_reserve_fail_text(self.id@),
        }
    }

    /// A data center with no racks.
    pub fn new(id: &str) -> (r: DataCenter)
        ensures
            r.id@ == id@,
            r.racks@.len() == 0,
            r.max_volume_id == 0,
    {
        DataCenter { id: String::from_str(id), max_volume_id: 0, racks: Vec::new() }
    }

    /// Raises the largest volume id seen in this data center to `vid` if `vid` is larger.
    pub fn adjust_max_volume_id(&mut self, vid: VolumeId)
        ensures
            final(self).max_volume_id == max_vid(old(self).max_volume_id, vid),
            final(self).id == old(self).id,
            final(self).racks == old(self).racks,
    {
        if vid > self.max_volume_id {
            self.max_volume_id = vid;
        }
    }

    /// The index of the rack with id `id`, added last (with no nodes) when there is none.
    pub fn get_or_create_rack(&mut self, id: &str) -> (r: usize)
        ensures
            r < final(self).racks@.len(),
            final(self).racks@[r as int].id@ == id@,
            final(self).id == old(self).id,
            final(self).max_volume_id == old(self).max_volume_id,
            match find_rack(old(self).racks@, id@) {
                Some(i) => r == i && final(self).racks@ == old(self).racks@,
                None => {
                    &&& r == old(self).racks@.len()
                    &&& final(self).racks@.len() == old(self).racks@.len() + 1
                    &&& final(self).racks@.take(r as int) == old(self).racks@
                    &&& final(self).racks@[r as int].id@ == id@
                    &&& final(self).racks@[r as int].nodes@.len() == 0
                    &&& final(self).racks@[r as int].max_volume_id == 0
                    &&& final(self).racks@[r as int].data_center@.len() == 0
                },
            },
    {
        let key = String::from_str(id);
        let mut i: usize = 0;
        while i < self.racks.len()
            invariant
                i <= self.racks@.len(),
                key@ == id@,
                forall|j: int| 0 <= j < i ==> (#[trigger] self.racks@[j]).id@ != id@,
            decreases self.racks@.len() - i,
        {
            if self.racks[i].id == key {
                proof {
                    assert(self.racks@[i as int].id@ == id@);
                    let k = choose|k: int| 0 <= k < self.racks@.len() && (#[trigger] self.racks@[k]).id@ == id@
                        && forall|j: int| 0 <= j < k ==> (#[trigger] self.racks@[j]).id@ != id@;
                    assert(k == i);
                }
                return i;
            }
            i = i + 1;
        }
        let ghost old_racks = self.racks@;
        self.racks.push(Rack::new(id));
        assert(self.racks@.take(i as int) =~= old_racks);
        i
    }

    /// How many volumes the racks of this data center hold (a wrapping sum).
    pub fn has_volumes(&self) -> (r: i64)
        ensures
            r == wsum(racks_has(self.racks@)),
    {
        let ghost vals = racks_has(self.racks@);
        let mut ret: i64 = 0;
        let mut i: usize = 0;
        while i < self.racks.len()
            invariant
                i <= self.racks@.len(),
                vals == racks_has(self.racks@),
                ret == wsum(vals.take(i as int)),
            decreases self.racks@.len() - i,
        {
            proof {
                lemma_wsum_take(vals, i as int);
            }
            ret = ret.wrapping_add(self.racks[i].has_volumes());
            i = i + 1;
        }
        assert(vals.take(i as int) =~= vals);
        ret
    }

    /// The most volumes the racks of this data center may hold (a wrapping sum).
    pub fn max_volumes(&self) -> (r: i64)
        ensures
            r == wsum(racks_max(self.racks@)),
    {
        let ghost vals = racks_max(self.racks@);
        let mut ret: i64 = 0;
        let mut i: usize = 0;
        while i < self.racks.len()
            invariant
                i <= self.racks@.len(),
                vals == racks_max(self.racks@),
                ret == wsum(vals.take(i as int)),
            decreases self.racks@.len() - i,
        {
            proof {
                lemma_wsum_take(vals, i as int);
            }
            ret = ret.wrapping_add(self.racks[i].max_volumes());
            i = i + 1;
        }
        assert(vals.take(i as int) =~= vals);
        ret
    }

    /// How many more volumes the racks of this data center may take (a wrapping sum).
    pub fn free_volumes(&self) -> (r: i64)
        ensures
            r == wsum(racks_free(self.racks@)),
    {
        let ghost vals = racks_free(self.racks@);
        let mut ret: i64 = 0;
        let mut i: usize = 0;
        while i < self.racks.len()
            invariant
                i <= self.racks@.len(),
                vals == racks_free(self.racks@),
                ret == wsum(vals.take(i as int)),
            decreases self.racks@.len() - i,
        {
            proof {
                lemma_wsum_take(vals, i as int);
            }
            ret = ret.wrapping_add(self.racks[i].free_volumes());
            i = i + 1;
        }
        assert(vals.take(i as int) =~= vals);
        ret
    }

    /// The rack (by the draw `d1`) and the node in it (by the draw `d2`) that take one
    /// new volume: see [`DataCenter::reserved_with`].
    pub fn reserve_with(&self, d1: u32, d2: u32) -> (r: Result<(usize, usize), Error>)
        requires
            wsum(racks_free(self.racks@)) != 0,
        ensures
            self.reserved_with(d1, d2, r),
    {
        let ghost vals = racks_free(self.racks@);
        let total = self.free_volumes();
        let idx: i64 = (d1 as i64) % total;
        assert(idx == draw_index(d1, total));
        proof {
            lemma_reserve_pick(vals, d1);
        }
        let mut free = total;
        let mut i: usize = 0;
        while i < self.racks.len()
            invariant
                i <= self.racks@.len(),
                vals == racks_free(self.racks@),
                reserve_pick(vals, d1) == reserve_scan(vals, free, idx, i as int),
                reserve_pick(vals, d1) matches Some(k) ==> 0 <= k < vals.len() && vals[k] != 0,
                idx == draw_index(d1, wsum(vals)),
            decreases self.racks@.len() - i,
        {
            free = free.wrapping_sub(self.racks[i].free_volumes());
            if free == idx {
                let n = self.racks[i].reserve_with(d2);
                return match n {
                    Ok(n) => Ok((i, n)),
                    Err(e) => Err(e),
                };
            }
            i = i + 1;
        }
        proof {
            reveal_strlit("reserve_one_volume on dc ");
            reveal_strlit(" fail");
        }
        let mut m = String::from_str("reserve_one_volume on dc ");
        m.append(self.id.as_str());
        m.append(" fail");
        Err(Error::NoFreeSpace(m))
    }

    /// Picks at random, in proportion to free room, a rack and then a node in it that
    /// take one new volume.
    pub fn reserve_one_volume(&self) -> (r: Result<(usize, usize), Error>)
        requires
            wsum(racks_free(self.racks@)) != 0,
        ensures
            exists|d1: u32, d2: u32| #[trigger] self.reserved_with(d1, d2, r),
    {
        let d1 = random_u32();
        let d2 = random_u32();
        self.reserve_with(d1, d2)
    }
}

impl DataCenter {
    /// The index of the rack with id `id` (made with no nodes when missing), linked to
    /// this data center.
    pub fn join_rack(&mut self, id: &str) -> (r: usize)
        ensures
            final(self).id == old(self).id,
            final(self).max_volume_id == old(self).max_volume_id,
            r <= old(self).racks@.len(),
            final(self).racks@.len() == if r == old(self).racks@.len() {
                old(self).racks@.len() + 1
            } else {
                old(self).racks@.len()
            },
            final(self).racks@[r as int].id@ == id@,
            final(self).racks@[r as int].data_center@ == old(self).id@,
            forall|y: int| 0 <= y < old(self).racks@.len() && y != r ==> #[trigger] final(self).racks@[y] == old(self).racks@[y],
            r < old(self).racks@.len() ==> final(self).racks@[r as int].nodes == old(self).racks@[r as int].nodes
                && final(self).racks@[r as int].max_volume_id == old(self).racks@[r as int].max_volume_id,
            r == old(self).racks@.len() ==> final(self).racks@[r as int].nodes@.len() == 0
                && final(self).racks@[r as int].max_volume_id == 0,
    {
        let r = self.get_or_create_rack(id);
        let dcid = self.id.clone();
        self.racks[r].data_center = dcid;
        r
    }
}

} // verus!
