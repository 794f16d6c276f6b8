//! The topology the directory server keeps: its data centers, the collections and
//! their layouts, and the counter of file keys.
use vstd::prelude::*;
use crate::directory::errors::Error;
use crate::directory::sequencer::memory_sequencer::MemorySequencer;
use crate::directory::sequencer::sequencer::{Sequencer, wrapping_add_u64};
use crate::directory::topology::chance::{random_i64, random_u32};
use crate::directory::topology::collection::{Collection, layout_key, find_layout, first_layout_with};
use crate::directory::topology::data_center::{DataCenter, find_rack, loc_ok, locs_ok, node_at, node_ref};
use crate::directory::topology::node::{DataNode, NodeLoc, apply_infos, max_id_of, infos_have, max_vid, same_node_but_volumes, lemma_max_id_of, lemma_apply_infos_dom};
use crate::directory::topology::rack::{wsum, find_node};
use crate::directory::topology::volume_grow::VolumeGrowOption;
use crate::directory::topology::volume_layout::{VolumeLayout, cands, reservoir, lemma_reservoir, locs_of, active_from, set_node_spec, first_same_addr, same_addr};
use crate::storage::file_id::{FileID, file_id_text};
use crate::storage::replica_placement::ReplicaPlacement;
use crate::storage::ttl::TTL;
use crate::storage::volume_info::{VolumeInfo, info_of_message, message_ttl_ok};
use crate::pb::zergling::{Heartbeat, HeartbeatResponse, VolumeInformationMessage};
use crate::storage::ttl::Unit;
use crate::text::{dec_str, dec_string};
use vstd::string::*;
use crate::storage::VolumeId;

verus! {

/// The data centers `b` are `a` with data centers, racks and nodes perhaps added (none
/// taken away), so that every place in `a` is a place in `b`.
pub open spec fn dcs_grew(a: Seq<DataCenter>, b: Seq<DataCenter>) -> bool {
    &&& a.len() <= b.len()
    &&& forall|d: int| 0 <= d < a.len() ==> #[trigger] a[d].racks@.len() <= b[d].racks@.len()
    &&& forall|d: int, r: int| 0 <= d < a.len() && 0 <= r < a[d].racks@.len() ==> #[trigger] a[d].racks@[r].nodes@.len()
        <= b[d].racks@[r].nodes@.len()
}

/// Every collection of `colls` keeps only places of `dcs`, each writable volume once.
pub open spec fn colls_valid(colls: Seq<Collection>, dcs: Seq<DataCenter>) -> bool {
    forall|i: int| 0 <= i < colls.len() ==> (#[trigger] colls[i]).valid(dcs)
}

/// Each collection name appears once in `colls`, and each layout key once in a collection.
pub open spec fn colls_unique(colls: Seq<Collection>) -> bool {
    &&& forall|i: int, j: int| 0 <= i < j < colls.len() ==> (#[trigger] colls[i]).name@ != (#[trigger] colls[j]).name@
    &&& forall|c: int, i: int, j: int|
        0 <= c < colls.len() && 0 <= i < j < colls[c].type2layout@.len() ==> (#[trigger] colls[c].type2layout@[i]).0@
            != (#[trigger] colls[c].type2layout@[j]).0@
}

/// Every node of `dcs` keeps each volume under its own id.
pub open spec fn nodes_wf(dcs: Seq<DataCenter>) -> bool {
    forall|l: NodeLoc| loc_ok(dcs, l) ==> (#[trigger] node_at(dcs, l)).wf()
}

/// The largest volume id of each data center is at least that of each of its racks, that
/// of each rack at least that of each of its nodes, and that of each node at least the id
/// of each volume it holds.
pub open spec fn maxima_ok(dcs: Seq<DataCenter>) -> bool {
    &&& forall|d: int, r: int| 0 <= d < dcs.len() && 0 <= r < dcs[d].racks@.len() ==> #[trigger] dcs[d].racks@[r].max_volume_id
        <= dcs[d].max_volume_id
    &&& forall|l: NodeLoc| loc_ok(dcs, l) ==> #[trigger] node_at(dcs, l).max_volume_id <= dcs[l.dc as int].racks@[l.rack as int].max_volume_id
    &&& forall|l: NodeLoc, k: VolumeId| loc_ok(dcs, l) && #[trigger] node_at(dcs, l).volumes@.contains_key(k) ==> k <= node_at(
        dcs,
        l,
    ).max_volume_id
}

/// Data centers added after `a`, without racks, keep [`maxima_ok`].
proof fn lemma_maxima_new_dcs(a: Seq<DataCenter>, b: Seq<DataCenter>)
    requires
        maxima_ok(a),
        a.len() <= b.len(),
        b.take(a.len() as int) == a,
        forall|d: int| a.len() <= d < b.len() ==> (#[trigger] b[d]).racks@.len() == 0,
    ensures
        maxima_ok(b),
{
    assert forall|d: int| 0 <= d < a.len() implies #[trigger] b[d] == a[d] by {
        assert(b.take(a.len() as int)[d] == b[d]);
    }
    assert forall|l: NodeLoc| loc_ok(b, l) implies #[trigger] node_at(b, l).max_volume_id <= b[l.dc as int].racks@[l.rack as int].max_volume_id by {
        assert(b[l.dc as int] == a[l.dc as int]);
        assert(loc_ok(a, l));
        assert(node_at(b, l) == node_at(a, l));
    }
    assert forall|l: NodeLoc, k: VolumeId| loc_ok(b, l) && #[trigger] node_at(b, l).volumes@.contains_key(k) implies k <= node_at(b, l).max_volume_id by {
        assert(b[l.dc as int] == a[l.dc as int]);
        assert(loc_ok(a, l));
        assert(node_at(b, l) == node_at(a, l));
    }
}

/// Changing one node (at `loc`) and raising the largest volume ids of its rack and data
/// center above it keeps [`maxima_ok`].
pub proof fn lemma_maxima_one_node(a: Seq<DataCenter>, b: Seq<DataCenter>, loc: NodeLoc)
    requires
        maxima_ok(a),
        loc_ok(a, loc),
        dcs_grew(a, b),
        dcs_grew(b, a),
        forall|l: NodeLoc| loc_ok(a, l) && l != loc ==> #[trigger] node_at(b, l) == node_at(a, l),
        forall|d: int| 0 <= d < a.len() && d != loc.dc ==> #[trigger] b[d].max_volume_id == a[d].max_volume_id,
        forall|d: int, r: int| 0 <= d < a.len() && 0 <= r < a[d].racks@.len() && (d != loc.dc || r != loc.rack) ==> #[trigger] b[d].racks@[r].max_volume_id
            == a[d].racks@[r].max_volume_id,
        b[loc.dc as int].max_volume_id >= a[loc.dc as int].max_volume_id,
        b[loc.dc as int].racks@[loc.rack as int].max_volume_id >= a[loc.dc as int].racks@[loc.rack as int].max_volume_id,
        b[loc.dc as int].racks@[loc.rack as int].max_volume_id <= b[loc.dc as int].max_volume_id,
        node_at(b, loc).max_volume_id <= b[loc.dc as int].racks@[loc.rack as int].max_volume_id,
        forall|k: VolumeId| #[trigger] node_at(b, loc).volumes@.contains_key(k) ==> k <= node_at(b, loc).max_volume_id,
    ensures
        maxima_ok(b),
{
    assert forall|d: int, r: int| 0 <= d < b.len() && 0 <= r < b[d].racks@.len() implies #[trigger] b[d].racks@[r].max_volume_id
        <= b[d].max_volume_id by {
        assert(a[d].racks@.len() == b[d].racks@.len());
        if d != loc.dc || r != loc.rack {
            assert(a[d].racks@[r].max_volume_id <= a[d].max_volume_id);
        }
    }
    assert forall|l: NodeLoc| loc_ok(b, l) implies #[trigger] node_at(b, l).max_volume_id <= b[l.dc as int].racks@[l.rack as int].max_volume_id by {
        assert(a[l.dc as int].racks@.len() == b[l.dc as int].racks@.len());
        assert(a[l.dc as int].racks@[l.rack as int].nodes@.len() == b[l.dc as int].racks@[l.rack as int].nodes@.len());
        assert(loc_ok(a, l));
        if l != loc {
            assert(node_at(a, l).max_volume_id <= a[l.dc as int].racks@[l.rack as int].max_volume_id);
            if l.dc != loc.dc || l.rack != loc.rack {
                assert(b[l.dc as int].racks@[l.rack as int].max_volume_id == a[l.dc as int].racks@[l.rack as int].max_volume_id);
            }
        }
    }
    assert forall|l: NodeLoc, k: VolumeId| loc_ok(b, l) && #[trigger] node_at(b, l).volumes@.contains_key(k) implies k <= node_at(b, l).max_volume_id by {
        assert(a[l.dc as int].racks@.len() == b[l.dc as int].racks@.len());
        assert(a[l.dc as int].racks@[l.rack as int].nodes@.len() == b[l.dc as int].racks@[l.rack as int].nodes@.len());
        assert(loc_ok(a, l));
        if l != loc {
            assert(node_at(a, l).volumes@.contains_key(k));
        }
    }
}

/// Data centers with the same largest volume ids, one by one, have the same largest
/// volume id in all.
proof fn lemma_max_dc_vid_same(a: Seq<DataCenter>, b: Seq<DataCenter>)
    requires
        a.len() == b.len(),
        forall|x: int| 0 <= x < a.len() ==> #[trigger] b[x].max_volume_id == a[x].max_volume_id,
    ensures
        max_dc_vid(b) == max_dc_vid(a),
    decreases a.len(),
{
    if a.len() > 0 {
        lemma_max_dc_vid_same(a.drop_last(), b.drop_last());
        assert(b.last().max_volume_id == a.last().max_volume_id);
    }
}

/// Raising the largest volume id of data center `d` to `vid` raises the largest of all
/// to `vid`.
pub proof fn lemma_max_dc_vid_raise(a: Seq<DataCenter>, b: Seq<DataCenter>, d: int, vid: VolumeId)
    requires
        a.len() == b.len(),
        0 <= d < a.len(),
        forall|x: int| 0 <= x < a.len() && x != d ==> #[trigger] b[x].max_volume_id == a[x].max_volume_id,
        b[d].max_volume_id == max_vid(a[d].max_volume_id, vid),
    ensures
        max_dc_vid(b) == max_vid(max_dc_vid(a), vid),
    decreases a.len(),
{
    if d == a.len() - 1 {
        lemma_max_dc_vid_same(a.drop_last(), b.drop_last());
    } else {
        lemma_max_dc_vid_raise(a.drop_last(), b.drop_last(), d, vid);
        assert(b.last().max_volume_id == a.last().max_volume_id);
    }
}

/// The largest volume id of all data centers is at least that of each.
pub proof fn lemma_max_dc_vid_ge(dcs: Seq<DataCenter>, d: int)
    requires
        0 <= d < dcs.len(),
    ensures
        dcs[d].max_volume_id <= max_dc_vid(dcs),
    decreases dcs.len(),
{
    if d < dcs.len() - 1 {
        lemma_max_dc_vid_ge(dcs.drop_last(), d);
    }
}

/// Every volume held by a node of well-kept data centers has an id at most their
/// largest volume id, so the ids above it are new.
pub proof fn lemma_held_below_max(dcs: Seq<DataCenter>, l: NodeLoc, k: VolumeId)
    requires
        maxima_ok(dcs),
        loc_ok(dcs, l),
        node_at(dcs, l).volumes@.contains_key(k),
    ensures
        k <= max_dc_vid(dcs),
{
    assert(k <= node_at(dcs, l).max_volume_id);
    assert(node_at(dcs, l).max_volume_id <= dcs[l.dc as int].racks@[l.rack as int].max_volume_id);
    assert(dcs[l.dc as int].racks@[l.rack as int].max_volume_id <= dcs[l.dc as int].max_volume_id);
    lemma_max_dc_vid_ge(dcs, l.dc as int);
}

/// Every node of `a` still holds, in `b`, each volume it held.
pub open spec fn keys_kept(a: Seq<DataCenter>, b: Seq<DataCenter>) -> bool {
    forall|l: NodeLoc, k: VolumeId| loc_ok(a, l) && #[trigger] node_at(a, l).volumes@.contains_key(k) ==> node_at(b, l).volumes@.contains_key(k)
}

/// The nodes of `a` keep their addresses in `b`.
pub open spec fn addrs_kept(a: Seq<DataCenter>, b: Seq<DataCenter>) -> bool {
    forall|l: NodeLoc| loc_ok(a, l) ==> (#[trigger] node_at(b, l)).ip == node_at(a, l).ip && node_at(b, l).port == node_at(a, l).port
}

/// Nodes that keep their volumes and addresses twice keep them.
pub proof fn lemma_kept_trans(a: Seq<DataCenter>, b: Seq<DataCenter>, c: Seq<DataCenter>)
    requires
        dcs_grew(a, b),
        keys_kept(a, b),
        keys_kept(b, c),
        addrs_kept(a, b),
        addrs_kept(b, c),
    ensures
        keys_kept(a, c),
        addrs_kept(a, c),
{
    assert forall|l: NodeLoc, k: VolumeId| loc_ok(a, l) && #[trigger] node_at(a, l).volumes@.contains_key(k) implies node_at(c, l).volumes@.contains_key(k) by {
        lemma_loc_grew(a, b, l);
        assert(node_at(b, l).volumes@.contains_key(k));
    }
    assert forall|l: NodeLoc| loc_ok(a, l) implies (#[trigger] node_at(c, l)).ip == node_at(a, l).ip && node_at(c, l).port == node_at(a, l).port by {
        lemma_loc_grew(a, b, l);
        assert(node_at(b, l).ip == node_at(a, l).ip);
        assert(node_at(c, l).ip == node_at(b, l).ip);
    }
}

/// No two nodes of `dcs` share an address.
pub open spec fn all_addrs_distinct(dcs: Seq<DataCenter>) -> bool {
    forall|a: NodeLoc, b: NodeLoc| loc_ok(dcs, a) && loc_ok(dcs, b) && a != b ==> !same_addr(dcs, a, b)
}

/// Nodes that keep their places and addresses keep them distinct.
pub proof fn lemma_addrs_distinct_kept(a: Seq<DataCenter>, b: Seq<DataCenter>)
    requires
        all_addrs_distinct(a),
        dcs_grew(b, a),
        addrs_kept(a, b),
    ensures
        all_addrs_distinct(b),
{
    assert forall|x: NodeLoc, y: NodeLoc| loc_ok(b, x) && loc_ok(b, y) && x != y implies !same_addr(b, x, y) by {
        lemma_loc_grew(b, a, x);
        lemma_loc_grew(b, a, y);
        assert(!same_addr(a, x, y));
    }
}

/// Law: in a well-kept topology whose largest volume id is below the largest `u32`, the
/// next volume id, one above it, is held by no node.
pub proof fn law_next_volume_id_is_fresh(t: Topology, l: NodeLoc)
    requires
        t.wf(),
        max_dc_vid(t.data_centers@) < 0xffff_ffff,
        loc_ok(t.data_centers@, l),
    ensures
        !node_at(t.data_centers@, l).volumes@.contains_key((max_dc_vid(t.data_centers@) + 1) as VolumeId),
{
    if node_at(t.data_centers@, l).volumes@.contains_key((max_dc_vid(t.data_centers@) + 1) as VolumeId) {
        lemma_held_below_max(t.data_centers@, l, (max_dc_vid(t.data_centers@) + 1) as VolumeId);
    }
}

/// The index of the first data center of `dcs` with id `id`.
pub open spec fn find_dc(dcs: Seq<DataCenter>, id: Seq<char>) -> Option<int> {
    if exists|i: int| 0 <= i < dcs.len() && (#[trigger] dcs[i]).id@ == id {
        Some(choose|i: int| 0 <= i < dcs.len() && (#[trigger] dcs[i]).id@ == id && forall|j: int|
            0 <= j < i ==> (#[trigger] dcs[j]).id@ != id)
    } else {
        None
    }
}

/// The index of the first collection of `colls` named `name`.
pub open spec fn find_collection(colls: Seq<Collection>, name: Seq<char>) -> Option<int> {
    if exists|i: int| 0 <= i < colls.len() && (#[trigger] colls[i]).name@ == name {
        Some(choose|i: int| 0 <= i < colls.len() && (#[trigger] colls[i]).name@ == name && forall|j: int|
            0 <= j < i ==> (#[trigger] colls[j]).name@ != name)
    } else {
        None
    }
}

/// The first collection of `colls`, from `start` on, with a layout that knows `vid`.
pub open spec fn first_collection_with(colls: Seq<Collection>, vid: VolumeId, start: int) -> Option<int>
    decreases colls.len() - start,
{
    if start < 0 || start >= colls.len() {
        None
    } else if first_layout_with(colls[start].type2layout@, vid, 0) is Some {
        Some(start)
    } else {
        first_collection_with(colls, vid, start + 1)
    }
}

/// The layout of collection `coll` under key `key` in `colls` knows volume `vid` and
/// has the node at `l` among its places.
pub open spec fn layout_has(colls: Seq<Collection>, coll: Seq<char>, key: Seq<char>, vid: VolumeId, l: NodeLoc) -> bool {
    exists|ci: int, li: int|
        #![trigger colls[ci].type2layout@[li]]
        0 <= ci < colls.len() && 0 <= li < colls[ci].type2layout@.len() && colls[ci].name@ == coll
            && colls[ci].type2layout@[li].0@ == key && colls[ci].type2layout@[li].1.vid2location@.contains_key(vid)
            && colls[ci].type2layout@[li].1.vid2location@[vid]@.contains(l)
}

/// The layout of collection `coll` under key `key` in `colls` takes writes for volume
/// `vid`.
pub open spec fn writable_in(colls: Seq<Collection>, coll: Seq<char>, key: Seq<char>, vid: VolumeId) -> bool {
    exists|ci: int, li: int|
        #![trigger colls[ci].type2layout@[li]]
        0 <= ci < colls.len() && 0 <= li < colls[ci].type2layout@.len() && colls[ci].name@ == coll
            && colls[ci].type2layout@[li].0@ == key && colls[ci].type2layout@[li].1.writable_volumes@.contains(vid)
}

/// The places of the copies of volume `vid`: in the first layout that knows it of
/// collection `coll`, or, when `coll` is empty, of the first collection that knows it.
pub open spec fn lookup_locs(colls: Seq<Collection>, coll: Seq<char>, vid: VolumeId) -> Option<Seq<NodeLoc>> {
    if coll.len() == 0 {
        match first_collection_with(colls, vid, 0) {
            Some(c) => Some(colls[c].type2layout@[first_layout_with(colls[c].type2layout@, vid, 0)->0].1.vid2location@[vid]@),
            None => None,
        }
    } else {
        match find_collection(colls, coll) {
            Some(c) => match first_layout_with(colls[c].type2layout@, vid, 0) {
                Some(li) => Some(colls[c].type2layout@[li].1.vid2location@[vid]@),
                None => None,
            },
            None => None,
        }
    }
}

/// A layout with no volumes yet.
pub open spec fn fresh_layout(lay: VolumeLayout) -> bool {
    lay.writable_volumes@.len() == 0 && lay.vid2location@ == Map::<VolumeId, Vec<NodeLoc>>::empty()
}

/// How many writable copies layout `lay` has on the nodes option `o` asks for: with no
/// data center asked for, how many volumes are writable.
pub open spec fn active_count(dcs: Seq<DataCenter>, lay: VolumeLayout, o: &VolumeGrowOption) -> i64 {
    if o.data_center@.len() == 0 {
        lay.writable_volumes@.len() as i64
    } else {
        active_from(dcs, lay.writable_volumes@, lay.vid2location@, o)
    }
}

/// The layout for option `o`'s collection, replication and ttl exists in `colls` and has
/// writable copies on the nodes `o` asks for.
pub open spec fn writable_now(colls: Seq<Collection>, dcs: Seq<DataCenter>, o: &VolumeGrowOption) -> bool {
    match find_collection(colls, o.collection@) {
        Some(c) => match find_layout(colls[c].type2layout@, layout_key(o.replica_placement, Some(o.ttl))) {
            Some(l) => active_count(dcs, colls[c].type2layout@[l].1, o) > 0,
            None => false,
        },
        None => false,
    }
}

/// The largest `max_volume_id` of the data centers `dcs` (0 when there are none).
pub open spec fn max_dc_vid(dcs: Seq<DataCenter>) -> VolumeId
    decreases dcs.len(),
{
    if dcs.len() == 0 {
        0
    } else {
        let m = max_dc_vid(dcs.drop_last());
        if dcs.last().max_volume_id > m {
            dcs.last().max_volume_id
        } else {
            m
        }
    }
}

/// The free room of each data center: its most volumes less what it holds (wrapping).
pub open spec fn dcs_free(dcs: Seq<DataCenter>) -> Seq<i64> {
    Seq::new(
        dcs.len(),
        |i: int|
            vstd::wrapping::i64_specs::wrapping_sub(
                wsum(crate::directory::topology::data_center::racks_max(dcs[i].racks@)),
                wsum(crate::directory::topology::data_center::racks_has(dcs[i].racks@)),
            ),
    )
}

pub proof fn lemma_loc_grew(a: Seq<DataCenter>, b: Seq<DataCenter>, l: NodeLoc)
    requires
        dcs_grew(a, b),
        loc_ok(a, l),
    ensures
        loc_ok(b, l),
{
    assert(a[l.dc as int].racks@.len() <= b[l.dc as int].racks@.len());
    assert(a[l.dc as int].racks@[l.rack as int].nodes@.len() <= b[l.dc as int].racks@[l.rack as int].nodes@.len());
}

/// Collections valid over some data centers stay valid when those grow.
pub proof fn lemma_colls_grew(colls: Seq<Collection>, a: Seq<DataCenter>, b: Seq<DataCenter>)
    requires
        colls_valid(colls, a),
        dcs_grew(a, b),
    ensures
        colls_valid(colls, b),
{
    assert forall|i: int| 0 <= i < colls.len() implies (#[trigger] colls[i]).valid(b) by {
        assert forall|j: int| 0 <= j < colls[i].type2layout@.len() implies (#[trigger] colls[i].type2layout@[j]).1.locs_valid(b)
            && colls[i].type2layout@[j].1.wf() by {
            assert(colls[i].valid(a));
            let lay = colls[i].type2layout@[j].1;
            assert(lay.locs_valid(a));
            assert forall|vid: VolumeId| #[trigger] lay.vid2location@.contains_key(vid) implies locs_ok(
                b,
                lay.vid2location@[vid]@,
            ) by {
                assert(locs_ok(a, lay.vid2location@[vid]@));
                assert forall|k: int| 0 <= k < lay.vid2location@[vid]@.len() implies loc_ok(
                    b,
                    #[trigger] lay.vid2location@[vid]@[k],
                ) by {
                    lemma_loc_grew(a, b, lay.vid2location@[vid]@[k]);
                }
            }
        }
    }
}

/// The topology of the directory server.
#[derive(Debug)]
pub struct Topology {
    pub sequence: MemorySequencer,
    pub collection_map: Vec<Collection>,
    pub pulse: u64,
    pub volume_size_limit: u64,
    pub data_centers: Vec<DataCenter>,
}

impl Topology {
    /// The layouts keep only places of this topology's nodes, each writable volume once;
    /// collection names and layout keys are not repeated; every node keeps each volume
    /// under its own id; and the largest volume ids bound the ids below them (see
    /// [`maxima_ok`]).
    pub open spec fn wf(&self) -> bool {
        &&& colls_valid(self.collection_map@, self.data_centers@)
        &&& colls_unique(self.collection_map@)
        &&& nodes_wf(self.data_centers@)
        &&& maxima_ok(self.data_centers@)
    }

    /// A topology with no data centers and no collections.
    pub fn new(seq: MemorySequencer, volume_size_limit: u64, pulse: u64) -> (r: Topology)
        ensures
            r.sequence.counter() == seq.counter(),
            r.collection_map@.len() == 0,
            r.data_centers@.len() == 0,
            r.pulse == pulse,
            r.volume_size_limit == volume_size_limit,
            r.wf(),
    {
        Topology { sequence: seq, collection_map: Vec::new(), pulse, volume_size_limit, data_centers: Vec::new() }
    }

    /// The node at `l`.
    pub fn node(&self, l: NodeLoc) -> (r: &DataNode)
        requires
            loc_ok(self.data_centers@, l),
        ensures
            *r == node_at(self.data_centers@, l),
    {
        node_ref(&self.data_centers, l)
    }

    /// The index of the data center named `name`, added last (with no racks) when there
    /// is none.
    pub fn get_or_create_data_center(&mut self, name: &str) -> (r: usize)
        requires
            old(self).wf(),
        ensures
            final(self).wf(),
            final(self).sequence == old(self).sequence,
            final(self).collection_map == old(self).collection_map,
            final(self).pulse == old(self).pulse,
            final(self).volume_size_limit == old(self).volume_size_limit,
            dcs_grew(old(self).data_centers@, final(self).data_centers@),
            final(self).data_centers@.take(old(self).data_centers@.len() as int) == old(self).data_centers@,
            r < final(self).data_centers@.len(),
            final(self).data_centers@[r as int].id@ == name@,
            match find_dc(old(self).data_centers@, name@) {
                Some(i) => r == i && final(self).data_centers@ == old(self).data_centers@,
                None => {
                    &&& r == old(self).data_centers@.len()
                    &&& final(self).data_centers@.len() == old(self).data_centers@.len() + 1
                    &&& final(self).data_centers@[r as int].racks@.len() == 0
                    &&& final(self).data_centers@[r as int].max_volume_id == 0
                },
            },
    {
        let key = String::from_str(name);
        let mut i: usize = 0;
        while i < self.data_centers.len()
            invariant
                i <= self.data_centers@.len(),
                key@ == name@,
                forall|j: int| 0 <= j < i ==> (#[trigger] self.data_centers@[j]).id@ != name@,
                *self == *old(self),
                self.wf(),
            decreases self.data_centers@.len() - i,
        {
            if self.data_centers[i].id == key {
                proof {
                    assert(self.data_centers@[i as int].id@ == name@);
                    let k = choose|k: int| 0 <= k < self.data_centers@.len() && (#[trigger] self.data_centers@[k]).id@ == name@
                        && forall|j: int| 0 <= j < k ==> (#[trigger] self.data_centers@[j]).id@ != name@;
                    assert(k == i);
                    assert(self.data_centers@.take(self.data_centers@.len() as int) =~= self.data_centers@);
                }
                return i;
            }
            i = i + 1;
        }
        let ghost old_dcs = self.data_centers@;
        self.data_centers.push(DataCenter::new(name));
        proof {
            assert(self.data_centers@.take(i as int) =~= old_dcs);
            assert forall|d: int| 0 <= d < old_dcs.len() implies #[trigger] old_dcs[d].racks@.len()
                <= self.data_centers@[d].racks@.len() by {
                assert(self.data_centers@[d] == old_dcs[d]);
            }
            assert forall|d: int, r: int| 0 <= d < old_dcs.len() && 0 <= r < old_dcs[d].racks@.len() implies #[trigger] old_dcs[d].racks@[r].nodes@.len()
                <= self.data_centers@[d].racks@[r].nodes@.len() by {
                assert(self.data_centers@[d] == old_dcs[d]);
            }
            lemma_colls_grew(self.collection_map@, old_dcs, self.data_centers@);
            lemma_maxima_new_dcs(old_dcs, self.data_centers@);
            assert forall|l: NodeLoc| loc_ok(self.data_centers@, l) implies (#[trigger] node_at(self.data_centers@, l)).wf() by {
                assert(l.dc < old_dcs.len());
                assert(self.data_centers@[l.dc as int] == old_dcs[l.dc as int]);
                assert(loc_ok(old_dcs, l));
                assert(node_at(old_dcs, l).wf());
                assert(node_at(self.data_centers@, l) == node_at(old_dcs, l));
            }
        }
        i
    }

    /// The places of the copies of volume `vid`: in collection `collection`, or, when
    /// it is empty, in the first collection that knows the volume.
    pub fn lookup(&self, collection: &str, vid: VolumeId) -> (r: Option<Vec<NodeLoc>>)
        ensures
            match lookup_locs(self.collection_map@, collection@, vid) {
                Some(s) => r matches Some(l) && l@ == s,
                None => r is None,
            },
    {
        if collection.unicode_len() == 0 {
            let mut i: usize = 0;
            while i < self.collection_map.len()
                invariant
                    i <= self.collection_map@.len(),
                    collection@.len() == 0,
                    first_collection_with(self.collection_map@, vid, 0) == first_collection_with(
                        self.collection_map@,
                        vid,
                        i as int,
                    ),
                decreases self.collection_map@.len() - i,
            {
                let rt = self.collection_map[i].lookup(vid);
                if rt.is_some() {
                    return rt;
                }
                i = i + 1;
            }
            None
        } else {
            let ci = self.collection_index(collection);
            let r = match ci {
                Some(c) => self.collection_map[c].lookup(vid),
                None => None,
            };
            assert(collection@.len() != 0);
            proof {
                match find_collection(self.collection_map@, collection@) {
                    Some(c) => {
                        assert(self.collection_map@.len() == self.collection_map.len());
                        assert(ci == Some(c as usize));
                    },
                    None => {
                        assert(ci is None);
                    },
                }
            }
            r
        }
    }

    /// The index of the collection named `name`.
    fn collection_index(&self, name: &str) -> (r: Option<usize>)
        ensures
            r matches Some(k) ==> k < self.collection_map@.len() && self.collection_map@[k as int].name@ == name@,
            match find_collection(self.collection_map@, name@) {
                Some(i) => 0 <= i < self.collection_map@.len() && r == Some(i as usize),
                None => r is None,
            },
    {
        let key = String::from_str(name);
        let mut i: usize = 0;
        while i < self.collection_map.len()
            invariant
                i <= self.collection_map@.len(),
                key@ == name@,
                forall|j: int| 0 <= j < i ==> (#[trigger] self.collection_map@[j]).name@ != name@,
            decreases self.collection_map@.len() - i,
        {
            if self.collection_map[i].name == key {
                proof {
                    assert(self.collection_map@[i as int].name@ == name@);
                    let k = choose|k: int| 0 <= k < self.collection_map@.len() && (#[trigger] self.collection_map@[k]).name@
                        == name@ && forall|j: int| 0 <= j < k ==> (#[trigger] self.collection_map@[j]).name@ != name@;
                    assert(k == i);
                }
                return Some(i);
            }
            i = i + 1;
        }
        None
    }
}

/// The collections `b` are `a` with collections, or layouts in them, perhaps added: every
/// collection of `a` keeps its name and every layout of it stays as it was.
pub open spec fn colls_grew(a: Seq<Collection>, b: Seq<Collection>) -> bool {
    &&& a.len() <= b.len()
    &&& forall|ci: int| 0 <= ci < a.len() ==> (#[trigger] b[ci]).name == a[ci].name
        && a[ci].type2layout@.len() <= b[ci].type2layout@.len()
        && b[ci].volume_size_limit == a[ci].volume_size_limit
    &&& forall|ci: int, li: int| 0 <= ci < a.len() && 0 <= li < a[ci].type2layout@.len() ==> #[trigger] b[ci].type2layout@[li]
        == a[ci].type2layout@[li]
}

/// What a layout knows of its places stays known when the collections grow.
pub proof fn lemma_layout_has_grew(a: Seq<Collection>, b: Seq<Collection>, coll: Seq<char>, key: Seq<char>, vid: VolumeId, l: NodeLoc)
    requires
        colls_grew(a, b),
        layout_has(a, coll, key, vid, l),
    ensures
        layout_has(b, coll, key, vid, l),
{
    let (ci, li) = choose|ci: int, li: int|
        #![trigger a[ci].type2layout@[li]]
        0 <= ci < a.len() && 0 <= li < a[ci].type2layout@.len() && a[ci].name@ == coll && a[ci].type2layout@[li].0@ == key
            && a[ci].type2layout@[li].1.vid2location@.contains_key(vid) && a[ci].type2layout@[li].1.vid2location@[vid]@.contains(l);
    assert(b[ci].type2layout@[li] == a[ci].type2layout@[li]);
    assert(b[ci].name == a[ci].name);
}

/// The node `nd` is among the places after it is set among them.
pub proof fn lemma_set_node_has(dcs: Seq<DataCenter>, list: Seq<NodeLoc>, nd: NodeLoc)
    ensures
        set_node_spec(dcs, list, nd).contains(nd),
        forall|l: NodeLoc| list.contains(l) && !same_addr(dcs, l, nd) ==> set_node_spec(dcs, list, nd).contains(l),
{
    let r = set_node_spec(dcs, list, nd);
    match first_same_addr(dcs, list, nd) {
        Some(i) => {
            crate::directory::topology::volume_layout::lemma_first_same_addr_pub(dcs, list, nd);
            assert(r[i] == nd);
            assert forall|l: NodeLoc| list.contains(l) && !same_addr(dcs, l, nd) implies r.contains(l) by {
                let k = choose|k: int| 0 <= k < list.len() && list[k] == l;
                assert(k != i);
                assert(r[k] == l);
            }
        },
        None => {
            assert(r[list.len() as int] == nd);
            assert forall|l: NodeLoc| list.contains(l) && !same_addr(dcs, l, nd) implies r.contains(l) by {
                let k = choose|k: int| 0 <= k < list.len() && list[k] == l;
                assert(r[k] == l);
            }
        },
    }
}

impl Topology {
    /// The indices of the collection named `collection` and of its layout for placement
    /// `rp` and ttl `ttl`, each made (empty) when missing.
    #[verifier::rlimit(40)]
    fn get_volume_layout(&mut self, collection: &str, rp: ReplicaPlacement, ttl: TTL) -> (r: (usize, usize))
        requires
            old(self).wf(),
        ensures
            final(self).wf(),
            final(self).sequence == old(self).sequence,
            final(self).data_centers == old(self).data_centers,
            final(self).pulse == old(self).pulse,
            final(self).volume_size_limit == old(self).volume_size_limit,
            colls_grew(old(self).collection_map@, final(self).collection_map@),
            r.0 < final(self).collection_map@.len(),
            final(self).collection_map@[r.0 as int].name@ == collection@,
            r.1 < final(self).collection_map@[r.0 as int].type2layout@.len(),
            final(self).collection_map@[r.0 as int].type2layout@[r.1 as int].0@ == layout_key(rp, Some(ttl)),
            final(self).collection_map@.len() <= old(self).collection_map@.len() + 1,
            forall|ci: int| 0 <= ci < final(self).collection_map@.len() && ci != r.0 ==> #[trigger] final(self).collection_map@[ci]
                == old(self).collection_map@[ci],
            forall|li: int| 0 <= li < final(self).collection_map@[r.0 as int].type2layout@.len() && li != r.1
                ==> #[trigger] final(self).collection_map@[r.0 as int].type2layout@[li] == old(self).collection_map@[r.0 as int].type2layout@[li],
            r.0 < old(self).collection_map@.len() && r.1 < old(self).collection_map@[r.0 as int].type2layout@.len()
                ==> final(self).collection_map@[r.0 as int].type2layout@[r.1 as int] == old(self).collection_map@[r.0 as int].type2layout@[r.1 as int],
            r.0 >= old(self).collection_map@.len() ==> final(self).collection_map@[r.0 as int].type2layout@.len() == 1,
            final(self).collection_map@.len() == old(self).collection_map@.len() || (r.0 == old(self).collection_map@.len()
                && final(self).collection_map@.len() == old(self).collection_map@.len() + 1),
            r.0 < old(self).collection_map@.len() ==> (final(self).collection_map@[r.0 as int].type2layout@.len()
                == old(self).collection_map@[r.0 as int].type2layout@.len() || (r.1 == old(self).collection_map@[r.0 as int].type2layout@.len()
                && final(self).collection_map@[r.0 as int].type2layout@.len() == old(self).collection_map@[r.0 as int].type2layout@.len() + 1)),
            match find_collection(old(self).collection_map@, collection@) {
                Some(c) => r.0 == c && c < old(self).collection_map@.len() && match find_layout(old(self).collection_map@[c].type2layout@, layout_key(rp, Some(ttl))) {
                    Some(l) => r.1 == l && r.1 < old(self).collection_map@[c].type2layout@.len(),
                    None => fresh_layout(final(self).collection_map@[r.0 as int].type2layout@[r.1 as int].1),
                },
                None => fresh_layout(final(self).collection_map@[r.0 as int].type2layout@[r.1 as int].1),
            },
    {
        let ghost old_colls = self.collection_map@;
        let ci = match self.collection_index(collection) {
            Some(c) => c,
            None => {
                let vsize = self.volume_size_limit;
                self.collection_map.push(Collection::new(collection, vsize));
                proof {
                    assert forall|i: int| 0 <= i < self.collection_map@.len() implies (#[trigger] self.collection_map@[i]).valid(
                        self.data_centers@,
                    ) by {
                        if i < old_colls.len() {
                            assert(self.collection_map@[i] == old_colls[i]);
                        }
                    }
                }
                self.collection_map.len() - 1
            },
        };
        let ghost mid = self.collection_map@;
        assert(mid[ci as int].valid(self.data_centers@));
        let li = self.collection_map[ci].get_or_create_volume_layout(rp, Some(ttl));
        proof {
            assert(old_colls.len() == old(self).collection_map.len());
            match find_collection(old_colls, collection@) {
                Some(c) => {
                    assert(c == ci as int);
                    assert(mid[ci as int] == old_colls[ci as int]);
                },
                None => {
                    assert(mid[ci as int].type2layout@.len() == 0);
                    assert(find_layout(mid[ci as int].type2layout@, layout_key(rp, Some(ttl))) is None);
                },
            }
        }
        proof {
            assert(self.collection_map@[ci as int].valid(self.data_centers@));
            assert forall|i: int| 0 <= i < self.collection_map@.len() implies (#[trigger] self.collection_map@[i]).valid(
                self.data_centers@,
            ) by {
                if i != ci {
                    assert(self.collection_map@[i] == mid[i]);
                }
            }
            assert forall|ci2: int, li2: int| 0 <= ci2 < old_colls.len() && 0 <= li2 < old_colls[ci2].type2layout@.len() implies #[trigger] self.collection_map@[ci2].type2layout@[li2]
                == old_colls[ci2].type2layout@[li2] by {
                assert(mid[ci2] == old_colls[ci2]);
                if ci2 == ci {
                    assert(li2 < mid[ci2].type2layout@.len());
                }
            }
        }
        (ci, li)
    }

    /// Whether the layout for `option`'s collection, replication and ttl has a writable
    /// volume on the nodes `option` asks for (made empty when missing).
    pub fn has_writable_volume(&mut self, option: &VolumeGrowOption) -> (r: bool)
        requires
            old(self).wf(),
        ensures
            final(self).wf(),
            final(self).sequence == old(self).sequence,
            final(self).data_centers == old(self).data_centers,
            colls_grew(old(self).collection_map@, final(self).collection_map@),
            exists|ci: int, li: int|
                #![trigger final(self).collection_map@[ci].type2layout@[li]]
                0 <= ci < final(self).collection_map@.len() && 0 <= li < final(self).collection_map@[ci].type2layout@.len()
                    && final(self).collection_map@[ci].name@ == option.collection@
                    && final(self).collection_map@[ci].type2layout@[li].0@ == layout_key(option.replica_placement, Some(option.ttl))
                    && (r <==> ({
                        let lay = final(self).collection_map@[ci].type2layout@[li].1;
                        (if option.data_center@.len() == 0 {
                            lay.writable_volumes@.len() as i64
                        } else {
                            active_from(final(self).data_centers@, lay.writable_volumes@, lay.vid2location@, option)
                        }) > 0
                    })),
            r == writable_now(old(self).collection_map@, old(self).data_centers@, option),
    {
        let (ci, li) = self.get_volume_layout(option.collection.as_str(), option.replica_placement, option.ttl);
        assert(self.collection_map@[ci as int].valid(self.data_centers@));
        let n = self.collection_map[ci].type2layout[li].1.get_active_volume_count(option, &self.data_centers);
        proof {
            let key = layout_key(option.replica_placement, Some(option.ttl));
            let lay = self.collection_map@[ci as int].type2layout@[li as int].1;
            match find_collection(old(self).collection_map@, option.collection@) {
                Some(c) => {
                    match find_layout(old(self).collection_map@[c].type2layout@, key) {
                        Some(l) => {
                            assert(lay == old(self).collection_map@[c].type2layout@[l].1);
                        },
                        None => {
                            assert(lay.writable_volumes@.len() == 0);
                            assert(lay.writable_volumes@ =~= Seq::<VolumeId>::empty());
                            assert(active_from(self.data_centers@, lay.writable_volumes@, lay.vid2location@, option) == 0);
                        },
                    }
                },
                None => {
                    assert(lay.writable_volumes@ =~= Seq::<VolumeId>::empty());
                    assert(active_from(self.data_centers@, lay.writable_volumes@, lay.vid2location@, option) == 0);
                },
            }
        }
        n > 0
    }

    /// How many more volumes the data centers may take: for each, its most volumes less
    /// what it holds, summed (all wrapping).
    pub fn free_volumes(&self) -> (r: i64)
        ensures
            r == wsum(dcs_free(self.data_centers@)),
    {
        let ghost vals = dcs_free(self.data_centers@);
        let mut ret: i64 = 0;
        let mut i: usize = 0;
        while i < self.data_centers.len()
            invariant
                i <= self.data_centers@.len(),
                vals == dcs_free(self.data_centers@),
                ret == wsum(vals.take(i as int)),
            decreases self.data_centers@.len() - i,
        {
            proof {
                crate::directory::topology::rack::lemma_wsum_take(vals, i as int);
            }
            let dc = &self.data_centers[i];
            ret = ret.wrapping_add(dc.max_volumes().wrapping_sub(dc.has_volumes()));
            i = i + 1;
        }
        assert(vals.take(i as int) =~= vals);
        ret
    }

    /// Records that the node at `dn` holds a copy of volume `vi`, in the layout of its
    /// collection, replication and ttl (made when missing).
    pub fn register_volume_layout(&mut self, vi: VolumeInfo, dn: NodeLoc)
        requires
            old(self).wf(),
            loc_ok(old(self).data_centers@, dn),
        ensures
            final(self).wf(),
            final(self).sequence == old(self).sequence,
            final(self).data_centers == old(self).data_centers,
            final(self).pulse == old(self).pulse,
            final(self).volume_size_limit == old(self).volume_size_limit,
            layout_has(final(self).collection_map@, vi.collection@, layout_key(vi.replica_placement, Some(vi.ttl)), vi.id, dn),
            forall|c: Seq<char>, k: Seq<char>, vid: VolumeId, l: NodeLoc|
                #[trigger] layout_has(old(self).collection_map@, c, k, vid, l) && (vid != vi.id || l == dn || !same_addr(
                    old(self).data_centers@,
                    l,
                    dn,
                )) ==> layout_has(final(self).collection_map@, c, k, vid, l),
    {
        let ghost old_colls = self.collection_map@;
        let (ci, li) = self.get_volume_layout(vi.collection.as_str(), vi.replica_placement, vi.ttl);
        let ghost mid = self.collection_map@;
        assert(mid[ci as int].valid(self.data_centers@));
        assert(mid[ci as int].type2layout@[li as int].1.locs_valid(self.data_centers@));
        self.collection_map[ci].type2layout[li].1.register_volume(&vi, dn, &self.data_centers);
        proof {
            let lay0 = mid[ci as int].type2layout@[li as int].1;
            let lay1 = self.collection_map@[ci as int].type2layout@[li as int].1;
            let dcs = self.data_centers@;
            lemma_set_node_has(dcs, lay0.locations(vi.id), dn);
            assert(lay1.vid2location@[vi.id]@.contains(dn));
            assert(self.collection_map@[ci as int].type2layout@[li as int].0 == mid[ci as int].type2layout@[li as int].0);
            assert(self.collection_map@[ci as int].name == mid[ci as int].name);
            assert(self.collection_map@[ci as int].valid(dcs)) by {
                assert forall|j: int| 0 <= j < self.collection_map@[ci as int].type2layout@.len() implies (#[trigger] self.collection_map@[ci as int].type2layout@[j]).1.locs_valid(dcs)
                    && self.collection_map@[ci as int].type2layout@[j].1.wf() by {
                    if j != li {
                        assert(self.collection_map@[ci as int].type2layout@[j] == mid[ci as int].type2layout@[j]);
                    }
                }
            }
            assert forall|i: int| 0 <= i < self.collection_map@.len() implies (#[trigger] self.collection_map@[i]).valid(dcs) by {
                if i != ci {
                    assert(self.collection_map@[i] == mid[i]);
                }
            }
            assert forall|c: Seq<char>, k: Seq<char>, vid: VolumeId, l: NodeLoc|
                #[trigger] layout_has(old_colls, c, k, vid, l) && (vid != vi.id || l == dn || !same_addr(dcs, l, dn)) implies layout_has(
                    self.collection_map@,
                    c,
                    k,
                    vid,
                    l,
                ) by {
                lemma_layout_has_grew(old_colls, mid, c, k, vid, l);
                let (c2, l2) = choose|c2: int, l2: int|
                    #![trigger mid[c2].type2layout@[l2]]
                    0 <= c2 < mid.len() && 0 <= l2 < mid[c2].type2layout@.len() && mid[c2].name@ == c && mid[c2].type2layout@[l2].0@
                        == k && mid[c2].type2layout@[l2].1.vid2location@.contains_key(vid)
                        && mid[c2].type2layout@[l2].1.vid2location@[vid]@.contains(l);
                if c2 == ci && l2 == li {
                    if vid == vi.id {
                        assert(self.collection_map@[c2].type2layout@[l2].1.vid2location@[vid]@.contains(l));
                    } else {
                        assert(self.collection_map@[c2].type2layout@[l2].1.vid2location@[vid] == lay0.vid2location@[vid]);
                    }
                } else if c2 == ci {
                    assert(self.collection_map@[c2].type2layout@[l2] == mid[c2].type2layout@[l2]);
                } else {
                    assert(self.collection_map@[c2] == mid[c2]);
                }
                assert(self.collection_map@[c2].type2layout@[l2].1.vid2location@[vid]@.contains(l));
            }
        }
    }

    /// Volume `vi` no longer takes writes in the layout of its collection, replication
    /// and ttl (made when missing).
    pub fn un_register_volume_layout(&mut self, vi: VolumeInfo, dn: NodeLoc)
        requires
            old(self).wf(),
        ensures
            final(self).wf(),
            final(self).sequence == old(self).sequence,
            final(self).data_centers == old(self).data_centers,
            final(self).pulse == old(self).pulse,
            final(self).volume_size_limit == old(self).volume_size_limit,
            forall|c: Seq<char>, k: Seq<char>, vid: VolumeId, l: NodeLoc|
                #[trigger] layout_has(old(self).collection_map@, c, k, vid, l) ==> layout_has(final(self).collection_map@, c, k, vid, l),
            !writable_in(final(self).collection_map@, vi.collection@, layout_key(vi.replica_placement, Some(vi.ttl)), vi.id),
            forall|c: Seq<char>, k: Seq<char>, vid: VolumeId|
                #[trigger] writable_in(final(self).collection_map@, c, k, vid) ==> writable_in(old(self).collection_map@, c, k, vid),
    {
        let ghost old_colls = self.collection_map@;
        let (ci, li) = self.get_volume_layout(vi.collection.as_str(), vi.replica_placement, vi.ttl);
        let ghost mid = self.collection_map@;
        assert(mid[ci as int].valid(self.data_centers@));
        self.collection_map[ci].type2layout[li].1.un_register_volume(&vi, dn);
        proof {
            let fin = self.collection_map@;
            let key = layout_key(vi.replica_placement, Some(vi.ttl));
            assert(!fin[ci as int].type2layout@[li as int].1.writable_volumes@.contains(vi.id));
            assert forall|c2: int, l2: int|
                0 <= c2 < fin.len() && 0 <= l2 < fin[c2].type2layout@.len() && fin[c2].name@ == vi.collection@
                    && fin[c2].type2layout@[l2].0@ == key implies !(#[trigger] fin[c2].type2layout@[l2]).1.writable_volumes@.contains(vi.id) by {
                if c2 != ci {
                    assert(fin[c2] == mid[c2]);
                    assert(fin[ci as int].name@ == vi.collection@);
                } else if l2 != li {
                    assert(fin[c2].type2layout@[l2] == mid[c2].type2layout@[l2]);
                    assert(fin[c2].type2layout@[li as int].0@ == key);
                }
            }
            assert forall|c: Seq<char>, k: Seq<char>, vid: VolumeId|
                #[trigger] writable_in(fin, c, k, vid) implies writable_in(old_colls, c, k, vid) by {
                let (c2, l2) = choose|c2: int, l2: int|
                    #![trigger fin[c2].type2layout@[l2]]
                    0 <= c2 < fin.len() && 0 <= l2 < fin[c2].type2layout@.len() && fin[c2].name@ == c
                        && fin[c2].type2layout@[l2].0@ == k && fin[c2].type2layout@[l2].1.writable_volumes@.contains(vid);
                let lay_m = mid[c2].type2layout@[l2];
                if c2 == ci && l2 == li {
                    crate::directory::topology::volume_layout::lemma_remove_vid(lay_m.1.writable_volumes@, vi.id);
                    assert(lay_m.1.writable_volumes@.contains(vid));
                } else if c2 == ci {
                    assert(fin[c2].type2layout@[l2] == lay_m);
                } else {
                    assert(fin[c2] == mid[c2]);
                }
                assert(lay_m.1.writable_volumes@.contains(vid));
                assert(lay_m.0@ == k && mid[c2].name@ == c);
                if c2 < old_colls.len() && l2 < old_colls[c2].type2layout@.len() {
                    assert(mid[c2].type2layout@[l2] == old_colls[c2].type2layout@[l2]);
                    assert(old_colls[c2].type2layout@[l2].1.writable_volumes@.contains(vid));
                } else {
                    assert(c2 == ci && l2 == li);
                    assert(fresh_layout(lay_m.1));
                }
            }
        }
        proof {
            let dcs = self.data_centers@;
            assert(self.collection_map@[ci as int].valid(dcs)) by {
                assert forall|j: int| 0 <= j < self.collection_map@[ci as int].type2layout@.len() implies (#[trigger] self.collection_map@[ci as int].type2layout@[j]).1.locs_valid(dcs)
                    && self.collection_map@[ci as int].type2layout@[j].1.wf() by {
                    if j != li {
                        assert(self.collection_map@[ci as int].type2layout@[j] == mid[ci as int].type2layout@[j]);
                    }
                }
            }
            assert forall|i: int| 0 <= i < self.collection_map@.len() implies (#[trigger] self.collection_map@[i]).valid(dcs) by {
                if i != ci {
                    assert(self.collection_map@[i] == mid[i]);
                }
            }
            assert forall|c: Seq<char>, k: Seq<char>, vid: VolumeId, l: NodeLoc|
                #[trigger] layout_has(old_colls, c, k, vid, l) implies layout_has(self.collection_map@, c, k, vid, l) by {
                lemma_layout_has_grew(old_colls, mid, c, k, vid, l);
                let (c2, l2) = choose|c2: int, l2: int|
                    #![trigger mid[c2].type2layout@[l2]]
                    0 <= c2 < mid.len() && 0 <= l2 < mid[c2].type2layout@.len() && mid[c2].name@ == c && mid[c2].type2layout@[l2].0@
                        == k && mid[c2].type2layout@[l2].1.vid2location@.contains_key(vid)
                        && mid[c2].type2layout@[l2].1.vid2location@[vid]@.contains(l);
                if c2 == ci && l2 == li {
                } else if c2 == ci {
                    assert(self.collection_map@[c2].type2layout@[l2] == mid[c2].type2layout@[l2]);
                } else {
                    assert(self.collection_map@[c2] == mid[c2]);
                }
                assert(self.collection_map@[c2].type2layout@[l2].1.vid2location@[vid]@.contains(l));
            }
        }
    }

    /// The largest volume id any data center has seen (0 when there are none).
    pub fn get_max_volume_id(&self) -> (r: VolumeId)
        ensures
            r == max_dc_vid(self.data_centers@),
    {
        let mut vid: VolumeId = 0;
        let mut i: usize = 0;
        while i < self.data_centers.len()
            invariant
                i <= self.data_centers@.len(),
                vid == max_dc_vid(self.data_centers@.take(i as int)),
            decreases self.data_centers@.len() - i,
        {
            assert(self.data_centers@.take(i + 1).drop_last() =~= self.data_centers@.take(i as int));
            let other = self.data_centers[i].max_volume_id;
            if other > vid {
                vid = other;
            }
            i = i + 1;
        }
        assert(self.data_centers@.take(i as int) =~= self.data_centers@);
        vid
    }

    /// The id for a new volume: one past the largest seen (wrapping).
    pub fn next_volume_id(&mut self) -> (r: VolumeId)
        ensures
            r == vstd::wrapping::u32_specs::wrapping_add(max_dc_vid(old(self).data_centers@), 1),
            *final(self) == *old(self),
    {
        let vid = self.get_max_volume_id();
        vid.wrapping_add(1)
    }
}

/// `fid` is the text of the file id of key `key` in volume `vid` with hash code `h`.
pub open spec fn fid_for(fid: Seq<char>, vid: VolumeId, key: u64, h: u32) -> bool {
    fid == file_id_text(vid, key, h)
}

/// A write picked in layout `lay` among the candidates `c`: the file id `fid` names the
/// first key `key` in a candidate volume (with some hash code), and `loc` is the first
/// place of that volume's copies.
pub open spec fn picked_in(fid: Seq<char>, loc: NodeLoc, c: Seq<VolumeId>, key: u64, lay: VolumeLayout) -> bool {
    exists|vid: VolumeId, h: u32| c.contains(vid) && #[trigger] fid_for(fid, vid, key, h) && lay.locations(vid).len() > 0
        && loc == lay.locations(vid)[0]
}

impl Topology {
    /// Picks at random a volume for a write of `count` files under `option` (in the
    /// layout of its collection, replication and ttl), takes `count` keys from the
    /// counter, and returns the file id of the first key (with a random hash code), the
    /// count, and the first place of the volume's copies.
    pub fn pick_for_write(&mut self, count: u64, option: &VolumeGrowOption) -> (r: Result<(String, u64, NodeLoc), Error>)
        requires
            old(self).wf(),
        ensures
            final(self).wf(),
            final(self).data_centers == old(self).data_centers,
            colls_grew(old(self).collection_map@, final(self).collection_map@),
            r is Ok ==> final(self).sequence.counter() == wrapping_add_u64(old(self).sequence.counter(), count),
            r is Err ==> final(self).sequence.counter() == old(self).sequence.counter(),
            exists|ci: int, li: int|
                #![trigger final(self).collection_map@[ci].type2layout@[li]]
                0 <= ci < final(self).collection_map@.len() && 0 <= li < final(self).collection_map@[ci].type2layout@.len()
                    && final(self).collection_map@[ci].name@ == option.collection@
                    && final(self).collection_map@[ci].type2layout@[li].0@ == layout_key(option.replica_placement, Some(option.ttl))
                    && ({
                        let lay = final(self).collection_map@[ci].type2layout@[li].1;
                        let c = cands(final(self).data_centers@, lay.writable_volumes@, lay.vid2location@, option);
                        &&& lay.writable_volumes@.len() == 0 ==> (r matches Err(Error::NoWritableVolume(m)) && m@
                            == crate::directory::topology::volume_layout::no_writable_text())
                        &&& lay.writable_volumes@.len() != 0 && c.len() == 0 ==> (r matches Err(Error::NoWritableVolume(m))
                            && m@ == crate::directory::topology::volume_layout::no_match_text())
                        &&& r matches Ok((fid, n, loc)) ==> n == count && picked_in(fid@, loc, c, old(self).sequence.counter(), lay)
                        &&& c.len() > 0 ==> r is Ok
                    }),
            r matches Ok((fid, n, loc)) ==> loc_ok(final(self).data_centers@, loc) && exists|vid: VolumeId, h: u32| #[trigger] fid_for(
                fid@,
                vid,
                old(self).sequence.counter(),
                h,
            ),
    {
        let (ci, li) = self.get_volume_layout(option.collection.as_str(), option.replica_placement, option.ttl);
        assert(self.collection_map@[ci as int].valid(self.data_centers@));
        let picked = self.collection_map[ci].type2layout[li].1.pick_for_write(option, &self.data_centers);
        let (vid, locs) = match picked {
            Ok(p) => p,
            Err(e) => {
                return Err(e);
            },
        };
        proof {
            let lay = self.collection_map@[ci as int].type2layout@[li as int].1;
            crate::directory::topology::volume_layout::lemma_cands_have_locs(
                self.data_centers@,
                lay.writable_volumes@,
                lay.vid2location@,
                option,
                vid,
            );
        }
        let ghost key0 = self.sequence.counter();
        let (file_key, c) = self.sequence.next_file_id(count);
        let hash_code = random_u32();
        let fid = FileID { volume_id: vid, key: file_key, hash_code }.string();
        assert(fid_for(fid@, vid, key0, hash_code));
        let ghost lay = self.collection_map@[ci as int].type2layout@[li as int].1;
        assert(key0 == old(self).sequence.counter());
        assert(cands(self.data_centers@, lay.writable_volumes@, lay.vid2location@, option).contains(vid));
        assert(locs@ == lay.locations(vid));
        let l0 = locs[0];
        proof {
            assert(self.collection_map@[ci as int].valid(self.data_centers@));
            assert(lay.locs_valid(self.data_centers@));
            assert(lay.vid2location@.contains_key(vid));
            assert(locs_ok(self.data_centers@, lay.vid2location@[vid]@));
            assert(loc_ok(self.data_centers@, l0));
        }
        let t = (fid, c, l0);
        assert(picked_in(t.0@, l0, cands(self.data_centers@, lay.writable_volumes@, lay.vid2location@, option), key0, lay));
        let r: Result<(String, u64, NodeLoc), Error> = Ok(t);
        r
    }
}

impl Topology {
    /// Joins the node with id `node_id` to rack `rack_name` of data center `dc_name`,
    /// each made when missing (the node with the other arguments), and links the rack to
    /// its data center and the node to both. Returns the node's place.
    #[verifier::spinoff_prover]
    #[verifier::rlimit(50)]
    pub fn join_node(
        &mut self,
        dc_name: &str,
        rack_name: &str,
        node_id: &str,
        ip: &str,
        port: i64,
        public_url: &str,
        max_volumes: i64,
    ) -> (r: NodeLoc)
        requires
            old(self).wf(),
        ensures
            final(self).wf(),
            final(self).sequence == old(self).sequence,
            final(self).collection_map == old(self).collection_map,
            final(self).pulse == old(self).pulse,
            final(self).volume_size_limit == old(self).volume_size_limit,
            dcs_grew(old(self).data_centers@, final(self).data_centers@),
            loc_ok(final(self).data_centers@, r),
            final(self).data_centers@[r.dc as int].id@ == dc_name@,
            final(self).data_centers@[r.dc as int].racks@[r.rack as int].id@ == rack_name@,
            final(self).data_centers@[r.dc as int].racks@[r.rack as int].data_center@ == dc_name@,
            node_at(final(self).data_centers@, r).id@ == node_id@,
            node_at(final(self).data_centers@, r).rack@ == rack_name@,
            node_at(final(self).data_centers@, r).data_center@ == dc_name@,
            loc_ok(old(self).data_centers@, r) ==> node_at(final(self).data_centers@, r).volumes
                == node_at(old(self).data_centers@, r).volumes && node_at(final(self).data_centers@, r).max_volume_id
                == node_at(old(self).data_centers@, r).max_volume_id,
            !loc_ok(old(self).data_centers@, r) ==> node_at(final(self).data_centers@, r).volumes@ == Map::<
                VolumeId,
                VolumeInfo,
            >::empty() && node_at(final(self).data_centers@, r).max_volume_id == 0,
            forall|l: NodeLoc| loc_ok(old(self).data_centers@, l) && l != r ==> #[trigger] node_at(final(self).data_centers@, l)
                == node_at(old(self).data_centers@, l),
            forall|d: int| 0 <= d < old(self).data_centers@.len() ==> #[trigger] final(self).data_centers@[d].max_volume_id
                == old(self).data_centers@[d].max_volume_id,
            forall|d: int, k: int| 0 <= d < old(self).data_centers@.len() && 0 <= k < old(self).data_centers@[d].racks@.len()
                ==> #[trigger] final(self).data_centers@[d].racks@[k].max_volume_id == old(self).data_centers@[d].racks@[k].max_volume_id,
    {
        let ghost dcs0 = self.data_centers@;
        let d = self.get_or_create_data_center(dc_name);
        let ghost dcs1 = self.data_centers@;
        let r = self.data_centers[d].join_rack(rack_name);
        let ghost dcs2 = self.data_centers@;
        let dcid = self.data_centers[d].id.clone();
        let n = self.data_centers[d].racks[r].join_node(node_id, ip, port, public_url, max_volumes, dcid.as_str());
        let loc = NodeLoc { dc: d, rack: r, node: n };
        proof {
            let dcs3 = self.data_centers@;
            lemma_join_steps(dcs0, dcs1, dcs2, dcs3, d as int, r as int, n as int);
            lemma_colls_grew(self.collection_map@, dcs0, dcs3);
            assert(maxima_ok(dcs0));
            assert(loc_ok(dcs3, loc));
            assert(forall|x: int| 0 <= x < dcs0.len() ==> #[trigger] dcs3[x].max_volume_id == dcs0[x].max_volume_id);
            assert(loc_ok(dcs0, loc) ==> node_at(dcs3, loc).volumes == node_at(dcs0, loc).volumes && node_at(dcs3, loc).max_volume_id == node_at(dcs0, loc).max_volume_id);
            assert(!loc_ok(dcs0, loc) ==> node_at(dcs3, loc).volumes@ == Map::<VolumeId, VolumeInfo>::empty() && node_at(dcs3, loc).max_volume_id == 0);
            lemma_maxima_join(dcs0, dcs3, loc);
            if loc_ok(dcs0, loc) {
                lemma_loc_grew(dcs0, dcs1, loc);
            }
        }
        loc
    }
}

/// What joining a node does to the data centers: `b` from `a` by finding or adding data
/// center `d`, `c` from `b` by finding or adding rack `r` in it (and linking it), and `e`
/// from `c` by finding or adding node `n` in that rack (and linking it).
proof fn lemma_join_steps(a: Seq<DataCenter>, b: Seq<DataCenter>, c: Seq<DataCenter>, e: Seq<DataCenter>, d: int, r: int, n: int)
    requires
        nodes_wf(a),
        dcs_grew(a, b),
        b.take(a.len() as int) == a,
        0 <= d < b.len(),
        b.len() == a.len() || (b.len() == a.len() + 1 && d == a.len()),
        d >= a.len() ==> b[d].racks@.len() == 0,
        c.len() == b.len(),
        forall|x: int| 0 <= x < b.len() && x != d ==> #[trigger] c[x] == b[x],
        c[d].id == b[d].id,
        c[d].max_volume_id == b[d].max_volume_id,
        0 <= r <= b[d].racks@.len(),
        c[d].racks@.len() == if r == b[d].racks@.len() { b[d].racks@.len() + 1 } else { b[d].racks@.len() },
        forall|y: int| 0 <= y < b[d].racks@.len() && y != r ==> #[trigger] c[d].racks@[y] == b[d].racks@[y],
        r < b[d].racks@.len() ==> c[d].racks@[r].nodes == b[d].racks@[r].nodes && c[d].racks@[r].max_volume_id
            == b[d].racks@[r].max_volume_id,
        r == b[d].racks@.len() ==> c[d].racks@[r].nodes@.len() == 0 && c[d].racks@[r].max_volume_id == 0,
        e.len() == c.len(),
        forall|x: int| 0 <= x < c.len() && x != d ==> #[trigger] e[x] == c[x],
        e[d].id == c[d].id,
        e[d].max_volume_id == c[d].max_volume_id,
        e[d].racks@.len() == c[d].racks@.len(),
        forall|y: int| 0 <= y < c[d].racks@.len() && y != r ==> #[trigger] e[d].racks@[y] == c[d].racks@[y],
        e[d].racks@[r].id == c[d].racks@[r].id,
        e[d].racks@[r].max_volume_id == c[d].racks@[r].max_volume_id,
        e[d].racks@[r].data_center == c[d].racks@[r].data_center,
        0 <= n <= c[d].racks@[r].nodes@.len(),
        e[d].racks@[r].nodes@.len() == if n == c[d].racks@[r].nodes@.len() {
            c[d].racks@[r].nodes@.len() + 1
        } else {
            c[d].racks@[r].nodes@.len()
        },
        forall|y: int| 0 <= y < c[d].racks@[r].nodes@.len() && y != n ==> #[trigger] e[d].racks@[r].nodes@[y] == c[d].racks@[r].nodes@[y],
        n < c[d].racks@[r].nodes@.len() ==> e[d].racks@[r].nodes@[n].volumes == c[d].racks@[r].nodes@[n].volumes
            && e[d].racks@[r].nodes@[n].max_volume_id == c[d].racks@[r].nodes@[n].max_volume_id,
        n == c[d].racks@[r].nodes@.len() ==> e[d].racks@[r].nodes@[n].volumes@ == Map::<VolumeId, VolumeInfo>::empty()
            && e[d].racks@[r].nodes@[n].max_volume_id == 0,
    ensures
        dcs_grew(a, e),
        nodes_wf(e),
        forall|l: NodeLoc| loc_ok(e, l) && l != (NodeLoc { dc: d as usize, rack: r as usize, node: n as usize }) ==> #[trigger] loc_ok(a, l),
        forall|x: int, y: int| 0 <= x < e.len() && 0 <= y < e[x].racks@.len() && !(x < a.len() && y < a[x].racks@.len()) ==> #[trigger] e[x].racks@[y].max_volume_id == 0,
        forall|l: NodeLoc| loc_ok(a, l) && l != (NodeLoc { dc: d as usize, rack: r as usize, node: n as usize }) ==> #[trigger] node_at(e, l) == node_at(a, l),
        forall|x: int| 0 <= x < a.len() ==> #[trigger] e[x].max_volume_id == a[x].max_volume_id,
        forall|x: int, k: int| 0 <= x < a.len() && 0 <= k < a[x].racks@.len() ==> #[trigger] e[x].racks@[k].max_volume_id
            == a[x].racks@[k].max_volume_id,
        loc_ok(a, NodeLoc { dc: d as usize, rack: r as usize, node: n as usize }) ==> node_at(e, NodeLoc { dc: d as usize, rack: r as usize, node: n as usize }).volumes
            == node_at(a, NodeLoc { dc: d as usize, rack: r as usize, node: n as usize }).volumes
            && node_at(e, NodeLoc { dc: d as usize, rack: r as usize, node: n as usize }).max_volume_id == node_at(a, NodeLoc { dc: d as usize, rack: r as usize, node: n as usize }).max_volume_id,
{
    let loc = NodeLoc { dc: d as usize, rack: r as usize, node: n as usize };
    assert forall|x: int| 0 <= x < a.len() implies b[x] == a[x] by {
        assert(b.take(a.len() as int)[x] == a[x]);
    }
    assert forall|x: int| 0 <= x < a.len() implies #[trigger] a[x].racks@.len() <= e[x].racks@.len() by {}
    assert forall|x: int, y: int| 0 <= x < a.len() && 0 <= y < a[x].racks@.len() implies #[trigger] a[x].racks@[y].nodes@.len()
        <= e[x].racks@[y].nodes@.len() by {
        if x == d && y == r {
        } else if x == d {
            assert(e[x].racks@[y] == c[x].racks@[y]);
        }
    }
    assert forall|l: NodeLoc| loc_ok(a, l) && l != loc implies #[trigger] node_at(e, l) == node_at(a, l) by {
        if l.dc as int == d && l.rack as int == r {
            assert(e[d].racks@[r].nodes@[l.node as int] == c[d].racks@[r].nodes@[l.node as int]);
        } else if l.dc as int == d {
            assert(e[d].racks@[l.rack as int] == c[d].racks@[l.rack as int]);
        }
    }
    assert forall|l: NodeLoc| loc_ok(e, l) && l != loc implies #[trigger] loc_ok(a, l) by {
        if !loc_ok(a, l) {
            // a node not in `a` is a new one, and only the node at `loc` is new
            if l.dc as int == d {
                if l.rack as int == r {
                    if l.node as int != n {
                        assert(e[d].racks@[r].nodes@[l.node as int] == c[d].racks@[r].nodes@[l.node as int]);
                        if r < b[d].racks@.len() {
                            assert(c[d].racks@[r].nodes == b[d].racks@[r].nodes);
                            if d < a.len() {
                                assert(b[d] == a[d]);
                                assert(loc_ok(a, l));
                            }
                        }
                    }
                } else {
                    assert(l.rack < b[d].racks@.len());
                    assert(e[d].racks@[l.rack as int] == c[d].racks@[l.rack as int]);
                    assert(c[d].racks@[l.rack as int] == b[d].racks@[l.rack as int]);
                    if d < a.len() {
                        assert(b[d] == a[d]);
                        assert(loc_ok(a, l));
                    }
                }
            } else {
                assert(e[l.dc as int] == c[l.dc as int]);
                assert(c[l.dc as int] == b[l.dc as int]);
                if l.dc < a.len() {
                    assert(b[l.dc as int] == a[l.dc as int]);
                    assert(loc_ok(a, l));
                }
            }
        }
    }
    assert forall|l: NodeLoc| loc_ok(e, l) implies (#[trigger] node_at(e, l)).wf() by {
        if l != loc {
            assert(loc_ok(a, l));
            assert(node_at(a, l).wf());
        } else if loc_ok(a, l) {
            assert(node_at(a, l).wf());
        }
    }
    assert forall|x: int, y: int| 0 <= x < e.len() && 0 <= y < e[x].racks@.len() && !(x < a.len() && y < a[x].racks@.len()) implies #[trigger] e[x].racks@[y].max_volume_id == 0 by {
        if x != d {
            assert(e[x] == c[x]);
            assert(c[x] == b[x]);
            assert(x < a.len());
            assert(b[x] == a[x]);
        } else if y != r {
            assert(e[d].racks@[y] == c[d].racks@[y]);
            assert(c[d].racks@[y] == b[d].racks@[y]);
            assert(d < a.len());
            assert(b[d] == a[d]);
        } else if r < b[d].racks@.len() {
            assert(d < a.len());
            assert(b[d] == a[d]);
        }
    }
    assert forall|x: int, k: int| 0 <= x < a.len() && 0 <= k < a[x].racks@.len() implies #[trigger] e[x].racks@[k].max_volume_id
        == a[x].racks@[k].max_volume_id by {
        if x == d && k != r {
            assert(e[x].racks@[k] == c[x].racks@[k]);
        }
    }
}

/// Joining a node, which adds at most that node (with no volumes), racks with a largest
/// volume id of 0 and data centers, keeps [`maxima_ok`].
proof fn lemma_maxima_join(a: Seq<DataCenter>, e: Seq<DataCenter>, loc: NodeLoc)
    requires
        maxima_ok(a),
        dcs_grew(a, e),
        loc_ok(e, loc),
        forall|l: NodeLoc| loc_ok(e, l) && l != loc ==> #[trigger] loc_ok(a, l),
        forall|x: int, y: int| 0 <= x < e.len() && 0 <= y < e[x].racks@.len() && !(x < a.len() && y < a[x].racks@.len()) ==> #[trigger] e[x].racks@[y].max_volume_id == 0,
        forall|l: NodeLoc| loc_ok(a, l) && l != loc ==> #[trigger] node_at(e, l) == node_at(a, l),
        forall|x: int| 0 <= x < a.len() ==> #[trigger] e[x].max_volume_id == a[x].max_volume_id,
        forall|x: int, k: int| 0 <= x < a.len() && 0 <= k < a[x].racks@.len() ==> #[trigger] e[x].racks@[k].max_volume_id
            == a[x].racks@[k].max_volume_id,
        loc_ok(a, loc) ==> node_at(e, loc).volumes == node_at(a, loc).volumes && node_at(e, loc).max_volume_id == node_at(a, loc).max_volume_id,
        !loc_ok(a, loc) ==> node_at(e, loc).volumes@ == Map::<VolumeId, VolumeInfo>::empty() && node_at(e, loc).max_volume_id == 0,
    ensures
        maxima_ok(e),
{
    assert forall|x: int, y: int| 0 <= x < e.len() && 0 <= y < e[x].racks@.len() implies #[trigger] e[x].racks@[y].max_volume_id
        <= e[x].max_volume_id by {
        if x < a.len() && y < a[x].racks@.len() {
            assert(a[x].racks@[y].max_volume_id <= a[x].max_volume_id);
        }
    }
    assert forall|l: NodeLoc| loc_ok(e, l) implies #[trigger] node_at(e, l).max_volume_id <= e[l.dc as int].racks@[l.rack as int].max_volume_id by {
        if loc_ok(a, l) {
            assert(node_at(a, l).max_volume_id <= a[l.dc as int].racks@[l.rack as int].max_volume_id);
            assert(e[l.dc as int].racks@[l.rack as int].max_volume_id == a[l.dc as int].racks@[l.rack as int].max_volume_id);
        }
    }
    assert forall|l: NodeLoc, k: VolumeId| loc_ok(e, l) && #[trigger] node_at(e, l).volumes@.contains_key(k) implies k <= node_at(e, l).max_volume_id by {
        if loc_ok(a, l) {
            assert(node_at(a, l).volumes@.contains_key(k));
        }
    }
}

/// A copy of the volumes `v`.
pub fn copy_infos(v: &Vec<VolumeInfo>) -> (r: Vec<VolumeInfo>)
    ensures
        r@ == v@,
{
    let mut r: Vec<VolumeInfo> = Vec::new();
    let mut i: usize = 0;
    while i < v.len()
        invariant
            i <= v@.len(),
            r@ == v@.take(i as int),
        decreases v@.len() - i,
    {
        r.push(v[i].clone());
        assert(v@.take(i + 1) =~= v@.take(i as int).push(v@[i as int]));
        i = i + 1;
    }
    assert(v@.take(i as int) =~= v@);
    r
}

impl Topology {
    /// Replaces the volumes of the node at `loc` by `infos` (see
    /// [`DataNode::update_volumes`]), and when there are any, raises the largest volume
    /// id of its rack and then of its data center to the node's. Returns the volumes the
    /// node no longer holds.
    pub fn update_node_volumes(&mut self, loc: NodeLoc, infos: &Vec<VolumeInfo>) -> (r: Vec<VolumeInfo>)
        requires
            old(self).wf(),
            loc_ok(old(self).data_centers@, loc),
        ensures
            final(self).wf(),
            final(self).sequence == old(self).sequence,
            final(self).collection_map == old(self).collection_map,
            final(self).pulse == old(self).pulse,
            final(self).volume_size_limit == old(self).volume_size_limit,
            dcs_grew(old(self).data_centers@, final(self).data_centers@),
            dcs_grew(final(self).data_centers@, old(self).data_centers@),
            forall|l: NodeLoc| loc_ok(old(self).data_centers@, l) && l != loc ==> #[trigger] node_at(final(self).data_centers@, l)
                == node_at(old(self).data_centers@, l),
            forall|x: int| 0 <= x < old(self).data_centers@.len() ==> (#[trigger] final(self).data_centers@[x]).id
                == old(self).data_centers@[x].id,
            forall|x: int, y: int| 0 <= x < old(self).data_centers@.len() && 0 <= y < old(self).data_centers@[x].racks@.len()
                ==> (#[trigger] final(self).data_centers@[x].racks@[y]).id == old(self).data_centers@[x].racks@[y].id
                && final(self).data_centers@[x].racks@[y].data_center == old(self).data_centers@[x].racks@[y].data_center,
            same_node_but_volumes(node_at(old(self).data_centers@, loc), node_at(final(self).data_centers@, loc)),
            node_at(final(self).data_centers@, loc).volumes@ == apply_infos(Map::empty(), infos@),
            node_at(final(self).data_centers@, loc).max_volume_id == max_id_of(node_at(old(self).data_centers@, loc).max_volume_id, infos@),
            forall|x: int| 0 <= x < old(self).data_centers@.len() ==> #[trigger] final(self).data_centers@[x].max_volume_id
                >= old(self).data_centers@[x].max_volume_id,
            forall|x: int, y: int| 0 <= x < old(self).data_centers@.len() && 0 <= y < old(self).data_centers@[x].racks@.len()
                ==> #[trigger] final(self).data_centers@[x].racks@[y].max_volume_id >= old(self).data_centers@[x].racks@[y].max_volume_id,
            forall|k: int| 0 <= k < r@.len() ==> {
                &&& node_at(old(self).data_centers@, loc).volumes@.contains_key((#[trigger] r@[k]).id)
                &&& !infos_have(infos@, r@[k].id)
                &&& r@[k] == node_at(old(self).data_centers@, loc).volumes@[r@[k].id]
            },
            forall|id: VolumeId| #[trigger] node_at(old(self).data_centers@, loc).volumes@.contains_key(id) && !infos_have(infos@, id)
                ==> exists|k: int| 0 <= k < r@.len() && (#[trigger] r@[k]).id == id,
    {
        let ghost dcs0 = self.data_centers@;
        proof {
            assert(node_at(dcs0, loc).wf());
        }
        let mine = copy_infos(infos);
        let deleted = self.data_centers[loc.dc].racks[loc.rack].nodes[loc.node].update_volumes(mine);
        if infos.len() > 0 {
            let nm = self.data_centers[loc.dc].racks[loc.rack].nodes[loc.node].max_volume_id;
            self.data_centers[loc.dc].racks[loc.rack].adjust_max_volume_id(nm);
            let rm = self.data_centers[loc.dc].racks[loc.rack].max_volume_id;
            self.data_centers[loc.dc].adjust_max_volume_id(rm);
        }
        proof {
            let dcs1 = self.data_centers@;
            let d = loc.dc as int;
            let k = loc.rack as int;
            assert forall|l: NodeLoc| loc_ok(dcs0, l) && l != loc implies #[trigger] node_at(dcs1, l) == node_at(dcs0, l) by {
                if l.dc as int == d && l.rack as int == k {
                    assert(dcs1[d].racks@[k].nodes@[l.node as int] == dcs0[d].racks@[k].nodes@[l.node as int]);
                } else if l.dc as int == d {
                    assert(dcs1[d].racks@[l.rack as int] == dcs0[d].racks@[l.rack as int]);
                } else {
                    assert(dcs1[l.dc as int] == dcs0[l.dc as int]);
                }
            }
            assert forall|x: int| 0 <= x < dcs0.len() implies #[trigger] dcs0[x].racks@.len() <= dcs1[x].racks@.len()
                && dcs1[x].racks@.len() <= dcs0[x].racks@.len() by {
                if x != d {
                    assert(dcs1[x] == dcs0[x]);
                }
            }
            assert forall|x: int, y: int| 0 <= x < dcs0.len() && 0 <= y < dcs0[x].racks@.len() implies #[trigger] dcs0[x].racks@[y].nodes@.len()
                == dcs1[x].racks@[y].nodes@.len() by {
                if x != d {
                    assert(dcs1[x] == dcs0[x]);
                } else if y != k {
                    assert(dcs1[x].racks@[y] == dcs0[x].racks@[y]);
                }
            }
            assert forall|x: int, y: int| 0 <= x < dcs1.len() && 0 <= y < dcs1[x].racks@.len() implies #[trigger] dcs1[x].racks@[y].nodes@.len()
                <= dcs0[x].racks@[y].nodes@.len() by {
                assert(dcs0[x].racks@[y].nodes@.len() == dcs1[x].racks@[y].nodes@.len());
            }
            assert(dcs_grew(dcs0, dcs1));
            assert(dcs_grew(dcs1, dcs0));
            assert forall|x: int| 0 <= x < dcs0.len() && x != loc.dc implies #[trigger] dcs1[x].max_volume_id == dcs0[x].max_volume_id by {
                assert(dcs1[x] == dcs0[x]);
            }
            assert forall|x: int, y: int| 0 <= x < dcs0.len() && 0 <= y < dcs0[x].racks@.len() && (x != loc.dc || y != loc.rack) implies #[trigger] dcs1[x].racks@[y].max_volume_id
                == dcs0[x].racks@[y].max_volume_id by {
                if x != d {
                    assert(dcs1[x] == dcs0[x]);
                } else {
                    assert(dcs1[x].racks@[y] == dcs0[x].racks@[y]);
                }
            }
            assert(node_at(dcs0, loc).max_volume_id <= dcs0[d].racks@[k].max_volume_id);
            assert(dcs0[d].racks@[k].max_volume_id <= dcs0[d].max_volume_id);
            lemma_max_id_of(node_at(dcs0, loc).max_volume_id, infos@);
            lemma_maxima_one_node(dcs0, dcs1, loc);
            assert forall|x: int| 0 <= x < dcs0.len() implies (#[trigger] dcs1[x]).id == dcs0[x].id by {
                if x != d {
                    assert(dcs1[x] == dcs0[x]);
                }
            }
            assert forall|x: int, y: int| 0 <= x < dcs0.len() && 0 <= y < dcs0[x].racks@.len() implies (#[trigger] dcs1[x].racks@[y]).id
                == dcs0[x].racks@[y].id && dcs1[x].racks@[y].data_center == dcs0[x].racks@[y].data_center by {
                if x != d {
                    assert(dcs1[x] == dcs0[x]);
                } else if y != k {
                    assert(dcs1[x].racks@[y] == dcs0[x].racks@[y]);
                }
            }
            lemma_colls_grew(self.collection_map@, dcs0, dcs1);
            assert forall|l: NodeLoc| loc_ok(dcs1, l) implies (#[trigger] node_at(dcs1, l)).wf() by {
                lemma_loc_grew(dcs1, dcs0, l);
                if l != loc {
                    assert(node_at(dcs0, l).wf());
                }
            }
        }
        deleted
    }
}

/// The ip a heartbeat comes from: the one it gives, or else the host it came from.
pub open spec fn hb_ip(hb: Heartbeat, host: Seq<char>) -> Seq<char> {
    if hb.ip@.len() == 0 {
        host
    } else {
        hb.ip@
    }
}

/// The data center a heartbeat names, `DefaultDataCenter` when it names none.
pub open spec fn hb_dc(hb: Heartbeat) -> Seq<char> {
    if hb.data_center@.len() == 0 {
        "DefaultDataCenter"@
    } else {
        hb.data_center@
    }
}

/// The rack a heartbeat names, `DefaultRack` when it names none.
pub open spec fn hb_rack(hb: Heartbeat) -> Seq<char> {
    if hb.rack@.len() == 0 {
        "DefaultRack"@
    } else {
        hb.rack@
    }
}

/// The id of the node that sent a heartbeat: `ip:port`.
pub open spec fn hb_node_id(hb: Heartbeat, host: Seq<char>) -> Seq<char> {
    hb_ip(hb, host) + seq![':'] + dec_str(hb.port as nat)
}

/// The volumes a heartbeat reports.
pub open spec fn hb_infos(hb: Heartbeat) -> Seq<VolumeInfo> {
    Seq::new(hb.volumes@.len(), |i: int| info_of_message(hb.volumes@[i]))
}

/// Every volume message of a heartbeat names a known ttl unit.
pub open spec fn heartbeat_readable(hb: Heartbeat) -> bool {
    forall|i: int| 0 <= i < hb.volumes@.len() ==> message_ttl_ok(#[trigger] hb.volumes@[i])
}

/// Whether every volume message of `hb` names a known ttl unit (the heartbeat can be
/// taken in).
pub fn heartbeat_is_readable(hb: &Heartbeat) -> (r: bool)
    ensures
        r == heartbeat_readable(*hb),
{
    let mut i: usize = 0;
    while i < hb.volumes.len()
        invariant
            i <= hb.volumes@.len(),
            forall|j: int| 0 <= j < i ==> message_ttl_ok(#[trigger] hb.volumes@[j]),
        decreases hb.volumes@.len() - i,
    {
        let t = hb.volumes[i].ttl;
        let u: u8 = ((t / 256) % 255) as u8;
        assert(crate::storage::ttl::ttl_u32_bytes(t)[1] == u);
        if Unit::from_u8_idx(u).is_none() {
            return false;
        }
        i = i + 1;
    }
    true
}

impl Topology {
    /// Takes in a heartbeat `hb` from a volume server at `host`: keeps file keys above the
    /// largest the server has used, joins the server's node to its rack and data center
    /// (made when missing), replaces the node's volumes by those reported, records each
    /// reported volume in its layout and takes the ones no longer reported out of the
    /// writable lists. Returns the answer (carrying `volume_size_limit_mb`) and the node's
    /// place.
    pub fn process_heartbeat(&mut self, hb: &Heartbeat, host: &str, volume_size_limit_mb: u64) -> (r: (HeartbeatResponse, NodeLoc))
        requires
            old(self).wf(),
            heartbeat_readable(*hb),
        ensures
            final(self).wf(),
            final(self).sequence.counter() == if old(self).sequence.counter() <= hb.max_file_key {
                hb.max_file_key
            } else {
                old(self).sequence.counter()
            },
            r.0.volumeSizeLimit == volume_size_limit_mb,
            r.0.secretKey@.len() == 0,
            r.0.leader@.len() == 0,
            dcs_grew(old(self).data_centers@, final(self).data_centers@),
            loc_ok(final(self).data_centers@, r.1),
            final(self).data_centers@[r.1.dc as int].id@ == hb_dc(*hb),
            final(self).data_centers@[r.1.dc as int].racks@[r.1.rack as int].id@ == hb_rack(*hb),
            final(self).data_centers@[r.1.dc as int].racks@[r.1.rack as int].data_center@ == hb_dc(*hb),
            node_at(final(self).data_centers@, r.1).id@ == hb_node_id(*hb, host@),
            node_at(final(self).data_centers@, r.1).rack@ == hb_rack(*hb),
            node_at(final(self).data_centers@, r.1).data_center@ == hb_dc(*hb),
            node_at(final(self).data_centers@, r.1).volumes@ == apply_infos(Map::empty(), hb_infos(*hb)),
            forall|l: NodeLoc| loc_ok(old(self).data_centers@, l) && l != r.1 ==> #[trigger] node_at(final(self).data_centers@, l)
                == node_at(old(self).data_centers@, l),
            forall|i: int| 0 <= i < hb_infos(*hb).len() ==> (#[trigger] hb_infos(*hb)[i]).id <= final(self).data_centers@[r.1.dc as int].racks@[r.1.rack as int].max_volume_id
                && final(self).data_centers@[r.1.dc as int].racks@[r.1.rack as int].max_volume_id <= final(self).data_centers@[r.1.dc as int].max_volume_id,
            forall|x: int| 0 <= x < old(self).data_centers@.len() ==> #[trigger] final(self).data_centers@[x].max_volume_id
                >= old(self).data_centers@[x].max_volume_id,
            forall|x: int, y: int| 0 <= x < old(self).data_centers@.len() && 0 <= y < old(self).data_centers@[x].racks@.len()
                ==> #[trigger] final(self).data_centers@[x].racks@[y].max_volume_id >= old(self).data_centers@[x].racks@[y].max_volume_id,
            forall|i: int| 0 <= i < hb_infos(*hb).len() ==> layout_has(
                final(self).collection_map@,
                (#[trigger] hb_infos(*hb)[i]).collection@,
                layout_key(hb_infos(*hb)[i].replica_placement, Some(hb_infos(*hb)[i].ttl)),
                hb_infos(*hb)[i].id,
                r.1,
            ),
            forall|k: VolumeId|
                loc_ok(old(self).data_centers@, r.1) && #[trigger] node_at(old(self).data_centers@, r.1).volumes@.contains_key(k)
                    && !infos_have(hb_infos(*hb), k) ==> !writable_in(
                    final(self).collection_map@,
                    node_at(old(self).data_centers@, r.1).volumes@[k].collection@,
                    layout_key(
                        node_at(old(self).data_centers@, r.1).volumes@[k].replica_placement,
                        Some(node_at(old(self).data_centers@, r.1).volumes@[k].ttl),
                    ),
                    k,
                ),
    {
        self.sequence.set_max(hb.max_file_key);
        let ip = if hb.ip.unicode_len() == 0 {
            String::from_str(host)
        } else {
            hb.ip.clone()
        };
        proof {
            reveal_strlit("DefaultDataCenter");
            reveal_strlit("DefaultRack");
            reveal_strlit(":");
        }
        let dc_name = if hb.data_center.unicode_len() == 0 {
            String::from_str("DefaultDataCenter")
        } else {
            hb.data_center.clone()
        };
        let rack_name = if hb.rack.unicode_len() == 0 {
            String::from_str("DefaultRack")
        } else {
            hb.rack.clone()
        };
        let mut node_name = ip.clone();
        node_name.append(":");
        let p = dec_string(hb.port as u64);
        node_name.append(p.as_str());
        let loc = self.join_node(
            dc_name.as_str(),
            rack_name.as_str(),
            node_name.as_str(),
            ip.as_str(),
            hb.port as i64,
            hb.public_url.as_str(),
            hb.max_volume_count as i64,
        );
        let ghost dcs_joined = self.data_centers@;
        // what the heartbeat reports
        let mut infos: Vec<VolumeInfo> = Vec::new();
        let mut i: usize = 0;
        while i < hb.volumes.len()
            invariant
                i <= hb.volumes@.len(),
                heartbeat_readable(*hb),
                infos@ == hb_infos(*hb).take(i as int),
            decreases hb.volumes@.len() - i,
        {
            assert(message_ttl_ok(hb.volumes@[i as int]));
            match VolumeInfo::new(&hb.volumes[i]) {
                Ok(info) => {
                    infos.push(info);
                },
                Err(_) => {},
            }
            assert(infos@ =~= hb_infos(*hb).take(i + 1));
            i = i + 1;
        }
        assert(infos@ =~= hb_infos(*hb));
        let deleted = self.update_node_volumes(loc, &infos);
        let ghost dcs_updated = self.data_centers@;
        proof {
            lemma_loc_grew(dcs_joined, dcs_updated, loc);
            assert forall|i: int| 0 <= i < infos@.len() implies (#[trigger] infos@[i]).id <= dcs_updated[loc.dc as int].racks@[loc.rack as int].max_volume_id by {
                lemma_apply_infos_dom(Map::empty(), infos@, infos@[i].id);
                assert(node_at(dcs_updated, loc).volumes@.contains_key(infos@[i].id));
                assert(node_at(dcs_updated, loc).max_volume_id <= dcs_updated[loc.dc as int].racks@[loc.rack as int].max_volume_id);
            }
            assert(dcs_updated[loc.dc as int].racks@[loc.rack as int].max_volume_id <= dcs_updated[loc.dc as int].max_volume_id);
        }
        let ghost seq0 = self.sequence;
        let mut j: usize = 0;
        while j < infos.len()
            invariant
                j <= infos@.len(),
                self.wf(),
                self.data_centers@ == dcs_updated,
                loc_ok(self.data_centers@, loc),
                self.sequence == seq0,
                forall|k: int| 0 <= k < j ==> layout_has(
                    self.collection_map@,
                    (#[trigger] infos@[k]).collection@,
                    layout_key(infos@[k].replica_placement, Some(infos@[k].ttl)),
                    infos@[k].id,
                    loc,
                ),
            decreases infos@.len() - j,
        {
            let v = infos[j].clone();
            self.register_volume_layout(v, loc);
            j = j + 1;
        }
        let mut g: usize = 0;
        while g < deleted.len()
            invariant
                g <= deleted@.len(),
                self.wf(),
                self.sequence == seq0,
                self.data_centers@ == dcs_updated,
                forall|k: int| 0 <= k < infos@.len() ==> layout_has(
                    self.collection_map@,
                    (#[trigger] infos@[k]).collection@,
                    layout_key(infos@[k].replica_placement, Some(infos@[k].ttl)),
                    infos@[k].id,
                    loc,
                ),
                forall|k: int| 0 <= k < g ==> !writable_in(
                    self.collection_map@,
                    (#[trigger] deleted@[k]).collection@,
                    layout_key(deleted@[k].replica_placement, Some(deleted@[k].ttl)),
                    deleted@[k].id,
                ),
            decreases deleted@.len() - g,
        {
            let v = deleted[g].clone();
            assert(v == deleted@[g as int]);
            let ghost before = self.collection_map@;
            self.un_register_volume_layout(v, loc);
            proof {
                assert forall|k: int| 0 <= k < g + 1 implies !writable_in(
                    self.collection_map@,
                    (#[trigger] deleted@[k]).collection@,
                    layout_key(deleted@[k].replica_placement, Some(deleted@[k].ttl)),
                    deleted@[k].id,
                ) by {
                    if k < g {
                        let d = deleted@[k];
                        if writable_in(self.collection_map@, d.collection@, layout_key(d.replica_placement, Some(d.ttl)), d.id) {
                            assert(writable_in(before, d.collection@, layout_key(d.replica_placement, Some(d.ttl)), d.id));
                        }
                    }
                }
            }
            g = g + 1;
        }
        proof {
            let dcs0 = old(self).data_centers@;
            assert forall|k: VolumeId|
                loc_ok(dcs0, loc) && #[trigger] node_at(dcs0, loc).volumes@.contains_key(k) && !infos_have(hb_infos(*hb), k)
                    implies !writable_in(
                    self.collection_map@,
                    node_at(dcs0, loc).volumes@[k].collection@,
                    layout_key(node_at(dcs0, loc).volumes@[k].replica_placement, Some(node_at(dcs0, loc).volumes@[k].ttl)),
                    k,
                ) by {
                assert(node_at(dcs_joined, loc).volumes == node_at(dcs0, loc).volumes);
                assert(node_at(dcs_joined, loc).volumes@.contains_key(k));
                let g2 = choose|g2: int| 0 <= g2 < deleted@.len() && (#[trigger] deleted@[g2]).id == k;
                assert(deleted@[g2] == node_at(dcs_joined, loc).volumes@[k]);
            }
        }
        let resp = HeartbeatResponse { volumeSizeLimit: volume_size_limit_mb, secretKey: String::new(), leader: String::new() };
        (resp, loc)
    }
}

impl Topology {
    /// Puts volume `v` on the node at `loc` (see [`DataNode::add_or_update_volume`]) and
    /// raises the largest volume id of its rack and then of its data center to the
    /// node's.
    pub fn add_volume_on_node(&mut self, loc: NodeLoc, v: VolumeInfo)
        requires
            old(self).wf(),
            loc_ok(old(self).data_centers@, loc),
        ensures
            final(self).wf(),
            final(self).sequence == old(self).sequence,
            final(self).collection_map == old(self).collection_map,
            final(self).pulse == old(self).pulse,
            final(self).volume_size_limit == old(self).volume_size_limit,
            dcs_grew(old(self).data_centers@, final(self).data_centers@),
            dcs_grew(final(self).data_centers@, old(self).data_centers@),
            forall|l: NodeLoc| loc_ok(old(self).data_centers@, l) && l != loc ==> #[trigger] node_at(final(self).data_centers@, l)
                == node_at(old(self).data_centers@, l),
            same_node_but_volumes(node_at(old(self).data_centers@, loc), node_at(final(self).data_centers@, loc)),
            node_at(final(self).data_centers@, loc).volumes@ == node_at(old(self).data_centers@, loc).volumes@.insert(v.id, v),
            node_at(final(self).data_centers@, loc).max_volume_id == max_vid(node_at(old(self).data_centers@, loc).max_volume_id, v.id),
            final(self).data_centers@[loc.dc as int].racks@[loc.rack as int].max_volume_id == max_vid(
                old(self).data_centers@[loc.dc as int].racks@[loc.rack as int].max_volume_id,
                node_at(final(self).data_centers@, loc).max_volume_id,
            ),
            final(self).data_centers@[loc.dc as int].max_volume_id == max_vid(
                old(self).data_centers@[loc.dc as int].max_volume_id,
                final(self).data_centers@[loc.dc as int].racks@[loc.rack as int].max_volume_id,
            ),
            forall|x: int| 0 <= x < old(self).data_centers@.len() && x != loc.dc ==> #[trigger] final(self).data_centers@[x].max_volume_id
                == old(self).data_centers@[x].max_volume_id,
            forall|l: NodeLoc| loc_ok(final(self).data_centers@, l) ==> (#[trigger] node_at(final(self).data_centers@, l)).ip
                == node_at(old(self).data_centers@, l).ip && node_at(final(self).data_centers@, l).port == node_at(old(self).data_centers@, l).port,
    {
        let ghost dcs0 = self.data_centers@;
        proof {
            assert(node_at(dcs0, loc).wf());
        }
        self.data_centers[loc.dc].racks[loc.rack].nodes[loc.node].add_or_update_volume(v);
        let nm = self.data_centers[loc.dc].racks[loc.rack].nodes[loc.node].max_volume_id;
        self.data_centers[loc.dc].racks[loc.rack].adjust_max_volume_id(nm);
        let rm = self.data_centers[loc.dc].racks[loc.rack].max_volume_id;
        self.data_centers[loc.dc].adjust_max_volume_id(rm);
        proof {
            let dcs1 = self.data_centers@;
            let d = loc.dc as int;
            let k = loc.rack as int;
            assert forall|l: NodeLoc| loc_ok(dcs0, l) && l != loc implies #[trigger] node_at(dcs1, l) == node_at(dcs0, l) by {
                if l.dc as int == d && l.rack as int == k {
                    assert(dcs1[d].racks@[k].nodes@[l.node as int] == dcs0[d].racks@[k].nodes@[l.node as int]);
                } else if l.dc as int == d {
                    assert(dcs1[d].racks@[l.rack as int] == dcs0[d].racks@[l.rack as int]);
                } else {
                    assert(dcs1[l.dc as int] == dcs0[l.dc as int]);
                }
            }
            assert forall|x: int| 0 <= x < dcs0.len() implies #[trigger] dcs0[x].racks@.len() <= dcs1[x].racks@.len()
                && dcs1[x].racks@.len() <= dcs0[x].racks@.len() by {
                if x != d {
                    assert(dcs1[x] == dcs0[x]);
                }
            }
            assert forall|x: int, y: int| 0 <= x < dcs0.len() && 0 <= y < dcs0[x].racks@.len() implies #[trigger] dcs0[x].racks@[y].nodes@.len()
                == dcs1[x].racks@[y].nodes@.len() by {
                if x != d {
                    assert(dcs1[x] == dcs0[x]);
                } else if y != k {
                    assert(dcs1[x].racks@[y] == dcs0[x].racks@[y]);
                }
            }
            assert forall|x: int, y: int| 0 <= x < dcs1.len() && 0 <= y < dcs1[x].racks@.len() implies #[trigger] dcs1[x].racks@[y].nodes@.len()
                <= dcs0[x].racks@[y].nodes@.len() by {
                assert(dcs0[x].racks@[y].nodes@.len() == dcs1[x].racks@[y].nodes@.len());
            }
            assert(dcs_grew(dcs0, dcs1));
            assert(dcs_grew(dcs1, dcs0));
            assert forall|x: int| 0 <= x < dcs0.len() && x != loc.dc implies #[trigger] dcs1[x].max_volume_id == dcs0[x].max_volume_id by {
                assert(dcs1[x] == dcs0[x]);
            }
            assert forall|x: int, y: int| 0 <= x < dcs0.len() && 0 <= y < dcs0[x].racks@.len() && (x != loc.dc || y != loc.rack) implies #[trigger] dcs1[x].racks@[y].max_volume_id
                == dcs0[x].racks@[y].max_volume_id by {
                if x != d {
                    assert(dcs1[x] == dcs0[x]);
                } else {
                    assert(dcs1[x].racks@[y] == dcs0[x].racks@[y]);
                }
            }
            assert(node_at(dcs0, loc).max_volume_id <= dcs0[d].racks@[k].max_volume_id);
            assert(dcs0[d].racks@[k].max_volume_id <= dcs0[d].max_volume_id);
            assert forall|x: VolumeId| #[trigger] node_at(dcs1, loc).volumes@.contains_key(x) implies x <= node_at(dcs1, loc).max_volume_id by {
                if x != v.id {
                    assert(node_at(dcs0, loc).volumes@.contains_key(x));
                }
            }
            lemma_maxima_one_node(dcs0, dcs1, loc);
            lemma_colls_grew(self.collection_map@, dcs0, dcs1);
            assert forall|l: NodeLoc| loc_ok(dcs1, l) implies (#[trigger] node_at(dcs1, l)).wf() by {
                lemma_loc_grew(dcs1, dcs0, l);
                if l != loc {
                    assert(node_at(dcs0, l).wf());
                }
            }
            assert forall|l: NodeLoc| loc_ok(dcs1, l) implies (#[trigger] node_at(dcs1, l)).ip == node_at(dcs0, l).ip
                && node_at(dcs1, l).port == node_at(dcs0, l).port by {
                lemma_loc_grew(dcs1, dcs0, l);
            }
        }
    }
}

/// Growing twice is growing.
pub proof fn lemma_dcs_grew_trans(a: Seq<DataCenter>, b: Seq<DataCenter>, c: Seq<DataCenter>)
    requires
        dcs_grew(a, b),
        dcs_grew(b, c),
    ensures
        dcs_grew(a, c),
{
    assert forall|d: int| 0 <= d < a.len() implies #[trigger] a[d].racks@.len() <= c[d].racks@.len() by {
        assert(a[d].racks@.len() <= b[d].racks@.len());
        assert(b[d].racks@.len() <= c[d].racks@.len());
    }
    assert forall|d: int, r: int| 0 <= d < a.len() && 0 <= r < a[d].racks@.len() implies #[trigger] a[d].racks@[r].nodes@.len()
        <= c[d].racks@[r].nodes@.len() by {
        assert(a[d].racks@[r].nodes@.len() <= b[d].racks@[r].nodes@.len());
        assert(b[d].racks@.len() <= c[d].racks@.len());
        assert(b[d].racks@[r].nodes@.len() <= c[d].racks@[r].nodes@.len());
    }
}

/// A layout from `start` on knows `vid`, so the search from `start` finds one.
proof fn lemma_layout_with_found(ls: Seq<(String, VolumeLayout)>, vid: VolumeId, start: int, li: int)
    requires
        0 <= start <= li < ls.len(),
        ls[li].1.vid2location@.contains_key(vid),
    ensures
        first_layout_with(ls, vid, start) is Some,
    decreases li - start,
{
    if start < li && !ls[start].1.vid2location@.contains_key(vid) {
        lemma_layout_with_found(ls, vid, start + 1, li);
    }
}

/// A collection from `start` on has a layout that knows `vid`, so the search from
/// `start` finds one.
proof fn lemma_collection_with_found(colls: Seq<Collection>, vid: VolumeId, start: int, ci: int)
    requires
        0 <= start <= ci < colls.len(),
        first_layout_with(colls[ci].type2layout@, vid, 0) is Some,
    ensures
        first_collection_with(colls, vid, start) is Some,
    decreases ci - start,
{
    if start < ci && first_layout_with(colls[start].type2layout@, vid, 0) is None {
        lemma_collection_with_found(colls, vid, start + 1, ci);
    }
}

/// Law: a volume that a layout of a collection places on some node is found when it is
/// looked up in that collection (or, for the empty name, in any collection).
pub proof fn law_placed_volume_is_found(colls: Seq<Collection>, coll: Seq<char>, key: Seq<char>, vid: VolumeId, l: NodeLoc)
    requires
        colls_unique(colls),
        layout_has(colls, coll, key, vid, l),
    ensures
        lookup_locs(colls, coll, vid) is Some,
{
    let (ci, li) = choose|ci: int, li: int|
        #![trigger colls[ci].type2layout@[li]]
        0 <= ci < colls.len() && 0 <= li < colls[ci].type2layout@.len() && colls[ci].name@ == coll
            && colls[ci].type2layout@[li].0@ == key && colls[ci].type2layout@[li].1.vid2location@.contains_key(vid)
            && colls[ci].type2layout@[li].1.vid2location@[vid]@.contains(l);
    lemma_layout_with_found(colls[ci].type2layout@, vid, 0, li);
    if coll.len() == 0 {
        lemma_collection_with_found(colls, vid, 0, ci);
    } else {
        lemma_find_collection(colls, coll);
        let c = find_collection(colls, coll)->0;
        if c != ci {
            if c < ci {
                assert(colls[c].name@ != colls[ci].name@);
            } else {
                assert(colls[ci].name@ != colls[c].name@);
            }
        }
    }
}

/// The collection found by name is one, with that name.
pub proof fn lemma_find_collection(colls: Seq<Collection>, name: Seq<char>)
    ensures
        find_collection(colls, name) matches Some(c) ==> 0 <= c < colls.len() && colls[c].name@ == name,
        find_collection(colls, name) is None ==> forall|i: int| 0 <= i < colls.len() ==> (#[trigger] colls[i]).name@ != name,
{
    if exists|i: int| 0 <= i < colls.len() && (#[trigger] colls[i]).name@ == name {
        let i = choose|i: int| 0 <= i < colls.len() && (#[trigger] colls[i]).name@ == name;
        let c = find_collection(colls, name)->0;
        assert(0 <= c < colls.len() && colls[c].name@ == name) by {
            // a first index exists below any index with the name
            lemma_first_with_name(colls, name, i);
        }
    }
}

proof fn lemma_first_with_name(colls: Seq<Collection>, name: Seq<char>, i: int)
    requires
        0 <= i < colls.len(),
        colls[i].name@ == name,
    ensures
        exists|k: int| 0 <= k < colls.len() && (#[trigger] colls[k]).name@ == name && forall|j: int|
            0 <= j < k ==> (#[trigger] colls[j]).name@ != name,
    decreases i,
{
    if exists|j: int| 0 <= j < i && (#[trigger] colls[j]).name@ == name {
        let j = choose|j: int| 0 <= j < i && (#[trigger] colls[j]).name@ == name;
        lemma_first_with_name(colls, name, j);
    } else {
        assert(forall|j: int| 0 <= j < i ==> (#[trigger] colls[j]).name@ != name);
    }
}

} // verus!
