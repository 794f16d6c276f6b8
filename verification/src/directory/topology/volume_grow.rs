//! Growing volumes: picking empty slots on nodes for new volumes and setting them up.
use vstd::prelude::*;
use crate::directory::errors::Error;
use crate::directory::topology::chance::{random_u32, shuffle};
use crate::directory::topology::data_center::{DataCenter, racks_free, loc_ok, node_at};
use crate::directory::topology::node::{DataNode, NodeLoc, node_free, max_vid};
use crate::directory::topology::rack::{Rack, wsum, nodes_free, lemma_reserve_pick, reserve_pick};
use crate::directory::topology::topology::{Topology, layout_has, dcs_grew, lemma_loc_grew, lemma_dcs_grew_trans, keys_kept, addrs_kept, max_dc_vid, maxima_ok, all_addrs_distinct, lemma_addrs_distinct_kept};
use crate::directory::topology::collection::layout_key;
use crate::directory::topology::volume_layout::{same_addr, copy_count};
use crate::storage::volume_info::VolumeInfo;
use crate::storage::version::CURRENT_VERSION;
use crate::storage::VolumeId;
use crate::storage::replica_placement::ReplicaPlacement;
use crate::storage::ttl::{TTL, Unit};
use vstd::string::*;

verus! {

/// What a new volume, or a write, asks of its place: the collection, replication and
/// ttl of the volume, how much to preallocate, and (when not empty) the data center,
/// rack and node it must be on.
#[derive(Debug)]
pub struct VolumeGrowOption {
    pub collection: String,
    pub replica_placement: ReplicaPlacement,
    pub ttl: TTL,
    pub preallocate: i64,
    pub data_center: String,
    pub rack: String,
    pub data_node: String,
}

impl Default for VolumeGrowOption {
    fn default() -> (r: VolumeGrowOption)
        ensures
            r.collection@.len() == 0,
            r.replica_placement == (ReplicaPlacement { same_rack_count: 0, diff_rack_count: 0, diff_data_center_count: 0 }),
            r.ttl == (TTL { count: 0, unit: Unit::Empty }),
            r.preallocate == 0,
            r.data_center@.len() == 0,
            r.rack@.len() == 0,
            r.data_node@.len() == 0,
    {
        VolumeGrowOption {
            collection: String::new(),
            replica_placement: ReplicaPlacement::default(),
            ttl: TTL::default(),
            preallocate: 0,
            data_center: String::new(),
            rack: String::new(),
            data_node: String::new(),
        }
    }
}

/// `n` as a u8 counter that wraps at 256 would hold it.
pub open spec fn u8_wrap(n: int) -> u8 {
    (n % 256) as u8
}

/// How many nodes of `nodes` can take a volume (free room at least one).
pub open spec fn count_free_nodes(nodes: Seq<DataNode>) -> nat
    decreases nodes.len(),
{
    if nodes.len() == 0 {
        0
    } else {
        count_free_nodes(nodes.drop_last()) + if node_free(nodes.last()) >= 1 {
            1nat
        } else {
            0nat
        }
    }
}

/// A rack can hold the copies that placement `rp` puts in one rack: enough of its
/// nodes have room (counted as a u8, as the comparison does).
pub open spec fn rack_possible(rack: Rack, rp: ReplicaPlacement) -> bool {
    u8_wrap(count_free_nodes(rack.nodes@) as int) >= u8_wrap(rp.same_rack_count + 1)
}

/// How many racks of `racks` are possible for placement `rp`.
pub open spec fn count_possible_racks(racks: Seq<Rack>, rp: ReplicaPlacement) -> nat
    decreases racks.len(),
{
    if racks.len() == 0 {
        0
    } else {
        count_possible_racks(racks.drop_last(), rp) + if rack_possible(racks.last(), rp) {
            1nat
        } else {
            0nat
        }
    }
}

/// Data center `dc` can be the main one for a new volume under option `o`: it is the
/// one asked for (if any), has enough racks, enough room, and enough possible racks.
pub open spec fn main_dc_ok(dc: DataCenter, o: &VolumeGrowOption) -> bool {
    let rp = o.replica_placement;
    &&& o.data_center@.len() == 0 || dc.id@ == o.data_center@
    &&& dc.racks@.len() >= rp.diff_rack_count + 1
    &&& wsum(racks_free(dc.racks@)) >= rp.diff_rack_count + rp.same_rack_count + 1
    &&& u8_wrap(count_possible_racks(dc.racks@, rp) as int) >= u8_wrap(rp.diff_rack_count + 1)
}

/// Rack `rack` can be the main one in its data center for a new volume under `o`: it is
/// the one asked for (if any), and has enough room, nodes, and nodes with room.
pub open spec fn main_rack_ok(rack: Rack, o: &VolumeGrowOption) -> bool {
    let rp = o.replica_placement;
    &&& o.rack@.len() == 0 || o.rack@ == rack.id@
    &&& wsum(nodes_free(rack.nodes@)) >= rp.same_rack_count + 1
    &&& rack.nodes@.len() >= rp.same_rack_count + 1
    &&& count_free_nodes(rack.nodes@) >= rp.same_rack_count + 1
}

/// Node `n` can be the main one for a new volume under `o`: it is the one asked for (if
/// any) and has room.
pub open spec fn main_node_ok(n: DataNode, o: &VolumeGrowOption) -> bool {
    (o.data_node@.len() == 0 || o.data_node@ == n.id@) && node_free(n) >= 1
}

/// The `k`-th candidate met (counting from 1) replaces the pick when `k` divides its
/// draw `d`, as `d % k == 0` does.
pub open spec fn takes_turn_u32(d: u32, k: int) -> bool {
    (d as int) % k == 0
}

/// The index picked from the candidates `c` with one draw each: the last that took its
/// turn (none when there are no candidates).
pub open spec fn reservoir_idx(c: Seq<usize>, draws: Seq<u32>) -> Option<usize>
    decreases c.len(),
{
    if c.len() == 0 {
        None
    } else if takes_turn_u32(draws[c.len() - 1], c.len() as int) {
        Some(c.last())
    } else {
        reservoir_idx(c.drop_last(), draws)
    }
}

/// The pick is one of the candidates, and there is one whenever there are candidates.
pub proof fn lemma_reservoir_idx(c: Seq<usize>, draws: Seq<u32>)
    ensures
        reservoir_idx(c, draws) matches Some(v) ==> c.contains(v),
        c.len() > 0 ==> reservoir_idx(c, draws) is Some,
    decreases c.len(),
{
    if c.len() > 0 {
        if !takes_turn_u32(draws[c.len() - 1], c.len() as int) {
            lemma_reservoir_idx(c.drop_last(), draws);
            match reservoir_idx(c, draws) {
                Some(v) => {
                    let i = choose|i: int| 0 <= i < c.drop_last().len() && c.drop_last()[i] == v;
                    assert(c[i] == v);
                },
                None => {},
            }
            if c.len() == 1 {
                assert(takes_turn_u32(draws[0], 1));
            }
        } else {
            assert(c[c.len() - 1] == c.last());
        }
    }
}

/// Goes through the candidates `c` with one draw each and keeps the last that took its
/// turn: see [`reservoir_idx`].
pub fn pick_index(c: &Vec<usize>, draws: &Vec<u32>) -> (r: Option<usize>)
    requires
        draws@.len() == c@.len(),
    ensures
        r == reservoir_idx(c@, draws@),
{
    let mut pick: Option<usize> = None;
    let mut k: usize = 0;
    while k < c.len()
        invariant
            k <= c@.len(),
            draws@.len() == c@.len(),
            pick == reservoir_idx(c@.take(k as int), draws@),
        decreases c@.len() - k,
    {
        proof {
            assert(c@.take(k + 1).drop_last() =~= c@.take(k as int));
        }
        if (draws[k] as u64) % ((k as u64) + 1) == 0 {
            pick = Some(c[k]);
        }
        k = k + 1;
    }
    assert(c@.take(k as int) =~= c@);
    pick
}

/// Picks at random one of the candidates `c`, each draw made as the candidates are met.
fn pick_index_at_random(c: &Vec<usize>) -> (r: Option<usize>)
    ensures
        r matches Some(v) ==> c@.contains(v),
        c@.len() > 0 <==> r is Some,
{
    let mut draws: Vec<u32> = Vec::new();
    let mut k: usize = 0;
    while k < c.len()
        invariant
            k <= c@.len(),
            draws@.len() == k,
        decreases c@.len() - k,
    {
        draws.push(random_u32());
        k = k + 1;
    }
    proof {
        lemma_reservoir_idx(c@, draws@);
    }
    pick_index(c, &draws)
}

/// Shuffles `v` at random and keeps its first `k` items.
fn shuffle_and_take(v: &mut Vec<usize>, k: usize)
    requires
        old(v)@.no_duplicates(),
        k <= old(v)@.len(),
    ensures
        final(v)@.len() == k,
        final(v)@.no_duplicates(),
        forall|x: usize| final(v)@.contains(x) ==> old(v)@.contains(x),
{
    let ghost v0 = v@;
    shuffle(v);
    proof {
        broadcast use vstd::seq_lib::to_multiset_contains;
        v0.lemma_multiset_has_no_duplicates();
        assert forall|x: usize| v@.to_multiset().contains(x) implies v@.to_multiset().count(x) == 1 by {}
        v@.lemma_multiset_has_no_duplicates_conv();
        assert forall|x: usize| v@.contains(x) implies v0.contains(x) by {
            assert(v@.to_multiset().count(x) > 0);
        }
    }
    let ghost v1 = v@;
    v.truncate(k);
    proof {
        assert forall|x: usize| v@.contains(x) implies v0.contains(x) by {
            let i = choose|i: int| 0 <= i < v@.len() && v@[i] == x;
            assert(v1[i] == x);
        }
        assert forall|a: int, b: int| 0 <= a < v@.len() && 0 <= b < v@.len() && a != b implies v@[a] != v@[b] by {
            assert(v@[a] == v1[a] && v@[b] == v1[b]);
        }
    }
}

/// How many nodes of `nodes` have room.
fn count_free_nodes_exec(nodes: &Vec<DataNode>) -> (r: u64)
    ensures
        r == count_free_nodes(nodes@),
{
    let mut c: u64 = 0;
    let mut i: usize = 0;
    while i < nodes.len()
        invariant
            i <= nodes@.len(),
            c == count_free_nodes(nodes@.take(i as int)),
            c <= i,
        decreases nodes@.len() - i,
    {
        assert(nodes@.take(i + 1).drop_last() =~= nodes@.take(i as int));
        if nodes[i].free_volumes() >= 1 {
            c = c + 1;
        }
        i = i + 1;
    }
    assert(nodes@.take(i as int) =~= nodes@);
    c
}

/// `x + 1` as a u8 that wraps.
proof fn lemma_u8_wrap_add_one(x: u8)
    ensures
        vstd::wrapping::u8_specs::wrapping_add(x, 1) == u8_wrap(x + 1),
{
}

/// Whether rack `rack` is possible for placement `rp`.
fn rack_possible_exec(rack: &Rack, rp: ReplicaPlacement) -> (r: bool)
    ensures
        r == rack_possible(*rack, rp),
{
    let c = count_free_nodes_exec(&rack.nodes);
    proof {
        lemma_u8_wrap_add_one(rp.same_rack_count);
    }
    ((c % 256) as u8) >= rp.same_rack_count.wrapping_add(1)
}

/// Whether data center `dc` can be the main one under option `o`.
fn main_dc_ok_exec(dc: &DataCenter, o: &VolumeGrowOption) -> (r: bool)
    ensures
        r == main_dc_ok(*dc, o),
{
    let rp = o.replica_placement;
    if o.data_center.unicode_len() != 0 && dc.id != o.data_center {
        return false;
    }
    if dc.racks.len() < rp.diff_rack_count as usize + 1 {
        return false;
    }
    if dc.free_volumes() < rp.diff_rack_count as i64 + rp.same_rack_count as i64 + 1 {
        return false;
    }
    let mut possible: u64 = 0;
    let mut i: usize = 0;
    while i < dc.racks.len()
        invariant
            i <= dc.racks@.len(),
            possible == count_possible_racks(dc.racks@.take(i as int), rp),
            possible <= i,
        decreases dc.racks@.len() - i,
    {
        assert(dc.racks@.take(i + 1).drop_last() =~= dc.racks@.take(i as int));
        if rack_possible_exec(&dc.racks[i], rp) {
            possible = possible + 1;
        }
        i = i + 1;
    }
    assert(dc.racks@.take(i as int) =~= dc.racks@);
    proof {
        lemma_u8_wrap_add_one(rp.diff_rack_count);
    }
    ((possible % 256) as u8) >= rp.diff_rack_count.wrapping_add(1)
}

/// Whether rack `rack` can be the main one under option `o`.
fn main_rack_ok_exec(rack: &Rack, o: &VolumeGrowOption) -> (r: bool)
    ensures
        r == main_rack_ok(*rack, o),
{
    let rp = o.replica_placement;
    if o.rack.unicode_len() != 0 && o.rack != rack.id {
        return false;
    }
    if rack.free_volumes() < rp.same_rack_count as i64 + 1 {
        return false;
    }
    if rack.nodes.len() < rp.same_rack_count as usize + 1 {
        return false;
    }
    let c = count_free_nodes_exec(&rack.nodes);
    c >= rp.same_rack_count as u64 + 1
}

/// Whether node `n` can be the main one under option `o`.
fn main_node_ok_exec(n: &DataNode, o: &VolumeGrowOption) -> (r: bool)
    ensures
        r == main_node_ok(*n, o),
{
    if o.data_node.unicode_len() != 0 && o.data_node != n.id {
        return false;
    }
    n.free_volumes() >= 1
}

/// The indices of the data centers that can be the main one under `o`, in order.
fn main_dc_candidates(dcs: &Vec<DataCenter>, o: &VolumeGrowOption) -> (r: Vec<usize>)
    ensures
        r@.no_duplicates(),
        forall|i: int| 0 <= i < r@.len() ==> r@[i] < dcs@.len() && main_dc_ok(dcs@[r@[i] as int], o),
        forall|d: int| 0 <= d < dcs@.len() && main_dc_ok(#[trigger] dcs@[d], o) ==> r@.contains(d as usize),
{
    let mut r: Vec<usize> = Vec::new();
    let mut i: usize = 0;
    while i < dcs.len()
        invariant
            i <= dcs@.len(),
            r@.no_duplicates(),
            forall|k: int| 0 <= k < r@.len() ==> r@[k] < i && main_dc_ok(dcs@[r@[k] as int], o),
            forall|d: int| 0 <= d < i && main_dc_ok(#[trigger] dcs@[d], o) ==> r@.contains(d as usize),
        decreases dcs@.len() - i,
    {
        if main_dc_ok_exec(&dcs[i], o) {
            let ghost r0 = r@;
            r.push(i);
            assert forall|d: int| 0 <= d < i + 1 && main_dc_ok(#[trigger] dcs@[d], o) implies r@.contains(d as usize) by {
                if d < i {
                    let k = choose|k: int| 0 <= k < r0.len() && r0[k] == d as usize;
                    assert(r@[k] == d as usize);
                } else {
                    assert(r@[r0.len() as int] == i);
                }
            }
        }
        i = i + 1;
    }
    r
}

/// The indices of the racks of `dc` that can be the main one under `o`, in order.
fn main_rack_candidates(dc: &DataCenter, o: &VolumeGrowOption) -> (r: Vec<usize>)
    ensures
        forall|i: int| 0 <= i < r@.len() ==> r@[i] < dc.racks@.len() && main_rack_ok(dc.racks@[r@[i] as int], o),
        forall|a: int, b: int| 0 <= a < b < r@.len() ==> r@[a] < r@[b],
        forall|j: int| #![trigger dc.racks@[j]] 0 <= j < dc.racks@.len() && main_rack_ok(dc.racks@[j], o) ==> r@.contains(j as usize),
{
    let mut r: Vec<usize> = Vec::new();
    let mut i: usize = 0;
    while i < dc.racks.len()
        invariant
            i <= dc.racks@.len(),
            forall|k: int| 0 <= k < r@.len() ==> r@[k] < i && main_rack_ok(dc.racks@[r@[k] as int], o),
            forall|a: int, b: int| 0 <= a < b < r@.len() ==> r@[a] < r@[b],
            forall|j: int| #![trigger dc.racks@[j]] 0 <= j < i && main_rack_ok(dc.racks@[j], o) ==> r@.contains(j as usize),
        decreases dc.racks@.len() - i,
    {
        if main_rack_ok_exec(&dc.racks[i], o) {
            let ghost r0 = r@;
            r.push(i);
            assert(r@.contains(i as usize)) by {
                assert(r@[r@.len() - 1] == i);
            }
            assert forall|x: usize| r0.contains(x) implies r@.contains(x) by {
                let q = choose|q: int| 0 <= q < r0.len() && r0[q] == x;
                assert(r@[q] == x);
            }
        }
        i = i + 1;
    }
    r
}

/// The indices of the nodes of `rack` that can be the main one under `o`, in order.
fn main_node_candidates(rack: &Rack, o: &VolumeGrowOption) -> (r: Vec<usize>)
    ensures
        forall|i: int| 0 <= i < r@.len() ==> r@[i] < rack.nodes@.len() && main_node_ok(rack.nodes@[r@[i] as int], o),
        forall|a: int, b: int| 0 <= a < b < r@.len() ==> r@[a] < r@[b],
        forall|j: int| #![trigger rack.nodes@[j]] 0 <= j < rack.nodes@.len() && main_node_ok(rack.nodes@[j], o) ==> r@.contains(j as usize),
{
    let mut r: Vec<usize> = Vec::new();
    let mut i: usize = 0;
    while i < rack.nodes.len()
        invariant
            i <= rack.nodes@.len(),
            forall|k: int| 0 <= k < r@.len() ==> r@[k] < i && main_node_ok(rack.nodes@[r@[k] as int], o),
            forall|a: int, b: int| 0 <= a < b < r@.len() ==> r@[a] < r@[b],
            forall|j: int| #![trigger rack.nodes@[j]] 0 <= j < i && main_node_ok(rack.nodes@[j], o) ==> r@.contains(j as usize),
        decreases rack.nodes@.len() - i,
    {
        if main_node_ok_exec(&rack.nodes[i], o) {
            let ghost r0 = r@;
            r.push(i);
            assert(r@.contains(i as usize)) by {
                assert(r@[r@.len() - 1] == i);
            }
            assert forall|x: usize| r0.contains(x) implies r@.contains(x) by {
                let q = choose|q: int| 0 <= q < r0.len() && r0[q] == x;
                assert(r@[q] == x);
            }
        }
        i = i + 1;
    }
    r
}

/// How many of the first `n` data centers of `dcs` have an id other than `id` and room.
pub open spec fn count_other_dcs(dcs: Seq<DataCenter>, id: Seq<char>, n: int) -> nat
    decreases n,
{
    if n <= 0 {
        0
    } else {
        count_other_dcs(dcs, id, n - 1) + if dcs[n - 1].id@ != id && wsum(racks_free(dcs[n - 1].racks@)) >= 1 {
            1nat
        } else {
            0nat
        }
    }
}

/// How many of the first `n` nodes of `nodes` have an id other than `id` and room.
pub open spec fn count_other_nodes(nodes: Seq<DataNode>, id: Seq<char>, n: int) -> nat
    decreases n,
{
    if n <= 0 {
        0
    } else {
        count_other_nodes(nodes, id, n - 1) + if nodes[n - 1].id@ != id && node_free(nodes[n - 1]) >= 1 {
            1nat
        } else {
            0nat
        }
    }
}

/// The indices, in order, of the data centers other than the one with id `main_id`
/// that have room.
fn other_dcs(dcs: &Vec<DataCenter>, main_id: &String) -> (r: Vec<usize>)
    ensures
        r@.no_duplicates(),
        forall|i: int| 0 <= i < r@.len() ==> r@[i] < dcs@.len() && dcs@[r@[i] as int].id@ != main_id@
            && wsum(racks_free(dcs@[r@[i] as int].racks@)) >= 1,
        forall|a: int, b: int| 0 <= a < b < r@.len() ==> r@[a] < r@[b],
        forall|j: int| #![trigger dcs@[j]] 0 <= j < dcs@.len() && dcs@[j].id@ != main_id@ && wsum(racks_free(dcs@[j].racks@)) >= 1 ==> r@.contains(j as usize),
        r@.len() == count_other_dcs(dcs@, main_id@, dcs@.len() as int),
{
    let mut r: Vec<usize> = Vec::new();
    let mut i: usize = 0;
    while i < dcs.len()
        invariant
            i <= dcs@.len(),
            r@.no_duplicates(),
            forall|k: int| 0 <= k < r@.len() ==> r@[k] < i && dcs@[r@[k] as int].id@ != main_id@
                && wsum(racks_free(dcs@[r@[k] as int].racks@)) >= 1,
            forall|a: int, b: int| 0 <= a < b < r@.len() ==> r@[a] < r@[b],
            forall|j: int| #![trigger dcs@[j]] 0 <= j < i && dcs@[j].id@ != main_id@ && wsum(racks_free(dcs@[j].racks@)) >= 1 ==> r@.contains(j as usize),
            r@.len() == count_other_dcs(dcs@, main_id@, i as int),
        decreases dcs@.len() - i,
    {
        if dcs[i].id != *main_id && dcs[i].free_volumes() >= 1 {
            let ghost r0 = r@;
            r.push(i);
            assert(r@.contains(i as usize)) by {
                assert(r@[r@.len() - 1] == i);
            }
            assert forall|x: usize| r0.contains(x) implies r@.contains(x) by {
                let q = choose|q: int| 0 <= q < r0.len() && r0[q] == x;
                assert(r@[q] == x);
            }
        }
        i = i + 1;
    }
    r
}

/// The indices, in order, of the racks of `dc` other than the one with id `main_id`
/// that have room.
fn other_racks(dc: &DataCenter, main_id: &String) -> (r: Vec<usize>)
    ensures
        r@.no_duplicates(),
        forall|i: int| 0 <= i < r@.len() ==> r@[i] < dc.racks@.len() && dc.racks@[r@[i] as int].id@ != main_id@
            && wsum(nodes_free(dc.racks@[r@[i] as int].nodes@)) >= 1,
        forall|a: int, b: int| 0 <= a < b < r@.len() ==> r@[a] < r@[b],
        forall|j: int| #![trigger dc.racks@[j]] 0 <= j < dc.racks@.len() && dc.racks@[j].id@ != main_id@ && wsum(nodes_free(dc.racks@[j].nodes@)) >= 1 ==> r@.contains(j as usize),
{
    let mut r: Vec<usize> = Vec::new();
    let mut i: usize = 0;
    while i < dc.racks.len()
        invariant
            i <= dc.racks@.len(),
            r@.no_duplicates(),
            forall|k: int| 0 <= k < r@.len() ==> r@[k] < i && dc.racks@[r@[k] as int].id@ != main_id@
                && wsum(nodes_free(dc.racks@[r@[k] as int].nodes@)) >= 1,
            forall|a: int, b: int| 0 <= a < b < r@.len() ==> r@[a] < r@[b],
            forall|j: int| #![trigger dc.racks@[j]] 0 <= j < i && dc.racks@[j].id@ != main_id@ && wsum(nodes_free(dc.racks@[j].nodes@)) >= 1 ==> r@.contains(j as usize),
        decreases dc.racks@.len() - i,
    {
        if dc.racks[i].id != *main_id && dc.racks[i].free_volumes() >= 1 {
            let ghost r0 = r@;
            r.push(i);
            assert(r@.contains(i as usize)) by {
                assert(r@[r@.len() - 1] == i);
            }
            assert forall|x: usize| r0.contains(x) implies r@.contains(x) by {
                let q = choose|q: int| 0 <= q < r0.len() && r0[q] == x;
                assert(r@[q] == x);
            }
        }
        i = i + 1;
    }
    r
}

/// The indices, in order, of the nodes of `rack` other than the one with id `main_id`
/// that have room.
fn other_nodes(rack: &Rack, main_id: &String) -> (r: Vec<usize>)
    ensures
        r@.no_duplicates(),
        forall|i: int| 0 <= i < r@.len() ==> r@[i] < rack.nodes@.len() && rack.nodes@[r@[i] as int].id@ != main_id@
            && node_free(rack.nodes@[r@[i] as int]) >= 1,
        forall|a: int, b: int| 0 <= a < b < r@.len() ==> r@[a] < r@[b],
        forall|j: int| #![trigger rack.nodes@[j]] 0 <= j < rack.nodes@.len() && rack.nodes@[j].id@ != main_id@ && node_free(rack.nodes@[j]) >= 1 ==> r@.contains(j as usize),
        r@.len() == count_other_nodes(rack.nodes@, main_id@, rack.nodes@.len() as int),
{
    let mut r: Vec<usize> = Vec::new();
    let mut i: usize = 0;
    while i < rack.nodes.len()
        invariant
            i <= rack.nodes@.len(),
            r@.no_duplicates(),
            forall|k: int| 0 <= k < r@.len() ==> r@[k] < i && rack.nodes@[r@[k] as int].id@ != main_id@
                && node_free(rack.nodes@[r@[k] as int]) >= 1,
            forall|a: int, b: int| 0 <= a < b < r@.len() ==> r@[a] < r@[b],
            forall|j: int| #![trigger rack.nodes@[j]] 0 <= j < i && rack.nodes@[j].id@ != main_id@ && node_free(rack.nodes@[j]) >= 1 ==> r@.contains(j as usize),
            r@.len() == count_other_nodes(rack.nodes@, main_id@, i as int),
        decreases rack.nodes@.len() - i,
    {
        if rack.nodes[i].id != *main_id && rack.nodes[i].free_volumes() >= 1 {
            let ghost r0 = r@;
            r.push(i);
            assert(r@.contains(i as usize)) by {
                assert(r@[r@.len() - 1] == i);
            }
            assert forall|x: usize| r0.contains(x) implies r@.contains(x) by {
                let q = choose|q: int| 0 <= q < r0.len() && r0[q] == x;
                assert(r@[q] == x);
            }
        }
        i = i + 1;
    }
    r
}

/// The slots `v` suit a new volume under option `o` in the data centers `dcs`: one
/// main node (in a main data center and rack, see [`main_dc_ok`], [`main_rack_ok`],
/// [`main_node_ok`]), then as many other nodes of its rack as the placement puts in
/// one rack, then one node in each of as many other racks of its data center, then one
/// node in each of as many other data centers; the other nodes, racks and data centers
/// are different from the main one and from each other; the main node and the other
/// nodes of its rack have room, and the nodes picked in other racks and data centers
/// have a free room other than 0 (they were drawn in proportion to it).
pub open spec fn slots_ok(dcs: Seq<DataCenter>, o: &VolumeGrowOption, v: Seq<NodeLoc>) -> bool {
    let rp = o.replica_placement;
    let s = rp.same_rack_count as int;
    let dr = rp.diff_rack_count as int;
    let dd = rp.diff_data_center_count as int;
    let m = v[0];
    &&& v.len() == 1 + s + dr + dd
    &&& forall|k: int| 0 <= k < v.len() ==> loc_ok(dcs, #[trigger] v[k])
    &&& main_dc_ok(dcs[m.dc as int], o)
    &&& main_rack_ok(dcs[m.dc as int].racks@[m.rack as int], o)
    &&& main_node_ok(node_at(dcs, m), o)
    &&& forall|k: int| 1 <= k <= s ==> (#[trigger] v[k]).dc == m.dc && v[k].rack == m.rack && node_at(dcs, v[k]).id@
        != node_at(dcs, m).id@ && node_free(node_at(dcs, v[k])) >= 1
    &&& forall|a: int, b: int| 1 <= a < b <= s ==> (#[trigger] v[a]).node != (#[trigger] v[b]).node
    &&& forall|k: int| 1 + s <= k < 1 + s + dr ==> (#[trigger] v[k]).dc == m.dc && dcs[m.dc as int].racks@[v[k].rack as int].id@
        != dcs[m.dc as int].racks@[m.rack as int].id@
    &&& forall|a: int, b: int| 1 + s <= a < b < 1 + s + dr ==> (#[trigger] v[a]).rack != (#[trigger] v[b]).rack
    &&& forall|k: int| 1 + s + dr <= k < v.len() ==> dcs[(#[trigger] v[k]).dc as int].id@ != dcs[m.dc as int].id@
    &&& forall|a: int, b: int| 1 + s + dr <= a < b < v.len() ==> (#[trigger] v[a]).dc != (#[trigger] v[b]).dc
    &&& forall|k: int| 1 + s <= k < v.len() ==> node_free(node_at(dcs, #[trigger] v[k])) != 0
}

/// The slots of [`slots_ok`] are different places.
pub proof fn lemma_slots_distinct(dcs: Seq<DataCenter>, o: &VolumeGrowOption, v: Seq<NodeLoc>)
    requires
        slots_ok(dcs, o, v),
    ensures
        v.no_duplicates(),
{
    let rp = o.replica_placement;
    let s = rp.same_rack_count as int;
    let dr = rp.diff_rack_count as int;
    let m = v[0];
    assert forall|a: int, b: int| 0 <= a < v.len() && 0 <= b < v.len() && a != b implies v[a] != v[b] by {
        let (x, y) = if a < b { (a, b) } else { (b, a) };
        assert(loc_ok(dcs, v[x]));
        assert(loc_ok(dcs, v[y]));
        if y <= s {
            if x == 0 {
                assert(node_at(dcs, v[y]).id@ != node_at(dcs, m).id@);
            } else {
                assert(v[x].node != v[y].node);
            }
        } else if y < 1 + s + dr {
            assert(v[y].dc == m.dc);
            assert(dcs[m.dc as int].racks@[v[y].rack as int].id@ != dcs[m.dc as int].racks@[m.rack as int].id@);
            if x > s {
                assert(v[x].rack != v[y].rack);
            } else if x > 0 {
                assert(v[x].rack == m.rack);
            }
        } else {
            assert(dcs[v[y].dc as int].id@ != dcs[m.dc as int].id@);
            if x >= 1 + s + dr {
                assert(v[x].dc != v[y].dc);
            } else if x > s {
                assert(v[x].dc == m.dc);
            } else if x > 0 {
                assert(v[x].dc == m.dc);
            }
        }
    }
}

/// No node of `dcs` holds more volumes than it may.
pub open spec fn no_negative_room(dcs: Seq<DataCenter>) -> bool {
    forall|l: NodeLoc| loc_ok(dcs, l) ==> node_free(#[trigger] node_at(dcs, l)) >= 0
}

/// The message when no data center can hold a new volume.
pub open spec fn no_main_dc_text() -> Seq<char> {
    "find main dc fail"@
}

/// Some data center of `dcs` can be the main one under `o`.
pub open spec fn has_main_dc(dcs: Seq<DataCenter>, o: &VolumeGrowOption) -> bool {
    exists|d: int| 0 <= d < dcs.len() && main_dc_ok(#[trigger] dcs[d], o)
}

/// The message when too few other data centers have room.
pub open spec fn no_enough_dcs_text() -> Seq<char> {
    "no enough data centers"@
}

/// Whatever main data center is drawn, fewer than `dd` other data centers have room.
pub open spec fn too_few_other_dcs(dcs: Seq<DataCenter>, o: &VolumeGrowOption) -> bool {
    forall|d: int| 0 <= d < dcs.len() && main_dc_ok(#[trigger] dcs[d], o) ==> count_other_dcs(dcs, dcs[d].id@, dcs.len() as int)
        < o.replica_placement.diff_data_center_count
}

/// Whatever main data center is drawn, at least `dd` other data centers have room.
pub open spec fn enough_other_dcs(dcs: Seq<DataCenter>, o: &VolumeGrowOption) -> bool {
    forall|d: int| 0 <= d < dcs.len() && main_dc_ok(#[trigger] dcs[d], o) ==> count_other_dcs(dcs, dcs[d].id@, dcs.len() as int)
        >= o.replica_placement.diff_data_center_count
}

/// The placement keeps every copy in one rack, some data center can be the main one, and
/// whatever is drawn, the main data center has a rack that can be the main one, that rack
/// a node that can be the main one, and that node enough other nodes with room beside
/// it: no draw can make the pick fail.
pub open spec fn local_choices_succeed(dcs: Seq<DataCenter>, o: &VolumeGrowOption) -> bool {
    let rp = o.replica_placement;
    &&& rp.diff_rack_count == 0
    &&& rp.diff_data_center_count == 0
    &&& has_main_dc(dcs, o)
    &&& forall|d: int| 0 <= d < dcs.len() && main_dc_ok(#[trigger] dcs[d], o) ==> {
        &&& exists|r: int| 0 <= r < dcs[d].racks@.len() && main_rack_ok(#[trigger] dcs[d].racks@[r], o)
        &&& forall|r: int| 0 <= r < dcs[d].racks@.len() && main_rack_ok(#[trigger] dcs[d].racks@[r], o) ==> {
            let nodes = dcs[d].racks@[r].nodes@;
            &&& exists|n: int| 0 <= n < nodes.len() && main_node_ok(#[trigger] nodes[n], o)
            &&& forall|n: int| 0 <= n < nodes.len() && main_node_ok(#[trigger] nodes[n], o) ==> count_other_nodes(
                nodes,
                nodes[n].id@,
                nodes.len() as int,
            ) >= rp.same_rack_count
        }
    }
}

/// A failure `e` to place a volume under `o` is borne out by the data centers `dcs`: it
/// says no room is left, some draw could make the pick fail, and its message tells no
/// main data center apart from too few other data centers as `dcs` do.
pub open spec fn placement_failure_ok(dcs: Seq<DataCenter>, o: &VolumeGrowOption, e: Error) -> bool {
    &&& e is NoFreeSpace
    &&& !local_choices_succeed(dcs, o)
    &&& !has_main_dc(dcs, o) <==> (e matches Error::NoFreeSpace(m) && m@ == no_main_dc_text())
    &&& enough_other_dcs(dcs, o) ==> !(e matches Error::NoFreeSpace(m) && m@ == no_enough_dcs_text())
}

/// The failures of reserving a volume in a rack or a data center are told apart from
/// the failure to find a main data center by their text.
proof fn lemma_reserve_texts_differ(id: Seq<char>)
    ensures
        crate::directory::topology::rack::rack_reserve_fail_text(id) != no_main_dc_text(),
        crate::directory::topology::data_center::dc_reserve_fail_text(id) != no_main_dc_text(),
        crate::directory::topology::rack::rack_reserve_fail_text(id) != no_enough_dcs_text(),
        crate::directory::topology::data_center::dc_reserve_fail_text(id) != no_enough_dcs_text(),
{
    reveal_strlit("reserve_one_volume on rack ");
    reveal_strlit("reserve_one_volume on dc ");
    reveal_strlit("find main dc fail");
    let a = crate::directory::topology::rack::rack_reserve_fail_text(id);
    let b = crate::directory::topology::data_center::dc_reserve_fail_text(id);
    assert(a[0] == 'r');
    assert(b[0] == 'r');
    assert(no_main_dc_text()[0] == 'f');
    reveal_strlit("no enough data centers");
    assert(no_enough_dcs_text()[0] == 'n');
}

/// Grows volumes: picks nodes for new volumes and sets the volumes up on them.
#[derive(Debug)]
pub struct VolumeGrow {}

impl VolumeGrow {
    /// A volume grower.
    pub fn new() -> (r: VolumeGrow) {
        VolumeGrow {}
    }

    /// Picks at random the slots for a new volume under `option`: see [`slots_ok`]; where
    /// no node holds more volumes than it may, every slot has room. Fails with
    /// `NoFreeSpace` when no data center, rack or node can be the main one, or when there
    /// are too few others: with `find main dc fail` exactly when no data center can be the
    /// main one, and with `no enough data centers` when, whatever main data center is drawn,
    /// too few others have room. Succeeds where no draw can make it fail (see
    /// [`local_choices_succeed`]).
    pub fn find_empty_slots(&self, option: &VolumeGrowOption, topo: &Topology) -> (r: Result<Vec<NodeLoc>, Error>)
        ensures
            !has_main_dc(topo.data_centers@, option) ==> (r matches Err(Error::NoFreeSpace(m)) && m@ == no_main_dc_text()),
            r matches Ok(v) ==> slots_ok(topo.data_centers@, option, v@),
            no_negative_room(topo.data_centers@) ==> (r matches Ok(v) ==> forall|k: int| 0 <= k < v@.len() ==> node_free(
                node_at(topo.data_centers@, #[trigger] v@[k]),
            ) >= 1),
            r matches Err(e) ==> e is NoFreeSpace,
            has_main_dc(topo.data_centers@, option) ==> !(r matches Err(Error::NoFreeSpace(m)) && m@ == no_main_dc_text()),
            has_main_dc(topo.data_centers@, option) && option.replica_placement.diff_data_center_count > 0 && too_few_other_dcs(
                topo.data_centers@,
                option,
            ) ==> (r matches Err(Error::NoFreeSpace(m)) && m@ == no_enough_dcs_text()),
            enough_other_dcs(topo.data_centers@, option) ==> !(r matches Err(Error::NoFreeSpace(m)) && m@ == no_enough_dcs_text()),
            local_choices_succeed(topo.data_centers@, option) ==> r is Ok,
            r matches Err(e) ==> placement_failure_ok(topo.data_centers@, option, e),
    {
        let dcs = &topo.data_centers;
        let rp = option.replica_placement;
        let same = rp.same_rack_count as usize;
        let dr = rp.diff_rack_count as usize;
        let dd = rp.diff_data_center_count as usize;
        proof {
            reveal_strlit("find main dc fail");
            reveal_strlit("no enough data centers");
            reveal_strlit("find main rack fail");
            reveal_strlit("no enough racks");
            reveal_strlit("find main node fail");
            reveal_strlit("no enough  nodes");
            assert("find main dc fail"@.len() == 17);
            assert("no enough data centers"@.len() == 22);
            assert("find main rack fail"@.len() == 19);
            assert("no enough racks"@.len() == 15);
            assert("find main node fail"@.len() == 19);
            assert("no enough  nodes"@.len() == 16);
        }
        // the main data center
        let dc_cands = main_dc_candidates(dcs, option);
        let md = match pick_index_at_random(&dc_cands) {
            Some(d) => d,
            None => {
                proof {
                    if has_main_dc(dcs@, option) {
                        let d = choose|d: int| 0 <= d < dcs@.len() && main_dc_ok(#[trigger] dcs@[d], option);
                        assert(dc_cands@.contains(d as usize));
                    }
                }
                return Err(Error::NoFreeSpace(String::from_str("find main dc fail")));
            },
        };
        assert(md < dcs@.len() && main_dc_ok(dcs@[md as int], option));
        let mut other_centers: Vec<usize> = Vec::new();
        if dd > 0 {
            other_centers = other_dcs(dcs, &dcs[md].id);
        }
        if other_centers.len() < dd {
            proof {
                assert(main_dc_ok(dcs@[md as int], option));
                assert(other_centers@.len() == count_other_dcs(dcs@, dcs@[md as int].id@, dcs@.len() as int));
                assert("no enough data centers"@.len() != no_main_dc_text().len());
            }
            return Err(Error::NoFreeSpace(String::from_str("no enough data centers")));
        }
        let ghost oc0 = other_centers@;
        shuffle_and_take(&mut other_centers, dd);
        // the main rack
        let dc = &dcs[md];
        let rack_cands = main_rack_candidates(dc, option);
        let mr = match pick_index_at_random(&rack_cands) {
            Some(r) => r,
            None => {
                proof {
                    assert("find main rack fail"@.len() != no_main_dc_text().len());
                    if local_choices_succeed(dcs@, option) {
                        assert(main_dc_ok(dcs@[md as int], option));
                        let r = choose|r: int| 0 <= r < dcs@[md as int].racks@.len() && main_rack_ok(#[trigger] dcs@[md as int].racks@[r], option);
                        assert(dc.racks@[r] == dcs@[md as int].racks@[r]);
                        assert(rack_cands@.contains(r as usize));
                    }
                }
                return Err(Error::NoFreeSpace(String::from_str("find main rack fail")));
            },
        };
        let mut other_rs: Vec<usize> = Vec::new();
        if dr > 0 {
            other_rs = other_racks(dc, &dc.racks[mr].id);
        }
        if other_rs.len() < dr {
            return Err(Error::NoFreeSpace(String::from_str("no enough racks")));
        }
        let ghost or0 = other_rs@;
        shuffle_and_take(&mut other_rs, dr);
        // the main node
        let rack = &dc.racks[mr];
        let node_cands = main_node_candidates(rack, option);
        let mn = match pick_index_at_random(&node_cands) {
            Some(n) => n,
            None => {
                proof {
                    if local_choices_succeed(dcs@, option) {
                        assert(main_dc_ok(dcs@[md as int], option));
                        assert(main_rack_ok(dcs@[md as int].racks@[mr as int], option));
                        let n = choose|n: int| 0 <= n < rack.nodes@.len() && main_node_ok(#[trigger] rack.nodes@[n], option);
                        assert(node_cands@.contains(n as usize));
                    }
                }
                return Err(Error::NoFreeSpace(String::from_str("find main node fail")));
            },
        };
        let mut other_ns: Vec<usize> = Vec::new();
        if same > 0 {
            other_ns = other_nodes(rack, &rack.nodes[mn].id);
        }
        if other_ns.len() < same {
            proof {
                if local_choices_succeed(dcs@, option) {
                    assert(main_dc_ok(dcs@[md as int], option));
                    assert(main_rack_ok(dcs@[md as int].racks@[mr as int], option));
                    assert(main_node_ok(rack.nodes@[mn as int], option));
                }
            }
            return Err(Error::NoFreeSpace(String::from_str("no enough  nodes")));
        }
        let ghost on0 = other_ns@;
        shuffle_and_take(&mut other_ns, same);
        let main = NodeLoc { dc: md, rack: mr, node: mn };
        let mut ret: Vec<NodeLoc> = Vec::new();
        ret.push(main);
        let mut i: usize = 0;
        while i < other_ns.len()
            invariant
                i <= other_ns@.len(),
                other_ns@.len() == same,
                same == option.replica_placement.same_rack_count,
                md < dcs@.len(),
                mr < dcs@[md as int].racks@.len(),
                *rack == dcs@[md as int].racks@[mr as int],
                other_ns@.no_duplicates(),
                forall|k: int| 0 <= k < other_ns@.len() ==> on0.contains(#[trigger] other_ns@[k]),
                forall|k: int| 0 <= k < on0.len() ==> on0[k] < rack.nodes@.len() && rack.nodes@[on0[k] as int].id@
                    != rack.nodes@[mn as int].id@ && node_free(rack.nodes@[on0[k] as int]) >= 1,
                ret@.len() == 1 + i,
                ret@[0] == main,
                forall|k: int| 1 <= k < ret@.len() ==> (#[trigger] ret@[k]) == (NodeLoc { dc: md, rack: mr, node: other_ns@[k - 1] }),
            decreases other_ns@.len() - i,
        {
            ret.push(NodeLoc { dc: md, rack: mr, node: other_ns[i] });
            i = i + 1;
        }
        let ghost ret1 = ret@;
        assert(dc_cands@.contains(md));
        assert(has_main_dc(dcs@, option)) by {
            assert(main_dc_ok(dcs@[md as int], option));
        }
        assert(!(option.replica_placement.diff_data_center_count > 0 && too_few_other_dcs(dcs@, option))) by {
            assert(main_dc_ok(dcs@[md as int], option));
        }
        let mut j: usize = 0;
        while j < other_rs.len()
            invariant
                has_main_dc(topo.data_centers@, option),
                !(option.replica_placement.diff_data_center_count > 0 && too_few_other_dcs(dcs@, option)),
                dcs == &topo.data_centers,
                ret@.take(ret1.len() as int) == ret1,
                ret1.len() == 1 + same,
                j <= other_rs@.len(),
                other_rs@.len() == dr,
                dr == option.replica_placement.diff_rack_count,
                md < dcs@.len(),
                *dc == dcs@[md as int],
                mr < dc.racks@.len(),
                other_rs@.no_duplicates(),
                forall|k: int| 0 <= k < other_rs@.len() ==> or0.contains(#[trigger] other_rs@[k]),
                forall|k: int| 0 <= k < or0.len() ==> or0[k] < dc.racks@.len() && dc.racks@[or0[k] as int].id@
                    != dc.racks@[mr as int].id@ && wsum(nodes_free(dc.racks@[or0[k] as int].nodes@)) >= 1,
                ret@.len() == 1 + same + j,
                forall|k: int| 1 + same <= k < ret@.len() ==> (#[trigger] ret@[k]).dc == md && ret@[k].rack == other_rs@[k - 1 - same]
                    && loc_ok(dcs@, ret@[k]) && node_free(node_at(dcs@, ret@[k])) != 0,
            decreases other_rs@.len() - j,
        {
            let rr = other_rs[j];
            assert(or0.contains(rr));
            let n = dc.racks[rr].reserve_one_volume();
            match n {
                Ok(nn) => {
                    proof {
                        let draw = choose|draw: u32| #[trigger] dc.racks@[rr as int].reserved_with(draw, n);
                        let q = choose|q: int| 0 <= q < or0.len() && or0[q] == rr;
                        assert(wsum(nodes_free(dc.racks@[or0[q] as int].nodes@)) >= 1);
                        let vals = nodes_free(dc.racks@[rr as int].nodes@);
                        lemma_reserve_pick(vals, draw);
                        let k = reserve_pick(vals, draw)->0;
                        assert(reserve_pick(vals, draw) is Some);
                        assert(k as usize == nn);
                        assert(vals[k] != 0);
                        assert(vals.len() == dc.racks@[rr as int].nodes.len());
                        assert(k == nn as int);
                        assert(vals[nn as int] == node_free(dc.racks@[rr as int].nodes@[nn as int]));
                        assert(node_at(dcs@, NodeLoc { dc: md, rack: rr, node: nn }) == dc.racks@[rr as int].nodes@[nn as int]);
                        assert(node_free(node_at(dcs@, NodeLoc { dc: md, rack: rr, node: nn })) != 0);
                    }
                    let ghost r0 = ret@;
                    ret.push(NodeLoc { dc: md, rack: rr, node: nn });
                    assert(ret@.take(ret1.len() as int) =~= r0.take(ret1.len() as int));
                    assert(forall|k: int| 0 <= k < r0.len() ==> ret@[k] == r0[k]);
                    assert(ret@[r0.len() as int] == NodeLoc { dc: md, rack: rr, node: nn });
                    assert(node_free(node_at(dcs@, ret@[r0.len() as int])) != 0);
                },
                Err(e) => {
                    proof {
                        let draw = choose|draw: u32| #[trigger] dc.racks@[rr as int].reserved_with(draw, n);
                        lemma_reserve_texts_differ(dc.racks@[rr as int].id@);
                    }
                    return Err(e);
                },
            }
            j = j + 1;
        }
        let ghost ret2 = ret@;
        let mut g: usize = 0;
        while g < other_centers.len()
            invariant
                has_main_dc(topo.data_centers@, option),
                !(option.replica_placement.diff_data_center_count > 0 && too_few_other_dcs(dcs@, option)),
                dcs == &topo.data_centers,
                g <= other_centers@.len(),
                other_centers@.len() == dd,
                dd == option.replica_placement.diff_data_center_count,
                md < dcs@.len(),
                other_centers@.no_duplicates(),
                forall|k: int| 0 <= k < other_centers@.len() ==> oc0.contains(#[trigger] other_centers@[k]),
                forall|k: int| 0 <= k < oc0.len() ==> oc0[k] < dcs@.len() && dcs@[oc0[k] as int].id@ != dcs@[md as int].id@
                    && wsum(racks_free(dcs@[oc0[k] as int].racks@)) >= 1,
                ret@.len() == ret2.len() + g,
                ret@.take(ret2.len() as int) == ret2,
                forall|k: int| ret2.len() <= k < ret@.len() ==> (#[trigger] ret@[k]).dc == other_centers@[k - ret2.len()]
                    && loc_ok(dcs@, ret@[k]) && node_free(node_at(dcs@, ret@[k])) != 0,
                ret2.len() == 1 + same + dr,
            decreases other_centers@.len() - g,
        {
            let dd_i = other_centers[g];
            assert(oc0.contains(dd_i));
            let n = dcs[dd_i].reserve_one_volume();
            match n {
                Ok((rr, nn)) => {
                    proof {
                        let (d1, d2) = choose|d1: u32, d2: u32| #[trigger] dcs@[dd_i as int].reserved_with(d1, d2, n);
                        let dc2 = dcs@[dd_i as int];
                        let vals = crate::directory::topology::data_center::racks_free(dc2.racks@);
                        crate::directory::topology::rack::lemma_reserve_pick(vals, d1);
                        let k = reserve_pick(vals, d1)->0;
                        assert(0 <= k < vals.len() && vals[k] != 0);
                        assert(k as usize == rr);
                        assert(dc2.racks@.len() == dcs@[dd_i as int].racks.len());
                        assert(k == rr as int);
                        assert(vals[k] == wsum(nodes_free(dc2.racks@[rr as int].nodes@)));
                        lemma_reserve_pick(nodes_free(dc2.racks@[rr as int].nodes@), d2);
                        let vals2 = nodes_free(dc2.racks@[rr as int].nodes@);
                        assert(reserve_pick(vals2, d2) is Some);
                        let k2 = reserve_pick(vals2, d2)->0;
                        assert(k2 as usize == nn);
                        assert(vals2[k2] != 0);
                        assert(vals2.len() == dc2.racks@[rr as int].nodes.len());
                        assert(k2 == nn as int);
                        assert(vals2[nn as int] == node_free(dc2.racks@[rr as int].nodes@[nn as int]));
                        assert(node_at(dcs@, NodeLoc { dc: dd_i, rack: rr, node: nn }) == dc2.racks@[rr as int].nodes@[nn as int]);
                        assert(node_free(node_at(dcs@, NodeLoc { dc: dd_i, rack: rr, node: nn })) != 0);
                    }
                    let ghost r0 = ret@;
                    ret.push(NodeLoc { dc: dd_i, rack: rr, node: nn });
                    assert(ret@.take(ret2.len() as int) =~= r0.take(ret2.len() as int));
                    assert(forall|k: int| 0 <= k < r0.len() ==> ret@[k] == r0[k]);
                    assert(ret@[r0.len() as int] == NodeLoc { dc: dd_i, rack: rr, node: nn });
                    assert(node_free(node_at(dcs@, ret@[r0.len() as int])) != 0);
                },
                Err(e) => {
                    proof {
                        let (d1, d2) = choose|d1: u32, d2: u32| #[trigger] dcs@[dd_i as int].reserved_with(d1, d2, n);
                        lemma_reserve_texts_differ(dcs@[dd_i as int].id@);
                        let k = reserve_pick(racks_free(dcs@[dd_i as int].racks@), d1);
                        if k is Some {
                            lemma_reserve_texts_differ(dcs@[dd_i as int].racks@[k->0].id@);
                        }
                    }
                    return Err(e);
                },
            }
            g = g + 1;
        }
        proof {
            let v = ret@;
            let m = v[0];
            assert(ret2.take(ret1.len() as int) == ret1);
            assert(v[0] == ret1[0]) by {
                assert(v.take(ret2.len() as int)[0] == ret2[0]);
                assert(ret2.take(ret1.len() as int)[0] == ret1[0]);
            }
            assert(m == main);
            assert forall|k: int| 0 <= k < ret1.len() implies v[k] == ret1[k] by {
                assert(v.take(ret2.len() as int)[k] == ret2[k]);
                assert(ret2.take(ret1.len() as int)[k] == ret1[k]);
            }
            assert forall|k: int| 0 <= k < ret2.len() implies v[k] == ret2[k] by {
                assert(v.take(ret2.len() as int)[k] == ret2[k]);
            }
            assert(node_cands@.contains(mn));
            assert(rack_cands@.contains(mr));
            assert forall|k: int| 0 <= k < v.len() implies loc_ok(dcs@, #[trigger] v[k]) by {
                if k == 0 {
                } else if k < ret1.len() {
                    assert(v[k] == ret1[k]);
                    assert(on0.contains(other_ns@[k - 1]));
                } else if k < ret2.len() {
                    assert(v[k] == ret2[k]);
                }
            }
            assert forall|k: int| 1 <= k <= same implies (#[trigger] v[k]).dc == m.dc && v[k].rack == m.rack
                && node_at(dcs@, v[k]).id@ != node_at(dcs@, m).id@ && node_free(node_at(dcs@, v[k])) >= 1 by {
                assert(v[k] == ret1[k]);
                assert(on0.contains(other_ns@[k - 1]));
            }
            assert forall|a: int, b: int| 1 <= a < b <= same implies (#[trigger] v[a]).node != (#[trigger] v[b]).node by {
                assert(v[a] == ret1[a]);
                assert(v[b] == ret1[b]);
            }
            assert forall|k: int| 1 + same <= k < 1 + same + dr implies (#[trigger] v[k]).dc == m.dc
                && dcs@[m.dc as int].racks@[v[k].rack as int].id@ != dcs@[m.dc as int].racks@[m.rack as int].id@ by {
                assert(v[k] == ret2[k]);
                assert(or0.contains(other_rs@[k - 1 - same]));
            }
            assert forall|a: int, b: int| 1 + same <= a < b < 1 + same + dr implies (#[trigger] v[a]).rack != (#[trigger] v[b]).rack by {
                assert(v[a] == ret2[a]);
                assert(v[b] == ret2[b]);
            }
            assert forall|k: int| 1 + same + dr <= k < v.len() implies dcs@[(#[trigger] v[k]).dc as int].id@ != dcs@[m.dc as int].id@ by {
                assert(oc0.contains(other_centers@[k - ret2.len()]));
            }
            assert forall|k: int| 1 + same <= k < v.len() implies node_free(node_at(dcs@, #[trigger] v[k])) != 0 by {
                if k < ret2.len() {
                    assert(v[k] == ret2[k]);
                }
            }
            if no_negative_room(dcs@) {
                assert forall|k: int| 0 <= k < v.len() implies node_free(node_at(dcs@, #[trigger] v[k])) >= 1 by {
                    assert(loc_ok(dcs@, v[k]));
                    if k >= 1 + same {
                        assert(node_free(node_at(dcs@, v[k])) != 0);
                    } else if k >= 1 {
                        assert(node_free(node_at(dcs@, v[k])) >= 1);
                    }
                }
            }
        }
        Ok(ret)
    }
}

/// The information of a new, empty volume `vid` made under option `o`.
pub open spec fn grown_info(vid: VolumeId, o: &VolumeGrowOption) -> VolumeInfo {
    VolumeInfo {
        id: vid,
        size: 0,
        replica_placement: o.replica_placement,
        ttl: o.ttl,
        collection: o.collection,
        version: CURRENT_VERSION,
        file_count: 0,
        delete_count: 0,
        delte_byte_count: 0,
        read_only: false,
    }
}

/// How many volumes to grow at once for a placement of `pcount` copies.
pub open spec fn logical_count_spec(pcount: i64) -> i64 {
    if pcount == 1 {
        7
    } else if pcount == 2 {
        6
    } else if pcount == 3 {
        3
    } else {
        1
    }
}

/// How many slots a new volume under placement `rp` takes.
pub open spec fn slot_count(rp: ReplicaPlacement) -> int {
    1 + rp.same_rack_count + rp.diff_rack_count + rp.diff_data_center_count
}

/// Volume `vid` is made under `o`: as many different nodes of `dcs` as the placement has
/// copies hold it, and, where `addrs_distinct`, the layout of the option's collection and
/// placement in `colls` places it on each of them.
pub open spec fn volume_grown(
    dcs: Seq<DataCenter>,
    colls: Seq<crate::directory::topology::collection::Collection>,
    o: &VolumeGrowOption,
    vid: VolumeId,
    addrs_distinct: bool,
) -> bool {
    exists|locs: Seq<NodeLoc>| #[trigger] grown_on(dcs, colls, o, vid, addrs_distinct, locs)
}

/// Volume `vid` is made under `o` on the different nodes at `locs`: see [`volume_grown`].
pub open spec fn grown_on(
    dcs: Seq<DataCenter>,
    colls: Seq<crate::directory::topology::collection::Collection>,
    o: &VolumeGrowOption,
    vid: VolumeId,
    addrs_distinct: bool,
    locs: Seq<NodeLoc>,
) -> bool {
    &&& locs.len() == slot_count(o.replica_placement)
    &&& locs.no_duplicates()
    &&& forall|k: int| 0 <= k < locs.len() ==> loc_ok(dcs, #[trigger] locs[k]) && node_at(dcs, locs[k]).volumes@.contains_key(vid)
    &&& addrs_distinct ==> forall|k: int| 0 <= k < locs.len() ==> layout_has(
        colls,
        o.collection@,
        layout_key(o.replica_placement, Some(o.ttl)),
        vid,
        #[trigger] locs[k],
    )
}

/// A made volume stays made while the nodes only grow, keep what they hold, and the
/// layouts keep what they place but for another volume `other`.
proof fn lemma_grown_kept(
    d1: Seq<DataCenter>,
    c1: Seq<crate::directory::topology::collection::Collection>,
    d2: Seq<DataCenter>,
    c2: Seq<crate::directory::topology::collection::Collection>,
    o: &VolumeGrowOption,
    vid: VolumeId,
    ad: bool,
    other: VolumeId,
)
    requires
        volume_grown(d1, c1, o, vid, ad),
        dcs_grew(d1, d2),
        keys_kept(d1, d2),
        vid != other,
        forall|c: Seq<char>, k: Seq<char>, w: VolumeId, l: NodeLoc|
            #[trigger] layout_has(c1, c, k, w, l) && w != other ==> layout_has(c2, c, k, w, l),
    ensures
        volume_grown(d2, c2, o, vid, ad),
{
    let locs = choose|locs: Seq<NodeLoc>| #[trigger] grown_on(d1, c1, o, vid, ad, locs);
    assert forall|k: int| 0 <= k < locs.len() implies loc_ok(d2, #[trigger] locs[k]) && node_at(d2, locs[k]).volumes@.contains_key(vid) by {
        assert(loc_ok(d1, locs[k]) && node_at(d1, locs[k]).volumes@.contains_key(vid));
        lemma_loc_grew(d1, d2, locs[k]);
    }
    if ad {
        assert forall|k: int| 0 <= k < locs.len() implies layout_has(
            c2,
            o.collection@,
            layout_key(o.replica_placement, Some(o.ttl)),
            vid,
            #[trigger] locs[k],
        ) by {
            assert(layout_has(c1, o.collection@, layout_key(o.replica_placement, Some(o.ttl)), vid, locs[k]));
        }
    }
    assert(grown_on(d2, c2, o, vid, ad, locs));
}

/// A volume made with its layouts placed is made.
proof fn lemma_grown_weaken(
    dcs: Seq<DataCenter>,
    colls: Seq<crate::directory::topology::collection::Collection>,
    o: &VolumeGrowOption,
    vid: VolumeId,
)
    requires
        volume_grown(dcs, colls, o, vid, true),
    ensures
        volume_grown(dcs, colls, o, vid, false),
{
    let locs = choose|locs: Seq<NodeLoc>| #[trigger] grown_on(dcs, colls, o, vid, true, locs);
    assert(grown_on(dcs, colls, o, vid, false, locs));
}

/// The places `nodes` name nodes of `dcs` with pairwise different addresses.
pub open spec fn distinct_addrs(dcs: Seq<crate::directory::topology::data_center::DataCenter>, nodes: Seq<NodeLoc>) -> bool {
    forall|a: int, b: int| 0 <= a < nodes.len() && 0 <= b < nodes.len() && a != b ==> !same_addr(dcs, #[trigger] nodes[a], #[trigger] nodes[b])
}

impl VolumeGrow {
    /// How many volumes to grow at once for a placement of `pcount` copies.
    pub fn logical_count(&self, pcount: i64) -> (r: i64)
        ensures
            r == logical_count_spec(pcount),
    {
        match pcount {
            1 => 7,
            2 => 6,
            3 => 3,
            _ => 1,
        }
    }

    /// Sets up the new volume `vid` under `option` on each node of `nodes` in turn: asks
    /// the node to make it (through `allocate`, given the node's address; a failure stops
    /// here and is returned), then records it on the node and in its layout.
    pub fn grow<F: Fn(String, VolumeId) -> Result<(), Error>>(
        &self,
        vid: VolumeId,
        option: &VolumeGrowOption,
        topo: &mut Topology,
        nodes: Vec<NodeLoc>,
        allocate: &F,
    ) -> (r: Result<(), Error>)
        requires
            old(topo).wf(),
            forall|k: int| 0 <= k < nodes@.len() ==> loc_ok(old(topo).data_centers@, #[trigger] nodes@[k]),
            forall|u: String, v: VolumeId| call_requires(*allocate, (u, v)),
        ensures
            final(topo).wf(),
            final(topo).sequence == old(topo).sequence,
            dcs_grew(old(topo).data_centers@, final(topo).data_centers@),
            r is Ok ==> forall|k: int| 0 <= k < nodes@.len() ==> node_at(final(topo).data_centers@, #[trigger] nodes@[k]).volumes@.contains_key(vid)
                && node_at(final(topo).data_centers@, nodes@[k]).volumes@[vid] == grown_info(vid, option),
            r is Ok && distinct_addrs(old(topo).data_centers@, nodes@) ==> forall|k: int| 0 <= k < nodes@.len() ==> layout_has(
                final(topo).collection_map@,
                option.collection@,
                layout_key(option.replica_placement, Some(option.ttl)),
                vid,
                #[trigger] nodes@[k],
            ),
            r matches Err(e) ==> exists|u: String| #[trigger] call_ensures(*allocate, (u, vid), Err::<(), Error>(e)),
            dcs_grew(final(topo).data_centers@, old(topo).data_centers@),
            addrs_kept(old(topo).data_centers@, final(topo).data_centers@),
            keys_kept(old(topo).data_centers@, final(topo).data_centers@),
            r is Ok && nodes@.len() > 0 ==> max_dc_vid(final(topo).data_centers@) == max_vid(max_dc_vid(old(topo).data_centers@), vid),
            forall|c: Seq<char>, k: Seq<char>, w: VolumeId, l: NodeLoc|
                #[trigger] layout_has(old(topo).collection_map@, c, k, w, l) && w != vid ==> layout_has(final(topo).collection_map@, c, k, w, l),
    {
        let ghost dcs0 = topo.data_centers@;
        let ghost colls0 = topo.collection_map@;
        let ghost seq0 = topo.sequence;
        let mut i: usize = 0;
        while i < nodes.len()
            invariant
                i <= nodes@.len(),
                topo.wf(),
                topo.sequence == seq0,
                seq0 == old(topo).sequence,
                dcs0 == old(topo).data_centers@,
                dcs_grew(dcs0, topo.data_centers@),
                forall|k: int| 0 <= k < nodes@.len() ==> loc_ok(dcs0, #[trigger] nodes@[k]),
                forall|l: NodeLoc| loc_ok(dcs0, l) ==> (#[trigger] node_at(topo.data_centers@, l)).ip == node_at(dcs0, l).ip
                    && node_at(topo.data_centers@, l).port == node_at(dcs0, l).port,
                forall|u: String, v: VolumeId| call_requires(*allocate, (u, v)),
                forall|k: int| 0 <= k < i ==> node_at(topo.data_centers@, #[trigger] nodes@[k]).volumes@.contains_key(vid)
                    && node_at(topo.data_centers@, nodes@[k]).volumes@[vid] == grown_info(vid, option),
                distinct_addrs(dcs0, nodes@) ==> forall|k: int| 0 <= k < i ==> layout_has(
                    topo.collection_map@,
                    option.collection@,
                    layout_key(option.replica_placement, Some(option.ttl)),
                    vid,
                    #[trigger] nodes@[k],
                ),
                dcs_grew(topo.data_centers@, dcs0),
                keys_kept(dcs0, topo.data_centers@),
                i == 0 ==> max_dc_vid(topo.data_centers@) == max_dc_vid(dcs0),
                i > 0 ==> max_dc_vid(topo.data_centers@) == max_vid(max_dc_vid(dcs0), vid),
                colls0 == old(topo).collection_map@,
                forall|c: Seq<char>, k: Seq<char>, w: VolumeId, l: NodeLoc|
                    #[trigger] layout_has(colls0, c, k, w, l) && w != vid ==> layout_has(topo.collection_map@, c, k, w, l),
            decreases nodes@.len() - i,
        {
            let nd = nodes[i];
            assert(loc_ok(dcs0, nd));
            proof {
                lemma_loc_grew(dcs0, topo.data_centers@, nd);
            }
            let url = topo.node(nd).url();
            let ghost u = url;
            let made = allocate(url, vid);
            assert(call_ensures(*allocate, (u, vid), made));
            match made {
                Ok(()) => {},
                Err(e) => {
                    return Err(e);
                },
            }
            let info = VolumeInfo {
                id: vid,
                size: 0,
                collection: option.collection.clone(),
                replica_placement: option.replica_placement,
                ttl: option.ttl,
                version: CURRENT_VERSION,
                file_count: 0,
                delete_count: 0,
                delte_byte_count: 0,
                read_only: false,
            };
            assert(info == grown_info(vid, option));
            let ghost dcs_a = topo.data_centers@;
            let ghost colls_a = topo.collection_map@;
            topo.add_volume_on_node(nd, info.clone());
            let ghost dcs_b = topo.data_centers@;
            let ghost colls_b = topo.collection_map@;
            topo.register_volume_layout(info, nd);
            proof {
                let d = nd.dc as int;
                let rk = nd.rack as int;
                assert(node_at(dcs_a, nd).max_volume_id <= dcs_a[d].racks@[rk].max_volume_id);
                assert(dcs_a[d].racks@[rk].max_volume_id <= dcs_a[d].max_volume_id);
                assert(dcs_b[d].max_volume_id == max_vid(dcs_a[d].max_volume_id, vid));
                crate::directory::topology::topology::lemma_max_dc_vid_raise(dcs_a, dcs_b, d, vid);
                lemma_dcs_grew_trans(topo.data_centers@, dcs_a, dcs0);
                assert forall|l: NodeLoc, k: VolumeId| loc_ok(dcs0, l) && #[trigger] node_at(dcs0, l).volumes@.contains_key(k)
                    implies node_at(topo.data_centers@, l).volumes@.contains_key(k) by {
                    lemma_loc_grew(dcs0, dcs_a, l);
                    assert(node_at(dcs_a, l).volumes@.contains_key(k));
                    if l != nd {
                        assert(node_at(dcs_b, l) == node_at(dcs_a, l));
                    }
                }
                assert forall|c: Seq<char>, k: Seq<char>, w: VolumeId, l: NodeLoc|
                    #[trigger] layout_has(colls0, c, k, w, l) && w != vid implies layout_has(topo.collection_map@, c, k, w, l) by {
                    assert(layout_has(colls_a, c, k, w, l));
                    assert(layout_has(colls_b, c, k, w, l));
                }
                assert forall|l: NodeLoc| loc_ok(dcs0, l) implies (#[trigger] node_at(topo.data_centers@, l)).ip == node_at(dcs0, l).ip
                    && node_at(topo.data_centers@, l).port == node_at(dcs0, l).port by {
                    lemma_loc_grew(dcs0, dcs_a, l);
                }
                assert forall|k: int| 0 <= k < i + 1 implies node_at(topo.data_centers@, #[trigger] nodes@[k]).volumes@.contains_key(vid)
                    && node_at(topo.data_centers@, nodes@[k]).volumes@[vid] == grown_info(vid, option) by {
                    lemma_loc_grew(dcs0, dcs_a, nodes@[k]);
                }
                if distinct_addrs(dcs0, nodes@) {
                    assert forall|k: int| 0 <= k < i + 1 implies layout_has(
                        topo.collection_map@,
                        option.collection@,
                        layout_key(option.replica_placement, Some(option.ttl)),
                        vid,
                        #[trigger] nodes@[k],
                    ) by {
                        if k < i {
                            assert(!same_addr(dcs0, nodes@[k], nodes@[i as int]));
                            lemma_loc_grew(dcs0, dcs_a, nodes@[k]);
                            assert(!same_addr(dcs_b, nodes@[k], nd));
                            assert(layout_has(colls_b, option.collection@, layout_key(option.replica_placement, Some(option.ttl)), vid, nodes@[k]));
                        }
                    }
                }
            }
            i = i + 1;
        }
        Ok(())
    }
}

impl VolumeGrow {
    /// Finds slots for one new volume under `option` (see
    /// [`VolumeGrow::find_empty_slots`]), takes the next volume id, one above the largest
    /// in use, and grows the volume there (see [`VolumeGrow::grow`] and
    /// [`volume_grown`]). Returns how many copies were made.
    fn find_and_grow<F: Fn(String, VolumeId) -> Result<(), Error>>(&self, option: &VolumeGrowOption, topo: &mut Topology, allocate: &F) -> (r: Result<i64, Error>)
        requires
            old(topo).wf(),
            forall|u: String, v: VolumeId| call_requires(*allocate, (u, v)),
        ensures
            final(topo).wf(),
            final(topo).sequence == old(topo).sequence,
            dcs_grew(old(topo).data_centers@, final(topo).data_centers@),
            r matches Ok(n) ==> n == slot_count(option.replica_placement),
            dcs_grew(final(topo).data_centers@, old(topo).data_centers@),
            addrs_kept(old(topo).data_centers@, final(topo).data_centers@),
            keys_kept(old(topo).data_centers@, final(topo).data_centers@),
            forall|c: Seq<char>, k: Seq<char>, w: VolumeId, l: NodeLoc|
                #[trigger] layout_has(old(topo).collection_map@, c, k, w, l) && w != vstd::wrapping::u32_specs::wrapping_add(
                max_dc_vid(old(topo).data_centers@),
                1,
            ) ==> layout_has(final(topo).collection_map@, c, k, w, l),
            r is Ok && max_dc_vid(old(topo).data_centers@) < 0xffff_ffff ==> {
                let vid = (max_dc_vid(old(topo).data_centers@) + 1) as VolumeId;
                &&& max_dc_vid(final(topo).data_centers@) == vid
                &&& volume_grown(
                    final(topo).data_centers@,
                    final(topo).collection_map@,
                    option,
                    vid,
                    all_addrs_distinct(old(topo).data_centers@),
                )
            },
            !has_main_dc(old(topo).data_centers@, option) ==> (r matches Err(Error::NoFreeSpace(m)) && m@ == no_main_dc_text()),
            r matches Err(e) ==> e is NoFreeSpace || exists|u: String, v: VolumeId| #[trigger] call_ensures(
                *allocate,
                (u, v),
                Err::<(), Error>(e),
            ),
            r matches Err(e) ==> placement_failure_ok(final(topo).data_centers@, option, e) || exists|u: String, v: VolumeId| #[trigger] call_ensures(
                *allocate,
                (u, v),
                Err::<(), Error>(e),
            ),
    {
        let nodes = match self.find_empty_slots(option, topo) {
            Ok(v) => v,
            Err(e) => {
                return Err(e);
            },
        };
        let len = nodes.len();
        assert(forall|k: int| 0 <= k < nodes@.len() ==> loc_ok(topo.data_centers@, #[trigger] nodes@[k]));
        let ghost dcs0 = topo.data_centers@;
        let ghost locs = nodes@;
        proof {
            lemma_slots_distinct(dcs0, option, locs);
        }
        let vid = topo.next_volume_id();
        match self.grow(vid, option, topo, nodes, allocate) {
            Ok(()) => {},
            Err(e) => {
                return Err(e);
            },
        }
        proof {
            if max_dc_vid(dcs0) < 0xffff_ffff {
                assert(vid == (max_dc_vid(dcs0) + 1) as VolumeId);
                let ad = all_addrs_distinct(dcs0);
                if ad {
                    assert(distinct_addrs(dcs0, locs)) by {
                        assert forall|a: int, b: int| 0 <= a < locs.len() && 0 <= b < locs.len() && a != b implies !same_addr(
                            dcs0,
                            #[trigger] locs[a],
                            #[trigger] locs[b],
                        ) by {
                            assert(locs[a] != locs[b]);
                            assert(loc_ok(dcs0, locs[a]));
                            assert(loc_ok(dcs0, locs[b]));
                        }
                    }
                }
                assert(grown_on(topo.data_centers@, topo.collection_map@, option, vid, ad, locs));
            }
        }
        Ok(len as i64)
    }

    /// Grows `count` new volumes under `option`, one after another, with the next volume
    /// ids, stopping at the first failure. Returns how many copies were made in all.
    fn grow_by_count_and_type<F: Fn(String, VolumeId) -> Result<(), Error>>(
        &self,
        count: i64,
        option: &VolumeGrowOption,
        topo: &mut Topology,
        allocate: &F,
    ) -> (r: Result<i64, Error>)
        requires
            old(topo).wf(),
            1 <= count <= 7,
            forall|u: String, v: VolumeId| call_requires(*allocate, (u, v)),
        ensures
            final(topo).wf(),
            final(topo).sequence == old(topo).sequence,
            dcs_grew(old(topo).data_centers@, final(topo).data_centers@),
            r matches Ok(n) ==> n == count * slot_count(option.replica_placement),
            dcs_grew(final(topo).data_centers@, old(topo).data_centers@),
            addrs_kept(old(topo).data_centers@, final(topo).data_centers@),
            keys_kept(old(topo).data_centers@, final(topo).data_centers@),
            r is Ok && max_dc_vid(old(topo).data_centers@) + count <= 0xffff_ffff ==> {
                &&& max_dc_vid(final(topo).data_centers@) == max_dc_vid(old(topo).data_centers@) + count
                &&& forall|j: int| 1 <= j <= count ==> #[trigger] volume_grown(
                    final(topo).data_centers@,
                    final(topo).collection_map@,
                    option,
                    (max_dc_vid(old(topo).data_centers@) + j) as VolumeId,
                    all_addrs_distinct(old(topo).data_centers@),
                )
            },
            !has_main_dc(old(topo).data_centers@, option) ==> (r matches Err(Error::NoFreeSpace(m)) && m@ == no_main_dc_text()),
            r matches Err(e) ==> e is NoFreeSpace || exists|u: String, v: VolumeId| #[trigger] call_ensures(
                *allocate,
                (u, v),
                Err::<(), Error>(e),
            ),
            r matches Err(e) ==> placement_failure_ok(final(topo).data_centers@, option, e) || exists|u: String, v: VolumeId| #[trigger] call_ensures(
                *allocate,
                (u, v),
                Err::<(), Error>(e),
            ),
    {
        let ghost dcs0 = topo.data_centers@;
        let mut grow_count: i64 = 0;
        let mut i: i64 = 0;
        while i < count
            invariant
                0 <= i <= count <= 7,
                topo.wf(),
                topo.sequence == old(topo).sequence,
                dcs0 == old(topo).data_centers@,
                dcs_grew(dcs0, topo.data_centers@),
                grow_count == i * slot_count(option.replica_placement),
                slot_count(option.replica_placement) <= 766,
                i == 0 ==> topo.data_centers@ == dcs0,
                i > 0 ==> has_main_dc(dcs0, option),
                forall|u: String, v: VolumeId| call_requires(*allocate, (u, v)),
                dcs_grew(topo.data_centers@, dcs0),
                addrs_kept(dcs0, topo.data_centers@),
                keys_kept(dcs0, topo.data_centers@),
                max_dc_vid(dcs0) + count <= 0xffff_ffff ==> max_dc_vid(topo.data_centers@) == max_dc_vid(dcs0) + i,
                max_dc_vid(dcs0) + count <= 0xffff_ffff ==> forall|j: int| 1 <= j <= i ==> #[trigger] volume_grown(
                    topo.data_centers@,
                    topo.collection_map@,
                    option,
                    (max_dc_vid(dcs0) + j) as VolumeId,
                    all_addrs_distinct(dcs0),
                ),
            decreases count - i,
        {
            let ghost before = topo.data_centers@;
            let ghost colls_before = topo.collection_map@;
            let n = match self.find_and_grow(option, topo, allocate) {
                Ok(n) => n,
                Err(e) => {
                    return Err(e);
                },
            };
            proof {
                lemma_dcs_grew_trans(dcs0, before, topo.data_centers@);
                lemma_dcs_grew_trans(topo.data_centers@, before, dcs0);
                crate::directory::topology::topology::lemma_kept_trans(dcs0, before, topo.data_centers@);
                if max_dc_vid(dcs0) + count <= 0xffff_ffff {
                    let m0 = max_dc_vid(dcs0);
                    let ad = all_addrs_distinct(dcs0);
                    let nv = (m0 + i + 1) as VolumeId;
                    assert(vstd::wrapping::u32_specs::wrapping_add(max_dc_vid(before), 1) == nv);
                    if ad {
                        lemma_addrs_distinct_kept(dcs0, before);
                    } else if all_addrs_distinct(before) {
                        lemma_grown_weaken(topo.data_centers@, topo.collection_map@, option, nv);
                    }
                    assert(volume_grown(topo.data_centers@, topo.collection_map@, option, nv, ad));
                    assert forall|j: int| 1 <= j <= i + 1 implies #[trigger] volume_grown(
                        topo.data_centers@,
                        topo.collection_map@,
                        option,
                        (m0 + j) as VolumeId,
                        ad,
                    ) by {
                        if j <= i {
                            assert(volume_grown(before, colls_before, option, (m0 + j) as VolumeId, ad));
                            lemma_grown_kept(before, colls_before, topo.data_centers@, topo.collection_map@, option, (m0 + j) as VolumeId, ad, nv);
                        }
                    }
                }
                assert(grow_count + n == (i + 1) * slot_count(option.replica_placement)) by (nonlinear_arith)
                    requires
                        grow_count == i * slot_count(option.replica_placement),
                        n == slot_count(option.replica_placement),
                ;
                assert((i + 1) * slot_count(option.replica_placement) <= 7 * 766) by (nonlinear_arith)
                    requires
                        i + 1 <= 7,
                        0 <= slot_count(option.replica_placement) <= 766,
                ;
            }
            grow_count = grow_count + n;
            i = i + 1;
        }
        Ok(grow_count)
    }

    /// Grows as many new volumes under `option` as its placement calls for at once (see
    /// [`logical_count_spec`]), with the next volume ids, one after another (see
    /// [`volume_grown`]). Returns how many copies were made in all. A failure comes
    /// from `allocate`, or is a placement failure that the topology left behind bears out
    /// (see [`placement_failure_ok`]).
    pub fn grow_by_type<F: Fn(String, VolumeId) -> Result<(), Error>>(&self, option: &VolumeGrowOption, topo: &mut Topology, allocate: &F) -> (r: Result<i64, Error>)
        requires
            old(topo).wf(),
            forall|u: String, v: VolumeId| call_requires(*allocate, (u, v)),
        ensures
            final(topo).wf(),
            final(topo).sequence == old(topo).sequence,
            dcs_grew(old(topo).data_centers@, final(topo).data_centers@),
            r matches Ok(n) ==> n == logical_count_spec(copy_count(option.replica_placement) as i64) * slot_count(
                option.replica_placement,
            ),
            dcs_grew(final(topo).data_centers@, old(topo).data_centers@),
            addrs_kept(old(topo).data_centers@, final(topo).data_centers@),
            keys_kept(old(topo).data_centers@, final(topo).data_centers@),
            ({
                let m = max_dc_vid(old(topo).data_centers@);
                let count = logical_count_spec(copy_count(option.replica_placement) as i64);
                r is Ok && m + count <= 0xffff_ffff ==> {
                    &&& max_dc_vid(final(topo).data_centers@) == m + count
                    &&& forall|j: int| 1 <= j <= count ==> #[trigger] volume_grown(
                        final(topo).data_centers@,
                        final(topo).collection_map@,
                        option,
                        (m + j) as VolumeId,
                        all_addrs_distinct(old(topo).data_centers@),
                    )
                }
            }),
            !has_main_dc(old(topo).data_centers@, option) ==> (r matches Err(Error::NoFreeSpace(m)) && m@ == no_main_dc_text()),
            r matches Err(e) ==> e is NoFreeSpace || exists|u: String, v: VolumeId| #[trigger] call_ensures(
                *allocate,
                (u, v),
                Err::<(), Error>(e),
            ),
            r matches Err(e) ==> placement_failure_ok(final(topo).data_centers@, option, e) || exists|u: String, v: VolumeId| #[trigger] call_ensures(
                *allocate,
                (u, v),
                Err::<(), Error>(e),
            ),
    {
        let count = self.logical_count(option.replica_placement.get_copy_count());
        self.grow_by_count_and_type(count, option, topo, allocate)
    }
}

} // verus!
