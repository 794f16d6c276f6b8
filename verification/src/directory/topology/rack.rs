//! A rack: the data nodes that share it.
use vstd::prelude::*;
use crate::directory::errors::Error;
use crate::directory::topology::chance::random_u32;
use crate::directory::topology::node::{DataNode, node_free, node_has, max_vid};
use crate::storage::volume_info::VolumeInfo;
use crate::storage::VolumeId;
use crate::text::{dec_str, dec_string};
use vstd::string::*;

verus! {

/// The sum of `s`, wrapping at 2^64 (as i64).
pub open spec fn wsum(s: Seq<i64>) -> i64
    decreases s.len(),
{
    if s.len() == 0 {
        0
    } else {
        vstd::wrapping::i64_specs::wrapping_add(wsum(s.drop_last()), s.last())
    }
}

/// The first `i` at or after `start` where `cur` less the values up to and including
/// `i` (wrapping) equals `idx`.
pub open spec fn reserve_scan(vals: Seq<i64>, cur: i64, idx: i64, start: int) -> Option<int>
    decreases vals.len() - start,
{
    if start < 0 || start >= vals.len() {
        None
    } else {
        let c = vstd::wrapping::i64_specs::wrapping_sub(cur, vals[start]);
        if c == idx {
            Some(start)
        } else {
            reserve_scan(vals, c, idx, start + 1)
        }
    }
}

/// The draw `draw` taken modulo the total `total` (a remainder in `[0, |total|)`).
pub open spec fn draw_index(draw: u32, total: i64) -> i64 {
    ((draw as int) % (total as int)) as i64
}

/// The place picked for one new volume among places with free room `vals`, for the
/// random draw `draw`: taking the draw modulo the total free room, the first place where
/// the room left after it equals that index.
pub open spec fn reserve_pick(vals: Seq<i64>, draw: u32) -> Option<int> {
    reserve_scan(vals, wsum(vals), draw_index(draw, wsum(vals)), 0)
}

proof fn lemma_reserve_scan(vals: Seq<i64>, cur: i64, idx: i64, start: int)
    requires
        0 <= start,
        cur != idx,
    ensures
        reserve_scan(vals, cur, idx, start) matches Some(k) ==> start <= k < vals.len() && vals[k] != 0,
    decreases vals.len() - start,
{
    if start < vals.len() {
        let c = vstd::wrapping::i64_specs::wrapping_sub(cur, vals[start]);
        if c != idx {
            lemma_reserve_scan(vals, c, idx, start + 1);
        } else {
            assert(vals[start] != 0) by {
                if vals[start] == 0 {
                    assert(vstd::wrapping::i64_specs::wrapping_sub(cur, 0) == cur);
                }
            }
        }
    }
}

/// The place picked for a volume is a place, and one with room other than none.
pub proof fn lemma_reserve_pick(vals: Seq<i64>, draw: u32)
    requires
        wsum(vals) != 0,
    ensures
        reserve_pick(vals, draw) matches Some(k) ==> 0 <= k < vals.len() && vals[k] != 0,
{
    let t = wsum(vals);
    let idx = draw_index(draw, t);
    assert(idx != t) by {
        let r = (draw as int) % (t as int);
        if t > 0 {
            assert(0 <= r < t);
        } else {
            assert(0 <= r < -t);
        }
    }
    lemma_reserve_scan(vals, t, idx, 0);
}

/// The free room of each node of `nodes`.
pub open spec fn nodes_free(nodes: Seq<DataNode>) -> Seq<i64> {
    Seq::new(nodes.len(), |i: int| node_free(nodes[i]))
}

/// The volumes held by each node of `nodes`.
pub open spec fn nodes_has(nodes: Seq<DataNode>) -> Seq<i64> {
    Seq::new(nodes.len(), |i: int| node_has(nodes[i]))
}

/// The most volumes of each node of `nodes`.
pub open spec fn nodes_max(nodes: Seq<DataNode>) -> Seq<i64> {
    Seq::new(nodes.len(), |i: int| nodes[i].max_volumes)
}

/// The index of the first node of `nodes` with id `id`.
pub open spec fn find_node(nodes: Seq<DataNode>, id: Seq<char>) -> Option<int> {
    if exists|i: int| 0 <= i < nodes.len() && (#[trigger] nodes[i]).id@ == id {
        Some(choose|i: int| 0 <= i < nodes.len() && (#[trigger] nodes[i]).id@ == id && forall|j: int|
            0 <= j < i ==> (#[trigger] nodes[j]).id@ != id)
    } else {
        None
    }
}

/// Wrapping sums and differences of four values can be taken in either order.
proof fn lemma_wrap_swap(x: i64, y: i64, z: i64, w: i64)
    ensures
        vstd::wrapping::i64_specs::wrapping_add(
            vstd::wrapping::i64_specs::wrapping_sub(x, y),
            vstd::wrapping::i64_specs::wrapping_sub(z, w),
        ) == vstd::wrapping::i64_specs::wrapping_sub(
            vstd::wrapping::i64_specs::wrapping_add(x, z),
            vstd::wrapping::i64_specs::wrapping_add(y, w),
        ),
{
}

/// Where each of `f` is the wrapping difference of `a` and `b` there, the wrapping sum of
/// `f` is the wrapping difference of the wrapping sums of `a` and `b`.
pub proof fn lemma_wsum_of_differences(f: Seq<i64>, a: Seq<i64>, b: Seq<i64>)
    requires
        f.len() == a.len(),
        f.len() == b.len(),
        forall|i: int| 0 <= i < f.len() ==> #[trigger] f[i] == vstd::wrapping::i64_specs::wrapping_sub(a[i], b[i]),
    ensures
        wsum(f) == vstd::wrapping::i64_specs::wrapping_sub(wsum(a), wsum(b)),
    decreases f.len(),
{
    if f.len() > 0 {
        lemma_wsum_of_differences(f.drop_last(), a.drop_last(), b.drop_last());
        assert(f.last() == vstd::wrapping::i64_specs::wrapping_sub(a.last(), b.last()));
        lemma_wrap_swap(wsum(a.drop_last()), wsum(b.drop_last()), a.last(), b.last());
    }
}

/// Law: the free room of a rack is the most volumes of its nodes less the volumes they
/// hold (sums and difference wrapping at 2^64).
pub proof fn law_rack_free_is_max_less_held(nodes: Seq<DataNode>)
    ensures
        wsum(nodes_free(nodes)) == vstd::wrapping::i64_specs::wrapping_sub(wsum(nodes_max(nodes)), wsum(nodes_has(nodes))),
{
    lemma_wsum_of_differences(nodes_free(nodes), nodes_max(nodes), nodes_has(nodes));
}

/// Where some item of `xs` has the key `key`, a first one has.
proof fn lemma_first_node(xs: Seq<DataNode>, key: Seq<char>, k: int)
    requires
        0 <= k < xs.len(),
        xs[k].id@ == key,
    ensures
        exists|i: int| 0 <= i < xs.len() && (#[trigger] xs[i]).id@ == key && forall|j: int| 0 <= j < i ==> (#[trigger] xs[j]).id@ != key,
    decreases k,
{
    if exists|j: int| 0 <= j < k && (#[trigger] xs[j]).id@ == key {
        let j = choose|j: int| 0 <= j < k && (#[trigger] xs[j]).id@ == key;
        lemma_first_node(xs, key, j);
    } else {
        assert(forall|j: int| 0 <= j < k ==> (#[trigger] xs[j]).id@ != key);
    }
}

/// The first node of `nodes` with id `id` is at `i`.
proof fn lemma_find_node_at(nodes: Seq<DataNode>, id: Seq<char>, i: int)
    requires
        0 <= i < nodes.len(),
        nodes[i].id@ == id,
        forall|j: int| 0 <= j < i ==> (#[trigger] nodes[j]).id@ != id,
    ensures
        find_node(nodes, id) == Some(i),
{
    lemma_first_node(nodes, id, i);
    let c = choose|c: int| 0 <= c < nodes.len() && (#[trigger] nodes[c]).id@ == id && forall|j: int|
        0 <= j < c ==> (#[trigger] nodes[j]).id@ != id;
    assert(nodes[i].id@ == id);
    if c < i {
        assert(nodes[c].id@ != id);
    } else if i < c {
        assert(nodes[i].id@ != id);
    }
}

/// The nodes `n0` became `n1` by finding the node with id `id` at `r`, or by adding one
/// with that id last, at `r`, when there was none.
pub open spec fn node_found_or_added(n0: Seq<DataNode>, n1: Seq<DataNode>, id: Seq<char>, r: int) -> bool {
    &&& 0 <= r < n1.len()
    &&& n1[r].id@ == id
    &&& match find_node(n0, id) {
        Some(i) => r == i && n1 == n0,
        None => r == n0.len() && n1.len() == n0.len() + 1 && n1.take(r) == n0,
    }
}

/// Law: getting or making the node with one id twice gives the same node, and the second
/// time changes nothing, whatever the other arguments of either call.
pub proof fn law_get_or_create_data_node_twice(n0: Seq<DataNode>, n1: Seq<DataNode>, n2: Seq<DataNode>, id: Seq<char>, r1: int, r2: int)
    requires
        node_found_or_added(n0, n1, id, r1),
        node_found_or_added(n1, n2, id, r2),
    ensures
        r2 == r1,
        n2 == n1,
{
    match find_node(n0, id) {
        Some(i) => {
            lemma_first_node(n0, id, r1);
            let c = choose|c: int| 0 <= c < n0.len() && (#[trigger] n0[c]).id@ == id && forall|j: int|
                0 <= j < c ==> (#[trigger] n0[j]).id@ != id;
            assert(c == i);
            lemma_find_node_at(n1, id, r1);
        },
        None => {
            assert forall|j: int| 0 <= j < r1 implies (#[trigger] n1[j]).id@ != id by {
                assert(n1[j] == n1.take(r1)[j]);
            }
            lemma_find_node_at(n1, id, r1);
        },
    }
}

/// The message of a failed reservation on rack `id`.
pub open spec fn rack_reserve_fail_text(id: Seq<char>) -> Seq<char> {
    "reserve_one_volume on rack "@ + id + " fail"@
}

/// A rack of data nodes, in the data center named `data_center` once it is joined.
#[derive(Debug)]
pub struct Rack {
    pub id: String,
    pub nodes: Vec<DataNode>,
    pub max_volume_id: VolumeId,
    pub data_center: String,
}

/// `wsum` of a prefix grows by one value at a time.
pub proof fn lemma_wsum_take(s: Seq<i64>, i: int)
    requires
        0 <= i < s.len(),
    ensures
        wsum(s.take(i + 1)) == vstd::wrapping::i64_specs::wrapping_add(wsum(s.take(i)), s[i]),
{
    assert(s.take(i + 1).drop_last() =~= s.take(i));
}

impl Rack {
    /// `r` is what reserving a volume on this rack gives for the random draw `draw`: the
    /// node that [`reserve_pick`] picks, or the rack's failure.
    pub open spec fn reserved_with(&self, draw: u32, r: Result<usize, Error>) -> bool {
        match reserve_pick(nodes_free(self.nodes@), draw) {
            Some(k) => r == Ok::<usize, Error>(k as usize),
            None => r matches Err(Error::NoFreeSpace(m)) && m@ == rack_reserve_fail_text(self.id@),
        }
    }

    /// A rack with no nodes.
    pub fn new(id: &str) -> (r: Rack)
        ensures
            r.id@ == id@,
            r.nodes@.len() == 0,
            r.max_volume_id == 0,
            r.data_center@.len() == 0,
    {
        Rack { id: String::from_str(id), nodes: Vec::new(), max_volume_id: 0, data_center: String::new() }
    }

    /// Raises the largest volume id seen in this rack to `vid` if `vid` is larger.
    pub fn adjust_max_volume_id(&mut self, vid: VolumeId)
        ensures
            final(self).max_volume_id == max_vid(old(self).max_volume_id, vid),
            final(self).id == old(self).id,
            final(self).nodes == old(self).nodes,
            final(self).data_center == old(self).data_center,
    {
        if vid > self.max_volume_id {
            self.max_volume_id = vid;
        }
    }

    /// The index of the node with id `id`, made with the other arguments and added last
    /// when there is none.
    pub fn get_or_create_data_node(&mut self, id: &str, ip: &str, port: i64, public_url: &str, max_volumes: i64) -> (r: usize)
        ensures
            node_found_or_added(old(self).nodes@, final(self).nodes@, id@, r as int),
            r < final(self).nodes@.len(),
            final(self).nodes@[r as int].id@ == id@,
            final(self).id == old(self).id,
            final(self).max_volume_id == old(self).max_volume_id,
            final(self).data_center == old(self).data_center,
            match find_node(old(self).nodes@, id@) {
                Some(i) => r == i && final(self).nodes@ == old(self).nodes@,
                None => {
                    &&& r == old(self).nodes@.len()
                    &&& final(self).nodes@.len() == old(self).nodes@.len() + 1
                    &&& final(self).nodes@.take(r as int) == old(self).nodes@
                    &&& final(self).nodes@[r as int].id@ == id@
                    &&& final(self).nodes@[r as int].ip@ == ip@
                    &&& final(self).nodes@[r as int].port == port
                    &&& final(self).nodes@[r as int].public_url@ == public_url@
                    &&& final(self).nodes@[r as int].max_volumes == max_volumes
                    &&& final(self).nodes@[r as int].last_seen == 0
                    &&& final(self).nodes@[r as int].rack@.len() == 0
                    &&& final(self).nodes@[r as int].data_center@.len() == 0
                    &&& final(self).nodes@[r as int].max_volume_id == 0
                    &&& final(self).nodes@[r as int].volumes@ == Map::<VolumeId, VolumeInfo>::empty()
                },
            },
    {
        let key = String::from_str(id);
        let mut i: usize = 0;
        while i < self.nodes.len()
            invariant
                i <= self.nodes@.len(),
                key@ == id@,
                forall|j: int| 0 <= j < i ==> (#[trigger] self.nodes@[j]).id@ != id@,
            decreases self.nodes@.len() - i,
        {
            if self.nodes[i].id == key {
                proof {
                    let ghost f = find_node(self.nodes@, id@);
                    assert(self.nodes@[i as int].id@ == id@);
                    let k = choose|k: int| 0 <= k < self.nodes@.len() && (#[trigger] self.nodes@[k]).id@ == id@
                        && forall|j: int| 0 <= j < k ==> (#[trigger] self.nodes@[j]).id@ != id@;
                    assert(k == i);
                }
                return i;
            }
            i = i + 1;
        }
        let ghost old_nodes = self.nodes@;
        self.nodes.push(DataNode::new(id, ip, port, public_url, max_volumes));
        assert(self.nodes@.take(i as int) =~= old_nodes);
        i
    }

    /// The id of the data center this rack was joined to, or empty.
    pub fn get_data_center_id(&self) -> (r: String)
        ensures
            r@ == self.data_center@,
    {
        self.data_center.clone()
    }

    /// How many volumes the nodes of this rack hold (a wrapping sum).
    pub fn has_volumes(&self) -> (r: i64)
        ensures
            r == wsum(nodes_has(self.nodes@)),
    {
        let ghost vals = nodes_has(self.nodes@);
        let mut ret: i64 = 0;
        let mut i: usize = 0;
        while i < self.nodes.len()
            invariant
                i <= self.nodes@.len(),
                vals == nodes_has(self.nodes@),
                ret == wsum(vals.take(i as int)),
            decreases self.nodes@.len() - i,
        {
            proof {
                lemma_wsum_take(vals, i as int);
            }
            ret = ret.wrapping_add(self.nodes[i].has_volumes());
            i = i + 1;
        }
        assert(vals.take(i as int) =~= vals);
        ret
    }

    /// The most volumes the nodes of this rack may hold (a wrapping sum).
    pub fn max_volumes(&self) -> (r: i64)
        ensures
            r == wsum(nodes_max(self.nodes@)),
    {
        let ghost vals = nodes_max(self.nodes@);
        let mut ret: i64 = 0;
        let mut i: usize = 0;
        while i < self.nodes.len()
            invariant
                i <= self.nodes@.len(),
                vals == nodes_max(self.nodes@),
                ret == wsum(vals.take(i as int)),
            decreases self.nodes@.len() - i,
        {
            proof {
                lemma_wsum_take(vals, i as int);
            }
            ret = ret.wrapping_add(self.nodes[i].max_volumes());
            i = i + 1;
        }
        assert(vals.take(i as int) =~= vals);
        ret
    }

    /// How many more volumes the nodes of this rack may take (a wrapping sum).
    pub fn free_volumes(&self) -> (r: i64)
        ensures
            r == wsum(nodes_free(self.nodes@)),
    {
        let ghost vals = nodes_free(self.nodes@);
        let mut ret: i64 = 0;
        let mut i: usize = 0;
        while i < self.nodes.len()
            invariant
                i <= self.nodes@.len(),
                vals == nodes_free(self.nodes@),
                ret == wsum(vals.take(i as int)),
            decreases self.nodes@.len() - i,
        {
            proof {
                lemma_wsum_take(vals, i as int);
            }
            ret = ret.wrapping_add(self.nodes[i].free_volumes());
            i = i + 1;
        }
        assert(vals.take(i as int) =~= vals);
        ret
    }

    /// The node that takes one new volume, for the random draw `draw`: see
    /// [`reserve_pick`].
    pub fn reserve_with(&self, draw: u32) -> (r: Result<usize, Error>)
        requires
            wsum(nodes_free(self.nodes@)) != 0,
        ensures
            self.reserved_with(draw, r),
    {
        let ghost vals = nodes_free(self.nodes@);
        let total = self.free_volumes();
        let idx: i64 = (draw as i64) % total;
        assert(idx == draw_index(draw, total));
        let mut free = total;
        let mut i: usize = 0;
        while i < self.nodes.len()
            invariant
                i <= self.nodes@.len(),
                vals == nodes_free(self.nodes@),
                reserve_pick(vals, draw) == reserve_scan(vals, free, idx, i as int),
                idx == draw_index(draw, wsum(vals)),
            decreases self.nodes@.len() - i,
        {
            free = free.wrapping_sub(self.nodes[i].free_volumes());
            if free == idx {
                return Ok(i);
            }
            i = i + 1;
        }
        proof {
            reveal_strlit("reserve_one_volume on rack ");
            reveal_strlit(" fail");
        }
        let mut m = String::from_str("reserve_one_volume on rack ");
        m.append(self.id.as_str());
        m.append(" fail");
        Err(Error::NoFreeSpace(m))
    }

    /// Picks at random, in proportion to free room, the node that takes one new volume.
    pub fn reserve_one_volume(&self) -> (r: Result<usize, Error>)
        requires
            wsum(nodes_free(self.nodes@)) != 0,
        ensures
            exists|draw: u32| #[trigger] self.reserved_with(draw, r),
    {
        let draw = random_u32();
        self.reserve_with(draw)
    }
}

impl Rack {
    /// The index of the node with id `id` (made with the other arguments when missing),
    /// linked to this rack and to data center `dc_id`.
    pub fn join_node(&mut self, id: &str, ip: &str, port: i64, public_url: &str, max_volumes: i64, dc_id: &str) -> (r: usize)
        ensures
            final(self).id == old(self).id,
            final(self).max_volume_id == old(self).max_volume_id,
            final(self).data_center == old(self).data_center,
            r <= old(self).nodes@.len(),
            final(self).nodes@.len() == if r == old(self).nodes@.len() {
                old(self).nodes@.len() + 1
            } else {
                old(self).nodes@.len()
            },
            final(self).nodes@[r as int].id@ == id@,
            final(self).nodes@[r as int].rack@ == old(self).id@,
            final(self).nodes@[r as int].data_center@ == dc_id@,
            forall|y: int| 0 <= y < old(self).nodes@.len() && y != r ==> #[trigger] final(self).nodes@[y] == old(self).nodes@[y],
            r < old(self).nodes@.len() ==> final(self).nodes@[r as int].volumes == old(self).nodes@[r as int].volumes
                && final(self).nodes@[r as int].max_volume_id == old(self).nodes@[r as int].max_volume_id,
            r == old(self).nodes@.len() ==> final(self).nodes@[r as int].volumes@ == Map::<VolumeId, VolumeInfo>::empty()
                && final(self).nodes@[r as int].max_volume_id == 0,
    {
        let n = self.get_or_create_data_node(id, ip, port, public_url, max_volumes);
        let rid = self.id.clone();
        self.nodes[n].rack = rid;
        self.nodes[n].data_center = String::from_str(dc_id);
        n
    }
}

} // verus!
