//! A volume layout: the volumes of one collection with one replication and ttl, where
//! their copies are, and which of them take writes.
use vstd::prelude::*;
use std::collections::{HashMap, HashSet};
use crate::directory::errors::Error;
use crate::directory::topology::chance::random_i64;
use crate::directory::topology::data_center::{DataCenter, loc_ok, locs_ok, node_at, node_ref};
use crate::directory::topology::node::{DataNode, NodeLoc};
use crate::directory::topology::volume_grow::VolumeGrowOption;
use crate::storage::replica_placement::ReplicaPlacement;
use crate::storage::ttl::TTL;
use crate::storage::version::CURRENT_VERSION;
use crate::storage::volume_info::VolumeInfo;
use crate::storage::VolumeId;
use vstd::string::*;

verus! {

broadcast use vstd::std_specs::hash::group_hash_axioms;

/// The volumes of one collection with one replication and ttl.
#[derive(Debug)]
pub struct VolumeLayout {
    pub rp: ReplicaPlacement,
    pub ttl: Option<TTL>,
    pub volume_size_limit: u64,
    pub writable_volumes: Vec<VolumeId>,
    pub readonly_volumes: HashSet<VolumeId>,
    pub oversize_volumes: HashSet<VolumeId>,
    pub vid2location: HashMap<VolumeId, Vec<NodeLoc>>,
}

/// The places of the copies of volume `vid` in `m` (none when it is not there).
pub open spec fn locs_of(m: Map<VolumeId, Vec<NodeLoc>>, vid: VolumeId) -> Seq<NodeLoc> {
    if m.contains_key(vid) {
        m[vid]@
    } else {
        seq![]
    }
}

/// Node `n` is in exactly the data center, rack and node that option `o` names.
pub open spec fn exact_match(n: DataNode, o: &VolumeGrowOption) -> bool {
    n.id@ == o.data_node@ && n.rack@ == o.rack@ && n.data_center@ == o.data_center@
}

/// Node `n` is in the data center, rack and node that option `o` asks for, each where
/// it asks for one.
pub open spec fn passes(n: DataNode, o: &VolumeGrowOption) -> bool {
    !((o.data_center@.len() != 0 && o.data_center@ != n.data_center@) || (o.rack@.len() != 0
        && o.rack@ != n.rack@) || (o.data_node@.len() != 0 && o.data_node@ != n.id@))
}

/// `start` plus one for each place of `locs` whose node matches `o` exactly (wrapping).
pub open spec fn count_from(dcs: Seq<DataCenter>, locs: Seq<NodeLoc>, o: &VolumeGrowOption, start: i64) -> i64
    decreases locs.len(),
{
    if locs.len() == 0 {
        start
    } else {
        let c = count_from(dcs, locs.drop_last(), o, start);
        if exact_match(node_at(dcs, locs.last()), o) {
            vstd::wrapping::i64_specs::wrapping_add(c, 1)
        } else {
            c
        }
    }
}

/// How many copies of the volumes `ws` are on nodes that match `o` exactly (wrapping).
pub open spec fn active_from(dcs: Seq<DataCenter>, ws: Seq<VolumeId>, m: Map<VolumeId, Vec<NodeLoc>>, o: &VolumeGrowOption) -> i64
    decreases ws.len(),
{
    if ws.len() == 0 {
        0
    } else {
        count_from(dcs, locs_of(m, ws.last()), o, active_from(dcs, ws.drop_last(), m, o))
    }
}

/// Volume `vid` once for each place of `locs` whose node passes `o`.
pub open spec fn cands_in(dcs: Seq<DataCenter>, locs: Seq<NodeLoc>, o: &VolumeGrowOption, vid: VolumeId) -> Seq<VolumeId>
    decreases locs.len(),
{
    if locs.len() == 0 {
        seq![]
    } else {
        let c = cands_in(dcs, locs.drop_last(), o, vid);
        if passes(node_at(dcs, locs.last()), o) {
            c.push(vid)
        } else {
            c
        }
    }
}

/// The volumes of `ws` that a write may go to under `o`, in order, each once for each
/// of its copies that is on a node passing `o`.
pub open spec fn cands(dcs: Seq<DataCenter>, ws: Seq<VolumeId>, m: Map<VolumeId, Vec<NodeLoc>>, o: &VolumeGrowOption) -> Seq<VolumeId>
    decreases ws.len(),
{
    if ws.len() == 0 {
        seq![]
    } else {
        cands(dcs, ws.drop_last(), m, o) + cands_in(dcs, locs_of(m, ws.last()), o, ws.last())
    }
}

/// The `k`-th of the candidates met (counting from 1) replaces the pick when its draw
/// `d` is not positive or `k` divides it, as `d % k < 1` does.
pub open spec fn takes_turn(d: i64, k: int) -> bool {
    d <= 0 || (d as int) % k == 0
}

/// The candidate picked from `c` with the draws `draws`, one per candidate: the last one
/// that took its turn (none when there are no candidates).
pub open spec fn reservoir(c: Seq<VolumeId>, draws: Seq<i64>) -> Option<VolumeId>
    decreases c.len(),
{
    if c.len() == 0 {
        None
    } else if takes_turn(draws[c.len() - 1], c.len() as int) {
        Some(c.last())
    } else {
        reservoir(c.drop_last(), draws)
    }
}

/// The first index of `x` in `s`.
pub open spec fn index_of_vid(s: Seq<VolumeId>, x: VolumeId) -> Option<int>
    decreases s.len(),
{
    if s.len() == 0 {
        None
    } else {
        match index_of_vid(s.drop_last(), x) {
            Some(i) => Some(i),
            None => if s.last() == x {
                Some(s.len() - 1)
            } else {
                None
            },
        }
    }
}

/// `s` without the first `x` in it.
pub open spec fn remove_vid(s: Seq<VolumeId>, x: VolumeId) -> Seq<VolumeId> {
    match index_of_vid(s, x) {
        Some(i) => s.remove(i),
        None => s,
    }
}

/// `s` with `x` added last unless it is there already.
pub open spec fn add_vid(s: Seq<VolumeId>, x: VolumeId) -> Seq<VolumeId> {
    if s.contains(x) {
        s
    } else {
        s.push(x)
    }
}

/// The nodes at `a` and `b` have the same ip and port.
pub open spec fn same_addr(dcs: Seq<DataCenter>, a: NodeLoc, b: NodeLoc) -> bool {
    node_at(dcs, a).ip@ == node_at(dcs, b).ip@ && node_at(dcs, a).port == node_at(dcs, b).port
}

/// The first place of `list` whose node has the address of the node at `nd`.
pub open spec fn first_same_addr(dcs: Seq<DataCenter>, list: Seq<NodeLoc>, nd: NodeLoc) -> Option<int>
    decreases list.len(),
{
    if list.len() == 0 {
        None
    } else {
        match first_same_addr(dcs, list.drop_last(), nd) {
            Some(i) => Some(i),
            None => if same_addr(dcs, list.last(), nd) {
                Some(list.len() - 1)
            } else {
                None
            },
        }
    }
}

/// `list` with `nd` in place of the first node with its address, or with `nd` added.
pub open spec fn set_node_spec(dcs: Seq<DataCenter>, list: Seq<NodeLoc>, nd: NodeLoc) -> Seq<NodeLoc> {
    match first_same_addr(dcs, list, nd) {
        Some(i) => list.update(i, nd),
        None => list.push(nd),
    }
}

/// The writable list and read-only set after looking at the copy of volume `vid` on
/// the node at `l`: a read-only copy makes the volume read-only, and a node without
/// the volume takes it out of both.
pub open spec fn reg_step(dcs: Seq<DataCenter>, vid: VolumeId, st: (Seq<VolumeId>, Set<VolumeId>), l: NodeLoc) -> (Seq<VolumeId>, Set<VolumeId>) {
    let n = node_at(dcs, l);
    if n.volumes@.contains_key(vid) {
        let v2 = n.volumes@[vid];
        if v2.read_only {
            (remove_vid(st.0, v2.id), st.1.insert(v2.id))
        } else {
            st
        }
    } else {
        (remove_vid(st.0, vid), st.1.remove(vid))
    }
}

/// [`reg_step`] over each place of `locs` in order.
pub open spec fn reg_fold(dcs: Seq<DataCenter>, vid: VolumeId, st: (Seq<VolumeId>, Set<VolumeId>), locs: Seq<NodeLoc>) -> (Seq<VolumeId>, Set<VolumeId>)
    decreases locs.len(),
{
    if locs.len() == 0 {
        st
    } else {
        reg_step(dcs, vid, reg_fold(dcs, vid, st, locs.drop_last()), locs.last())
    }
}

/// Volume `v` is at or over the size limit `limit`.
pub open spec fn oversized(v: VolumeInfo, limit: u64) -> bool {
    v.size >= limit
}

/// Volume `v` may take writes: under the size limit, of the current version, and not
/// read-only.
pub open spec fn writable_info(v: VolumeInfo, limit: u64) -> bool {
    !oversized(v, limit) && v.version == CURRENT_VERSION && !v.read_only
}

/// The message when no volume takes writes.
pub open spec fn no_writable_text() -> Seq<char> {
    "no writable volumes"@
}

/// The message when no node passes the option.
pub open spec fn no_match_text() -> Seq<char> {
    "no match node"@
}

impl VolumeLayout {
    /// The writable list holds each volume once, and only volumes with a place.
    pub open spec fn wf(&self) -> bool {
        &&& self.writable_volumes@.no_duplicates()
        &&& forall|v: VolumeId| #[trigger] self.writable_volumes@.contains(v) ==> self.locations(v).len() > 0
    }

    /// Every place this layout keeps names a node of `dcs`.
    pub open spec fn locs_valid(&self, dcs: Seq<DataCenter>) -> bool {
        forall|vid: VolumeId| #[trigger] self.vid2location@.contains_key(vid) ==> locs_ok(dcs, self.vid2location@[vid]@)
    }

    /// The places of the copies of volume `vid`.
    pub open spec fn locations(&self, vid: VolumeId) -> Seq<NodeLoc> {
        locs_of(self.vid2location@, vid)
    }

    /// An empty layout.
    pub fn new(rp: ReplicaPlacement, ttl: Option<TTL>, volume_size_limit: u64) -> (r: VolumeLayout)
        ensures
            r.rp == rp,
            r.ttl == ttl,
            r.volume_size_limit == volume_size_limit,
            r.writable_volumes@.len() == 0,
            r.readonly_volumes@ == Set::<VolumeId>::empty(),
            r.oversize_volumes@ == Set::<VolumeId>::empty(),
            r.vid2location@ == Map::<VolumeId, Vec<NodeLoc>>::empty(),
            r.wf(),
    {
        VolumeLayout {
            rp,
            ttl,
            volume_size_limit,
            writable_volumes: Vec::new(),
            readonly_volumes: HashSet::new(),
            oversize_volumes: HashSet::new(),
            vid2location: HashMap::new(),
        }
    }

    /// The places of the copies of volume `vid`, copied out.
    fn locs_copy(&self, vid: VolumeId) -> (r: Vec<NodeLoc>)
        ensures
            r@ == self.locations(vid),
    {
        let mut r: Vec<NodeLoc> = Vec::new();
        match self.vid2location.get(&vid) {
            None => {},
            Some(list) => {
                let mut i: usize = 0;
                while i < list.len()
                    invariant
                        i <= list@.len(),
                        r@ == list@.take(i as int),
                    decreases list@.len() - i,
                {
                    r.push(list[i]);
                    assert(list@.take(i + 1) =~= list@.take(i as int).push(list@[i as int]));
                    i = i + 1;
                }
                assert(list@.take(i as int) =~= list@);
            },
        }
        r
    }

    /// How many copies of writable volumes are on nodes in exactly the data center, rack
    /// and node of `option`; with no data center asked for, how many volumes are writable.
    pub fn get_active_volume_count(&self, option: &VolumeGrowOption, dcs: &Vec<DataCenter>) -> (r: i64)
        requires
            self.locs_valid(dcs@),
        ensures
            r == if option.data_center@.len() == 0 {
                self.writable_volumes@.len() as i64
            } else {
                active_from(dcs@, self.writable_volumes@, self.vid2location@, option)
            },
    {
        if option.data_center.unicode_len() == 0 {
            return self.writable_volumes.len() as i64;
        }
        let ghost ws = self.writable_volumes@;
        let ghost m = self.vid2location@;
        let mut count: i64 = 0;
        let mut i: usize = 0;
        while i < self.writable_volumes.len()
            invariant
                i <= ws.len(),
                ws == self.writable_volumes@,
                m == self.vid2location@,
                self.locs_valid(dcs@),
                count == active_from(dcs@, ws.take(i as int), m, option),
            decreases ws.len() - i,
        {
            let vid = self.writable_volumes[i];
            let locs = self.locs_copy(vid);
            proof {
                assert(ws.take(i + 1).drop_last() =~= ws.take(i as int));
                if m.contains_key(vid) {
                    assert(locs_ok(dcs@, m[vid]@));
                }
            }
            let ghost base = count;
            let mut j: usize = 0;
            while j < locs.len()
                invariant
                    j <= locs@.len(),
                    locs@ == locs_of(m, vid),
                    locs_ok(dcs@, locs@),
                    count == count_from(dcs@, locs@.take(j as int), option, base),
                decreases locs@.len() - j,
            {
                let n = node_ref(dcs, locs[j]);
                proof {
                    assert(locs@.take(j + 1).drop_last() =~= locs@.take(j as int));
                }
                if n.id == option.data_node && n.rack == option.rack && n.data_center == option.data_center {
                    count = count.wrapping_add(1);
                }
                j = j + 1;
            }
            assert(locs@.take(j as int) =~= locs@);
            i = i + 1;
        }
        assert(ws.take(i as int) =~= ws);
        count
    }
}

impl VolumeLayout {
    /// The volumes a write may go to under `option`, each once per copy on a node that
    /// passes it: see [`cands`].
    pub fn candidates(&self, option: &VolumeGrowOption, dcs: &Vec<DataCenter>) -> (r: Vec<VolumeId>)
        requires
            self.locs_valid(dcs@),
        ensures
            r@ == cands(dcs@, self.writable_volumes@, self.vid2location@, option),
    {
        let ghost ws = self.writable_volumes@;
        let ghost m = self.vid2location@;
        let mut r: Vec<VolumeId> = Vec::new();
        let mut i: usize = 0;
        while i < self.writable_volumes.len()
            invariant
                i <= ws.len(),
                ws == self.writable_volumes@,
                m == self.vid2location@,
                self.locs_valid(dcs@),
                r@ == cands(dcs@, ws.take(i as int), m, option),
            decreases ws.len() - i,
        {
            let vid = self.writable_volumes[i];
            let locs = self.locs_copy(vid);
            proof {
                assert(ws.take(i + 1).drop_last() =~= ws.take(i as int));
                if m.contains_key(vid) {
                    assert(locs_ok(dcs@, m[vid]@));
                }
            }
            let ghost base = r@;
            let mut j: usize = 0;
            while j < locs.len()
                invariant
                    j <= locs@.len(),
                    locs@ == locs_of(m, vid),
                    locs_ok(dcs@, locs@),
                    r@ == base + cands_in(dcs@, locs@.take(j as int), option, vid),
                decreases locs@.len() - j,
            {
                let n = node_ref(dcs, locs[j]);
                proof {
                    assert(locs@.take(j + 1).drop_last() =~= locs@.take(j as int));
                }
                let skip = option.data_center.unicode_len() != 0 && option.data_center != n.data_center
                    || option.rack.unicode_len() != 0 && option.rack != n.rack
                    || option.data_node.unicode_len() != 0 && option.data_node != n.id;
                if !skip {
                    r.push(vid);
                    assert(r@ =~= base + cands_in(dcs@, locs@.take(j + 1), option, vid));
                }
                j = j + 1;
            }
            assert(locs@.take(j as int) =~= locs@);
            i = i + 1;
        }
        assert(ws.take(i as int) =~= ws);
        r
    }

    /// The volume picked for a write under `option`, with the draws `draws` (one per
    /// candidate), and the places of its copies.
    pub fn pick_for_write_with(&self, option: &VolumeGrowOption, dcs: &Vec<DataCenter>, draws: &Vec<i64>) -> (r: Result<(VolumeId, Vec<NodeLoc>), Error>)
        requires
            self.locs_valid(dcs@),
            draws@.len() == cands(dcs@, self.writable_volumes@, self.vid2location@, option).len(),
        ensures
            self.writable_volumes@.len() == 0 ==> (r matches Err(Error::NoWritableVolume(m)) && m@ == no_writable_text()),
            self.writable_volumes@.len() != 0 ==> match reservoir(cands(dcs@, self.writable_volumes@, self.vid2location@, option), draws@) {
                Some(vid) => r matches Ok((v, locs)) && v == vid && locs@ == self.locations(vid),
                None => r matches Err(Error::NoWritableVolume(m)) && m@ == no_match_text(),
            },
    {
        if self.writable_volumes.len() == 0 {
            return Err(Error::NoWritableVolume(String::from_str("no writable volumes")));
        }
        let c = self.candidates(option, dcs);
        match pick_by_turns(&c, draws) {
            Some(vid) => Ok((vid, self.locs_copy(vid))),
            None => Err(Error::NoWritableVolume(String::from_str("no match node"))),
        }
    }

    /// Picks at random a volume for a write under `option` among the writable volumes
    /// with a copy on a node that passes it, and returns it with the places of its copies.
    pub fn pick_for_write(&self, option: &VolumeGrowOption, dcs: &Vec<DataCenter>) -> (r: Result<(VolumeId, Vec<NodeLoc>), Error>)
        requires
            self.locs_valid(dcs@),
        ensures
            self.writable_volumes@.len() == 0 ==> (r matches Err(Error::NoWritableVolume(m)) && m@ == no_writable_text()),
            self.writable_volumes@.len() != 0 && cands(dcs@, self.writable_volumes@, self.vid2location@, option).len() == 0
                ==> (r matches Err(Error::NoWritableVolume(m)) && m@ == no_match_text()),
            r matches Ok((v, locs)) ==> cands(dcs@, self.writable_volumes@, self.vid2location@, option).contains(v)
                && locs@ == self.locations(v),
            cands(dcs@, self.writable_volumes@, self.vid2location@, option).len() > 0 ==> r is Ok,
    {
        if self.writable_volumes.len() == 0 {
            return Err(Error::NoWritableVolume(String::from_str("no writable volumes")));
        }
        let c = self.candidates(option, dcs);
        let mut draws: Vec<i64> = Vec::new();
        let mut k: usize = 0;
        while k < c.len()
            invariant
                k <= c@.len(),
                draws@.len() == k,
            decreases c@.len() - k,
        {
            draws.push(random_i64());
            k = k + 1;
        }
        proof {
            lemma_reservoir(c@, draws@);
        }
        self.pick_for_write_with(option, dcs, &draws)
    }
}

/// When an option asks for no data center, rack or node, every place of the writable
/// volumes is a candidate: there are candidates as soon as a writable volume has a place.
pub proof fn lemma_cands_unrestricted(dcs: Seq<DataCenter>, ws: Seq<VolumeId>, m: Map<VolumeId, Vec<NodeLoc>>, o: &VolumeGrowOption)
    requires
        o.data_center@.len() == 0,
        o.rack@.len() == 0,
        o.data_node@.len() == 0,
        ws.len() > 0,
        forall|v: VolumeId| #[trigger] ws.contains(v) ==> locs_of(m, v).len() > 0,
    ensures
        cands(dcs, ws, m, o).len() > 0,
{
    lemma_cands_in_all(dcs, locs_of(m, ws.last()), o, ws.last());
    assert(ws.contains(ws.last()));
}

proof fn lemma_cands_in_all(dcs: Seq<DataCenter>, locs: Seq<NodeLoc>, o: &VolumeGrowOption, vid: VolumeId)
    requires
        o.data_center@.len() == 0,
        o.rack@.len() == 0,
        o.data_node@.len() == 0,
    ensures
        cands_in(dcs, locs, o, vid).len() == locs.len(),
    decreases locs.len(),
{
    if locs.len() > 0 {
        lemma_cands_in_all(dcs, locs.drop_last(), o, vid);
    }
}

/// The pick is one of the candidates, and there is one whenever there are candidates.
pub proof fn lemma_reservoir(c: Seq<VolumeId>, draws: Seq<i64>)
    ensures
        reservoir(c, draws) matches Some(v) ==> c.contains(v),
        c.len() > 0 ==> reservoir(c, draws) is Some,
    decreases c.len(),
{
    if c.len() > 0 {
        if !takes_turn(draws[c.len() - 1], c.len() as int) {
            lemma_reservoir(c.drop_last(), draws);
            match reservoir(c, draws) {
                Some(v) => {
                    let i = choose|i: int| 0 <= i < c.drop_last().len() && c.drop_last()[i] == v;
                    assert(c[i] == v);
                },
                None => {},
            }
            if c.len() > 1 {
            } else {
                assert(takes_turn(draws[0], 1));
            }
        } else {
            assert(c[c.len() - 1] == c.last());
        }
    }
}

/// Whether the `k`-th candidate met (counting from 1) takes its turn with draw `d`.
fn takes_turn_exec(d: i64, k: usize) -> (r: bool)
    requires
        k > 0,
    ensures
        r == takes_turn(d, k as int),
{
    d <= 0 || (d as u64) % (k as u64) == 0
}

/// Goes through the candidates `c` with one draw each and keeps the last that took its
/// turn: see [`reservoir`].
fn pick_by_turns(c: &Vec<VolumeId>, draws: &Vec<i64>) -> (r: Option<VolumeId>)
    requires
        draws@.len() == c@.len(),
    ensures
        r == reservoir(c@, draws@),
{
    let mut pick: Option<VolumeId> = None;
    let mut k: usize = 0;
    while k < c.len()
        invariant
            k <= c@.len(),
            draws@.len() == c@.len(),
            pick == reservoir(c@.take(k as int), draws@),
        decreases c@.len() - k,
    {
        proof {
            assert(c@.take(k + 1).drop_last() =~= c@.take(k as int));
        }
        if takes_turn_exec(draws[k], k + 1) {
            pick = Some(c[k]);
        }
        k = k + 1;
    }
    assert(c@.take(k as int) =~= c@);
    pick
}

/// `remove_vid` keeps a list without repeats free of repeats, and takes `x` out of it.
pub proof fn lemma_remove_vid(s: Seq<VolumeId>, x: VolumeId)
    requires
        s.no_duplicates(),
    ensures
        remove_vid(s, x).no_duplicates(),
        !remove_vid(s, x).contains(x),
        forall|y: VolumeId| y != x ==> (remove_vid(s, x).contains(y) <==> s.contains(y)),
{
    lemma_index_of_vid(s, x);
    match index_of_vid(s, x) {
        Some(i) => {
            let r = s.remove(i);
            assert forall|a: int, b: int| 0 <= a < b < r.len() implies r[a] != r[b] by {
                let a2 = if a < i { a } else { a + 1 };
                let b2 = if b < i { b } else { b + 1 };
                assert(r[a] == s[a2] && r[b] == s[b2]);
            }
            assert forall|y: VolumeId| y != x implies (r.contains(y) <==> s.contains(y)) by {
                if s.contains(y) {
                    let k = choose|k: int| 0 <= k < s.len() && s[k] == y;
                    if k < i {
                        assert(r[k] == y);
                    } else if k > i {
                        assert(r[k - 1] == y);
                    }
                }
                if r.contains(y) {
                    let k = choose|k: int| 0 <= k < r.len() && r[k] == y;
                    if k < i {
                        assert(s[k] == y);
                    } else {
                        assert(s[k + 1] == y);
                    }
                }
            }
            assert(!r.contains(x)) by {
                if r.contains(x) {
                    let k = choose|k: int| 0 <= k < r.len() && r[k] == x;
                    if k < i {
                        assert(s[k] == x);
                    } else {
                        assert(s[k + 1] == x);
                    }
                }
            }
        },
        None => {},
    }
}

proof fn lemma_index_of_vid(s: Seq<VolumeId>, x: VolumeId)
    ensures
        index_of_vid(s, x) matches Some(i) ==> 0 <= i < s.len() && s[i] == x && forall|j: int| 0 <= j < i ==> s[j] != x,
        index_of_vid(s, x) is None <==> !s.contains(x),
    decreases s.len(),
{
    if s.len() > 0 {
        lemma_index_of_vid(s.drop_last(), x);
        assert forall|j: int| 0 <= j < s.len() - 1 implies s[j] == s.drop_last()[j] by {}
        if s.contains(x) && !s.drop_last().contains(x) {
            let k = choose|k: int| 0 <= k < s.len() && s[k] == x;
            if k < s.len() - 1 {
                assert(s.drop_last()[k] == x);
            }
        }
        if s.drop_last().contains(x) {
            let k = choose|k: int| 0 <= k < s.drop_last().len() && s.drop_last()[k] == x;
            assert(s[k] == x);
        }
    }
}

proof fn lemma_first_same_addr(dcs: Seq<DataCenter>, list: Seq<NodeLoc>, nd: NodeLoc)
    ensures
        first_same_addr(dcs, list, nd) matches Some(i) ==> 0 <= i < list.len() && same_addr(dcs, list[i], nd)
            && forall|j: int| 0 <= j < i ==> !same_addr(dcs, #[trigger] list[j], nd),
        first_same_addr(dcs, list, nd) is None ==> forall|j: int| 0 <= j < list.len() ==> !same_addr(dcs, #[trigger] list[j], nd),
    decreases list.len(),
{
    if list.len() > 0 {
        lemma_first_same_addr(dcs, list.drop_last(), nd);
        assert forall|j: int| 0 <= j < list.len() - 1 implies list[j] == list.drop_last()[j] by {}
    }
}

/// `list` with `nd` in place of the first node with its address, or with `nd` added
/// last when no node has it.
fn set_node(list: &mut Vec<NodeLoc>, nd: NodeLoc, dcs: &Vec<DataCenter>)
    requires
        locs_ok(dcs@, old(list)@),
        loc_ok(dcs@, nd),
    ensures
        final(list)@ == set_node_spec(dcs@, old(list)@, nd),
        locs_ok(dcs@, final(list)@),
{
    proof {
        lemma_first_same_addr(dcs@, list@, nd);
    }
    let n = node_ref(dcs, nd);
    let mut same: Option<usize> = None;
    let mut i: usize = 0;
    while i < list.len()
        invariant
            i <= list@.len(),
            list@ == old(list)@,
            locs_ok(dcs@, list@),
            loc_ok(dcs@, nd),
            *n == node_at(dcs@, nd),
            same matches Some(k) ==> k < list@.len() && first_same_addr(dcs@, list@, nd) == Some(k as int)
                && i == list@.len(),
            same is None ==> forall|j: int| 0 <= j < i ==> !same_addr(dcs@, #[trigger] list@[j], nd),
        decreases list@.len() - i,
    {
        let e = node_ref(dcs, list[i]);
        if e.ip != n.ip || e.port != n.port {
            i = i + 1;
        } else {
            proof {
                lemma_first_same_addr(dcs@, list@, nd);
                match first_same_addr(dcs@, list@, nd) {
                    Some(f) => {
                        if f < i {
                            assert(!same_addr(dcs@, list@[f], nd));
                        }
                        if f > i {
                            assert(same_addr(dcs@, list@[i as int], nd));
                        }
                    },
                    None => {
                        assert(same_addr(dcs@, list@[i as int], nd));
                    },
                }
            }
            same = Some(i);
            i = list.len();
        }
    }
    proof {
        lemma_first_same_addr(dcs@, list@, nd);
        if same is None {
            assert(i == list@.len());
            match first_same_addr(dcs@, list@, nd) {
                Some(f) => {
                    assert(0 <= f < i);
                    assert(!same_addr(dcs@, list@[f], nd));
                },
                None => {},
            }
        }
    }
    match same {
        Some(idx) => {
            list.set(idx, nd);
        },
        None => {
            list.push(nd);
        },
    }
    assert forall|j: int| 0 <= j < list@.len() implies loc_ok(dcs@, #[trigger] list@[j]) by {
        if j < old(list)@.len() && list@[j] != nd {
            assert(list@[j] == old(list)@[j]);
        }
    }
}

impl VolumeLayout {
    /// Takes the first `vid` out of the writable list.
    fn remove_from_writable(&mut self, vid: VolumeId)
        ensures
            final(self).writable_volumes@ == remove_vid(old(self).writable_volumes@, vid),
            final(self).rp == old(self).rp,
            final(self).ttl == old(self).ttl,
            final(self).volume_size_limit == old(self).volume_size_limit,
            final(self).readonly_volumes@ == old(self).readonly_volumes@,
            final(self).oversize_volumes@ == old(self).oversize_volumes@,
            final(self).vid2location@ == old(self).vid2location@,
    {
        proof {
            lemma_index_of_vid(self.writable_volumes@, vid);
        }
        let mut idx: Option<usize> = None;
        let mut i: usize = 0;
        while i < self.writable_volumes.len()
            invariant
                i <= self.writable_volumes@.len(),
                self.writable_volumes@ == old(self).writable_volumes@,
                idx is None ==> forall|j: int| 0 <= j < i ==> self.writable_volumes@[j] != vid,
                idx matches Some(k) ==> k < self.writable_volumes@.len() && index_of_vid(self.writable_volumes@, vid)
                    == Some(k as int) && i == self.writable_volumes@.len(),
            decreases self.writable_volumes@.len() - i,
        {
            if self.writable_volumes[i] == vid {
                proof {
                    lemma_index_of_vid(self.writable_volumes@, vid);
                    match index_of_vid(self.writable_volumes@, vid) {
                        Some(f) => {
                            if f < i {
                                assert(self.writable_volumes@[f] != vid);
                            }
                        },
                        None => {
                            assert(self.writable_volumes@[i as int] == vid);
                        },
                    }
                }
                idx = Some(i);
                i = self.writable_volumes.len();
            } else {
                i = i + 1;
            }
        }
        match idx {
            Some(k) => {
                self.writable_volumes.remove(k);
            },
            None => {
                assert(!self.writable_volumes@.contains(vid));
                assert(index_of_vid(self.writable_volumes@, vid) is None);
            },
        }
    }

    /// Adds `vid` last to the writable list unless it is there.
    fn add_to_writable(&mut self, vid: VolumeId)
        ensures
            final(self).writable_volumes@ == add_vid(old(self).writable_volumes@, vid),
            final(self).rp == old(self).rp,
            final(self).ttl == old(self).ttl,
            final(self).volume_size_limit == old(self).volume_size_limit,
            final(self).readonly_volumes@ == old(self).readonly_volumes@,
            final(self).oversize_volumes@ == old(self).oversize_volumes@,
            final(self).vid2location@ == old(self).vid2location@,
    {
        let mut i: usize = 0;
        while i < self.writable_volumes.len()
            invariant
                i <= self.writable_volumes@.len(),
                self.writable_volumes@ == old(self).writable_volumes@,
                forall|j: int| 0 <= j < i ==> self.writable_volumes@[j] != vid,
            decreases self.writable_volumes@.len() - i,
        {
            if self.writable_volumes[i] == vid {
                assert(self.writable_volumes@.contains(vid));
                return;
            }
            i = i + 1;
        }
        self.writable_volumes.push(vid);
    }

    /// Whether volume `v` is at or over this layout's size limit.
    fn is_oversized(&self, v: &VolumeInfo) -> (r: bool)
        ensures
            r == oversized(*v, self.volume_size_limit),
    {
        v.size >= self.volume_size_limit
    }

    /// Whether volume `v` may take writes here.
    fn is_writable(&self, v: &VolumeInfo) -> (r: bool)
        ensures
            r == writable_info(*v, self.volume_size_limit),
    {
        !self.is_oversized(v) && v.version == CURRENT_VERSION && !v.read_only
    }

    /// Marks `v` oversized when it is.
    fn set_oversized_if_need(&mut self, v: &VolumeInfo)
        ensures
            final(self).oversize_volumes@ == if oversized(*v, old(self).volume_size_limit) {
                old(self).oversize_volumes@.insert(v.id)
            } else {
                old(self).oversize_volumes@
            },
            final(self).rp == old(self).rp,
            final(self).ttl == old(self).ttl,
            final(self).volume_size_limit == old(self).volume_size_limit,
            final(self).readonly_volumes@ == old(self).readonly_volumes@,
            final(self).writable_volumes@ == old(self).writable_volumes@,
            final(self).vid2location@ == old(self).vid2location@,
    {
        if self.is_oversized(v) {
            self.oversize_volumes.insert(v.id);
        }
    }

    /// Volume `v` no longer takes writes (its places are kept).
    pub fn un_register_volume(&mut self, v: &VolumeInfo, _dn: NodeLoc)
        ensures
            final(self).writable_volumes@ == remove_vid(old(self).writable_volumes@, v.id),
            final(self).rp == old(self).rp,
            final(self).ttl == old(self).ttl,
            final(self).volume_size_limit == old(self).volume_size_limit,
            final(self).readonly_volumes@ == old(self).readonly_volumes@,
            final(self).oversize_volumes@ == old(self).oversize_volumes@,
            final(self).vid2location@ == old(self).vid2location@,
            old(self).wf() ==> final(self).wf() && !final(self).writable_volumes@.contains(v.id),
    {
        let ghost old_self = *self;
        proof {
            if self.wf() {
                lemma_remove_vid(self.writable_volumes@, v.id);
            }
        }
        self.remove_from_writable(v.id);
        proof {
            if old_self.wf() {
                assert forall|y: VolumeId| #[trigger] self.writable_volumes@.contains(y) implies self.locations(y).len() > 0 by {
                    assert(old_self.writable_volumes@.contains(y));
                }
            }
        }
    }

    /// The places of the copies of volume `vid`, if it is known here.
    pub fn lookup(&self, vid: VolumeId) -> (r: Option<Vec<NodeLoc>>)
        ensures
            match r {
                Some(l) => self.vid2location@.contains_key(vid) && l@ == self.vid2location@[vid]@,
                None => !self.vid2location@.contains_key(vid),
            },
    {
        if self.vid2location.contains_key(&vid) {
            Some(self.locs_copy(vid))
        } else {
            None
        }
    }
}

/// How many copies placement `rp` asks for, as `get_copy_count` gives it.
pub open spec fn copy_count(rp: ReplicaPlacement) -> int {
    (rp.diff_data_center_count + rp.diff_rack_count + rp.same_rack_count + 1) % 256
}

/// [`reg_fold`] keeps the writable list free of repeats.
proof fn lemma_reg_fold_wf(dcs: Seq<DataCenter>, vid: VolumeId, st: (Seq<VolumeId>, Set<VolumeId>), locs: Seq<NodeLoc>)
    requires
        st.0.no_duplicates(),
    ensures
        reg_fold(dcs, vid, st, locs).0.no_duplicates(),
        forall|y: VolumeId| #[trigger] reg_fold(dcs, vid, st, locs).0.contains(y) ==> st.0.contains(y),
    decreases locs.len(),
{
    if locs.len() > 0 {
        lemma_reg_fold_wf(dcs, vid, st, locs.drop_last());
        let p = reg_fold(dcs, vid, st, locs.drop_last());
        let n = node_at(dcs, locs.last());
        if n.volumes@.contains_key(vid) {
            lemma_remove_vid(p.0, n.volumes@[vid].id);
        } else {
            lemma_remove_vid(p.0, vid);
        }
        assert forall|y: VolumeId| #[trigger] reg_fold(dcs, vid, st, locs).0.contains(y) implies st.0.contains(y) by {
            assert(p.0.contains(y));
        }
    }
}

impl VolumeLayout {
    /// Records that the node at `dn` holds a copy of volume `v`: the node takes the place
    /// of the node with its address among the volume's places (or is added), the volume
    /// is made read-only if a copy is, and it takes writes only when it has all its
    /// copies and may take writes (see the contract for each case).
    pub fn register_volume(&mut self, v: &VolumeInfo, dn: NodeLoc, dcs: &Vec<DataCenter>)
        requires
            old(self).locs_valid(dcs@),
            loc_ok(dcs@, dn),
        ensures
            ({
                let l1 = set_node_spec(dcs@, old(self).locations(v.id), dn);
                let (w1, ro1) = reg_fold(dcs@, v.id, (old(self).writable_volumes@, old(self).readonly_volumes@), l1);
                &&& final(self).vid2location@.dom() == old(self).vid2location@.dom().insert(v.id)
                &&& final(self).vid2location@[v.id]@ == l1
                &&& forall|k: VolumeId| k != v.id && #[trigger] old(self).vid2location@.contains_key(k) ==>
                    final(self).vid2location@[k] == old(self).vid2location@[k]
                &&& final(self).readonly_volumes@ == ro1
                &&& if l1.len() == copy_count(old(self).rp) && writable_info(*v, old(self).volume_size_limit) {
                    &&& final(self).writable_volumes@ == if old(self).oversize_volumes@.contains(v.id) {
                        w1
                    } else {
                        add_vid(w1, v.id)
                    }
                    &&& final(self).oversize_volumes@ == old(self).oversize_volumes@
                } else {
                    &&& final(self).writable_volumes@ == remove_vid(w1, v.id)
                    &&& final(self).oversize_volumes@ == if oversized(*v, old(self).volume_size_limit) {
                        old(self).oversize_volumes@.insert(v.id)
                    } else {
                        old(self).oversize_volumes@
                    }
                }
            }),
            final(self).rp == old(self).rp,
            final(self).ttl == old(self).ttl,
            final(self).volume_size_limit == old(self).volume_size_limit,
            final(self).locs_valid(dcs@),
            old(self).wf() ==> final(self).wf(),
            old(self).wf() && final(self).writable_volumes@.contains(v.id) ==> final(self).locations(v.id).len()
                == copy_count(old(self).rp) && writable_info(*v, old(self).volume_size_limit),
    {
        let ghost old_self = *self;
        let mut list = self.locs_copy(v.id);
        proof {
            if self.vid2location@.contains_key(v.id) {
                assert(locs_ok(dcs@, self.vid2location@[v.id]@));
            }
        }
        set_node(&mut list, dn, dcs);
        let ghost l1 = list@;
        let list2 = copy_locs(&list);
        self.vid2location.insert(v.id, list2);
        let ghost st0 = (self.writable_volumes@, self.readonly_volumes@);
        let mut i: usize = 0;
        while i < list.len()
            invariant
                i <= l1.len(),
                list@ == l1,
                locs_ok(dcs@, l1),
                (self.writable_volumes@, self.readonly_volumes@) == reg_fold(dcs@, v.id, st0, l1.take(i as int)),
                self.rp == old_self.rp,
                self.ttl == old_self.ttl,
                self.volume_size_limit == old_self.volume_size_limit,
                self.oversize_volumes@ == old_self.oversize_volumes@,
                self.vid2location@ == old_self.vid2location@.insert(v.id, list2),
            decreases l1.len() - i,
        {
            proof {
                assert(l1.take(i + 1).drop_last() =~= l1.take(i as int));
            }
            let n = node_ref(dcs, list[i]);
            match n.volumes.get(&v.id) {
                Some(v2) => {
                    if v2.read_only {
                        self.remove_from_writable(v2.id);
                        self.readonly_volumes.insert(v2.id);
                    }
                },
                None => {
                    self.remove_from_writable(v.id);
                    self.readonly_volumes.remove(&v.id);
                },
            }
            i = i + 1;
        }
        assert(l1.take(i as int) =~= l1);
        proof {
            if old_self.wf() {
                lemma_reg_fold_wf(dcs@, v.id, st0, l1);
            }
        }
        if list.len() == self.rp.get_copy_count() as usize && self.is_writable(v) {
            if !self.oversize_volumes.contains(&v.id) {
                self.add_to_writable(v.id);
            }
        } else {
            proof {
                if old_self.wf() {
                    lemma_remove_vid(self.writable_volumes@, v.id);
                }
            }
            self.remove_from_writable(v.id);
            self.set_oversized_if_need(v);
            assert(old_self.wf() ==> !self.writable_volumes@.contains(v.id));
        }
        proof {
            assert forall|vid: VolumeId| #[trigger] self.vid2location@.contains_key(vid) implies locs_ok(
                dcs@,
                self.vid2location@[vid]@,
            ) by {
                if vid != v.id {
                    assert(old_self.vid2location@.contains_key(vid));
                }
            }
            assert(self.vid2location@.dom() =~= old_self.vid2location@.dom().insert(v.id));
            if old_self.wf() {
                lemma_set_node_len(dcs@, old_self.locations(v.id), dn);
                let w1 = reg_fold(dcs@, v.id, st0, l1).0;
                assert forall|y: VolumeId| #[trigger] self.writable_volumes@.contains(y) implies self.locations(y).len() > 0 by {
                    if y != v.id {
                        if self.writable_volumes@ == remove_vid(w1, v.id) {
                            lemma_remove_vid(w1, v.id);
                        }
                        assert(w1.contains(y));
                        assert(old_self.writable_volumes@.contains(y));
                        assert(old_self.vid2location@.contains_key(y));
                    }
                }
            }
        }
    }
}

/// Setting a node among places leaves at least one place.
proof fn lemma_set_node_len(dcs: Seq<DataCenter>, list: Seq<NodeLoc>, nd: NodeLoc)
    ensures
        set_node_spec(dcs, list, nd).len() >= 1,
{
    lemma_first_same_addr(dcs, list, nd);
}

/// A copy of the places `l`.
fn copy_locs(l: &Vec<NodeLoc>) -> (r: Vec<NodeLoc>)
    ensures
        r@ == l@,
{
    let mut r: Vec<NodeLoc> = Vec::new();
    let mut i: usize = 0;
    while i < l.len()
        invariant
            i <= l@.len(),
            r@ == l@.take(i as int),
        decreases l@.len() - i,
    {
        r.push(l[i]);
        assert(l@.take(i + 1) =~= l@.take(i as int).push(l@[i as int]));
        i = i + 1;
    }
    assert(l@.take(i as int) =~= l@);
    r
}

/// A volume that is a candidate for a write has at least one place.
pub proof fn lemma_cands_have_locs(dcs: Seq<DataCenter>, ws: Seq<VolumeId>, m: Map<VolumeId, Vec<NodeLoc>>, o: &VolumeGrowOption, v: VolumeId)
    requires
        cands(dcs, ws, m, o).contains(v),
    ensures
        locs_of(m, v).len() > 0,
    decreases ws.len(),
{
    if ws.len() > 0 {
        let a = cands(dcs, ws.drop_last(), m, o);
        let b = cands_in(dcs, locs_of(m, ws.last()), o, ws.last());
        let k = choose|k: int| 0 <= k < (a + b).len() && (a + b)[k] == v;
        if k < a.len() {
            assert(a[k] == v);
            lemma_cands_have_locs(dcs, ws.drop_last(), m, o, v);
        } else {
            assert(b[k - a.len()] == v);
            lemma_cands_in_members(dcs, locs_of(m, ws.last()), o, ws.last());
        }
    }
}

proof fn lemma_cands_in_members(dcs: Seq<DataCenter>, locs: Seq<NodeLoc>, o: &VolumeGrowOption, vid: VolumeId)
    ensures
        cands_in(dcs, locs, o, vid).len() <= locs.len(),
        forall|k: int| 0 <= k < cands_in(dcs, locs, o, vid).len() ==> #[trigger] cands_in(dcs, locs, o, vid)[k] == vid,
    decreases locs.len(),
{
    if locs.len() > 0 {
        lemma_cands_in_members(dcs, locs.drop_last(), o, vid);
    }
}

/// The first node of `list` with the address of the node at `nd` has it, and none
/// before it does.
pub proof fn lemma_first_same_addr_pub(dcs: Seq<DataCenter>, list: Seq<NodeLoc>, nd: NodeLoc)
    ensures
        first_same_addr(dcs, list, nd) matches Some(i) ==> 0 <= i < list.len() && same_addr(dcs, list[i], nd)
            && forall|j: int| 0 <= j < i ==> !same_addr(dcs, #[trigger] list[j], nd),
        first_same_addr(dcs, list, nd) is None ==> forall|j: int| 0 <= j < list.len() ==> !same_addr(dcs, #[trigger] list[j], nd),
{
    lemma_first_same_addr(dcs, list, nd);
}

} // verus!
