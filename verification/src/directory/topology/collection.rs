//! A collection: the volume layouts of one collection name, one per replication and ttl.
use vstd::prelude::*;
use crate::directory::topology::data_center::DataCenter;
use crate::directory::topology::node::NodeLoc;
use crate::directory::topology::volume_layout::VolumeLayout;
use crate::storage::replica_placement::{ReplicaPlacement, placement_text};
use crate::storage::ttl::{TTL, Unit, ttl_text, unit_letters};
use crate::text::dec_str;
use crate::storage::VolumeId;

verus! {

/// The key of the layout for placement `rp` and ttl `ttl`: the placement's text,
/// followed by the ttl's text when there is a ttl.
pub open spec fn layout_key(rp: ReplicaPlacement, ttl: Option<TTL>) -> Seq<char> {
    match ttl {
        Some(t) => placement_text(rp) + ttl_text(t),
        None => placement_text(rp),
    }
}

/// Law: layouts for different time to live are different: two ttls with a count and a
/// unit give the same layout key only when they are the same ttl, and a ttl with a count
/// never shares the key of no ttl.
pub proof fn law_layout_key_tells_ttls_apart(rp: ReplicaPlacement, t1: TTL, t2: TTL)
    requires
        t1.count > 0,
        t2.count > 0,
        t1.unit != Unit::Empty,
        t2.unit != Unit::Empty,
    ensures
        layout_key(rp, Some(t1)) == layout_key(rp, Some(t2)) ==> t1 == t2,
        layout_key(rp, Some(t1)) != layout_key(rp, None),
{
    let p = placement_text(rp);
    let a = ttl_text(t1);
    let b = ttl_text(t2);
    crate::text::lemma_radix_str_value(t1.count as nat, 10);
    crate::text::lemma_radix_str_value(t2.count as nat, 10);
    assert(a.len() >= 2);
    assert(layout_key(rp, Some(t1)).len() > layout_key(rp, None).len());
    if layout_key(rp, Some(t1)) == layout_key(rp, Some(t2)) {
        assert((p + a).skip(p.len() as int) =~= a);
        assert((p + b).skip(p.len() as int) =~= b);
        assert(a == b);
        let d1 = dec_str(t1.count as nat);
        let d2 = dec_str(t2.count as nat);
        assert(a.last() == unit_letters(t1.unit)[0]);
        assert(b.last() == unit_letters(t2.unit)[0]);
        assert(t1.unit == t2.unit);
        assert(a.drop_last() =~= d1);
        assert(b.drop_last() =~= d2);
        assert(d1 == d2);
        crate::text::lemma_dec_roundtrip(t1.count as nat, 255);
        crate::text::lemma_dec_roundtrip(t2.count as nat, 255);
        assert(t1.count == t2.count);
    }
}

/// The index of the first entry of `ls` with key `key`.
pub open spec fn find_layout(ls: Seq<(String, VolumeLayout)>, key: Seq<char>) -> Option<int> {
    if exists|i: int| 0 <= i < ls.len() && (#[trigger] ls[i]).0@ == key {
        Some(choose|i: int| 0 <= i < ls.len() && (#[trigger] ls[i]).0@ == key && forall|j: int|
            0 <= j < i ==> (#[trigger] ls[j]).0@ != key)
    } else {
        None
    }
}

/// Where some item of `xs` has the key `key`, a first one has.
proof fn lemma_first_layout(xs: Seq<(String, VolumeLayout)>, key: Seq<char>, k: int)
    requires
        0 <= k < xs.len(),
        xs[k].0@ == key,
    ensures
        exists|i: int| 0 <= i < xs.len() && (#[trigger] xs[i]).0@ == key && forall|j: int| 0 <= j < i ==> (#[trigger] xs[j]).0@ != key,
    decreases k,
{
    if exists|j: int| 0 <= j < k && (#[trigger] xs[j]).0@ == key {
        let j = choose|j: int| 0 <= j < k && (#[trigger] xs[j]).0@ == key;
        lemma_first_layout(xs, key, j);
    } else {
        assert(forall|j: int| 0 <= j < k ==> (#[trigger] xs[j]).0@ != key);
    }
}

/// The first layout of `ls` with key `key` is at `i`.
proof fn lemma_find_layout_at(ls: Seq<(String, VolumeLayout)>, key: Seq<char>, i: int)
    requires
        0 <= i < ls.len(),
        ls[i].0@ == key,
        forall|j: int| 0 <= j < i ==> (#[trigger] ls[j]).0@ != key,
    ensures
        find_layout(ls, key) == Some(i),
{
    lemma_first_layout(ls, key, i);
    let c = choose|c: int| 0 <= c < ls.len() && (#[trigger] ls[c]).0@ == key && forall|j: int|
        0 <= j < c ==> (#[trigger] ls[j]).0@ != key;
    assert(ls[i].0@ == key);
    if c < i {
        assert(ls[c].0@ != key);
    } else if i < c {
        assert(ls[i].0@ != key);
    }
}

/// The layouts `l0` became `l1` by finding the layout with key `key` at `r`, or by adding
/// one with that key last, at `r`, when there was none.
pub open spec fn layout_found_or_added(l0: Seq<(String, VolumeLayout)>, l1: Seq<(String, VolumeLayout)>, key: Seq<char>, r: int) -> bool {
    &&& 0 <= r < l1.len()
    &&& l1[r].0@ == key
    &&& match find_layout(l0, key) {
        Some(i) => r == i && l1 == l0,
        None => r == l0.len() && l1.len() == l0.len() + 1 && l1.take(r) == l0,
    }
}

/// Law: getting or making the layout for one placement and ttl twice gives the same
/// layout, and the second time changes nothing.
pub proof fn law_get_or_create_volume_layout_twice(
    l0: Seq<(String, VolumeLayout)>,
    l1: Seq<(String, VolumeLayout)>,
    l2: Seq<(String, VolumeLayout)>,
    key: Seq<char>,
    r1: int,
    r2: int,
)
    requires
        layout_found_or_added(l0, l1, key, r1),
        layout_found_or_added(l1, l2, key, r2),
    ensures
        r2 == r1,
        l2 == l1,
{
    match find_layout(l0, key) {
        Some(i) => {
            lemma_first_layout(l0, key, r1);
            let c = choose|c: int| 0 <= c < l0.len() && (#[trigger] l0[c]).0@ == key && forall|j: int|
                0 <= j < c ==> (#[trigger] l0[j]).0@ != key;
            assert(c == i);
            lemma_find_layout_at(l1, key, r1);
        },
        None => {
            assert forall|j: int| 0 <= j < r1 implies (#[trigger] l1[j]).0@ != key by {
                assert(l1[j] == l1.take(r1)[j]);
            }
            lemma_find_layout_at(l1, key, r1);
        },
    }
}

/// The layout that [`find_layout`] finds has the key, and none has it when it finds none.
pub proof fn lemma_find_layout(ls: Seq<(String, VolumeLayout)>, key: Seq<char>)
    ensures
        find_layout(ls, key) matches Some(l) ==> 0 <= l < ls.len() && ls[l].0@ == key,
        find_layout(ls, key) is None ==> forall|i: int| 0 <= i < ls.len() ==> (#[trigger] ls[i]).0@ != key,
{
    if exists|i: int| 0 <= i < ls.len() && (#[trigger] ls[i]).0@ == key {
        let i = choose|i: int| 0 <= i < ls.len() && (#[trigger] ls[i]).0@ == key;
        lemma_first_with_key(ls, key, i);
    }
}

proof fn lemma_first_with_key(ls: Seq<(String, VolumeLayout)>, key: Seq<char>, i: int)
    requires
        0 <= i < ls.len(),
        ls[i].0@ == key,
    ensures
        exists|k: int| 0 <= k < ls.len() && (#[trigger] ls[k]).0@ == key && forall|j: int|
            0 <= j < k ==> (#[trigger] ls[j]).0@ != key,
    decreases i,
{
    if exists|j: int| 0 <= j < i && (#[trigger] ls[j]).0@ == key {
        let j = choose|j: int| 0 <= j < i && (#[trigger] ls[j]).0@ == key;
        lemma_first_with_key(ls, key, j);
    } else {
        assert(forall|j: int| 0 <= j < i ==> (#[trigger] ls[j]).0@ != key);
    }
}

/// The first layout of `ls`, from `start` on, that knows volume `vid`.
pub open spec fn first_layout_with(ls: Seq<(String, VolumeLayout)>, vid: VolumeId, start: int) -> Option<int>
    decreases ls.len() - start,
{
    if start < 0 || start >= ls.len() {
        None
    } else if ls[start].1.vid2location@.contains_key(vid) {
        Some(start)
    } else {
        first_layout_with(ls, vid, start + 1)
    }
}

/// The volume layouts of one collection, each under its key (see [`layout_key`]).
#[derive(Debug)]
pub struct Collection {
    pub name: String,
    pub volume_size_limit: u64,
    pub type2layout: Vec<(String, VolumeLayout)>,
}

impl Collection {
    /// Every layout keeps only places of nodes of `dcs`, and holds each writable volume once.
    pub open spec fn valid(&self, dcs: Seq<DataCenter>) -> bool {
        forall|i: int| 0 <= i < self.type2layout@.len() ==> (#[trigger] self.type2layout@[i]).1.locs_valid(dcs)
            && self.type2layout@[i].1.wf()
    }

    /// A collection with no layouts.
    pub fn new(name: &str, volume_size_limit: u64) -> (r: Collection)
        ensures
            r.name@ == name@,
            r.volume_size_limit == volume_size_limit,
            r.type2layout@.len() == 0,
    {
        Collection { name: String::from_str(name), volume_size_limit, type2layout: Vec::new() }
    }

    /// The index of the layout for placement `rp` and ttl `ttl`, made empty (with this
    /// collection's size limit) and added last when there is none.
    pub fn get_or_create_volume_layout(&mut self, rp: ReplicaPlacement, ttl: Option<TTL>) -> (r: usize)
        ensures
            layout_found_or_added(old(self).type2layout@, final(self).type2layout@, layout_key(rp, ttl), r as int),
            final(self).name == old(self).name,
            final(self).volume_size_limit == old(self).volume_size_limit,
            r < final(self).type2layout@.len(),
            final(self).type2layout@[r as int].0@ == layout_key(rp, ttl),
            match find_layout(old(self).type2layout@, layout_key(rp, ttl)) {
                Some(i) => r == i && final(self).type2layout@ == old(self).type2layout@,
                None => {
                    &&& r == old(self).type2layout@.len()
                    &&& final(self).type2layout@.take(r as int) == old(self).type2layout@
                    &&& final(self).type2layout@.len() == old(self).type2layout@.len() + 1
                    &&& final(self).type2layout@[r as int].1.rp == rp
                    &&& final(self).type2layout@[r as int].1.ttl == ttl
                    &&& final(self).type2layout@[r as int].1.volume_size_limit == old(self).volume_size_limit
                    &&& final(self).type2layout@[r as int].1.writable_volumes@.len() == 0
                    &&& final(self).type2layout@[r as int].1.readonly_volumes@ == Set::<VolumeId>::empty()
                    &&& final(self).type2layout@[r as int].1.oversize_volumes@ == Set::<VolumeId>::empty()
                    &&& final(self).type2layout@[r as int].1.vid2location@ == Map::<VolumeId, Vec<NodeLoc>>::empty()
                },
            },
            forall|dcs: Seq<DataCenter>| old(self).valid(dcs) ==> #[trigger] final(self).valid(dcs),
    {
        let mut key = rp.string();
        match ttl {
            Some(t) => {
                let ts = t.string();
                key.append(ts.as_str());
            },
            None => {},
        }
        let mut i: usize = 0;
        while i < self.type2layout.len()
            invariant
                i <= self.type2layout@.len(),
                key@ == layout_key(rp, ttl),
                forall|j: int| 0 <= j < i ==> (#[trigger] self.type2layout@[j]).0@ != key@,
            decreases self.type2layout@.len() - i,
        {
            if self.type2layout[i].0 == key {
                proof {
                    assert(self.type2layout@[i as int].0@ == key@);
                    let k = choose|k: int| 0 <= k < self.type2layout@.len() && (#[trigger] self.type2layout@[k]).0@
                        == key@ && forall|j: int| 0 <= j < k ==> (#[trigger] self.type2layout@[j]).0@ != key@;
                    assert(k == i);
                }
                return i;
            }
            i = i + 1;
        }
        let ghost old_ls = self.type2layout@;
        let vsize = self.volume_size_limit;
        self.type2layout.push((key, VolumeLayout::new(rp, ttl, vsize)));
        assert(self.type2layout@.take(i as int) =~= old_ls);
        proof {
            assert forall|dcs: Seq<DataCenter>| #[trigger] old(self).valid(dcs) implies self.valid(dcs) by {
                assert forall|j: int| 0 <= j < self.type2layout@.len() implies (#[trigger] self.type2layout@[j]).1.locs_valid(dcs)
                    && self.type2layout@[j].1.wf() by {
                    if j < old_ls.len() {
                        assert(self.type2layout@[j] == old_ls[j]);
                    }
                }
            }
        }
        i
    }

    /// The places of the copies of volume `vid`, from the first layout that knows it.
    pub fn lookup(&self, vid: VolumeId) -> (r: Option<Vec<NodeLoc>>)
        ensures
            match first_layout_with(self.type2layout@, vid, 0) {
                Some(i) => r matches Some(l) && l@ == self.type2layout@[i].1.vid2location@[vid]@,
                None => r is None,
            },
    {
        let mut i: usize = 0;
        while i < self.type2layout.len()
            invariant
                i <= self.type2layout@.len(),
                first_layout_with(self.type2layout@, vid, 0) == first_layout_with(self.type2layout@, vid, i as int),
            decreases self.type2layout@.len() - i,
        {
            let ret = self.type2layout[i].1.lookup(vid);
            if ret.is_some() {
                return ret;
            }
            i = i + 1;
        }
        None
    }
}

} // verus!
