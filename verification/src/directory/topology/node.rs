//! A data node: one volume server as the directory server sees it.
use vstd::prelude::*;
use std::collections::HashMap;
use crate::storage::volume_info::VolumeInfo;
use crate::storage::VolumeId;
use crate::text::{i64_string, int_str};
use vstd::string::*;
use vstd::std_specs::iter::IteratorSpec;

verus! {

broadcast use vstd::std_specs::hash::group_hash_axioms;

/// The place of a data node in the topology: the index of its data center, of its rack
/// in that data center, and of the node in that rack.
#[derive(Clone, Copy, Debug, PartialEq, Eq, Structural)]
pub struct NodeLoc {
    pub dc: usize,
    pub rack: usize,
    pub node: usize,
}

/// A volume server as the directory server sees it. `rack` and `data_center` name the
/// rack and data center it has been joined to (empty until it is joined).
#[derive(Debug)]
pub struct DataNode {
    pub id: String,
    pub ip: String,
    pub port: i64,
    pub public_url: String,
    pub last_seen: i64,
    pub rack: String,
    pub data_center: String,
    pub volumes: HashMap<VolumeId, VolumeInfo>,
    pub max_volumes: i64,
    pub max_volume_id: VolumeId,
}

impl DataNode {
    /// Each volume is kept under its own id.
    pub open spec fn wf(&self) -> bool {
        forall|k: VolumeId| #[trigger] self.volumes@.contains_key(k) ==> self.volumes@[k].id == k
    }
}

/// How many volumes node `n` holds.
pub open spec fn node_has(n: DataNode) -> i64 {
    n.volumes@.len() as i64
}

/// How many more volumes node `n` may take: its maximum less what it holds (wrapping).
pub open spec fn node_free(n: DataNode) -> i64 {
    vstd::wrapping::i64_specs::wrapping_sub(n.max_volumes, node_has(n))
}

/// The larger of two volume ids.
pub open spec fn max_vid(a: VolumeId, b: VolumeId) -> VolumeId {
    if b > a {
        b
    } else {
        a
    }
}

/// The volumes `m` after each volume of `infos` is put in, in order (a later one with
/// the same id replaces an earlier one).
pub open spec fn apply_infos(m: Map<VolumeId, VolumeInfo>, infos: Seq<VolumeInfo>) -> Map<VolumeId, VolumeInfo>
    decreases infos.len(),
{
    if infos.len() == 0 {
        m
    } else {
        apply_infos(m, infos.drop_last()).insert(infos.last().id, infos.last())
    }
}

/// The largest of `start` and the ids of `infos`.
pub open spec fn max_id_of(start: VolumeId, infos: Seq<VolumeInfo>) -> VolumeId
    decreases infos.len(),
{
    if infos.len() == 0 {
        start
    } else {
        max_vid(max_id_of(start, infos.drop_last()), infos.last().id)
    }
}

/// The largest of `start` and the ids of `infos` is at least `start` and each of them.
pub proof fn lemma_max_id_of(start: VolumeId, infos: Seq<VolumeInfo>)
    ensures
        max_id_of(start, infos) >= start,
        forall|i: int| 0 <= i < infos.len() ==> (#[trigger] infos[i]).id <= max_id_of(start, infos),
    decreases infos.len(),
{
    if infos.len() > 0 {
        lemma_max_id_of(start, infos.drop_last());
        assert forall|i: int| 0 <= i < infos.len() implies (#[trigger] infos[i]).id <= max_id_of(start, infos) by {
            if i < infos.len() - 1 {
                assert(infos.drop_last()[i] == infos[i]);
            }
        }
    }
}

/// Some volume of `infos` has id `id`.
pub open spec fn infos_have(infos: Seq<VolumeInfo>, id: VolumeId) -> bool {
    exists|i: int| 0 <= i < infos.len() && (#[trigger] infos[i]).id == id
}

/// `b` is node `a` with other volumes and another largest volume id; the rest is kept.
pub open spec fn same_node_but_volumes(a: DataNode, b: DataNode) -> bool {
    &&& a.id == b.id
    &&& a.ip == b.ip
    &&& a.port == b.port
    &&& a.public_url == b.public_url
    &&& a.last_seen == b.last_seen
    &&& a.rack == b.rack
    &&& a.data_center == b.data_center
    &&& a.max_volumes == b.max_volumes
}

pub proof fn lemma_apply_infos_dom(m: Map<VolumeId, VolumeInfo>, infos: Seq<VolumeInfo>, k: VolumeId)
    ensures
        apply_infos(m, infos).contains_key(k) <==> (m.contains_key(k) || infos_have(infos, k)),
        !infos_have(infos, k) && m.contains_key(k) ==> apply_infos(m, infos)[k] == m[k],
    decreases infos.len(),
{
    if infos.len() > 0 {
        lemma_apply_infos_dom(m, infos.drop_last(), k);
        if infos_have(infos, k) && infos.last().id != k {
            let i = choose|i: int| 0 <= i < infos.len() && (#[trigger] infos[i]).id == k;
            assert(infos.drop_last()[i].id == k);
        }
        if infos_have(infos.drop_last(), k) {
            let i = choose|i: int| 0 <= i < infos.drop_last().len() && (#[trigger] infos.drop_last()[i]).id == k;
            assert(infos[i].id == k);
        }
    }
}

/// Putting in `infos` over two maps that agree on the ids of `infos` and differ only
/// elsewhere gives maps that agree on those ids.
proof fn lemma_apply_infos_same_on(m1: Map<VolumeId, VolumeInfo>, m2: Map<VolumeId, VolumeInfo>, infos: Seq<VolumeInfo>, k: VolumeId)
    requires
        infos_have(infos, k),
    ensures
        apply_infos(m1, infos).contains_key(k),
        apply_infos(m2, infos).contains_key(k),
        apply_infos(m1, infos)[k] == apply_infos(m2, infos)[k],
    decreases infos.len(),
{
    let i = choose|i: int| 0 <= i < infos.len() && (#[trigger] infos[i]).id == k;
    if infos.last().id != k {
        assert(infos.drop_last()[i].id == k);
        lemma_apply_infos_same_on(m1, m2, infos.drop_last(), k);
    }
}

impl DataNode {
    /// A node with no volumes, not yet joined to a rack.
    pub fn new(id: &str, ip: &str, port: i64, public_url: &str, max_volumes: i64) -> (r: DataNode)
        ensures
            r.id@ == id@,
            r.ip@ == ip@,
            r.port == port,
            r.public_url@ == public_url@,
            r.last_seen == 0,
            r.rack@.len() == 0,
            r.data_center@.len() == 0,
            r.volumes@ == Map::<VolumeId, VolumeInfo>::empty(),
            r.max_volumes == max_volumes,
            r.max_volume_id == 0,
            r.wf(),
    {
        DataNode {
            id: String::from_str(id),
            ip: String::from_str(ip),
            port,
            public_url: String::from_str(public_url),
            last_seen: 0,
            rack: String::new(),
            data_center: String::new(),
            volumes: HashMap::new(),
            max_volumes,
            max_volume_id: 0,
        }
    }

    /// The node's address, `ip:port`.
    pub fn url(&self) -> (r: String)
        ensures
            r@ == self.ip@ + seq![':'] + int_str(self.port as int),
    {
        let mut r = self.ip.clone();
        proof {
            reveal_strlit(":");
        }
        r.append(":");
        let p = i64_string(self.port);
        r.append(p.as_str());
        r
    }

    /// Raises the largest volume id seen on this node to `vid` if `vid` is larger.
    pub fn adjust_max_volume_id(&mut self, vid: VolumeId)
        ensures
            final(self).max_volume_id == max_vid(old(self).max_volume_id, vid),
            final(self).volumes@ == old(self).volumes@,
            same_node_but_volumes(*old(self), *final(self)),
    {
        if vid > self.max_volume_id {
            self.max_volume_id = vid;
        }
    }

    /// Puts volume `v` on this node, replacing the one with its id.
    pub fn add_or_update_volume(&mut self, v: VolumeInfo)
        ensures
            old(self).wf() ==> final(self).wf(),
            final(self).max_volume_id == max_vid(old(self).max_volume_id, v.id),
            final(self).volumes@ == old(self).volumes@.insert(v.id, v),
            same_node_but_volumes(*old(self), *final(self)),
    {
        self.adjust_max_volume_id(v.id);
        self.volumes.insert(v.id, v);
    }

    /// How many volumes this node holds.
    pub fn has_volumes(&self) -> (r: i64)
        ensures
            r == node_has(*self),
    {
        self.volumes.len() as i64
    }

    /// The most volumes this node may hold.
    pub fn max_volumes(&self) -> (r: i64)
        ensures
            r == self.max_volumes,
    {
        self.max_volumes
    }

    /// How many more volumes this node may take.
    pub fn free_volumes(&self) -> (r: i64)
        ensures
            r == node_free(*self),
    {
        self.max_volumes().wrapping_sub(self.has_volumes())
    }

    /// The id of the rack this node was joined to, or empty.
    pub fn get_rack_id(&self) -> (r: String)
        ensures
            r@ == self.rack@,
    {
        self.rack.clone()
    }

    /// The id of the data center this node was joined to, or empty.
    pub fn get_data_center_id(&self) -> (r: String)
        ensures
            r@ == self.data_center@,
    {
        self.data_center.clone()
    }

    /// Replaces the volumes of this node by those a heartbeat reports, `infos`, and
    /// returns the volumes it held that the heartbeat no longer reports (each once).
    pub fn update_volumes(&mut self, infos: Vec<VolumeInfo>) -> (r: Vec<VolumeInfo>)
        requires
            old(self).wf(),
        ensures
            final(self).wf(),
            final(self).volumes@ == apply_infos(Map::empty(), infos@),
            final(self).max_volume_id == max_id_of(old(self).max_volume_id, infos@),
            forall|k: VolumeId| #[trigger] final(self).volumes@.contains_key(k) ==> k <= final(self).max_volume_id,
            same_node_but_volumes(*old(self), *final(self)),
            forall|k: int| 0 <= k < r@.len() ==> {
                &&& old(self).volumes@.contains_key((#[trigger] r@[k]).id)
                &&& !infos_have(infos@, r@[k].id)
                &&& r@[k] == old(self).volumes@[r@[k].id]
            },
            forall|id: VolumeId| #[trigger]
                old(self).volumes@.contains_key(id) && !infos_have(infos@, id) ==> exists|k: int|
                    0 <= k < r@.len() && (#[trigger] r@[k]).id == id,
            forall|a: int, b: int| 0 <= a < b < r@.len() ==> (#[trigger] r@[a]).id != (#[trigger] r@[b]).id,
    {
        let ghost old_vols = self.volumes@;
        let mut keys: Vec<VolumeId> = Vec::new();
        for k in it: self.volumes.keys()
            invariant
                it.seq() == vstd::std_specs::hash::spec_keys_iter(&self.volumes).remaining(),
                keys@.len() == it.index(),
                forall|j: int| 0 <= j < it.index() ==> keys@[j] == *it.seq()[j],
        {
            keys.push(*k);
        }
        let ghost ks = vstd::std_specs::hash::spec_keys_iter(&self.volumes).remaining();
        proof {
            assert(keys@ =~= ks.unref());
            assert(keys@.no_duplicates()) by {
                assert forall|a: int, b: int| 0 <= a < keys@.len() && 0 <= b < keys@.len() && a != b implies keys@[a] != keys@[b] by {
                    assert(ks[a] != ks[b]);
                }
            }
            assert forall|id: VolumeId| old_vols.contains_key(id) implies keys@.contains(id) by {
                assert(ks.unref().to_set().contains(id));
            }
            assert forall|j: int| 0 <= j < keys@.len() implies old_vols.contains_key(#[trigger] keys@[j]) by {
                assert(ks.unref().to_set().contains(keys@[j]));
            }
        }
        // the ids held that the heartbeat no longer reports, in the order met
        let gone = ids_not_reported(&keys, &infos);
        proof {
            assert forall|j: int| 0 <= j < gone@.len() implies old_vols.contains_key(#[trigger] gone@[j]) by {
                let m = choose|m: int| 0 <= m < keys@.len() && keys@[m] == gone@[j];
            }
        }
        // put in what the heartbeat reports
        let mut j: usize = 0;
        while j < infos.len()
            invariant
                j <= infos@.len(),
                self.volumes@ == apply_infos(old_vols, infos@.take(j as int)),
                self.max_volume_id == max_id_of(old(self).max_volume_id, infos@.take(j as int)),
                same_node_but_volumes(*old(self), *self),
                self.wf(),
            decreases infos@.len() - j,
        {
            assert(infos@.take(j + 1).drop_last() =~= infos@.take(j as int));
            self.add_or_update_volume(infos[j].clone());
            j = j + 1;
        }
        assert(infos@.take(infos@.len() as int) =~= infos@);
        let ghost mid = self.volumes@;
        // take out what it no longer reports
        let mut deleted: Vec<VolumeInfo> = Vec::new();
        let mut g: usize = 0;
        while g < gone.len()
            invariant
                g <= gone@.len(),
                mid == apply_infos(old_vols, infos@),
                forall|j: int| 0 <= j < gone@.len() ==> old_vols.contains_key(#[trigger] gone@[j])
                    && !infos_have(infos@, gone@[j]),
                forall|a: int, b: int| 0 <= a < b < gone@.len() ==> gone@[a] != gone@[b],
                deleted@.len() == g,
                forall|k: int| 0 <= k < g ==> (#[trigger] deleted@[k]).id == gone@[k]
                    && deleted@[k] == old_vols[gone@[k]],
                self.volumes@ == mid.remove_keys(gone@.take(g as int).to_set()),
                same_node_but_volumes(*old(self), *self),
                self.max_volume_id == max_id_of(old(self).max_volume_id, infos@),
                self.wf(),
                forall|k: VolumeId| #[trigger] mid.contains_key(k) ==> mid[k].id == k,
            decreases gone@.len() - g,
        {
            let id = gone[g];
            proof {
                lemma_apply_infos_dom(old_vols, infos@, id);
                assert(!gone@.take(g as int).to_set().contains(id)) by {
                    if gone@.take(g as int).to_set().contains(id) {
                        let a = choose|a: int| 0 <= a < g && gone@.take(g as int)[a] == id;
                        assert(gone@[a] == gone@[g as int]);
                    }
                }
            }
            let v = self.volumes.remove(&id);
            match v {
                Some(v) => {
                    assert(v == old_vols[id]);
                    let ghost d0 = deleted@;
                    deleted.push(v);
                    assert forall|k: int| 0 <= k < g + 1 implies (#[trigger] deleted@[k]).id == gone@[k]
                        && deleted@[k] == old_vols[gone@[k]] by {
                        if k < g {
                            assert(deleted@[k] == d0[k]);
                        }
                    }
                },
                None => {
                    proof {
                        assert(false);
                    }
                },
            }
            proof {
                assert(gone@.take(g + 1).to_set() =~= gone@.take(g as int).to_set().insert(id)) by {
                    assert(gone@.take(g + 1) =~= gone@.take(g as int).push(id));
                    gone@.take(g as int).lemma_push_to_set_commute(id);
                }
                assert(self.volumes@ =~= mid.remove_keys(gone@.take(g + 1).to_set()));
            }
            g = g + 1;
        }
        proof {
            assert(gone@.take(gone@.len() as int) =~= gone@);
            let want = apply_infos(Map::<VolumeId, VolumeInfo>::empty(), infos@);
            assert forall|k: VolumeId| #[trigger] self.volumes@.contains_key(k) <==> want.contains_key(k) by {
                lemma_apply_infos_dom(old_vols, infos@, k);
                lemma_apply_infos_dom(Map::empty(), infos@, k);
                if old_vols.contains_key(k) && !infos_have(infos@, k) {
                    let m = choose|m: int| 0 <= m < keys@.len() && keys@[m] == k;
                    assert(!infos_have(infos@, keys@[m]));
                    let a = choose|a: int| 0 <= a < gone@.len() && gone@[a] == keys@[m];
                    assert(gone@.to_set().contains(k));
                }
                if gone@.to_set().contains(k) {
                    let a = choose|a: int| 0 <= a < gone@.len() && gone@[a] == k;
                }
            }
            assert forall|k: VolumeId| #[trigger] self.volumes@.contains_key(k) implies self.volumes@[k] == want[k] by {
                lemma_apply_infos_dom(old_vols, infos@, k);
                lemma_apply_infos_dom(Map::empty(), infos@, k);
                lemma_apply_infos_same_on(old_vols, Map::empty(), infos@, k);
            }
            assert(self.volumes@ =~= want);
            lemma_max_id_of(old(self).max_volume_id, infos@);
            assert forall|k: VolumeId| #[trigger] self.volumes@.contains_key(k) implies k <= self.max_volume_id by {
                lemma_apply_infos_dom(Map::empty(), infos@, k);
                let i = choose|i: int| 0 <= i < infos@.len() && (#[trigger] infos@[i]).id == k;
            }
            assert forall|id: VolumeId| #[trigger]
                old_vols.contains_key(id) && !infos_have(infos@, id) implies exists|k: int|
                    0 <= k < deleted@.len() && (#[trigger] deleted@[k]).id == id by {
                let m = choose|m: int| 0 <= m < keys@.len() && keys@[m] == id;
                assert(!infos_have(infos@, keys@[m]));
                let a = choose|a: int| 0 <= a < gone@.len() && gone@[a] == keys@[m];
                assert(deleted@[a].id == id);
            }
        }
        deleted
    }
}

/// The ids of `keys`, in order, that no volume of `infos` has.
fn ids_not_reported(keys: &Vec<VolumeId>, infos: &Vec<VolumeInfo>) -> (gone: Vec<VolumeId>)
    requires
        keys@.no_duplicates(),
    ensures
        forall|j: int| 0 <= j < gone@.len() ==> !infos_have(infos@, #[trigger] gone@[j])
            && exists|m: int| 0 <= m < keys@.len() && keys@[m] == gone@[j],
        forall|a: int, b: int| 0 <= a < b < gone@.len() ==> gone@[a] != gone@[b],
        forall|j: int| 0 <= j < keys@.len() && !infos_have(infos@, #[trigger] keys@[j]) ==> exists|a: int|
            0 <= a < gone@.len() && gone@[a] == keys@[j],
{
    let mut gone: Vec<VolumeId> = Vec::new();
    let mut i: usize = 0;
    while i < keys.len()
        invariant
            i <= keys@.len(),
            keys@.no_duplicates(),
            forall|j: int| 0 <= j < gone@.len() ==> !infos_have(infos@, #[trigger] gone@[j])
                && exists|m: int| 0 <= m < i && keys@[m] == gone@[j],
            forall|a: int, b: int| 0 <= a < b < gone@.len() ==> gone@[a] != gone@[b],
            forall|j: int| 0 <= j < i && !infos_have(infos@, #[trigger] keys@[j]) ==> exists|a: int|
                0 <= a < gone@.len() && gone@[a] == keys@[j],
        decreases keys@.len() - i,
    {
        let id = keys[i];
        let ghost gone0 = gone@;
        if !has_id(infos, id) {
            proof {
                assert forall|j: int| 0 <= j < gone@.len() implies gone@[j] != id by {
                    let m = choose|m: int| 0 <= m < i && keys@[m] == gone@[j];
                    assert(keys@[m] != keys@[i as int]);
                }
            }
            gone.push(id);
            proof {
                assert forall|j: int| 0 <= j < gone@.len() implies !infos_have(infos@, #[trigger] gone@[j])
                    && exists|m: int| 0 <= m < i + 1 && keys@[m] == gone@[j] by {
                    if j < gone0.len() {
                        assert(gone@[j] == gone0[j]);
                        let m = choose|m: int| 0 <= m < i && keys@[m] == gone0[j];
                        assert(keys@[m] == gone@[j]);
                    } else {
                        assert(keys@[i as int] == gone@[j]);
                    }
                }
            }
        }
        proof {
            assert forall|j: int| 0 <= j < i + 1 && !infos_have(infos@, #[trigger] keys@[j]) implies exists|a: int|
                0 <= a < gone@.len() && gone@[a] == keys@[j] by {
                if j < i {
                    let a = choose|a: int| 0 <= a < gone0.len() && gone0[a] == keys@[j];
                    assert(gone@[a] == keys@[j]);
                } else {
                    assert(gone@[gone@.len() - 1] == keys@[j]);
                }
            }
        }
        i = i + 1;
    }
    proof {
        assert forall|j: int| 0 <= j < gone@.len() implies !infos_have(infos@, #[trigger] gone@[j])
            && exists|m: int| 0 <= m < keys@.len() && keys@[m] == gone@[j] by {
            let m = choose|m: int| 0 <= m < i && keys@[m] == gone@[j];
            assert(keys@[m] == gone@[j]);
        }
    }
    gone
}

/// Whether some volume of `infos` has id `id`.
fn has_id(infos: &Vec<VolumeInfo>, id: VolumeId) -> (r: bool)
    ensures
        r == infos_have(infos@, id),
{
    let mut i: usize = 0;
    while i < infos.len()
        invariant
            i <= infos@.len(),
            forall|j: int| 0 <= j < i ==> (#[trigger] infos@[j]).id != id,
        decreases infos@.len() - i,
    {
        if infos[i].id == id {
            return true;
        }
        i = i + 1;
    }
    false
}

} // verus!
