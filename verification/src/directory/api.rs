//! What the directory server does for its requests: which request goes where, reading
//! a volume grow option, assigning file ids, looking volumes up, and its status.
use vstd::prelude::*;
use vstd::string::*;
use crate::directory::errors::Error;
use crate::directory::sequencer::sequencer::{Sequencer, wrapping_add_u64};
use crate::directory::topology::collection::{Collection, first_layout_with};
use crate::directory::topology::data_center::{loc_ok, locs_ok, node_at};
use crate::directory::topology::node::NodeLoc;
use crate::directory::topology::topology::{Topology, lookup_locs, first_collection_with, find_collection, dcs_free, fid_for, writable_now, picked_in, colls_valid, colls_grew, colls_unique};
use crate::directory::topology::collection::{find_layout, layout_key};
use crate::directory::topology::data_center::DataCenter;
use crate::directory::topology::volume_layout::{locs_of, cands, lemma_cands_unrestricted};
use crate::directory::topology::volume_grow::{VolumeGrow, VolumeGrowOption};
use crate::directory::topology::rack::wsum;
use crate::operation::{AssignResult, ClusterStatusResult, Location, LookupResult};
use crate::storage::replica_placement::{ReplicaPlacement, placement_of_bytes};
use crate::storage::ttl::{TTL, Unit, parse_ttl, ttl_text_readable};
use crate::storage::VolumeId;
use crate::text::{dec_str, dec_string, int_str, parse_uint, parse_uint_bytes, parse_i64_bytes, parse_i64_spec, same_text};

verus! {

/// Where a request to the directory server goes.
#[derive(Clone, Copy, Debug, PartialEq, Eq, Structural)]
pub enum DirRoute {
    /// `GET /stats`: the server is alive.
    Stats,
    /// `GET` or `POST /dir/assign`.
    Assign,
    /// `GET` or `POST /dir/lookup`.
    Lookup,
    /// `GET /dir/status`: the topology.
    DirStatus,
    /// `GET /cluster/status`.
    ClusterStatus,
    /// `GET /metrics`.
    Metrics,
    /// Anything else.
    Unknown,
}

/// Where a request with method `method` for path `path` goes.
pub open spec fn dir_route_spec(method: Seq<char>, path: Seq<char>) -> DirRoute {
    let get = method == "GET"@;
    let post = method == "POST"@;
    if get && path == "/stats"@ {
        DirRoute::Stats
    } else if (get || post) && path == "/dir/assign"@ {
        DirRoute::Assign
    } else if (get || post) && path == "/dir/lookup"@ {
        DirRoute::Lookup
    } else if get && path == "/dir/status"@ {
        DirRoute::DirStatus
    } else if get && path == "/cluster/status"@ {
        DirRoute::ClusterStatus
    } else if get && path == "/metrics"@ {
        DirRoute::Metrics
    } else {
        DirRoute::Unknown
    }
}

/// Where a request with method `method` for path `path` goes.
pub fn route(method: &str, path: &str) -> (r: DirRoute)
    ensures
        r == dir_route_spec(method@, path@),
{
    proof {
        reveal_strlit("GET");
        reveal_strlit("POST");
        reveal_strlit("/stats");
        reveal_strlit("/dir/assign");
        reveal_strlit("/dir/lookup");
        reveal_strlit("/dir/status");
        reveal_strlit("/cluster/status");
        reveal_strlit("/metrics");
    }
    let get = same_text(method, "GET");
    let post = same_text(method, "POST");
    if get && same_text(path, "/stats") {
        DirRoute::Stats
    } else if (get || post) && same_text(path, "/dir/assign") {
        DirRoute::Assign
    } else if (get || post) && same_text(path, "/dir/lookup") {
        DirRoute::Lookup
    } else if get && same_text(path, "/dir/status") {
        DirRoute::DirStatus
    } else if get && same_text(path, "/cluster/status") {
        DirRoute::ClusterStatus
    } else if get && same_text(path, "/metrics") {
        DirRoute::Metrics
    } else {
        DirRoute::Unknown
    }
}

/// The placement text given cannot be read (it is not three bytes long).
pub open spec fn rp_bad(replication: Option<&str>) -> bool {
    match replication {
        Some(s) => s.spec_bytes().len() != 3,
        None => false,
    }
}

/// The time to live text given cannot be read.
pub open spec fn ttl_bad(ttl: Option<&str>) -> bool {
    match ttl {
        Some(t) => parse_ttl(t.spec_bytes()) is None,
        None => false,
    }
}

/// The preallocation text given cannot be read as an i64.
pub open spec fn pre_bad(preallocate: Option<&str>) -> bool {
    match preallocate {
        Some(p) => parse_i64_spec(p.spec_bytes()) is None,
        None => false,
    }
}

/// The option for new volumes that a request asks for: placement `replication` (or
/// `default_rp`), time to live `ttl` (or none), and `preallocate` (or 0); no collection
/// and no data center, rack or node.
pub fn volume_grow_option(
    default_rp: ReplicaPlacement,
    replication: Option<&str>,
    ttl: Option<&str>,
    preallocate: Option<&str>,
) -> (r: Result<VolumeGrowOption, Error>)
    requires
        ttl matches Some(t) ==> ttl_text_readable(t.spec_bytes()),
    ensures
        rp_bad(replication) ==> (r matches Err(Error::StorageError(crate::storage::Error::ParseReplicaPlacement(m)))
            && m@ == replication->0@),
        !rp_bad(replication) && ttl_bad(ttl) ==> (r matches Err(Error::StorageError(crate::storage::Error::ParseTTL(m)))
            && m@ == ttl->0@),
        !rp_bad(replication) && !ttl_bad(ttl) && pre_bad(preallocate) ==> (r matches Err(Error::ParseIntError)),
        r matches Ok(o) ==> {
            &&& o.replica_placement == match replication {
                Some(s) => placement_of_bytes(s.spec_bytes()),
                None => default_rp,
            }
            &&& o.ttl == match ttl {
                Some(t) => parse_ttl(t.spec_bytes())->0,
                None => TTL { count: 0, unit: Unit::Empty },
            }
            &&& o.preallocate == match preallocate {
                Some(p) => parse_i64_spec(p.spec_bytes())->0,
                None => 0,
            }
            &&& o.collection@.len() == 0 && o.data_center@.len() == 0 && o.rack@.len() == 0 && o.data_node@.len() == 0
        },
        !rp_bad(replication) && !ttl_bad(ttl) && !pre_bad(preallocate) ==> r is Ok,
{
    let mut option = VolumeGrowOption::default();
    option.replica_placement = default_rp;
    match replication {
        Some(rp) => {
            match ReplicaPlacement::new(rp) {
                Ok(p) => {
                    option.replica_placement = p;
                },
                Err(e) => {
                    return Err(Error::StorageError(e));
                },
            }
        },
        None => {},
    }
    match ttl {
        Some(t) => {
            match TTL::new(t) {
                Ok(v) => {
                    option.ttl = v;
                },
                Err(e) => {
                    return Err(Error::StorageError(e));
                },
            }
        },
        None => {},
    }
    match preallocate {
        Some(p) => {
            match parse_i64_bytes(p.as_bytes()) {
                Some(v) => {
                    option.preallocate = v;
                },
                None => {
                    return Err(Error::ParseIntError);
                },
            }
        },
        None => {},
    }
    Ok(option)
}

/// How many file ids a request asks for: its `count` read as a u64, or 1 when it has
/// none or it cannot be read.
pub fn requested_count(count: Option<&str>) -> (r: u64)
    ensures
        r == match count {
            Some(s) => match parse_uint(s.spec_bytes(), 10, 0xffff_ffff_ffff_ffff) {
                Some(v) => v as u64,
                None => 1,
            },
            None => 1,
        },
{
    match count {
        Some(s) => match parse_uint_bytes(s.as_bytes(), 10, 0xffff_ffff_ffff_ffff) {
            Some(v) => v,
            None => 1,
        },
        None => 1,
    }
}

/// The message when no volume takes writes and there is no room to grow one.
pub open spec fn no_room_text() -> Seq<char> {
    "no writable volume"@
}

/// `a` answers an assign of `count` ids from key `key` in `topo`: a file id of that key
/// in some volume, the count, and the address and public address of a node.
pub open spec fn assigned(a: AssignResult, count: u64, key: u64, topo: Topology) -> bool {
    &&& a.count == count as i64
    &&& a.error@.len() == 0
    &&& exists|vid: VolumeId, h: u32| #[trigger] fid_for(a.fid@, vid, key, h)
    &&& exists|l: NodeLoc| loc_ok(topo.data_centers@, l) && a.url@ == node_at(topo.data_centers@, l).ip@ + seq![':'] + int_str(
        node_at(topo.data_centers@, l).port as int,
    ) && #[trigger] node_at(topo.data_centers@, l).public_url == a.publicUrl
}

/// Assigns `count` file ids under `option`: when the option's layout has no writable
/// volume on the nodes it asks for, grows volumes first (failing when there is no room
/// at all), then picks a volume for the write (see [`Topology::pick_for_write`]).
pub fn assign<F: Fn(String, VolumeId) -> Result<(), Error>>(
    topo: &mut Topology,
    vg: &VolumeGrow,
    count: u64,
    option: &VolumeGrowOption,
    allocate: &F,
) -> (r: Result<AssignResult, Error>)
    requires
        old(topo).wf(),
        forall|u: String, v: VolumeId| call_requires(*allocate, (u, v)),
    ensures
        final(topo).wf(),
        r matches Ok(a) ==> assigned(a, count, old(topo).sequence.counter(), *final(topo)),
        r is Ok ==> final(topo).sequence.counter() == wrapping_add_u64(old(topo).sequence.counter(), count),
        r is Err ==> final(topo).sequence.counter() == old(topo).sequence.counter(),
        !writable_now(old(topo).collection_map@, old(topo).data_centers@, option) && wsum(dcs_free(old(topo).data_centers@)) <= 0
            ==> (r matches Err(Error::NoFreeSpace(m)) && m@ == no_room_text()),
        writable_now(old(topo).collection_map@, old(topo).data_centers@, option) && option.data_center@.len() == 0
            && option.rack@.len() == 0 && option.data_node@.len() == 0 ==> r is Ok,
        r matches Err(e) ==> e is NoFreeSpace || e is NoWritableVolume || exists|u: String, v: VolumeId| #[trigger] call_ensures(
            *allocate,
            (u, v),
            Err::<(), Error>(e),
        ),
{
    proof {
        reveal_strlit("no writable volume");
    }
    let ghost key0 = topo.sequence.counter();
    let ghost colls0 = topo.collection_map@;
    let ghost dcs0 = topo.data_centers@;
    let writable = topo.has_writable_volume(option);
    let ghost colls1 = topo.collection_map@;
    if !writable {
        if topo.free_volumes() <= 0 {
            return Err(Error::NoFreeSpace(String::from_str("no writable volume")));
        }
        match vg.grow_by_type(option, topo, allocate) {
            Ok(_) => {},
            Err(e) => {
                return Err(e);
            },
        }
    }
    let picked = topo.pick_for_write(count, option);
    proof {
        if writable && option.data_center@.len() == 0 && option.rack@.len() == 0 && option.data_node@.len() == 0 {
            lemma_writable_pick(colls0, colls1, topo.collection_map@, dcs0, option);
        }
    }
    let (fid, c, loc) = match picked {
        Ok(t) => t,
        Err(e) => {
            return Err(e);
        },
    };
    let ghost fv = fid@;
    proof {
        let (v, h) = choose|vid: VolumeId, h: u32| #[trigger] fid_for(fv, vid, key0, h);
        assert(fid_for(fv, v, old(topo).sequence.counter(), h));
    }
    let n = topo.node(loc);
    let a = AssignResult { fid, url: n.url(), publicUrl: n.public_url.clone(), count: c as i64, error: String::new() };
    assert(node_at(topo.data_centers@, loc).public_url == a.publicUrl);
    assert(a.fid@ == fv);
    assert(loc_ok(topo.data_centers@, loc));
    Ok(a)
}

/// When the layout for an option that asks for no data center, rack or node has a
/// writable volume, and the collections only grow afterwards (with names and keys still
/// not repeated), that layout is the only one for the option and has candidates for a
/// write.
proof fn lemma_writable_pick(
    colls0: Seq<Collection>,
    colls1: Seq<Collection>,
    colls2: Seq<Collection>,
    dcs: Seq<DataCenter>,
    option: &VolumeGrowOption,
)
    requires
        writable_now(colls0, dcs, option),
        option.data_center@.len() == 0,
        option.rack@.len() == 0,
        option.data_node@.len() == 0,
        colls_valid(colls0, dcs),
        colls_grew(colls0, colls1),
        colls_grew(colls1, colls2),
        colls_unique(colls2),
    ensures
        forall|ci: int, li: int|
            #![trigger colls2[ci].type2layout@[li]]
            0 <= ci < colls2.len() && 0 <= li < colls2[ci].type2layout@.len() && colls2[ci].name@ == option.collection@
                && colls2[ci].type2layout@[li].0@ == layout_key(option.replica_placement, Some(option.ttl)) ==> {
                let lay = colls2[ci].type2layout@[li].1;
                cands(dcs, lay.writable_volumes@, lay.vid2location@, option).len() > 0
            },
{
    let key = layout_key(option.replica_placement, Some(option.ttl));
    let c = find_collection(colls0, option.collection@)->0;
    crate::directory::topology::topology::lemma_find_collection(colls0, option.collection@);
    crate::directory::topology::collection::lemma_find_layout(colls0[c].type2layout@, key);
    let l = find_layout(colls0[c].type2layout@, key)->0;
    assert(colls2[c].type2layout@[l] == colls1[c].type2layout@[l]);
    assert(colls1[c].type2layout@[l] == colls0[c].type2layout@[l]);
    assert(colls0[c].valid(dcs));
    assert forall|ci: int, li: int|
        #![trigger colls2[ci].type2layout@[li]]
        0 <= ci < colls2.len() && 0 <= li < colls2[ci].type2layout@.len() && colls2[ci].name@ == option.collection@
            && colls2[ci].type2layout@[li].0@ == key implies ({
            let lay = colls2[ci].type2layout@[li].1;
            cands(dcs, lay.writable_volumes@, lay.vid2location@, option).len() > 0
        }) by {
        assert(colls2[c].name@ == option.collection@);
        assert(ci == c);
        assert(colls2[c].type2layout@[l].0@ == key);
        assert(li == l);
        let lay = colls0[c].type2layout@[l].1;
        assert(lay.wf());
        lemma_cands_unrestricted(dcs, lay.writable_volumes@, lay.vid2location@, option);
    }
}

/// What a lookup answers: the places of the volume, or a message saying why not.
#[derive(Debug)]
pub enum LookupReply {
    /// The volume and the addresses of its copies.
    Found(LookupResult),
    /// The volume was not given, or no layout knows it.
    Missing(String),
}

/// The index of the last `','` in `s`.
pub open spec fn last_comma(s: Seq<char>) -> Option<int>
    decreases s.len(),
{
    if s.len() == 0 {
        None
    } else if s.last() == ',' {
        Some(s.len() - 1)
    } else {
        last_comma(s.drop_last())
    }
}

/// The volume part of a volume id text such as `3,01637037d6`: what comes before the
/// last comma (all of it when there is none).
pub open spec fn volume_part(s: Seq<char>) -> Seq<char> {
    match last_comma(s) {
        Some(i) => s.subrange(0, i),
        None => s,
    }
}

proof fn lemma_last_comma(s: Seq<char>)
    ensures
        last_comma(s) matches Some(i) ==> 0 <= i < s.len() && s[i] == ',' && forall|j: int| i < j < s.len() ==> s[j] != ',',
        last_comma(s) is None ==> forall|j: int| 0 <= j < s.len() ==> s[j] != ',',
    decreases s.len(),
{
    if s.len() > 0 && s.last() != ',' {
        lemma_last_comma(s.drop_last());
        assert forall|j: int| 0 <= j < s.len() - 1 implies s[j] == s.drop_last()[j] by {}
    }
}

/// The first collection that knows `vid` is one, and one of its layouts knows it.
proof fn lemma_first_collection_with(colls: Seq<Collection>, vid: VolumeId, start: int)
    requires
        0 <= start,
    ensures
        first_collection_with(colls, vid, start) matches Some(c) ==> start <= c < colls.len()
            && first_layout_with(colls[c].type2layout@, vid, 0) is Some,
    decreases colls.len() - start,
{
    if start < colls.len() && first_layout_with(colls[start].type2layout@, vid, 0) is None {
        lemma_first_collection_with(colls, vid, start + 1);
    }
}

/// The first layout that knows `vid` is one, and knows it.
proof fn lemma_first_layout_with(ls: Seq<(String, crate::directory::topology::volume_layout::VolumeLayout)>, vid: VolumeId, start: int)
    requires
        0 <= start,
    ensures
        first_layout_with(ls, vid, start) matches Some(l) ==> start <= l < ls.len() && ls[l].1.vid2location@.contains_key(vid),
    decreases ls.len() - start,
{
    if start < ls.len() && !ls[start].1.vid2location@.contains_key(vid) {
        lemma_first_layout_with(ls, vid, start + 1);
    }
}

/// The places a lookup finds name nodes of the topology.
pub proof fn lemma_lookup_locs_ok(topo: Topology, coll: Seq<char>, vid: VolumeId)
    requires
        topo.wf(),
    ensures
        lookup_locs(topo.collection_map@, coll, vid) matches Some(ls) ==> locs_ok(topo.data_centers@, ls),
{
    let colls = topo.collection_map@;
    if coll.len() == 0 {
        lemma_first_collection_with(colls, vid, 0);
        match first_collection_with(colls, vid, 0) {
            Some(c) => {
                lemma_first_layout_with(colls[c].type2layout@, vid, 0);
                let li = first_layout_with(colls[c].type2layout@, vid, 0)->0;
                assert(colls[c].valid(topo.data_centers@));
                assert(colls[c].type2layout@[li].1.locs_valid(topo.data_centers@));
            },
            None => {},
        }
    } else {
        match find_collection(colls, coll) {
            Some(c) => {
                crate::directory::topology::topology::lemma_find_collection(colls, coll);
                assert(0 <= c < colls.len());
                lemma_first_layout_with(colls[c].type2layout@, vid, 0);
                match first_layout_with(colls[c].type2layout@, vid, 0) {
                    Some(li) => {
                        assert(colls[c].valid(topo.data_centers@));
                        assert(colls[c].type2layout@[li].1.locs_valid(topo.data_centers@));
                    },
                    None => {},
                }
            },
            None => {},
        }
    }
}

/// The address text of the node at `l`: `ip:port`.
pub open spec fn node_url(topo: Topology, l: NodeLoc) -> Seq<char> {
    node_at(topo.data_centers@, l).ip@ + seq![':'] + int_str(node_at(topo.data_centers@, l).port as int)
}

/// The message when no volume id was given.
pub open spec fn no_volume_id_text() -> Seq<char> {
    "no volumeId params"@
}

/// The message when no layout knows the volume.
pub open spec fn no_locations_text() -> Seq<char> {
    "cant't find any locations"@
}

/// Looks up where the copies of the volume named in `volume_id` (a volume id, or a file
/// id whose part after the last comma is dropped) are, in collection `collection` (or
/// in any when none or an empty one is given).
pub fn lookup_volume(topo: &Topology, volume_id: Option<&str>, collection: Option<&str>) -> (r: Result<LookupReply, Error>)
    requires
        topo.wf(),
    ensures
        volume_id is None ==> (r matches Ok(LookupReply::Missing(m)) && m@ == no_volume_id_text()),
        volume_id matches Some(s) ==> match parse_uint(
            vstd::utf8::encode_utf8(volume_part(s@)),
            10,
            0xffff_ffff,
        ) {
            None => r matches Err(Error::ParseIntError),
            Some(id) => match lookup_locs(
                topo.collection_map@,
                match collection {
                    Some(c) => c@,
                    None => Seq::<char>::empty(),
                },
                id as u32,
            ) {
                Some(ls) => r matches Ok(LookupReply::Found(res)) && res.volume_id@ == volume_part(s@)
                    && res.error@.len() == 0 && res.locations@.len() == ls.len() && forall|k: int|
                    0 <= k < ls.len() ==> (#[trigger] res.locations@[k]).url@ == node_url(*topo, ls[k])
                        && res.locations@[k].public_url == node_at(topo.data_centers@, ls[k]).public_url,
                None => r matches Ok(LookupReply::Missing(m)) && m@ == no_locations_text(),
            },
        },
{
    proof {
        reveal_strlit("no volumeId params");
        reveal_strlit("cant't find any locations");
        reveal_strlit("");
    }
    let s = match volume_id {
        Some(s) => s,
        None => {
            return Ok(LookupReply::Missing(String::from_str("no volumeId params")));
        },
    };
    // the part before the last comma
    let n = s.unicode_len();
    let mut end: usize = n;
    let mut i: usize = n;
    proof {
        lemma_last_comma(s@);
    }
    while i > 0
        invariant
            i <= n,
            n == s@.len(),
            end == n ==> forall|j: int| i <= j < n ==> s@[j] != ',',
            end <= n,
            end < n ==> i == 0 && last_comma(s@) == Some(end as int),
            last_comma(s@) matches Some(c) ==> 0 <= c < n && s@[c] == ',' && forall|j: int| c < j < n ==> s@[j] != ',',
        decreases i,
    {
        if s.get_char(i - 1) == ',' {
            end = i - 1;
            proof {
                match last_comma(s@) {
                    Some(c) => {
                        if c < end {
                            assert(s@[end as int] == ',');
                        }
                    },
                    None => {
                        lemma_last_comma(s@);
                        assert(s@[end as int] == ',');
                    },
                }
            }
            i = 0;
        } else {
            i = i - 1;
        }
    }
    proof {
        if end == n {
            match last_comma(s@) {
                Some(c) => {
                    assert(s@[c] == ',');
                },
                None => {},
            }
        }
    }
    let vid_text = s.substring_char(0, end);
    assert(vid_text@ == volume_part(s@)) by {
        if end == n {
            assert(s@.subrange(0, n as int) =~= s@);
        }
    }
    let id = match parse_uint_bytes(vid_text.as_bytes(), 10, 0xffff_ffff) {
        Some(v) => v as u32,
        None => {
            return Err(Error::ParseIntError);
        },
    };
    let coll = match collection {
        Some(c) => c,
        None => "",
    };
    assert(coll@ == match collection {
        Some(c) => c@,
        None => Seq::<char>::empty(),
    });
    proof {
        lemma_lookup_locs_ok(*topo, coll@, id);
    }
    match topo.lookup(coll, id) {
        Some(nodes) => {
            let mut locations: Vec<Location> = Vec::new();
            let mut k: usize = 0;
            while k < nodes.len()
                invariant
                    k <= nodes@.len(),
                    locs_ok(topo.data_centers@, nodes@),
                    locations@.len() == k,
                    forall|j: int| 0 <= j < k ==> (#[trigger] locations@[j]).url@ == node_url(*topo, nodes@[j])
                        && locations@[j].public_url == node_at(topo.data_centers@, nodes@[j]).public_url,
                decreases nodes@.len() - k,
            {
                let nd = topo.node(nodes[k]);
                locations.push(Location { url: nd.url(), public_url: nd.public_url.clone() });
                k = k + 1;
            }
            Ok(LookupReply::Found(LookupResult { volume_id: vid_text.to_string(), locations, error: String::new() }))
        },
        None => Ok(LookupReply::Missing(String::from_str("cant't find any locations"))),
    }
}

/// The answer to a cluster status request: this server, at `ip:port`, leads, with no
/// peers.
pub fn cluster_status(ip: &str, port: u16) -> (r: ClusterStatusResult)
    ensures
        r.IsLeader,
        r.Leader@ == ip@ + seq![':'] + dec_str(port as nat),
        r.Peers@.len() == 0,
{
    proof {
        reveal_strlit(":");
    }
    let mut leader = String::from_str(ip);
    leader.append(":");
    let p = dec_string(port as u64);
    leader.append(p.as_str());
    ClusterStatusResult { IsLeader: true, Leader: leader, Peers: Vec::new() }
}

} // verus!
