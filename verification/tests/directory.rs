use std::cell::RefCell;

use zergling::directory::api::{assign, cluster_status, lookup_volume, requested_count, route, volume_grow_option, DirRoute, LookupReply};
use zergling::directory::errors::Error;
use zergling::directory::sequencer::{MemorySequencer, Sequencer};
use zergling::directory::topology::topology::heartbeat_is_readable;
use zergling::directory::topology::volume_grow::{pick_index, VolumeGrow};
use zergling::directory::topology::{DataNode, Rack, Topology, VolumeGrowOption};
use zergling::pb::zergling::{Heartbeat, VolumeInformationMessage};
use zergling::storage::replica_placement::ReplicaPlacement;
use zergling::storage::ttl::{Unit, TTL};
use zergling::storage::VolumeId;

fn volume_message(id: u32, size: u64, collection: &str) -> VolumeInformationMessage {
    let mut m = VolumeInformationMessage::new();
    m.set_id(id);
    m.set_size(size);
    m.set_collection(collection.to_string());
    m.set_version(2);
    m
}

fn heartbeat(ip: &str, port: u32, max_volumes: u32, max_key: u64, volumes: Vec<VolumeInformationMessage>) -> Heartbeat {
    let mut hb = Heartbeat::new();
    hb.set_ip(ip.to_string());
    hb.set_port(port);
    hb.set_public_url(format!("pub-{}", port));
    hb.set_max_volume_count(max_volumes);
    hb.set_max_file_key(max_key);
    hb.set_volumes(volumes);
    hb
}

fn placed(mut hb: Heartbeat, dc: &str, rack: &str) -> Heartbeat {
    hb.set_data_center(dc.to_string());
    hb.set_rack(rack.to_string());
    hb
}

fn topology() -> Topology {
    Topology::new(MemorySequencer::new(), 1 << 30, 5)
}

#[test]
fn directory_routes() {
    assert_eq!(route("GET", "/stats"), DirRoute::Stats);
    assert_eq!(route("GET", "/dir/assign"), DirRoute::Assign);
    assert_eq!(route("POST", "/dir/assign"), DirRoute::Assign);
    assert_eq!(route("POST", "/dir/lookup"), DirRoute::Lookup);
    assert_eq!(route("GET", "/dir/status"), DirRoute::DirStatus);
    assert_eq!(route("GET", "/cluster/status"), DirRoute::ClusterStatus);
    assert_eq!(route("GET", "/metrics"), DirRoute::Metrics);
    assert_eq!(route("POST", "/stats"), DirRoute::Unknown);
    assert_eq!(route("GET", "/nothing"), DirRoute::Unknown);
}

#[test]
fn grow_options_from_a_request() {
    let d = ReplicaPlacement::new("000").unwrap();
    let o = volume_grow_option(d, None, None, None).unwrap();
    assert_eq!(o.replica_placement, d);
    assert_eq!(o.ttl, TTL::default());
    assert_eq!(o.preallocate, 0);
    assert!(o.collection.is_empty() && o.data_center.is_empty() && o.rack.is_empty() && o.data_node.is_empty());
    let o2 = volume_grow_option(d, Some("001"), Some("3h"), Some("64")).unwrap();
    assert_eq!(o2.replica_placement.same_rack_count, 0);
    assert_eq!(o2.replica_placement.diff_rack_count, 0);
    assert_eq!(o2.ttl, TTL { count: 3, unit: Unit::Hour });
    assert_eq!(o2.preallocate, 64);
    match volume_grow_option(d, Some("01"), None, None) {
        Err(Error::StorageError(zergling::storage::Error::ParseReplicaPlacement(m))) => assert_eq!(m, "01"),
        other => panic!("unexpected {:?}", other),
    }
    match volume_grow_option(d, None, Some("3q"), None) {
        Err(Error::StorageError(zergling::storage::Error::ParseTTL(m))) => assert_eq!(m, "3q"),
        other => panic!("unexpected {:?}", other),
    }
    assert!(matches!(volume_grow_option(d, None, None, Some("x")), Err(Error::ParseIntError)));
}

#[test]
fn counts_and_status() {
    assert_eq!(requested_count(None), 1);
    assert_eq!(requested_count(Some("5")), 5);
    assert_eq!(requested_count(Some("five")), 1);
    let s = cluster_status("10.0.0.1", 9333);
    assert!(s.IsLeader);
    assert_eq!(s.Leader, "10.0.0.1:9333");
    assert!(s.Peers.is_empty());
}

#[test]
fn heartbeat_joins_the_node() {
    let mut topo = topology();
    let hb = heartbeat("127.0.0.1", 8080, 7, 100, vec![volume_message(1, 10, "")]);
    assert!(heartbeat_is_readable(&hb));
    let (resp, loc) = topo.process_heartbeat(&hb, "10.9.9.9", 30000);
    assert_eq!(resp.get_volumeSizeLimit(), 30000);
    assert_eq!(resp.get_leader(), "");
    let node = topo.node(loc);
    assert_eq!(node.id, "127.0.0.1:8080");
    assert_eq!(node.url(), "127.0.0.1:8080");
    assert_eq!(node.get_data_center_id(), "DefaultDataCenter");
    assert_eq!(node.get_rack_id(), "DefaultRack");
    assert_eq!(node.has_volumes(), 1);
    assert_eq!(node.free_volumes(), 6);
    assert_eq!(topo.sequence.peek(), 100);
    assert_eq!(topo.free_volumes(), 6);
    assert_eq!(topo.get_max_volume_id(), 1);

    // a heartbeat without an ip takes the host's address; a lower key keeps the counter
    let hb2 = heartbeat("", 8081, 3, 50, vec![]);
    let (_, loc2) = topo.process_heartbeat(&hb2, "10.9.9.9", 30000);
    assert_eq!(topo.node(loc2).id, "10.9.9.9:8081");
    assert_eq!(topo.sequence.peek(), 100);
    assert_eq!(topo.free_volumes(), 9);
}

#[test]
fn heartbeat_with_unknown_ttl_unit_is_refused() {
    let mut m = volume_message(1, 10, "");
    m.set_ttl(9 * 256);
    let hb = heartbeat("127.0.0.1", 8080, 7, 1, vec![m]);
    assert!(!heartbeat_is_readable(&hb));
}

#[test]
fn lookup_after_heartbeat() {
    let mut topo = topology();
    let hb = heartbeat("127.0.0.1", 8080, 7, 100, vec![volume_message(1, 10, ""), volume_message(2, 10, "pics")]);
    topo.process_heartbeat(&hb, "h", 30000);
    match lookup_volume(&topo, Some("1"), None).unwrap() {
        LookupReply::Found(r) => {
            assert_eq!(r.volume_id, "1");
            assert_eq!(r.error, "");
            assert_eq!(r.locations.len(), 1);
            assert_eq!(r.locations[0].url, "127.0.0.1:8080");
            assert_eq!(r.locations[0].public_url, "pub-8080");
        },
        other => panic!("unexpected {:?}", other),
    }
    match lookup_volume(&topo, Some("2,0163037d6"), Some("pics")).unwrap() {
        LookupReply::Found(r) => assert_eq!(r.volume_id, "2"),
        other => panic!("unexpected {:?}", other),
    }
    match lookup_volume(&topo, Some("3"), None).unwrap() {
        LookupReply::Missing(m) => assert_eq!(m, "cant't find any locations"),
        other => panic!("unexpected {:?}", other),
    }
    match lookup_volume(&topo, None, None).unwrap() {
        LookupReply::Missing(m) => assert_eq!(m, "no volumeId params"),
        other => panic!("unexpected {:?}", other),
    }
    assert!(matches!(lookup_volume(&topo, Some("x"), None), Err(Error::ParseIntError)));
    assert_eq!(topo.lookup("", 1).map(|v| v.len()), Some(1));
    assert_eq!(topo.lookup("", 9), None);
}

#[test]
fn assign_from_a_writable_volume() {
    let mut topo = topology();
    let hb = heartbeat("127.0.0.1", 8080, 7, 100, vec![volume_message(1, 10, "")]);
    topo.process_heartbeat(&hb, "h", 30000);
    let option = VolumeGrowOption::default();
    assert!(topo.has_writable_volume(&option));
    let calls: RefCell<Vec<(String, VolumeId)>> = RefCell::new(vec![]);
    let allocate = |url: String, vid: VolumeId| -> Result<(), Error> {
        calls.borrow_mut().push((url, vid));
        Ok(())
    };
    let a = assign(&mut topo, &VolumeGrow::new(), 3, &option, &allocate).unwrap();
    assert!(a.fid.starts_with("1,64"));
    assert_eq!(a.fid.len(), "1,64".len() + 8);
    assert_eq!(a.url, "127.0.0.1:8080");
    assert_eq!(a.publicUrl, "pub-8080");
    assert_eq!(a.count, 3);
    assert_eq!(a.error, "");
    assert_eq!(topo.sequence.peek(), 103);
    assert!(calls.borrow().is_empty());
}

#[test]
fn assign_grows_volumes_when_none_is_writable() {
    let mut topo = topology();
    let hb = heartbeat("127.0.0.1", 8080, 10, 0, vec![]);
    topo.process_heartbeat(&hb, "h", 30000);
    let option = VolumeGrowOption::default();
    assert!(!topo.has_writable_volume(&option));
    let calls: RefCell<Vec<(String, VolumeId)>> = RefCell::new(vec![]);
    let allocate = |url: String, vid: VolumeId| -> Result<(), Error> {
        calls.borrow_mut().push((url, vid));
        Ok(())
    };
    let a = assign(&mut topo, &VolumeGrow::new(), 1, &option, &allocate).unwrap();
    assert_eq!(a.url, "127.0.0.1:8080");
    assert_eq!(calls.borrow().len(), 7);
    assert_eq!(calls.borrow()[0], ("127.0.0.1:8080".to_string(), 1));
    assert_eq!(calls.borrow()[6].1, 7);
    assert_eq!(topo.free_volumes(), 3);
    assert_eq!(topo.sequence.peek(), 2);
}

#[test]
fn assign_without_room_fails() {
    let mut topo = topology();
    let option = VolumeGrowOption::default();
    let allocate = |_url: String, _vid: VolumeId| -> Result<(), Error> { Ok(()) };
    match assign(&mut topo, &VolumeGrow::new(), 1, &option, &allocate) {
        Err(Error::NoFreeSpace(m)) => assert_eq!(m, "no writable volume"),
        other => panic!("unexpected {:?}", other),
    }
    assert_eq!(topo.sequence.peek(), 1);
}

#[test]
fn grow_stops_at_an_allocation_failure() {
    let mut topo = topology();
    let hb = heartbeat("127.0.0.1", 8080, 10, 0, vec![]);
    topo.process_heartbeat(&hb, "h", 30000);
    let option = VolumeGrowOption::default();
    let allocate = |_url: String, _vid: VolumeId| -> Result<(), Error> { Err(Error::Other("disk full".to_string())) };
    match VolumeGrow::new().grow_by_type(&option, &mut topo, &allocate) {
        Err(Error::Other(m)) => assert_eq!(m, "disk full"),
        other => panic!("unexpected {:?}", other),
    }
    assert_eq!(topo.free_volumes(), 10);
}

#[test]
fn empty_slots_for_a_placement() {
    let mut topo = topology();
    let vg = VolumeGrow::new();
    let option = VolumeGrowOption::default();
    match vg.find_empty_slots(&option, &topo) {
        Err(Error::NoFreeSpace(m)) => assert_eq!(m, "find main dc fail"),
        other => panic!("unexpected {:?}", other),
    }
    topo.process_heartbeat(&heartbeat("10.0.0.1", 1, 2, 0, vec![]), "h", 1);
    topo.process_heartbeat(&heartbeat("10.0.0.2", 2, 2, 0, vec![]), "h", 1);
    let slots = vg.find_empty_slots(&option, &topo).unwrap();
    assert_eq!(slots.len(), 1);
    let mut two = VolumeGrowOption::default();
    two.replica_placement.same_rack_count = 1;
    let slots2 = vg.find_empty_slots(&two, &topo).unwrap();
    assert_eq!(slots2.len(), 2);
    assert_ne!(topo.node(slots2[0]).id, topo.node(slots2[1]).id);
    let mut three = VolumeGrowOption::default();
    three.replica_placement.same_rack_count = 2;
    assert!(matches!(vg.find_empty_slots(&three, &topo), Err(Error::NoFreeSpace(_))));
    assert_eq!(vg.logical_count(1), 7);
    assert_eq!(vg.logical_count(2), 6);
    assert_eq!(vg.logical_count(3), 3);
    assert_eq!(vg.logical_count(4), 1);
}

#[test]
fn rack_reserves_by_free_room() {
    let mut rack = Rack::new("r1");
    rack.get_or_create_data_node("n1", "10.0.0.1", 1, "p1", 2);
    rack.get_or_create_data_node("n2", "10.0.0.2", 2, "p2", 3);
    assert_eq!(rack.free_volumes(), 5);
    assert_eq!(rack.max_volumes(), 5);
    assert_eq!(rack.has_volumes(), 0);
    assert_eq!(rack.reserve_with(0).unwrap(), 1);
    assert_eq!(rack.reserve_with(3).unwrap(), 0);
    match rack.reserve_with(7) {
        Err(Error::NoFreeSpace(m)) => assert_eq!(m, "reserve_one_volume on rack r1 fail"),
        other => panic!("unexpected {:?}", other),
    }
    // a random draw lands on a node only where the room left matches it
    match rack.reserve_one_volume() {
        Ok(i) => assert!(i < 2),
        Err(e) => assert!(matches!(e, Error::NoFreeSpace(_))),
    }
}

#[test]
fn reservoir_pick_of_an_index() {
    assert_eq!(pick_index(&vec![10, 20, 30], &vec![0, 1, 5]), Some(10));
    assert_eq!(pick_index(&vec![10, 20, 30], &vec![0, 2, 3]), Some(30));
    assert_eq!(pick_index(&vec![], &vec![]), None);
}

#[test]
fn data_node_counts() {
    let n = DataNode::new("n1", "10.0.0.1", 8080, "p1", 4);
    assert_eq!(n.url(), "10.0.0.1:8080");
    assert_eq!(n.max_volumes(), 4);
    assert_eq!(n.has_volumes(), 0);
    assert_eq!(n.free_volumes(), 4);
}

#[test]
fn sequencer_hands_out_adjacent_ranges() {
    let mut s = MemorySequencer::new();
    assert_eq!(s.peek(), 1);
    assert_eq!(s.next_file_id(5), (1, 5));
    assert_eq!(s.next_file_id(2), (6, 2));
    assert_eq!(s.peek(), 8);
    s.set_max(4);
    assert_eq!(s.peek(), 8);
    s.set_max(40);
    assert_eq!(s.peek(), 40);
}

#[test]
fn volumes_no_longer_reported_stop_taking_writes() {
    let mut topo = topology();
    let option = VolumeGrowOption::default();
    topo.process_heartbeat(&heartbeat("127.0.0.1", 8080, 7, 1, vec![volume_message(1, 10, "")]), "h", 1);
    assert!(topo.has_writable_volume(&option));
    let (_, loc) = topo.process_heartbeat(&heartbeat("127.0.0.1", 8080, 7, 1, vec![]), "h", 1);
    assert!(!topo.has_writable_volume(&option));
    assert_eq!(topo.node(loc).has_volumes(), 0);
}

#[test]
fn read_only_copy_makes_a_volume_read_only() {
    let mut topo = topology();
    let option = VolumeGrowOption::default();
    let mut m = volume_message(1, 10, "");
    m.set_read_only(true);
    topo.process_heartbeat(&heartbeat("127.0.0.1", 8080, 7, 1, vec![m]), "h", 1);
    assert!(!topo.has_writable_volume(&option));
    // an oversized volume takes no writes either
    let mut topo2 = Topology::new(MemorySequencer::new(), 100, 5);
    topo2.process_heartbeat(&heartbeat("127.0.0.1", 8080, 7, 1, vec![volume_message(1, 100, "")]), "h", 1);
    assert!(!topo2.has_writable_volume(&option));
}

#[test]
fn one_rack_with_two_free_nodes_always_gives_slots() {
    let mut topo = topology();
    topo.process_heartbeat(&placed(heartbeat("10.0.0.1", 1, 1, 0, vec![]), "d", "r"), "h", 1);
    topo.process_heartbeat(&placed(heartbeat("10.0.0.2", 2, 1, 0, vec![]), "d", "r"), "h", 1);
    let vg = VolumeGrow::new();
    let mut two = VolumeGrowOption::default();
    two.replica_placement.same_rack_count = 1;
    // no draw can make this fail
    for _ in 0..20 {
        let slots = vg.find_empty_slots(&two, &topo).unwrap();
        assert_eq!(slots.len(), 2);
        assert_ne!(topo.node(slots[0]).id, topo.node(slots[1]).id);
        assert!(topo.node(slots[0]).free_volumes() >= 1 && topo.node(slots[1]).free_volumes() >= 1);
    }
}

#[test]
fn too_few_other_data_centers_fail_before_any_draw() {
    let mut topo = topology();
    topo.process_heartbeat(&placed(heartbeat("10.0.0.1", 1, 3, 0, vec![]), "d1", "r"), "h", 1);
    let vg = VolumeGrow::new();
    let mut other_dc = VolumeGrowOption::default();
    other_dc.replica_placement.diff_data_center_count = 1;
    match vg.find_empty_slots(&other_dc, &topo) {
        Err(Error::NoFreeSpace(m)) => assert_eq!(m, "no enough data centers"),
        other => panic!("unexpected {:?}", other),
    }
}

#[test]
fn getting_a_node_twice_gives_the_same_node() {
    let mut rack = Rack::new("r1");
    let a = rack.get_or_create_data_node("n1", "10.0.0.1", 1, "p1", 2);
    let b = rack.get_or_create_data_node("n1", "10.0.0.9", 9, "p9", 9);
    assert_eq!(a, b);
    assert_eq!(rack.nodes.len(), 1);
    assert_eq!(rack.nodes[a].ip, "10.0.0.1");
    assert_eq!(rack.nodes[a].port, 1);
    assert_eq!(rack.nodes[a].max_volumes, 2);
}

#[test]
fn rack_free_room_is_max_less_held() {
    let mut topo = topology();
    let v = volume_message(3, 10, "");
    topo.process_heartbeat(&placed(heartbeat("10.0.0.1", 1, 4, 0, vec![v]), "d", "r"), "h", 1);
    topo.process_heartbeat(&placed(heartbeat("10.0.0.2", 2, 2, 0, vec![]), "d", "r"), "h", 1);
    let dc = &topo.data_centers[0];
    let rack = &dc.racks[0];
    assert_eq!(rack.max_volumes(), 6);
    assert_eq!(rack.has_volumes(), 1);
    assert_eq!(rack.free_volumes(), 5);
    assert_eq!(dc.free_volumes(), dc.max_volumes() - dc.has_volumes());
}

#[test]
fn grow_makes_the_next_volume_ids() {
    let mut topo = topology();
    let hb = heartbeat("127.0.0.1", 8080, 10, 0, vec![volume_message(3, 10, "")]);
    let (_, loc) = topo.process_heartbeat(&hb, "h", 30000);
    assert_eq!(topo.get_max_volume_id(), 3);
    let option = VolumeGrowOption::default();
    let made = RefCell::new(vec![]);
    let allocate = |_url: String, vid: VolumeId| -> Result<(), Error> {
        made.borrow_mut().push(vid);
        Ok(())
    };
    assert_eq!(VolumeGrow::new().grow_by_type(&option, &mut topo, &allocate).unwrap(), 7);
    assert_eq!(*made.borrow(), vec![4, 5, 6, 7, 8, 9, 10]);
    assert_eq!(topo.get_max_volume_id(), 10);
    for vid in 4..=10u32 {
        assert!(topo.node(loc).volumes.contains_key(&vid));
        assert_eq!(topo.lookup("", vid).unwrap(), vec![loc]);
    }
}
