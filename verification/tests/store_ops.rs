use std::cell::Cell;

use zergling::operation::lookup::{Error as LookupError, Location, Looker, LookupResult, LOOKUP_TIMEOUT_NANOS};
use crc::crc32::checksum_castagnoli;
use zergling::storage::errors::Error;
use zergling::storage::needle::Needle;
use zergling::storage::needle_map::NeedleMapType;
use zergling::storage::replica_placement::ReplicaPlacement;
use zergling::storage::store::{split_on, volume_not_found_message, Store};
use zergling::storage::ttl::TTL;
use zergling::storage::volume::Volume;

fn store() -> Store {
    Store::new(
        "127.0.0.1",
        8080,
        "pub:8080",
        vec!["/d1".to_string(), "/d2/".to_string()],
        vec![2, 3],
        NeedleMapType::NeedleMapInMemory,
    )
}

fn needle(id: u64, data: &[u8]) -> Needle {
    let mut n = Needle::default();
    n.id = id;
    n.cookie = 0xabcd;
    n.data = data.to_vec();
    n.checksum = checksum_castagnoli(data);
    n
}

#[test]
fn new_store_is_empty() {
    let s = store();
    assert_eq!(s.locations.len(), 2);
    assert_eq!(s.locations[1].directory, "/d2/");
    assert_eq!(s.locations[1].max_volume_count, 3);
    assert!(!s.has_volume(1));
    assert!(s.find_volume(1).is_none());
    assert_eq!(volume_not_found_message(12), "volume 12 not found");
}

#[test]
fn add_volumes_from_a_list() {
    let mut s = store();
    s.add_volume("1,3-4", "", NeedleMapType::NeedleMapInMemory, "000", "1d", 0).unwrap();
    assert!(s.has_volume(1) && s.has_volume(3) && s.has_volume(4));
    assert!(!s.has_volume(2));
    let v = s.find_volume(3).unwrap();
    assert_eq!(v.id, 3);
    assert_eq!(v.super_block.ttl, TTL::new("1d").unwrap());
    // the same volume again, or too many, fail
    assert!(s.add_volume("1", "", NeedleMapType::NeedleMapInMemory, "000", "1d", 0).is_err());
    assert!(s.add_volume("5-9", "", NeedleMapType::NeedleMapInMemory, "000", "1d", 0).is_err());
    assert!(s.has_volume(5) && s.has_volume(6));
    assert!(!s.has_volume(7));
}

#[test]
fn add_volume_reads_its_settings() {
    let mut s = store();
    assert!(matches!(
        s.add_volume("1", "", NeedleMapType::NeedleMapInMemory, "00", "1d", 0),
        Err(Error::ParseReplicaPlacement(_))
    ));
    assert!(matches!(s.add_volume("1", "", NeedleMapType::NeedleMapInMemory, "000", "3q", 0), Err(Error::ParseTTL(_))));
    assert!(s.add_volume("x", "", NeedleMapType::NeedleMapInMemory, "000", "1d", 0).is_err());
    assert!(!s.has_volume(1));
}

#[test]
fn split_like_std() {
    assert_eq!(split_on(b"1,3-4", b','), vec![b"1".to_vec(), b"3-4".to_vec()]);
    assert_eq!(split_on(b"", b','), vec![Vec::<u8>::new()]);
    assert_eq!(split_on(b",", b','), vec![Vec::<u8>::new(), Vec::<u8>::new()]);
}

#[test]
fn write_then_read_through_the_store() {
    let mut s = store();
    s.add_volume("7", "", NeedleMapType::NeedleMapInMemory, "000", "1d", 0).unwrap();
    let mut n = needle(42, b"payload");
    let mut out: Vec<u8> = vec![];
    let (size, offset) = s.write_volume_needle(7, &mut n, 13, &mut out).unwrap();
    assert_eq!(size, 7);
    assert_eq!(offset, 16);
    let v = s.find_volume(7).unwrap();
    let nv = v.nm.get(42).unwrap();
    assert_eq!(nv.offset, 2);
    assert_eq!(nv.size, n.size);

    let mut back = Needle::default();
    back.id = 42;
    assert!(v.can_read_needle(&back, &out));
    let read = s.read_volume_needle(7, &mut back, &out, 0).unwrap();
    assert_eq!(read, 7);
    assert_eq!(back.data, b"payload".to_vec());
    assert_eq!(back.cookie, 0xabcd);

    let mut missing = Needle::default();
    missing.id = 43;
    match s.read_volume_needle(7, &mut missing, &out, 0) {
        Err(Error::Other(m)) => assert_eq!(m, "Not Found"),
        other => panic!("unexpected {:?}", other),
    }
    match s.read_volume_needle(8, &mut missing, &out, 0) {
        Err(Error::Other(m)) => assert_eq!(m, "volume 8 not found"),
        other => panic!("unexpected {:?}", other),
    }
    let mut n2 = needle(1, b"x");
    let mut out2: Vec<u8> = vec![];
    match s.write_volume_needle(8, &mut n2, 0, &mut out2) {
        Err(Error::Other(m)) => assert_eq!(m, "volume 8 not fount"),
        other => panic!("unexpected {:?}", other),
    }
    assert!(out2.is_empty());
}

#[test]
fn expired_needles_are_not_found() {
    let mut v = Volume::new("/d", "", 1, NeedleMapType::NeedleMapInMemory, ReplicaPlacement::default(), TTL::default(), 0);
    let mut n = needle(5, b"abc");
    n.last_modified = 1000;
    n.set_has_last_modified_date();
    n.ttl = TTL::new("1m").unwrap();
    n.set_has_ttl();
    let mut out: Vec<u8> = vec![];
    v.write_needle(&mut n, 8, &mut out).unwrap();
    assert_eq!(v.last_modified_time, 1000);
    let mut early = Needle::default();
    early.id = 5;
    assert_eq!(v.read_needle(&mut early, &out, 1059).unwrap(), 3);
    let mut late = Needle::default();
    late.id = 5;
    match v.read_needle(&mut late, &out, 1060) {
        Err(Error::Other(m)) => assert_eq!(m, "Not Found"),
        other => panic!("unexpected {:?}", other),
    }
}

#[test]
fn volume_file_names_and_info() {
    let v = Volume::new("/data", "pics", 3, NeedleMapType::NeedleMapInMemory, ReplicaPlacement::default(), TTL::default(), 0);
    assert_eq!(v.file_name(), "/data/pics_3");
    assert_eq!(v.data_file_name(), "/data/pics_3.dat");
    assert_eq!(v.index_file_name(), "/data/pics_3.idx");
    let w = Volume::new("/data/", "", 4, NeedleMapType::NeedleMapInMemory, ReplicaPlacement::default(), TTL::default(), 0);
    assert_eq!(w.file_name(), "/data/4");
    let info = v.get_volume_info();
    assert_eq!(info.id, 3);
    assert_eq!(info.collection, "pics");
    assert_eq!(info.version, 2);
    assert!(!info.read_only);
    assert!(!v.expired(100, 1_000_000));
    assert!(!v.need_to_replicate());
}

#[test]
fn read_only_volume_refuses_writes() {
    let mut v = Volume::new("/d", "", 1, NeedleMapType::NeedleMapInMemory, ReplicaPlacement::default(), TTL::default(), 0);
    v.read_only = true;
    let mut n = needle(5, b"abc");
    let mut out: Vec<u8> = vec![];
    match v.write_needle(&mut n, 8, &mut out) {
        Err(Error::Other(m)) => assert_eq!(m, "/d/1.dat is read-only"),
        other => panic!("unexpected {:?}", other),
    }
    assert!(out.is_empty());
}

#[test]
fn deleting_a_volume_needs_directories() {
    let mut s = Store::new("h", 1, "p", vec![], vec![], NeedleMapType::NeedleMapInMemory);
    match s.delete_volume(4) {
        Err(Error::Other(m)) => assert_eq!(m, "volume 4 not fount on dis"),
        other => panic!("unexpected {:?}", other),
    }
    let n = Needle::default();
    assert_eq!(s.delete_volume_needle(4, &n).unwrap(), 0);
}

#[test]
fn empty_ttl_adds_a_volume_without_ttl() {
    let mut s = store();
    s.add_volume("7", "", NeedleMapType::NeedleMapInMemory, "000", "", 0).unwrap();
    assert!(s.has_volume(7));
    assert_eq!(s.find_volume(7).unwrap().super_block.ttl.minutes(), 0);
}

#[test]
fn deleted_needles_are_not_found() {
    let mut s = store();
    s.add_volume("2", "", NeedleMapType::NeedleMapInMemory, "000", "", 0).unwrap();
    let mut w = needle(42, b"hello");
    let mut out: Vec<u8> = vec![];
    s.write_volume_needle(2, &mut w, 8, &mut out).unwrap();
    let mut r = Needle::default();
    r.id = 42;
    assert_eq!(s.read_volume_needle(2, &mut r, &out, 0).unwrap(), 5);
    assert_eq!(r.data, b"hello".to_vec());
    let d = needle(42, b"");
    assert_eq!(s.delete_volume_needle(2, &d).unwrap(), w.size);
    let mut again = Needle::default();
    again.id = 42;
    match s.read_volume_needle(2, &mut again, &out, 0) {
        Err(Error::Other(m)) => assert_eq!(m, "Not Found"),
        other => panic!("unexpected {:?}", other),
    }
    assert!(again.data.is_empty());
    // a second delete finds nothing
    assert_eq!(s.delete_volume_needle(2, &d).unwrap(), 0);
    let v = s.find_volume(2).unwrap();
    assert_eq!(v.nm.delete_count(), 1);
}

#[test]
fn read_only_volume_refuses_deletes() {
    let mut v = Volume::new("/d", "", 1, NeedleMapType::NeedleMapInMemory, ReplicaPlacement::default(), TTL::default(), 0);
    let mut n = needle(5, b"abc");
    let mut out: Vec<u8> = vec![];
    v.write_needle(&mut n, 8, &mut out).unwrap();
    v.read_only = true;
    match v.delete_needle(&n) {
        Err(Error::Other(m)) => assert_eq!(m, "/d/1.dat is read-only"),
        other => panic!("unexpected {:?}", other),
    }
    assert!(v.nm.get(5).is_some());
}

#[test]
fn volumes_expire_after_their_ttl() {
    let mut v = Volume::new("/d", "", 1, NeedleMapType::NeedleMapInMemory, ReplicaPlacement::default(), TTL::new("1m").unwrap(), 0);
    // an empty volume does not expire
    assert!(!v.expired(100, 10_000));
    let mut n = needle(5, b"abc");
    n.last_modified = 1000;
    let mut out: Vec<u8> = vec![];
    v.write_needle(&mut n, 8, &mut out).unwrap();
    assert!(!v.expired(100, 1060));
    assert!(v.expired(100, 1061));
    // no size limit, no expiry
    assert!(!v.expired(0, 1061));
}

#[test]
fn heartbeat_reports_expired_volumes() {
    let mut s = store();
    s.volume_size_limit = 100;
    s.add_volume("1", "", NeedleMapType::NeedleMapInMemory, "000", "1m", 0).unwrap();
    let mut n = needle(9, b"abc");
    n.last_modified = 1000;
    let mut out: Vec<u8> = vec![];
    s.write_volume_needle(1, &mut n, 8, &mut out).unwrap();
    assert!(s.collect_heartbeat(1000).0.volumes.is_empty());
    let (hb, gone) = s.collect_heartbeat(2000);
    assert!(gone.is_empty());
    assert_eq!(hb.volumes.len(), 1);
    assert_eq!(hb.volumes[0].id, 1);
    assert_eq!(hb.volumes[0].file_count, 1);
    assert_eq!(hb.volumes[0].size, n.size as u64);
}

#[test]
fn empty_volumes_past_their_ttl_are_removed() {
    let mut s = store();
    s.volume_size_limit = 100;
    s.add_volume("2", "", NeedleMapType::NeedleMapInMemory, "000", "1m", 0).unwrap();
    // volume 2 is empty, so it never expires; its ttl ran out after a minute
    let i = if s.locations[0].volumes.contains_key(&2) { 0 } else { 1 };
    assert!(s.locations[i].volumes_to_remove(100, 10, 60).is_empty());
    assert_eq!(s.locations[i].volumes_to_remove(100, 10, 61), vec![2]);
    assert!(s.locations[1 - i].volumes_to_remove(100, 10, 61).is_empty());
    // the heartbeat takes it out and hands it back
    let (hb, gone) = s.collect_heartbeat(61);
    assert!(hb.volumes.is_empty());
    assert_eq!(gone.len(), 1);
    assert_eq!(gone[0].id, 2);
    assert!(!s.has_volume(2));
}

#[test]
fn heartbeat_of_a_store() {
    let mut s = store();
    s.add_volume("1", "", NeedleMapType::NeedleMapInMemory, "000", "1d", 0).unwrap();
    let mut n = needle(99, b"z");
    let mut out: Vec<u8> = vec![];
    s.write_volume_needle(1, &mut n, 8, &mut out).unwrap();
    let (hb, _) = s.collect_heartbeat(0);
    assert_eq!(hb.ip, "127.0.0.1");
    assert_eq!(hb.port, 8080);
    assert_eq!(hb.public_url, "pub:8080");
    assert_eq!(hb.max_volume_count, 5);
    assert_eq!(hb.max_file_key, 99);
    assert!(hb.volumes.is_empty());
}

fn answer(vid: &str, url: &str) -> LookupResult {
    LookupResult {
        volume_id: vid.to_string(),
        locations: vec![Location { url: url.to_string(), public_url: url.to_string() }],
        error: String::new(),
    }
}

#[test]
fn looker_caches_answers_for_ten_minutes() {
    let mut l = Looker::new("master:9333");
    let calls = Cell::new(0);
    let fetch = |server: &str, vid: &str| -> Result<LookupResult, LookupError> {
        calls.set(calls.get() + 1);
        assert_eq!(server, "master:9333");
        Ok(answer(vid, "a:1"))
    };
    let r = l.lookup("3", 1_000, &fetch).unwrap();
    assert_eq!(r.locations[0].url, "a:1");
    assert_eq!(calls.get(), 1);
    let r2 = l.lookup("3", 1_000 + LOOKUP_TIMEOUT_NANOS - 1, &fetch).unwrap();
    assert_eq!(r2.volume_id, "3");
    assert_eq!(calls.get(), 1);
    let _ = l.lookup("3", 1_000 + LOOKUP_TIMEOUT_NANOS, &fetch).unwrap();
    assert_eq!(calls.get(), 2);
    assert_eq!(l.cache.len(), 1);
    let _ = l.lookup("4", 1_000 + LOOKUP_TIMEOUT_NANOS, &fetch).unwrap();
    assert_eq!(l.cache.len(), 2);
    assert!(l.clock_is_ok(1_000 + LOOKUP_TIMEOUT_NANOS));
    assert!(!l.clock_is_ok(999));
}

#[test]
fn looker_keeps_no_failed_answer() {
    let mut l = Looker::new("m");
    let fail = |_s: &str, _v: &str| -> Result<LookupResult, LookupError> { Err(LookupError::Other("down".to_string())) };
    match l.lookup("3", 5, &fail) {
        Err(LookupError::Other(m)) => assert_eq!(m, "down"),
        other => panic!("unexpected {:?}", other),
    }
    assert!(l.cache.is_empty());
    assert!(l.cached("3", 5).is_none());
    l.remember("3", answer("3", "b:2"), 5);
    assert_eq!(l.cached("3", 6).unwrap().locations[0].url, "b:2");
    l.remember("3", answer("3", "c:3"), 7);
    assert_eq!(l.cache.len(), 1);
    assert_eq!(l.cached("3", 8).unwrap().locations[0].url, "c:3");
}
