use crc::crc32::checksum_castagnoli;
use zergling::storage::codec::{push_u16_be, push_u32_be, push_u64_be};
use zergling::storage::errors::Error;
use zergling::storage::needle::{get_actual_size, record_is_readable, true_offset, Needle};
use zergling::storage::needle_map::{index_file_entries, walk_index_file, NeedleMapType, NeedleMapper};
use zergling::storage::needle_value::NeedleValue;
use zergling::storage::replica_placement::ReplicaPlacement;
use zergling::storage::ttl::TTL;
use zergling::storage::volume::SuperBlock;

fn small_needle(data: &[u8]) -> Needle {
    let mut n = Needle::default();
    n.cookie = 0x01020304;
    n.id = 5;
    n.data = data.to_vec();
    n.checksum = checksum_castagnoli(data);
    n
}

#[test]
fn big_endian_codec() {
    let mut w = vec![9u8];
    push_u32_be(&mut w, 0x01020304);
    push_u64_be(&mut w, 0x05);
    push_u16_be(&mut w, 0xabcd);
    assert_eq!(w, vec![9, 1, 2, 3, 4, 0, 0, 0, 0, 0, 0, 0, 5, 0xab, 0xcd]);
    let mut header = vec![];
    push_u32_be(&mut header, 0x0a0b0c0d);
    push_u64_be(&mut header, 0x0102_0304_0506_0708);
    push_u32_be(&mut header, 77);
    let mut n = Needle::default();
    n.parse_needle_header(&header);
    assert_eq!((n.cookie, n.id, n.size), (0x0a0b0c0d, 0x0102_0304_0506_0708, 77));
}

#[test]
fn sizes_and_offsets() {
    assert_eq!(get_actual_size(7), 32);
    assert_eq!(get_actual_size(0), 24);
    assert_eq!(get_actual_size(4), 24);
    assert_eq!(get_actual_size(12), 32);
    assert_eq!(true_offset(3), 24);
}

#[test]
fn append_writes_the_record() {
    let mut n = small_needle(b"hi");
    n.checksum = 0;
    let mut w: Vec<u8> = vec![];
    let r = n.append(&mut w, 2).unwrap();
    assert_eq!(r, (2, 32));
    assert_eq!(n.size, 7);
    assert_eq!(n.data_size, 2);
    let mut expected = vec![1u8, 2, 3, 4, 0, 0, 0, 0, 0, 0, 0, 5, 0, 0, 0, 7, 0, 0, 0, 2, b'h', b'i', 0];
    expected.extend_from_slice(&[0, 0, 0, 0]);
    expected.extend_from_slice(&[0, 0, 0, 0, 0]);
    assert_eq!(w, expected);
}

#[test]
fn append_refuses_old_version() {
    let mut n = small_needle(b"hi");
    let mut w: Vec<u8> = vec![7];
    assert!(matches!(n.append(&mut w, 1), Err(Error::Other(_))));
    assert_eq!(w, vec![7]);
}

#[test]
fn append_then_read_gives_the_needle_back() {
    let mut n = small_needle(b"hello world");
    n.name = b"a.txt".to_vec();
    n.set_name();
    n.mime = b"text/plain".to_vec();
    n.set_has_mime();
    n.last_modified = 1_500_000_000;
    n.set_has_last_modified_date();
    n.ttl = TTL::new("3d").unwrap();
    n.set_has_ttl();
    let mut w: Vec<u8> = vec![];
    let (data_size, actual) = n.append(&mut w, 2).unwrap();
    assert_eq!(data_size, 11);
    assert_eq!(actual as usize, w.len());
    let size = n.size;

    let mut back = Needle::default();
    assert!(record_is_readable(&back, &w, size, 2));
    back.read_date(&w, size, 2).unwrap();
    assert_eq!(back.cookie, 0x01020304);
    assert_eq!(back.id, 5);
    assert_eq!(back.data, b"hello world".to_vec());
    assert_eq!(back.name, b"a.txt".to_vec());
    assert_eq!(back.mime, b"text/plain".to_vec());
    assert_eq!(back.last_modified, 1_500_000_000);
    assert_eq!(back.ttl, TTL::new("3d").unwrap());
    assert!(back.has_name() && back.has_mime() && back.has_ttl() && back.has_last_modified_date());
    assert_eq!(back.checksum, checksum_castagnoli(b"hello world"));
}

#[test]
fn read_date_checks_length_size_and_checksum() {
    let mut n = small_needle(b"12");
    let mut w: Vec<u8> = vec![];
    n.append(&mut w, 2).unwrap();
    let mut short = Needle::default();
    assert!(matches!(short.read_date(&w[..20], 7, 2), Err(Error::UnexpectedEof)));
    let mut wrong_size = Needle::default();
    assert!(matches!(wrong_size.read_date(&w, 3, 2), Err(Error::Other(_))));
    let mut bad = w.clone();
    bad[20] = b'9';
    let mut corrupt = Needle::default();
    assert!(record_is_readable(&corrupt, &bad, 7, 2));
    assert!(matches!(corrupt.read_date(&bad, 7, 2), Err(Error::Other(_))));
}

#[test]
fn header_and_flags() {
    let mut n = small_needle(b"12");
    let mut w: Vec<u8> = vec![];
    n.append(&mut w, 2).unwrap();
    let mut h = Needle::default();
    h.parse_needle_header(&w);
    assert_eq!((h.cookie, h.id, h.size), (0x01020304, 5, 7));
    let mut f = Needle::default();
    assert!(!f.is_gzipped());
    f.set_gzipped();
    assert!(f.is_gzipped());
    f.set_is_delete();
    assert!(f.is_delete());
    f.set_is_chunk_manifest();
    assert!(f.is_chunk_manifest());
    assert!(!f.has_pairs());
    assert_eq!(f.flags, 0x01 | 0x40 | 0x80);
}

#[test]
fn etag_is_the_checksum_bytes_in_decimal() {
    let mut n = Needle::default();
    n.checksum = 0x01020304;
    assert_eq!(n.etag(), "1234");
    n.checksum = 0xff000a0b;
    assert_eq!(n.etag(), "25501011");
}

#[test]
fn needle_map_set_get_delete() {
    let mut m = NeedleMapper::new(NeedleMapType::NeedleMapInMemory);
    assert_eq!(m.get(1), None);
    assert_eq!(m.set(1, NeedleValue { offset: 1, size: 10 }), None);
    assert_eq!(m.set(9, NeedleValue { offset: 3, size: 5 }), None);
    assert_eq!(m.get(1), Some(NeedleValue { offset: 1, size: 10 }));
    assert_eq!(m.set(1, NeedleValue { offset: 4, size: 12 }), Some(NeedleValue { offset: 1, size: 10 }));
    assert_eq!(m.get(1), Some(NeedleValue { offset: 4, size: 12 }));
    assert_eq!(m.get(9), Some(NeedleValue { offset: 3, size: 5 }));
    assert_eq!(m.file_count(), 3);
    assert_eq!(m.content_size(), 27);
    assert_eq!(m.delete_count(), 1);
    assert_eq!(m.deleted_byte_count(), 10);
    assert_eq!(m.max_file_key(), 9);
    assert_eq!(m.delete(9), Some(NeedleValue { offset: 3, size: 5 }));
    assert_eq!(m.get(9), None);
    assert_eq!(m.delete(9), None);
    assert_eq!(m.delete_count(), 2);
    assert_eq!(m.deleted_byte_count(), 15);
    assert_eq!(m.max_file_key(), 9);
}

fn index_entry(key: u64, offset: u32, size: u32) -> Vec<u8> {
    let mut v = vec![];
    push_u64_be(&mut v, key);
    push_u32_be(&mut v, offset);
    push_u32_be(&mut v, size);
    v
}

#[test]
fn index_file_walk_and_load() {
    let mut idx = index_entry(1, 1, 7);
    idx.extend(index_entry(2, 5, 9));
    idx.extend(index_entry(2, 0, 9));
    let (entries, res) = index_file_entries(&idx);
    assert!(res.is_ok());
    assert_eq!(entries, vec![(1, 1, 7), (2, 5, 9), (2, 0, 9)]);
    let mut m = NeedleMapper::new(NeedleMapType::NeedleMapInMemory);
    m.load_idx_file(&idx, &[]).unwrap();
    assert_eq!(m.get(1), Some(NeedleValue { offset: 1, size: 7 }));
    assert_eq!(m.get(2), None);
    assert_eq!(m.delete_count(), 1);

    let mut broken = idx.clone();
    broken.push(0);
    let (entries2, res2) = index_file_entries(&broken);
    assert_eq!(entries2.len(), 3);
    assert!(matches!(res2, Err(Error::UnexpectedEof)));
    let mut m2 = NeedleMapper::new(NeedleMapType::NeedleMapInMemory);
    assert!(matches!(m2.load_idx_file(&broken, &[]), Err(Error::UnexpectedEof)));
}

#[test]
fn index_load_reads_needles_after_the_index() {
    let mut data = SuperBlock::default().bytes();
    assert_eq!(data.len(), 8);
    let mut n = small_needle(b"12");
    n.id = 44;
    n.append(&mut data, 2).unwrap();
    let mut m = NeedleMapper::new(NeedleMapType::NeedleMapInMemory);
    let recovered = m.load_idx_file(&[], &data).unwrap();
    assert_eq!(m.get(44), Some(NeedleValue { offset: 1, size: 7 }));
    assert_eq!(recovered, vec![(44, 1, 7)]);
}

#[test]
fn super_block_round_trip() {
    let sb = SuperBlock {
        version: 2,
        replica_placement: ReplicaPlacement::new("111").unwrap(),
        ttl: TTL::new("4h").unwrap(),
        compact_revision: 0x0102,
    };
    let b = sb.bytes();
    assert_eq!(b.len(), 8);
    assert_eq!(b[0], 2);
    let back = SuperBlock::parse(b).unwrap();
    assert_eq!(back, sb);
    // a placement that is not uniform comes back as the digits of its byte
    let skewed = SuperBlock { replica_placement: ReplicaPlacement::new("011").unwrap(), ..sb };
    let back2 = SuperBlock::parse(skewed.bytes()).unwrap();
    assert_eq!(back2.replica_placement.same_rack_count, 1);
    assert_eq!(back2.replica_placement.diff_rack_count, 1);
    assert_eq!(back2.replica_placement.diff_data_center_count, 1);
}

#[test]
fn walking_an_index_calls_back_in_order() {
    let mut idx = index_entry(1, 1, 7);
    idx.extend(index_entry(2, 5, 9));
    idx.extend(index_entry(3, 6, 4));
    let seen = std::cell::RefCell::new(vec![]);
    let all = |k: u64, o: u32, s: u32| -> Result<(), Error> {
        seen.borrow_mut().push((k, o, s));
        Ok(())
    };
    assert!(walk_index_file(&idx, &all).is_ok());
    assert_eq!(*seen.borrow(), vec![(1, 1, 7), (2, 5, 9), (3, 6, 4)]);

    // the walk stops at the first error of the call
    let calls = std::cell::Cell::new(0);
    let stop = |k: u64, _o: u32, _s: u32| -> Result<(), Error> {
        calls.set(calls.get() + 1);
        if k == 2 {
            Err(Error::Other("stop".to_string()))
        } else {
            Ok(())
        }
    };
    match walk_index_file(&idx, &stop) {
        Err(Error::Other(m)) => assert_eq!(m, "stop"),
        other => panic!("unexpected {:?}", other),
    }
    assert_eq!(calls.get(), 2);

    // an incomplete entry at the end fails after the complete ones
    let mut broken = idx.clone();
    broken.push(0);
    let count = std::cell::Cell::new(0);
    let counting = |_k: u64, _o: u32, _s: u32| -> Result<(), Error> {
        count.set(count.get() + 1);
        Ok(())
    };
    assert!(matches!(walk_index_file(&broken, &counting), Err(Error::UnexpectedEof)));
    assert_eq!(count.get(), 3);
}
