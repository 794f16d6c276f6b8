use zergling::storage::errors::Error;
use zergling::storage::file_id::FileID;
use zergling::storage::api::upload_path_is_ok;
use zergling::storage::needle::{fid_is_cuttable, parse_key_hash, Needle};
use zergling::storage::replica_placement::ReplicaPlacement;
use zergling::storage::ttl::{ttl_text_is_readable, Unit, TTL};
use zergling::text::{dec_string, hex_string, i64_string, parse_i64_bytes, parse_uint_bytes, radix_string, same_text, zero_padded};

#[test]
fn ttl_reads_each_unit() {
    let cases = [
        ("3m", 3u8, Unit::Minute),
        ("4h", 4, Unit::Hour),
        ("5d", 5, Unit::Day),
        ("6w", 6, Unit::Week),
        ("7M", 7, Unit::Month),
        ("8y", 8, Unit::Year),
        ("3", 3, Unit::Minute),
        ("255m", 255, Unit::Minute),
    ];
    for (text, count, unit) in cases.iter() {
        assert!(ttl_text_is_readable(text));
        let t = TTL::new(text).unwrap();
        assert_eq!(t.count, *count);
        assert_eq!(t.unit, *unit);
    }
}

#[test]
fn ttl_refuses_bad_text() {
    for text in ["", "3x", "256m", "m", "-1m", "3mm"].iter() {
        assert!(ttl_text_is_readable(text));
        match TTL::new(text) {
            Err(Error::ParseTTL(m)) => assert_eq!(m, *text),
            other => panic!("unexpected {:?} for {:?}", other, text),
        }
    }
}

#[test]
fn ttl_text_round_trip() {
    for text in ["3m", "4h", "12d", "6w", "7M", "8y"].iter() {
        let t = TTL::new(text).unwrap();
        assert_eq!(t.string(), *text);
        let again = TTL::new(&t.string()).unwrap();
        assert_eq!(again, t);
    }
    let zero = TTL::new("0h").unwrap();
    assert_eq!(zero.string(), "");
}

#[test]
fn ttl_minutes_and_storage() {
    assert_eq!(TTL::new("3m").unwrap().minutes(), 3);
    assert_eq!(TTL::new("2h").unwrap().minutes(), 120);
    assert_eq!(TTL::new("1d").unwrap().minutes(), 1440);
    assert_eq!(TTL::new("1w").unwrap().minutes(), 10080);
    assert_eq!(TTL::new("1M").unwrap().minutes(), 44640);
    assert_eq!(TTL::new("1y").unwrap().minutes(), 525600);
    assert_eq!(TTL::default().minutes(), 0);
    let t = TTL::new("5d").unwrap();
    assert_eq!(t.bytes(), vec![5u8, 3u8]);
    assert_eq!(t.to_u32(), 5 + 3 * 256);
    assert_eq!(TTL::from_bytes(vec![5, 3]), t);
    // the u32 is read modulo 255 a byte, so 773 (5 + 3 * 256) comes back with count 8
    assert_eq!(TTL::from_u32(t.to_u32()), TTL { count: 8, unit: Unit::Day });
    assert_eq!(TTL::from_u32(5 + 3 * 256 - 3), TTL { count: 5, unit: Unit::Day });
    // the count is the whole u32 modulo 255
    let wrapped = TTL::from_u32(255);
    assert_eq!(wrapped.count, 0);
    assert_eq!(wrapped.unit, Unit::Empty);
    assert_eq!(TTL::from_u32(255 + 2 * 256), TTL { count: 2, unit: Unit::Hour });
}

#[test]
fn unit_letters_and_numbers() {
    assert_eq!(Unit::new(b'm'), Some(Unit::Minute));
    assert_eq!(Unit::new(b'M'), Some(Unit::Month));
    assert_eq!(Unit::new(b'x'), None);
    assert_eq!(Unit::from_u8_idx(6), Some(Unit::Year));
    assert_eq!(Unit::from_u8_idx(7), None);
    assert_eq!(Unit::Week.index(), 4);
    assert_eq!(Unit::Day.string(), "d");
    assert_eq!(Unit::Empty.string(), "");
}

#[test]
fn replica_placement_reads_text() {
    // the second digit is read for both the rack and the data center count
    let rp = ReplicaPlacement::new("012").unwrap();
    assert_eq!(rp.same_rack_count, 0);
    assert_eq!(rp.diff_rack_count, 1);
    assert_eq!(rp.diff_data_center_count, 1);
    assert_eq!(rp.string(), "110");
    assert_eq!(rp.byte(), 110);
    assert_eq!(rp.get_copy_count(), 3);
    let one = ReplicaPlacement::new("000").unwrap();
    assert_eq!(one.get_copy_count(), 1);
    assert_eq!(one.string(), "000");
    match ReplicaPlacement::new("01") {
        Err(Error::ParseReplicaPlacement(m)) => assert_eq!(m, "01"),
        other => panic!("unexpected {:?}", other),
    }
    let from_byte = ReplicaPlacement::from_u8(1).unwrap();
    assert_eq!(from_byte.same_rack_count, 0);
    assert_eq!(from_byte.diff_rack_count, 0);
    assert_eq!(from_byte.diff_data_center_count, 0);
    let from_byte2 = ReplicaPlacement::from_u8(120).unwrap();
    assert_eq!(from_byte2.same_rack_count, 1);
    assert_eq!(from_byte2.diff_rack_count, 2);
    assert_eq!(from_byte2.diff_data_center_count, 2);
}

#[test]
fn file_id_text_and_read_back() {
    let f = FileID { volume_id: 3, key: 0x1637, hash_code: 0x37d6 };
    let s = f.string();
    assert_eq!(s, "3,1637000037d6");
    assert_eq!(parse_key_hash("1637000037d6").unwrap(), (0x1637, 0x37d6));
    let mut n = Needle::default();
    n.parse_path("1637000037d6").unwrap();
    assert_eq!(n.id, 0x1637);
    assert_eq!(n.cookie, 0x37d6);
}

#[test]
fn parse_path_adds_delta() {
    let mut n = Needle::default();
    n.parse_path("01637037d6_2").unwrap();
    assert_eq!(n.id, 0x01 + 2);
    assert_eq!(n.cookie, 0x637037d6);
}

#[test]
fn parse_path_refuses_short_or_bad() {
    let mut n = Needle::default();
    assert!(n.parse_path("12345678").is_err());
    assert!(parse_key_hash("12345678").is_err());
    assert!(parse_key_hash("0123456789abcdef012345678").is_err());
    assert!(parse_key_hash("zz12345678").is_err());
}

#[test]
fn number_texts() {
    assert_eq!(dec_string(0), "0");
    assert_eq!(dec_string(1234567890), "1234567890");
    assert_eq!(hex_string(0x1637), "1637");
    assert_eq!(hex_string(0xdeadbeef), "deadbeef");
    assert_eq!(radix_string(5, 2), "101");
    assert_eq!(zero_padded(String::from("37d6"), 8), "000037d6");
    assert_eq!(zero_padded(String::from("123456789"), 8), "123456789");
    assert_eq!(i64_string(-42), "-42");
    assert_eq!(i64_string(i64::MIN), "-9223372036854775808");
    assert!(same_text("abc", "abc"));
    assert!(!same_text("abc", "abd"));
}

#[test]
fn number_reading() {
    assert_eq!(parse_uint_bytes(b"255", 10, 255), Some(255));
    assert_eq!(parse_uint_bytes(b"256", 10, 255), None);
    assert_eq!(parse_uint_bytes(b"+7", 10, 255), Some(7));
    assert_eq!(parse_uint_bytes(b"ff", 16, u64::MAX), Some(255));
    assert_eq!(parse_uint_bytes(b"FF", 16, u64::MAX), Some(255));
    assert_eq!(parse_uint_bytes(b"", 10, 255), None);
    assert_eq!(parse_uint_bytes(b"1a", 10, 255), None);
    assert_eq!(parse_i64_bytes(b"-12"), Some(-12));
    assert_eq!(parse_i64_bytes(b"9223372036854775807"), Some(i64::MAX));
    assert_eq!(parse_i64_bytes(b"9223372036854775808"), None);
    assert_eq!(parse_i64_bytes(b"-9223372036854775808"), Some(i64::MIN));
    assert_eq!(parse_i64_bytes(b"x"), None);
}

#[test]
fn file_id_cutting_checks() {
    assert!(fid_is_cuttable("01637037d6"));
    assert!(fid_is_cuttable("01637037d6_3"));
    assert!(fid_is_cuttable("short"));
    // the cookie would start inside the two bytes of 'é'
    assert!(!fid_is_cuttable("a\u{e9}1234567"));
    assert!(upload_path_is_ok("/3,01637037d6.jpg"));
    assert!(!upload_path_is_ok("/3.jpg,01637037d6"));
}
