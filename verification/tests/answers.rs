use std::io::Write;

use zergling::storage::api::{read_answer, ReadAnswer, PHRASE};
use zergling::storage::content::{answer_body, answer_headers};
use zergling::storage::errors::Error;
use zergling::storage::form::{first_file_part, parse_upload, upload_pairs};
use zergling::storage::needle_map::{index_entry_bytes, index_file_entries};
use zergling::storage::needle::Needle;
use zergling::storage::ttl::TTL;
use zergling::util::request_params;

fn gzip(data: &[u8]) -> Vec<u8> {
    let mut e = libflate::gzip::Encoder::new(Vec::new()).unwrap();
    e.write_all(data).unwrap();
    e.finish().into_result().unwrap()
}

fn content(gunzip: bool, gzip_header: bool) -> ReadAnswer {
    ReadAnswer::Content { last_modified: None, gzip_header, gunzip }
}

#[test]
fn bodies_are_unzipped_when_asked() {
    let mut n = Needle::default();
    n.data = gzip(b"hello hello hello");
    n.set_gzipped();
    assert_eq!(answer_body(&n, content(true, false)).unwrap(), b"hello hello hello".to_vec());
    assert_eq!(answer_body(&n, content(false, true)).unwrap(), n.data);
    assert!(answer_body(&n, ReadAnswer::NotFound).unwrap().is_empty());
    assert!(answer_body(&n, ReadAnswer::NotModified { last_modified: Some(3) }).unwrap().is_empty());
}

#[test]
fn broken_gzip_is_an_error() {
    let mut n = Needle::default();
    n.data = b"not gzip".to_vec();
    match answer_body(&n, content(true, false)) {
        Err(Error::Other(m)) => assert!(!m.is_empty()),
        other => panic!("unexpected {:?}", other),
    }
}

#[test]
fn stored_pairs_become_headers() {
    let mut n = Needle::default();
    n.pairs = br#"{"Zergling-b":"2","Zergling-a":"1"}"#.to_vec();
    n.flags |= 0x20;
    let h = answer_headers(&n, content(false, true)).unwrap();
    assert_eq!(
        h,
        vec![
            ("Zergling-a".to_string(), "1".to_string()),
            ("Zergling-b".to_string(), "2".to_string()),
            ("Content-Encoding".to_string(), "gzip".to_string()),
        ]
    );
    assert!(answer_headers(&n, ReadAnswer::NotFound).unwrap().is_empty());
    let plain = Needle::default();
    assert!(answer_headers(&plain, content(false, false)).unwrap().is_empty());
    n.pairs = br#"{"a":1}"#.to_vec();
    match answer_headers(&n, content(false, false)) {
        Err(Error::Other(m)) => assert!(!m.is_empty()),
        other => panic!("unexpected {:?}", other),
    }
}

#[test]
fn answers_without_content_ignore_the_texts() {
    let mut n = Needle::default();
    n.cookie = 7;
    n.last_modified = 100;
    n.name = vec![0xff, 0xfe];
    n.mime = vec![0xff];
    assert_eq!(read_answer(&n, 8, None, None, None, ""), ReadAnswer::NotFound);
    assert_eq!(read_answer(&n, 7, Some(100), None, None, ""), ReadAnswer::NotModified { last_modified: Some(100) });
}

#[test]
fn query_parameters_win_over_form_ones() {
    let p = request_params(b"a=1&b=2&a=3", Some(b"b=9&c=4&c=5&d=x+y"));
    let mut p = p;
    p.sort();
    assert_eq!(
        p,
        vec![
            ("a".to_string(), "3".to_string()),
            ("b".to_string(), "2".to_string()),
            ("c".to_string(), "4".to_string()),
            ("d".to_string(), "x y".to_string()),
        ]
    );
    let mut q = request_params(b"k=%41", None);
    q.sort();
    assert_eq!(q, vec![("k".to_string(), "A".to_string())]);
    assert!(request_params(b"", Some(b"")).is_empty());
}

fn multipart_body() -> Vec<u8> {
    let mut b = Vec::new();
    b.extend_from_slice(b"--XyZ\r\nContent-Disposition: form-data; name=\"note\"\r\n\r\nhi\r\n");
    b.extend_from_slice(b"--XyZ\r\nContent-Disposition: form-data; name=\"file\"; filename=\"a.txt\"\r\n");
    b.extend_from_slice(b"Content-Type: text/plain\r\n\r\nhello\r\n--XyZ--\r\n");
    b
}

#[test]
fn the_first_named_file_is_taken() {
    let (name, types, data) = first_file_part(&multipart_body(), "XyZ").unwrap();
    assert_eq!(name, "a.txt");
    assert_eq!(types, "text/plain");
    assert_eq!(data, b"hello".to_vec());
    // a body that ends before any named file gives an empty name
    let mut text_only = Vec::new();
    text_only.extend_from_slice(b"--XyZ\r\nContent-Disposition: form-data; name=\"note\"\r\n\r\nhi\r\n--XyZ--\r\n");
    let (name, types, data) = first_file_part(&text_only, "XyZ").unwrap();
    assert!(name.is_empty() && types.is_empty() && data.is_empty());
}

#[test]
fn uploads_are_parsed() {
    let u = parse_upload(&multipart_body(), "XyZ", Some("true"), Some("1234"), Some("3d"), Some(b"{}".to_vec())).unwrap();
    assert_eq!(u.file_name, "a.txt");
    assert_eq!(u.data, b"hello".to_vec());
    // a chunk manifest keeps no MIME type
    assert_eq!(u.mime_type, "");
    assert!(u.is_chunked_file);
    assert_eq!(u.modified_time, 1234);
    assert_eq!(u.ttl, TTL::new("3d").unwrap());
    assert_eq!(u.pairs, Some(b"{}".to_vec()));
    let v = parse_upload(&multipart_body(), "XyZ", None, None, None, None).unwrap();
    assert!(!v.is_chunked_file);
    assert_eq!(v.mime_type, "text/plain");
    assert_eq!(v.modified_time, 0);
    assert_eq!(v.ttl, TTL::default());
}

#[test]
fn upload_pairs_keep_the_prefixed_headers() {
    let headers = vec![
        ("Zergling-b".to_string(), "2".to_string()),
        ("Content-Type".to_string(), "text/plain".to_string()),
        ("Zergling-a".to_string(), "1".to_string()),
        ("Zergling-b".to_string(), "3".to_string()),
    ];
    let pairs = upload_pairs(&headers).unwrap().unwrap();
    assert_eq!(pairs, br#"{"Zergling-a":"1","Zergling-b":"3"}"#.to_vec());
    let none = vec![("zergling-a".to_string(), "1".to_string())];
    assert_eq!(upload_pairs(&none).unwrap(), None);
    assert_eq!(upload_pairs(&vec![]).unwrap(), None);
}

#[test]
fn index_entries_are_written_big_endian() {
    let b = index_entry_bytes(0x0102030405060708, 0x0a0b0c0d, 7);
    assert_eq!(b, vec![1, 2, 3, 4, 5, 6, 7, 8, 0x0a, 0x0b, 0x0c, 0x0d, 0, 0, 0, 7]);
    let mut file = b.clone();
    file.extend(index_entry_bytes(9, 0, 0));
    let (entries, res) = index_file_entries(&file);
    assert!(res.is_ok());
    assert_eq!(entries, vec![(0x0102030405060708, 0x0a0b0c0d, 7), (9, 0, 0)]);
}

#[test]
fn the_greeting() {
    assert_eq!(PHRASE, "Hello, World!");
}
