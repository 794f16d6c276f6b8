use zergling::operation::lookup::Location;
use zergling::storage::api::{
    needle_from_upload, parse_url_path, preallocate_param, read_answer, replica_urls, route, upload_mime, upload_query,
    url_path_is_ok, ParseUploadResp, ReadAnswer, VolRoute,
};
use crc::crc32::checksum_castagnoli;
use zergling::storage::needle::Needle;
use zergling::storage::ttl::{Unit, TTL};

fn parts(p: &str) -> (String, String, String, String, bool) {
    assert!(url_path_is_ok(p));
    parse_url_path(p)
}

#[test]
fn url_path_with_file_name() {
    assert_eq!(
        parts("/3/01637037d6/my_preferred_name.jpg"),
        ("3".to_string(), "01637037d6".to_string(), "my_preferred_name.jpg".to_string(), "jpg".to_string(), false)
    );
}

#[test]
fn url_path_with_slash_and_extension() {
    assert_eq!(
        parts("/3/01637037d6.jpg"),
        ("3".to_string(), "01637037d6".to_string(), String::new(), "jpg".to_string(), false)
    );
    assert_eq!(parts("/3/01637037d6"), ("3".to_string(), "01637037d6".to_string(), String::new(), String::new(), false));
}

#[test]
fn url_path_with_comma() {
    assert_eq!(
        parts("/3,01637037d6.jpg"),
        ("3".to_string(), "01637037d6".to_string(), String::new(), "jpg".to_string(), false)
    );
    assert_eq!(parts("/3,01637037d6"), ("3".to_string(), "01637037d6".to_string(), String::new(), String::new(), false));
}

#[test]
fn url_path_volume_only() {
    assert_eq!(parts("/3"), ("3".to_string(), String::new(), String::new(), String::new(), true));
    assert_eq!(parts("/3.png"), ("3".to_string(), String::new(), String::new(), "png".to_string(), true));
}

#[test]
fn url_path_extension_edge_cases() {
    assert_eq!(parts("/3/abc/.hidden").3, "");
    assert_eq!(parts("/3/abc/name.").3, "");
    assert_eq!(parts("/3/abc/a.b.c").3, "c");
    assert!(!url_path_is_ok(""));
    assert!(!url_path_is_ok("/3.x,y"));
}

#[test]
fn volume_routes() {
    assert_eq!(route("GET", "/status"), VolRoute::Status);
    assert_eq!(route("GET", "/admin/assign_volume"), VolRoute::AssignVolume);
    assert_eq!(route("GET", "/favicon.ico"), VolRoute::Favicon);
    assert_eq!(route("GET", "/metrics"), VolRoute::Metrics);
    assert_eq!(route("POST", "/test_multipart"), VolRoute::TestMultipart);
    assert_eq!(route("POST", "/test_echo"), VolRoute::TestEcho);
    assert_eq!(route("GET", "/3,01637037d6"), VolRoute::GetOrHead);
    assert_eq!(route("HEAD", "/status"), VolRoute::GetOrHead);
    assert_eq!(route("POST", "/status"), VolRoute::Post);
    assert_eq!(route("DELETE", "/3,01637037d6"), VolRoute::Delete);
    assert_eq!(route("PUT", "/3,01637037d6"), VolRoute::Other);
}

#[test]
fn mime_kept_for_upload() {
    // the extension is looked up with its dot, which mime_guess knows no type for, so
    // the posted type is kept whenever one is given
    assert_eq!(upload_mime("a.jpg", "image/jpeg", false), "image/jpeg");
    assert_eq!(upload_mime("a.jpg", "", false), "");
    assert_eq!(upload_mime("noext", "text/plain", false), "text/plain");
    assert_eq!(upload_mime("a.jpg", ".jpg/", false), ".jpg/");
    assert_eq!(upload_mime("a.jpg", "image/png", true), "");
}

#[test]
fn upload_query_values() {
    assert_eq!(upload_query(None, None, None), (false, 0, TTL::default()));
    let (cm, ts, ttl) = upload_query(Some("true"), Some("1500000000"), Some("3d"));
    assert!(cm);
    assert_eq!(ts, 1_500_000_000);
    assert_eq!(ttl, TTL { count: 3, unit: Unit::Day });
    let (cm2, ts2, ttl2) = upload_query(Some("maybe"), Some("x1"), Some("3q"));
    assert!(!cm2);
    assert_eq!(ts2, 0);
    assert_eq!(ttl2, TTL::default());
    assert!(upload_query(Some("1"), None, None).0);
    assert!(!upload_query(Some("false"), None, None).0);
}

fn upload(name: &str, mime: &str, ttl: TTL, modified: u64) -> ParseUploadResp {
    ParseUploadResp {
        file_name: name.to_string(),
        data: b"content".to_vec(),
        mime_type: mime.to_string(),
        pairs: None,
        modified_time: modified,
        ttl,
        is_chunked_file: false,
    }
}

#[test]
fn needle_from_an_upload() {
    let u = upload("a.txt", "text/plain", TTL::new("2h").unwrap(), 0);
    let n = needle_from_upload(u, "/3,01637037d6.txt", 77).unwrap();
    assert_eq!(n.id, 0x01);
    assert_eq!(n.cookie, 0x637037d6);
    assert_eq!(n.data, b"content".to_vec());
    assert_eq!(n.name, b"a.txt".to_vec());
    assert_eq!(n.mime, b"text/plain".to_vec());
    assert_eq!(n.last_modified, 77);
    assert_eq!(n.ttl, TTL::new("2h").unwrap());
    assert!(n.has_name() && n.has_mime() && n.has_last_modified_date() && n.has_ttl());
    assert!(!n.is_chunk_manifest() && !n.has_pairs());
    assert_eq!(n.checksum, checksum_castagnoli(b"content"));

    let u2 = upload("", "", TTL::default(), 5);
    let n2 = needle_from_upload(u2, "/3,01637037d6", 77).unwrap();
    assert_eq!(n2.last_modified, 5);
    assert!(!n2.has_name() && !n2.has_ttl());
    assert!(n2.has_mime());

    let u3 = upload("a", "", TTL::default(), 0);
    assert!(needle_from_upload(u3, "/3,0163zz37d6", 1).is_err());
}

fn stored(cookie: u32, last_modified: u64, checksum: u32, gzipped: bool) -> Needle {
    let mut n = Needle::default();
    n.cookie = cookie;
    n.last_modified = last_modified;
    n.checksum = checksum;
    if gzipped {
        n.set_gzipped();
    }
    n
}

#[test]
fn read_answers() {
    let n = stored(7, 100, 0x01020304, false);
    assert_eq!(read_answer(&n, 8, None, None, None, ""), ReadAnswer::NotFound);
    assert_eq!(read_answer(&n, 7, Some(100), None, None, ""), ReadAnswer::NotModified { last_modified: Some(100) });
    assert_eq!(
        read_answer(&n, 7, Some(101), None, None, ""),
        ReadAnswer::Content { last_modified: Some(100), gzip_header: false, gunzip: false }
    );
    assert_eq!(read_answer(&n, 7, None, Some("1234"), None, ""), ReadAnswer::NotModified { last_modified: Some(100) });
    assert_eq!(
        read_answer(&n, 7, None, Some("4321"), None, ""),
        ReadAnswer::Content { last_modified: Some(100), gzip_header: false, gunzip: false }
    );
    let z = stored(7, 0, 1, true);
    assert_eq!(
        read_answer(&z, 7, Some(0), None, Some(true), ""),
        ReadAnswer::Content { last_modified: None, gzip_header: true, gunzip: false }
    );
    assert_eq!(
        read_answer(&z, 7, None, None, Some(false), ""),
        ReadAnswer::Content { last_modified: None, gzip_header: false, gunzip: true }
    );
    assert_eq!(
        read_answer(&z, 7, None, None, None, ""),
        ReadAnswer::Content { last_modified: None, gzip_header: false, gunzip: false }
    );
}

#[test]
fn replicas_are_the_other_locations() {
    let locs = vec![
        Location { url: "a:1".to_string(), public_url: "pa".to_string() },
        Location { url: "me:2".to_string(), public_url: "pm".to_string() },
        Location { url: "b:3".to_string(), public_url: "pb".to_string() },
    ];
    assert_eq!(
        replica_urls(&locs, "me:2", "/3,01637037d6"),
        vec!["http://a:1/3,01637037d6".to_string(), "http://b:3/3,01637037d6".to_string()]
    );
    assert!(replica_urls(&vec![], "me:2", "/x").is_empty());
}

#[test]
fn preallocation_parameter() {
    assert_eq!(preallocate_param(None), 0);
    assert_eq!(preallocate_param(Some("1024")), 1024);
    assert_eq!(preallocate_param(Some("-5")), -5);
    assert_eq!(preallocate_param(Some("lots")), 0);
}

#[test]
fn multipart_body_of_a_file() {
    let body = zergling::client::make_file_multipart("4ceab01e2296e20f", "a.txt", "text/plain", b"filecontent");
    let expected = "--4ceab01e2296e20f\r\nContent-Disposition: form-data; name=\"file\"; filename=\"a.txt\"\r\nContent-Type: text/plain\r\n\r\nfilecontent\r\n--4ceab01e2296e20f--\r\n";
    assert_eq!(body, expected.as_bytes().to_vec());
}

#[test]
fn upload_checksum_is_crc32c() {
    let mut u = upload("a", "", TTL::default(), 1);
    u.data = b"123456789".to_vec();
    let n = needle_from_upload(u, "/3,01637037d6", 1).unwrap();
    assert_eq!(n.checksum, 0xE306_9283);
    let mut empty = upload("a", "", TTL::default(), 1);
    empty.data = vec![];
    assert_eq!(needle_from_upload(empty, "/3,01637037d6", 1).unwrap().checksum, 0);
}
