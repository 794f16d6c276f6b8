use zergling::util::parse_bool;

#[test]
fn it_works() {}

#[test]
fn parse_bool_reads_true_and_false() {
    assert!(parse_bool("true").unwrap());
    assert!(!parse_bool("F").unwrap());
    assert!(parse_bool("yes").is_err());
}
