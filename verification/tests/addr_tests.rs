use fasts3::addr::parse;
use fasts3::errors::StoreError;

#[test]
fn parse_bucket_and_nested_key() {
    let a = parse(b"b/k1/k2").unwrap();
    assert_eq!(a.bucket, b"b".to_vec());
    assert_eq!(a.key, b"k1/k2".to_vec());
}

#[test]
fn parse_trailing_marker_keeps_separator() {
    let a = parse(b"b/").unwrap();
    assert_eq!(a.bucket, b"b".to_vec());
    assert_eq!(a.key, b"/".to_vec());
}

#[test]
fn parse_bare_bucket_has_empty_key() {
    let a = parse(b"bucket").unwrap();
    assert_eq!(a.bucket, b"bucket".to_vec());
    assert_eq!(a.key, b"".to_vec());
}

#[test]
fn parse_empty_path_fails() {
    assert_eq!(parse(b"").unwrap_err(), StoreError::MalformedAddress);
}

#[test]
fn parse_only_separators_fails() {
    assert_eq!(parse(b"///").unwrap_err(), StoreError::MalformedAddress);
}

#[test]
fn parse_trailing_separator_propagates_into_key() {
    let a = parse(b"b/k1/k2/").unwrap();
    assert_eq!(a.key, b"k1/k2/".to_vec());
}

#[test]
fn parse_skips_leading_separators() {
    let a = parse(b"//b/k").unwrap();
    assert_eq!(a.bucket, b"b".to_vec());
    assert_eq!(a.key, b"k".to_vec());
}

#[test]
fn parse_keeps_key_verbatim() {
    let a = parse(b"b//k").unwrap();
    assert_eq!(a.bucket, b"b".to_vec());
    assert_eq!(a.key, b"/k".to_vec());
}
