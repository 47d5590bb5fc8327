//! Topic query strings and percent-encoding.

use spotflow::query::{parse_query, query_lookup};
use spotflow::url::{url_decode, url_encode};

#[test]
fn parse_rid() {
    let props = b"$rid=0";
    let dict = parse_query(props);
    assert_eq!(dict.len(), 1);
    let value = query_lookup(&dict, b"$rid").unwrap().unwrap();
    assert_eq!(value, b"0".to_vec());
}

#[test]
fn parse_multiple() {
    let props = b"$rid=1&foo=bar";
    let dict = parse_query(props);
    assert_eq!(dict.len(), 2);
    let rid = query_lookup(&dict, b"$rid").unwrap().unwrap();
    assert_eq!(rid, b"1".to_vec());
    let foo = query_lookup(&dict, b"foo").unwrap().unwrap();
    assert_eq!(foo, b"bar".to_vec());
}

#[test]
fn parse_key_without_value() {
    let dict = parse_query(b"flag&key=value");
    assert_eq!(dict.len(), 2);
    assert!(query_lookup(&dict, b"flag").unwrap().is_none());
    assert!(query_lookup(&dict, b"missing").is_none());
}

#[test]
fn encode_keeps_safe_bytes() {
    assert_eq!(url_encode(b"abc-XYZ_0.9~"), b"abc-XYZ_0.9~".to_vec());
}

#[test]
fn encode_escapes_unsafe_bytes() {
    assert_eq!(url_encode(b"a b/c"), b"a%20b%2Fc".to_vec());
}

#[test]
fn decode_reads_escapes_back() {
    assert_eq!(url_decode(b"a%20b%2Fc"), b"a b/c".to_vec());
    assert_eq!(url_decode(b"a%2xb"), b"a%2xb".to_vec());
}

#[test]
fn encode_decode_round_trip() {
    let raw: Vec<u8> = (0u8..=255).collect();
    let encoded = url_encode(&raw);
    assert_eq!(url_decode(&encoded), raw);
}
