//! JSON text and the twin middleware's topic parsing.

use spotflow::json::{json_eq, Json, JsonField};
use spotflow::jsonio::{is_scrubbed, json_to_bytes, parse_json};
use spotflow::twinmw::{
    open_get_twins_request, parse_desired_patch_topic, parse_response_topic, RequestTable,
    ResponseKind,
};

fn obj(fields: Vec<(&str, Json)>) -> Json {
    Json::Obj(
        fields
            .into_iter()
            .map(|(k, value)| JsonField {
                key: k.as_bytes().to_vec(),
                value,
            })
            .collect(),
    )
}

fn jstr(s: &str) -> Json {
    Json::Str(s.as_bytes().to_vec())
}

#[test]
fn parse_and_write_round_trip() {
    let text = br#"{"a":-5,"b":[true,null,"x"],"c":{"d":1}}"#;
    let doc = parse_json(text).unwrap();
    let written = json_to_bytes(&doc);
    assert_eq!(written, text.to_vec());
    let again = parse_json(&written).unwrap();
    assert!(json_eq(&doc, &again));
}

#[test]
fn parser_sorts_object_members() {
    let doc = parse_json(br#"{"b":1,"a":2}"#).unwrap();
    assert_eq!(json_to_bytes(&doc), br#"{"a":2,"b":1}"#.to_vec());
}

#[test]
fn parser_refuses_wide_numbers() {
    assert!(parse_json(b"1.5").is_none());
    assert!(parse_json(b"99999999999999999999999999").is_none());
    assert!(parse_json(b"not json").is_none());
}

#[test]
fn writer_escapes_strings() {
    let doc = obj(vec![("k", Json::Str(b"a\"b\\c\nd".to_vec()))]);
    assert_eq!(
        json_to_bytes(&doc),
        br#"{"k":"a\"b\\c\u000Ad"}"#.to_vec()
    );
}

#[test]
fn scrubbed_check() {
    assert!(is_scrubbed(&obj(vec![("a", jstr("a"))])));
    assert!(!is_scrubbed(&obj(vec![("a", Json::Null)])));
    assert!(!is_scrubbed(&obj(vec![(
        "a",
        obj(vec![("b", Json::Null)])
    )])));
    // An array member may hold null: a merge patch never looks inside.
    assert!(is_scrubbed(&obj(vec![(
        "a",
        Json::Arr(vec![Json::Null])
    )])));
}

#[test]
fn response_topic_parsing() {
    let parsed = parse_response_topic(b"$iothub/twin/res/204/?$rid=abc-1").unwrap();
    assert_eq!(parsed.status, 204);
    assert_eq!(parsed.request_id, b"abc-1".to_vec());
    assert!(parse_response_topic(b"$iothub/twin/res/abc/?$rid=1").is_none());
    assert!(parse_response_topic(b"$iothub/twin/res/204/norid").is_none());
    assert!(parse_response_topic(b"some/other/topic").is_none());
}

#[test]
fn desired_patch_topic_parsing() {
    let version =
        parse_desired_patch_topic(b"$iothub/twin/PATCH/properties/desired/?$version=12").unwrap();
    assert_eq!(version, 12);
    assert!(
        parse_desired_patch_topic(b"$iothub/twin/PATCH/properties/desired/?other=1").is_none()
    );
    assert!(parse_desired_patch_topic(b"$iothub/twin/res/200/?$rid=1").is_none());
}

#[test]
fn request_table_matches_responses() {
    let mut table = RequestTable::new();
    let rid = open_get_twins_request(&mut table);
    assert_eq!(table.entries.len(), 1);
    // A response for an unknown identifier is ignored.
    assert!(table.take(b"unknown").is_none());
    assert_eq!(table.entries.len(), 1);
    // The matching response takes the request out, exactly once.
    let kind = table.take(rid.as_bytes()).unwrap();
    assert!(matches!(kind, ResponseKind::GetTwins));
    assert!(table.take(rid.as_bytes()).is_none());
}

#[test]
fn writer_edges() {
    assert_eq!(json_to_bytes(&Json::Int(i64::MIN)), b"-9223372036854775808".to_vec());
    assert_eq!(json_to_bytes(&Json::Int(0)), b"0".to_vec());
    assert_eq!(json_to_bytes(&obj(vec![])), b"{}".to_vec());
    assert_eq!(json_to_bytes(&Json::Arr(vec![])), b"[]".to_vec());
    assert_eq!(json_to_bytes(&Json::Bool(true)), b"true".to_vec());
    assert_eq!(json_to_bytes(&Json::Null), b"null".to_vec());
}

#[test]
fn response_status_bounds() {
    let parsed =
        parse_response_topic(b"$iothub/twin/res/18446744073709551615/?$rid=x").unwrap();
    assert_eq!(parsed.status, u64::MAX);
    assert!(parse_response_topic(b"$iothub/twin/res/18446744073709551616/?$rid=x").is_none());
}
