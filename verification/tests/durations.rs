//! Parsing the registration service's lifetime strings.

use spotflow::duration::DurationWrapper;
use spotflow::json::Json;
use spotflow::jsonio::parse_json;

/// Parses a JSON string document and hands its text to the duration parser,
/// the way a registration response is read.
fn parse_from_json(doc: &str) -> Option<DurationWrapper> {
    match parse_json(doc.as_bytes()) {
        Some(Json::Str(text)) => DurationWrapper::parse(&text),
        _ => None,
    }
}

#[test]
fn deser_duration() {
    let d = parse_from_json("\"8.11:55:36.3296177\"").unwrap();
    assert_eq!(d.as_secs(), 734136);
}

#[test]
fn deser_duration_2() {
    let d = parse_from_json("\"13:00:39\"").unwrap();
    assert_eq!(d.as_secs(), 46839);
}

#[test]
fn deser_duration_3() {
    let d = parse_from_json("\"00:00:39\"").unwrap();
    assert_eq!(d.as_secs(), 39);
}

#[test]
fn deser_duration_4() {
    let d = parse_from_json("\"0000.00:00:00.00\"").unwrap();
    assert_eq!(d.as_secs(), 0);
}

#[test]
#[should_panic]
fn deser_duration_fail() {
    let _d = parse_from_json("\"10:39\"").unwrap();
}

#[test]
fn negative_duration_is_zero() {
    let d = DurationWrapper::parse(b"-1.02:03:04").unwrap();
    assert_eq!(d.as_secs(), 0);
}

#[test]
fn malformed_minutes_fail() {
    assert!(DurationWrapper::parse(b"1.aa:03:04").is_none());
    assert!(DurationWrapper::parse(b"").is_none());
    assert!(DurationWrapper::parse(b"::").is_none());
}

#[test]
fn extra_fields_are_ignored() {
    // Only the first three `:`-separated fields count.
    let d = DurationWrapper::parse(b"01:02:03:04").unwrap();
    assert_eq!(d.as_secs(), 3723);
    // Only the first two `.`-separated parts of the day field count.
    let d = DurationWrapper::parse(b"1.2.3:04:05").unwrap();
    assert_eq!(d.as_secs(), 86400 + 2 * 3600 + 4 * 60 + 5);
}
