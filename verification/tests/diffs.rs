//! The reported-diff algorithm and the merge-patch round trip.

use spotflow::json::{json_eq, Json, JsonField};
use spotflow::json_diff::{diff_objects, merge_value};

fn key(s: &str) -> Vec<u8> {
    s.as_bytes().to_vec()
}

fn jstr(s: &str) -> Json {
    Json::Str(s.as_bytes().to_vec())
}

fn obj(fields: Vec<(&str, Json)>) -> Json {
    Json::Obj(
        fields
            .into_iter()
            .map(|(k, value)| JsonField { key: key(k), value })
            .collect(),
    )
}

fn check_round_trip(x: &Json, y: &Json, diff: &Json) {
    let merged = merge_value(x, diff);
    assert!(json_eq(&merged, y));
}

#[test]
fn same() {
    let x = obj(vec![("a", jstr("a")), ("b", obj(vec![("c", jstr("c"))]))]);
    let y = obj(vec![("a", jstr("a")), ("b", obj(vec![("c", jstr("c"))]))]);
    let diff = diff_objects(&x, &y);
    assert!(diff.is_none());
}

#[test]
fn top_level_same() {
    let x = obj(vec![("a", jstr("a")), ("b", obj(vec![("c", jstr("c"))]))]);
    let y = obj(vec![("a", jstr("a")), ("b", obj(vec![("c", jstr("c"))]))]);
    assert!(diff_objects(&x, &y).is_none());
    // An empty patch leaves the document unchanged.
    let empty_patch = obj(vec![]);
    check_round_trip(&x, &y, &empty_patch);
}

#[test]
fn add_value() {
    let x = obj(vec![]);
    let y = obj(vec![("a", jstr("a"))]);
    let expected = obj(vec![("a", jstr("a"))]);
    let diff = diff_objects(&x, &y).unwrap();
    assert!(json_eq(&diff, &expected));
    check_round_trip(&x, &y, &diff);
}

#[test]
fn remove_value() {
    let x = obj(vec![("a", jstr("a"))]);
    let y = obj(vec![]);
    let expected = obj(vec![("a", Json::Null)]);
    let diff = diff_objects(&x, &y).unwrap();
    assert!(json_eq(&diff, &expected));
    check_round_trip(&x, &y, &diff);
}

#[test]
fn change_value() {
    let x = obj(vec![("a", jstr("a"))]);
    let y = obj(vec![("a", jstr("b"))]);
    let expected = obj(vec![("a", jstr("b"))]);
    let diff = diff_objects(&x, &y).unwrap();
    assert!(json_eq(&diff, &expected));
    check_round_trip(&x, &y, &diff);
}

#[test]
fn add_remove_change_leave_value() {
    let x = obj(vec![("a", jstr("a")), ("b", jstr("b")), ("c", jstr("c"))]);
    let y = obj(vec![("a", jstr("a")), ("b", jstr("a")), ("d", jstr("d"))]);
    let expected = obj(vec![("b", jstr("a")), ("c", Json::Null), ("d", jstr("d"))]);
    let diff = diff_objects(&x, &y).unwrap();
    assert!(json_eq(&diff, &expected));
    check_round_trip(&x, &y, &diff);
}

#[test]
fn change_nested_value() {
    let x = obj(vec![("a", obj(vec![("b", jstr("b"))]))]);
    let y = obj(vec![("a", obj(vec![("b", jstr("c"))]))]);
    let expected = obj(vec![("a", obj(vec![("b", jstr("c"))]))]);
    let diff = diff_objects(&x, &y).unwrap();
    assert!(json_eq(&diff, &expected));
    check_round_trip(&x, &y, &diff);
}

#[test]
fn add_nested_value() {
    let x = obj(vec![]);
    let y = obj(vec![("a", obj(vec![("b", jstr("b"))]))]);
    let expected = obj(vec![("a", obj(vec![("b", jstr("b"))]))]);
    let diff = diff_objects(&x, &y).unwrap();
    assert!(json_eq(&diff, &expected));
    check_round_trip(&x, &y, &diff);
}

#[test]
fn remove_nested_value() {
    let x = obj(vec![("a", obj(vec![("b", jstr("b"))]))]);
    let y = obj(vec![]);
    let expected = obj(vec![("a", Json::Null)]);
    let diff = diff_objects(&x, &y).unwrap();
    assert!(json_eq(&diff, &expected));
    check_round_trip(&x, &y, &diff);
}

#[test]
fn complex_test() {
    let x = obj(vec![
        ("a", jstr("a")),
        ("b", jstr("b")),
        ("c", jstr("c")),
        (
            "d",
            obj(vec![("e", jstr("e")), ("f", obj(vec![("g", Json::Int(0))]))]),
        ),
    ]);
    let y = obj(vec![
        ("a", jstr("a")),
        ("b", Json::Int(13)),
        (
            "d",
            obj(vec![("e", jstr("e")), ("f", obj(vec![("h", Json::Int(0))]))]),
        ),
        ("i", jstr("i")),
    ]);
    let expected = obj(vec![
        ("b", Json::Int(13)),
        ("c", Json::Null),
        (
            "d",
            obj(vec![(
                "f",
                obj(vec![("g", Json::Null), ("h", Json::Int(0))]),
            )]),
        ),
        ("i", jstr("i")),
    ]);
    let diff = diff_objects(&x, &y).unwrap();
    assert!(json_eq(&diff, &expected));
    check_round_trip(&x, &y, &diff);
}
