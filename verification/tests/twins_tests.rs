//! Twin snapshots, updates, and the reconciler.

use spotflow::json::{json_eq, Json, JsonField};
use spotflow::jsonio::parse_json;
use spotflow::messages::{ReportedPropertiesUpdate, ReportedPropertiesUpdateType};
use spotflow::twin::{
    DesiredUpdateOutcome, Twin, TwinReconciler, TwinUpdate, TwinUpdateOutcome,
};
use spotflow::twinmw::reported_patch_to_send;

fn member<'a>(j: &'a Json, name: &str) -> &'a Json {
    match j {
        Json::Obj(fields) => {
            for f in fields {
                if f.key == name.as_bytes() {
                    return &f.value;
                }
            }
            panic!("missing member");
        }
        _ => panic!("not an object"),
    }
}

fn member_count(j: &Json) -> usize {
    match j {
        Json::Obj(fields) => fields.len(),
        _ => panic!("not an object"),
    }
}

fn obj(fields: Vec<(&str, Json)>) -> Json {
    Json::Obj(
        fields
            .into_iter()
            .map(|(k, value)| JsonField {
                key: k.as_bytes().to_vec(),
                value,
            })
            .collect(),
    )
}

fn jstr(s: &str) -> Json {
    Json::Str(s.as_bytes().to_vec())
}

#[test]
fn deserialize_twins() {
    let text = r#"{"desired":{"foo":"bar","ahoj":"bye","next":"next","$version":10},"reported":{"$version":1}}"#;
    let doc = parse_json(text.as_bytes()).expect("twin document must parse");
    let desired = Twin::from_json(member(&doc, "desired")).expect("desired twin must parse");
    let reported = Twin::from_json(member(&doc, "reported")).expect("reported twin must parse");
    assert_eq!(desired.version, 10);
    assert_eq!(reported.version, 1);

    assert!(matches!(desired.properties, Json::Obj(_)));
    assert_eq!(member_count(&desired.properties), 3);
    assert!(json_eq(member(&desired.properties, "foo"), &jstr("bar")));

    assert!(matches!(reported.properties, Json::Obj(_)));
    assert_eq!(member_count(&reported.properties), 0);
}

#[test]
fn update_twin() {
    let text = r#"{"desired":{"foo":"bar","lorem":"ipsum","ahoj":"bye","next":"next","$version":10},"reported":{"$version":1}}"#;
    let doc = parse_json(text.as_bytes()).expect("twin document must parse");
    let mut desired = Twin::from_json(member(&doc, "desired")).expect("desired twin must parse");
    assert_eq!(desired.version, 10);

    let update_text = r#"{"ahoj":"hi","next":42,"foo":null,"$version":11}"#;
    let update_doc = parse_json(update_text.as_bytes()).expect("update must parse");
    let update = TwinUpdate::from_json(&update_doc).expect("update must be read");
    assert_eq!(update.version, Some(11));

    let outcome = desired.update(&update);
    assert!(matches!(outcome, TwinUpdateOutcome::Applied));

    let result_text = r#"{"lorem":"ipsum","ahoj":"hi","next":42}"#;
    let result = parse_json(result_text.as_bytes()).expect("expected result must parse");
    assert!(json_eq(&desired.properties, &result));
    assert_eq!(desired.version, 11);
}

#[test]
fn stale_and_gap_updates_leave_twin_alone() {
    let mut twin = Twin {
        version: 5,
        properties: obj(vec![("a", jstr("a"))]),
    };
    let stale = TwinUpdate {
        version: Some(5),
        patch: obj(vec![("a", jstr("changed"))]),
    };
    assert!(matches!(twin.update(&stale), TwinUpdateOutcome::Ignored));
    assert_eq!(twin.version, 5);

    let gap = TwinUpdate {
        version: Some(8),
        patch: obj(vec![("a", jstr("changed"))]),
    };
    assert!(matches!(twin.update(&gap), TwinUpdateOutcome::VersionGap));
    assert_eq!(twin.version, 5);
    assert!(json_eq(&twin.properties, &obj(vec![("a", jstr("a"))])));
}

#[test]
fn gap_patch_requests_full_twin() {
    let mut state = TwinReconciler::new();
    assert!(state.install_full_desired(5, obj(vec![("a", jstr("a"))])));
    // A patch for version 8 over a snapshot at version 5 skips updates.
    let outcome = state.update_desired(8, &obj(vec![("a", jstr("b"))]));
    assert!(matches!(outcome, DesiredUpdateOutcome::VersionGap));
    // The snapshot is untouched.
    assert_eq!(state.desired.as_ref().unwrap().version, 5);
}

#[test]
fn successor_patch_applies() {
    let mut state = TwinReconciler::new();
    assert!(state.install_full_desired(5, obj(vec![("a", jstr("a")), ("b", jstr("b"))])));
    let outcome = state.update_desired(6, &obj(vec![("a", Json::Null), ("c", jstr("c"))]));
    assert!(matches!(outcome, DesiredUpdateOutcome::Applied));
    let desired = state.desired.as_ref().unwrap();
    assert_eq!(desired.version, 6);
    assert!(json_eq(
        &desired.properties,
        &obj(vec![("b", jstr("b")), ("c", jstr("c"))])
    ));
}

#[test]
fn stale_patch_is_discarded() {
    let mut state = TwinReconciler::new();
    assert!(state.install_full_desired(5, obj(vec![("a", jstr("a"))])));
    let outcome = state.update_desired(4, &obj(vec![("a", jstr("b"))]));
    assert!(matches!(outcome, DesiredUpdateOutcome::Stale));
    assert_eq!(state.desired.as_ref().unwrap().version, 5);
}

#[test]
fn early_patches_are_buffered_and_drained() {
    let mut state = TwinReconciler::new();
    // No snapshot yet: the patch waits.
    let outcome = state.update_desired(6, &obj(vec![("b", jstr("b"))]));
    assert!(matches!(outcome, DesiredUpdateOutcome::Buffered));
    assert!(state.desired.is_none());
    // The snapshot arrives; the buffered successor patch is applied on top.
    assert!(state.install_full_desired(5, obj(vec![("a", jstr("a"))])));
    let desired = state.desired.as_ref().unwrap();
    assert_eq!(desired.version, 6);
    assert!(json_eq(
        &desired.properties,
        &obj(vec![("a", jstr("a")), ("b", jstr("b"))])
    ));
}

#[test]
fn older_full_twin_is_ignored() {
    let mut state = TwinReconciler::new();
    assert!(state.install_full_desired(5, obj(vec![("a", jstr("a"))])));
    assert!(!state.install_full_desired(4, obj(vec![("a", jstr("old"))])));
    assert_eq!(state.desired.as_ref().unwrap().version, 5);
}

#[test]
fn reported_update_merges() {
    let mut state = TwinReconciler::new();
    assert!(state.install_full_reported(1, obj(vec![("a", jstr("a"))])));
    assert!(state.update_reported(&obj(vec![("b", jstr("b"))])));
    let reported = state.reported.as_ref().unwrap();
    assert_eq!(reported.version, 2);
    assert!(json_eq(
        &reported.properties,
        &obj(vec![("a", jstr("a")), ("b", jstr("b"))])
    ));
}

#[test]
fn reported_update_without_snapshot_fails() {
    let mut state = TwinReconciler::new();
    assert!(!state.update_reported(&obj(vec![("b", jstr("b"))])));
}

#[test]
fn full_reported_update_sends_diff() {
    let mut state = TwinReconciler::new();
    assert!(state.install_full_reported(
        1,
        obj(vec![("a", jstr("a")), ("b", jstr("b"))])
    ));
    let update = ReportedPropertiesUpdate {
        update_type: ReportedPropertiesUpdateType::Full,
        patch: obj(vec![("a", jstr("a")), ("c", jstr("c"))]),
    };
    let patch = reported_patch_to_send(&state, &update);
    assert!(json_eq(
        &patch,
        &obj(vec![("b", Json::Null), ("c", jstr("c"))])
    ));
}

#[test]
fn patch_reported_update_travels_verbatim() {
    let state = TwinReconciler::new();
    let update = ReportedPropertiesUpdate {
        update_type: ReportedPropertiesUpdateType::Patch,
        patch: obj(vec![("x", Json::Int(1))]),
    };
    let patch = reported_patch_to_send(&state, &update);
    assert!(json_eq(&patch, &obj(vec![("x", Json::Int(1))])));
}

#[test]
fn desired_version_never_decreases() {
    let mut state = TwinReconciler::new();
    let mut observed: Vec<u64> = Vec::new();
    assert!(state.install_full_desired(3, obj(vec![])));
    observed.push(state.desired.as_ref().unwrap().version);
    state.update_desired(4, &obj(vec![("a", jstr("a"))]));
    observed.push(state.desired.as_ref().unwrap().version);
    state.update_desired(2, &obj(vec![("a", jstr("b"))]));
    observed.push(state.desired.as_ref().unwrap().version);
    state.update_desired(9, &obj(vec![("a", jstr("b"))]));
    observed.push(state.desired.as_ref().unwrap().version);
    state.install_full_desired(9, obj(vec![]));
    observed.push(state.desired.as_ref().unwrap().version);
    for pair in observed.windows(2) {
        assert!(pair[0] <= pair[1]);
    }
    assert_eq!(observed, vec![3, 4, 4, 4, 9]);
}

#[test]
fn desired_if_newer_filters_by_version() {
    let mut state = TwinReconciler::new();
    assert!(state.desired_if_newer(0).is_none());
    assert!(state.install_full_desired(5, obj(vec![("a", jstr("a"))])));
    assert!(state.desired_if_newer(5).is_none());
    let newer = state.desired_if_newer(4).unwrap();
    assert_eq!(newer.version, 5);
}
