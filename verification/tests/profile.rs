use gear_sync::engine::load_document;
use gear_sync::error::ParseError;
use gear_sync::json::Json;
use gear_sync::optimizer::Optimizer;
use gear_sync::profile::{update_profile, Gear, Profile};

const PROFILE: &str = r#"{
    "Name": "hall",
    "foo": 42,
    "Breakpoints": {
        "Version": 3,
        "Gear": [
            {"ID": [1, 2], "Comment": "speed", "foo": 42, "Nested": {"foo": [42, null]}},
            {"ID": [5], "Comment": "torque", "Weight": 1.5},
            {"ID": [9], "Hint": "no comment"},
            {"ID": [], "Comment": null}
        ]
    }
}"#;

fn entry(label: &str, ids: &[u32]) -> Optimizer {
    Optimizer { label: label.to_string(), ids: ids.to_vec() }
}

fn read(text: &str) -> Json {
    load_document(Some(text)).unwrap()
}

fn as_value(doc: &Json) -> serde_json::Value {
    match doc {
        Json::Null => serde_json::Value::Null,
        Json::Bool(b) => serde_json::Value::Bool(*b),
        Json::Uint(n) => serde_json::Value::from(*n),
        Json::Number(n) => serde_json::Value::Number(n.clone()),
        Json::Str(s) => serde_json::Value::String(s.clone()),
        Json::Array(items) => serde_json::Value::Array(items.iter().map(as_value).collect()),
        Json::Object(members) => serde_json::Value::Object(
            members.iter().map(|(k, v)| (k.clone(), as_value(v))).collect(),
        ),
    }
}

fn value(text: &str) -> serde_json::Value {
    serde_json::from_str(text).unwrap()
}

#[test]
fn a_profile_is_read_with_its_gear_entries() {
    let profile = Profile::from_json(&read(PROFILE)).unwrap();
    let gear = &profile.breakpoints.gear;
    assert_eq!(gear.len(), 4);
    assert_eq!(gear[0].id, vec![1, 2]);
    assert_eq!(gear[0].comment, Some("speed".to_string()));
    assert_eq!(gear[1].id, vec![5]);
    assert_eq!(gear[1].comment, Some("torque".to_string()));
    assert_eq!(gear[2].id, vec![9]);
    assert_eq!(gear[2].comment, None);
    assert_eq!(gear[3].id, Vec::<u32>::new());
    assert_eq!(gear[3].comment, None);
}

#[test]
fn unknown_members_are_kept_apart() {
    let profile = Profile::from_json(&read(PROFILE)).unwrap();
    let names: Vec<&str> = profile.other_fields.iter().map(|m| m.0.as_str()).collect();
    assert_eq!(names, vec!["Name", "foo"]);
    let names: Vec<&str> =
        profile.breakpoints.other_fields.iter().map(|m| m.0.as_str()).collect();
    assert_eq!(names, vec!["Version"]);
    let names: Vec<&str> =
        profile.breakpoints.gear[0].other_fields.iter().map(|m| m.0.as_str()).collect();
    assert_eq!(names, vec!["Nested", "foo"]);
    let names: Vec<&str> =
        profile.breakpoints.gear[3].other_fields.iter().map(|m| m.0.as_str()).collect();
    assert_eq!(names, vec!["Comment"]);
}

#[test]
fn a_profile_that_is_written_as_read_holds_the_same() {
    let profile = Profile::from_json(&read(PROFILE)).unwrap();
    assert_eq!(as_value(&profile.to_json()), value(PROFILE));
}

#[test]
fn an_update_changes_matching_gear_only() {
    let mut profile = Profile::from_json(&read(PROFILE)).unwrap();
    let report =
        update_profile(&mut profile, &[entry("speed", &[7, 8, 9]), entry("torque", &[5])]);
    assert_eq!(report.changed, vec!["speed".to_string()]);
    assert_eq!(report.skipped, vec!["torque".to_string()]);
    let expected = value(
        r#"{
        "Name": "hall",
        "foo": 42,
        "Breakpoints": {
            "Version": 3,
            "Gear": [
                {"ID": [7, 8, 9], "Comment": "speed", "foo": 42, "Nested": {"foo": [42, null]}},
                {"ID": [5], "Comment": "torque", "Weight": 1.5},
                {"ID": [9], "Hint": "no comment"},
                {"ID": [], "Comment": null}
            ]
        }
    }"#,
    );
    assert_eq!(as_value(&profile.to_json()), expected);
}

#[test]
fn an_update_keeps_the_order_of_the_new_ids() {
    let mut profile = Profile::from_json(&read(PROFILE)).unwrap();
    update_profile(&mut profile, &[entry("speed", &[9, 7, 8])]);
    assert_eq!(profile.breakpoints.gear[0].id, vec![9, 7, 8]);
}

#[test]
fn an_update_with_the_same_ids_in_another_order_changes_nothing() {
    let mut profile = Profile::from_json(&read(PROFILE)).unwrap();
    let report = update_profile(&mut profile, &[entry("speed", &[2, 1])]);
    assert!(report.changed.is_empty());
    assert_eq!(report.skipped, vec!["speed".to_string()]);
    assert_eq!(profile.breakpoints.gear[0].id, vec![1, 2]);
}

#[test]
fn a_second_update_with_the_same_result_changes_nothing() {
    let mut profile = Profile::from_json(&read(PROFILE)).unwrap();
    let result = [entry("speed", &[7, 8, 9]), entry("torque", &[1])];
    let first = update_profile(&mut profile, &result);
    assert_eq!(first.changed, vec!["speed".to_string(), "torque".to_string()]);
    let once = as_value(&profile.to_json());
    let second = update_profile(&mut profile, &result);
    assert!(second.changed.is_empty());
    assert_eq!(second.skipped, vec!["speed".to_string(), "torque".to_string()]);
    assert_eq!(as_value(&profile.to_json()), once);
}

#[test]
fn every_gear_with_the_label_takes_the_ids() {
    let text = r#"{"Breakpoints": {"Gear": [
        {"ID": [1], "Comment": "a"}, {"ID": [2], "Comment": "a"}, {"ID": [3], "Comment": "b"}
    ]}}"#;
    let mut profile = Profile::from_json(&read(text)).unwrap();
    let report = update_profile(&mut profile, &[entry("a", &[2])]);
    assert_eq!(report.changed, vec!["a".to_string()]);
    assert_eq!(report.skipped, vec!["a".to_string()]);
    assert_eq!(profile.breakpoints.gear[0].id, vec![2]);
    assert_eq!(profile.breakpoints.gear[1].id, vec![2]);
    assert_eq!(profile.breakpoints.gear[2].id, vec![3]);
}

#[test]
fn documents_of_another_shape_are_refused() {
    for text in [
        "[]",
        "{}",
        r#"{"Breakpoints": []}"#,
        r#"{"Breakpoints": {}}"#,
        r#"{"Breakpoints": {"Gear": {}}}"#,
        r#"{"Breakpoints": {"Gear": [1]}}"#,
        r#"{"Breakpoints": {"Gear": [{}]}}"#,
        r#"{"Breakpoints": {"Gear": [{"ID": 1}]}}"#,
        r#"{"Breakpoints": {"Gear": [{"ID": ["1"]}]}}"#,
        r#"{"Breakpoints": {"Gear": [{"ID": [-1]}]}}"#,
        r#"{"Breakpoints": {"Gear": [{"ID": [4294967296]}]}}"#,
        r#"{"Breakpoints": {"Gear": [{"ID": [1], "Comment": 7}]}}"#,
    ] {
        assert_eq!(Profile::from_json(&read(text)).unwrap_err(), ParseError::Shape, "{}", text);
    }
}

#[test]
fn a_gear_entry_is_written_with_its_comment_last() {
    let gear = Gear {
        other_fields: vec![("Hint".to_string(), Json::Bool(true))],
        id: vec![4, 2],
        comment: Some("speed".to_string()),
    };
    let expected = Json::Object(vec![
        ("Hint".to_string(), Json::Bool(true)),
        ("ID".to_string(), Json::Array(vec![Json::Uint(4), Json::Uint(2)])),
        ("Comment".to_string(), Json::Str("speed".to_string())),
    ]);
    assert_eq!(gear.to_json(), expected);
    assert_eq!(Gear::from_json(&expected).unwrap(), gear);
}

#[test]
fn a_repeated_id_does_not_stand_for_a_new_one() {
    let text = r#"{"Breakpoints": {"Gear": [
        {"ID": [1, 1, 2], "Comment": "a"}, {"ID": [1, 1, 2], "Comment": "b"}
    ]}}"#;
    let mut profile = Profile::from_json(&read(text)).unwrap();
    let report = update_profile(&mut profile, &[entry("a", &[1, 2, 3]), entry("b", &[2, 1])]);
    assert_eq!(report.changed, vec!["a".to_string()]);
    assert_eq!(report.skipped, vec!["b".to_string()]);
    assert_eq!(profile.breakpoints.gear[0].id, vec![1, 2, 3]);
    assert_eq!(profile.breakpoints.gear[1].id, vec![1, 1, 2]);
}
