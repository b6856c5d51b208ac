use gear_sync::engine::{
    load_document, load_profile, reconcile, save_document, save_profile, update_game_files,
    Rewrite,
};
use gear_sync::error::{LoadError, ParseError};
use gear_sync::json::Json;
use gear_sync::optimizer::Optimizer;
use gear_sync::settings_doc::update_settings;

const PROFILE: &str = r#"{
    "foo": 42,
    "Breakpoints": {
        "Gear": [
            {"ID": [1, 2, 3], "Comment": "speed", "foo": 42},
            {"ID": [5], "Comment": "torque"}
        ]
    }
}"#;

const SETTINGS: &str = r#"{
    "maxSpeed": [1, 2, 3],
    "torque": [5],
    "volume": 0.5,
    "name": "hall"
}"#;

fn entry(label: &str, ids: &[u32]) -> Optimizer {
    Optimizer { label: label.to_string(), ids: ids.to_vec() }
}

fn mapper(pairs: &[(&str, &str)]) -> Vec<(String, String)> {
    pairs.iter().map(|(a, b)| (a.to_string(), b.to_string())).collect()
}

fn value(text: &str) -> serde_json::Value {
    serde_json::from_str(text).unwrap()
}

fn written(rewrite: &Rewrite) -> serde_json::Value {
    match rewrite {
        Rewrite::Write(text) => value(text),
        other => panic!("nothing is written: {:?}", other),
    }
}

fn kept(rewrite: &Rewrite) -> bool {
    matches!(rewrite, Rewrite::Keep)
}

fn names(labels: &[&str]) -> Vec<String> {
    labels.iter().map(|l| l.to_string()).collect()
}

#[test]
fn a_new_result_rewrites_both_documents() {
    let result = [entry("speed", &[9, 8]), entry("torque", &[5])];
    let update = update_game_files(
        &result,
        Some(PROFILE),
        Some(SETTINGS),
        &mapper(&[("speed", "maxSpeed")]),
    );
    assert_eq!(
        written(&update.profile),
        value(
            r#"{"foo": 42, "Breakpoints": {"Gear": [
                {"ID": [9, 8], "Comment": "speed", "foo": 42},
                {"ID": [5], "Comment": "torque"}
            ]}}"#
        )
    );
    assert_eq!(
        written(&update.settings),
        value(r#"{"maxSpeed": [9, 8], "torque": [5], "volume": 0.5, "name": "hall"}"#)
    );
    assert_eq!(update.report.profile_changed, names(&["speed"]));
    assert_eq!(update.report.settings_changed, names(&["speed"]));
    assert_eq!(update.report.skipped, names(&["torque"]));
}

#[test]
fn the_written_text_is_indented() {
    let update = update_game_files(
        &[entry("a", &[1])],
        None,
        Some(r#"{"x":[]}"#),
        &mapper(&[("a", "x")]),
    );
    match &update.settings {
        Rewrite::Write(text) => assert_eq!(text, "{\n  \"x\": [\n    1\n  ]\n}"),
        other => panic!("nothing is written: {:?}", other),
    }
}

#[test]
fn applying_a_result_twice_writes_once() {
    let result = [entry("speed", &[9, 8]), entry("torque", &[6])];
    let map = mapper(&[("speed", "maxSpeed"), ("torque", "torque")]);
    let first = update_game_files(&result, Some(PROFILE), Some(SETTINGS), &map);
    let (profile, settings) = match (&first.profile, &first.settings) {
        (Rewrite::Write(p), Rewrite::Write(s)) => (p.clone(), s.clone()),
        other => panic!("both documents are written: {:?}", other),
    };
    let second = update_game_files(&result, Some(&profile), Some(&settings), &map);
    assert!(kept(&second.profile));
    assert!(kept(&second.settings));
    assert!(second.report.profile_changed.is_empty());
    assert!(second.report.settings_changed.is_empty());
    assert_eq!(second.report.skipped, names(&["speed", "torque", "speed", "torque"]));
}

#[test]
fn the_same_ids_in_another_order_are_no_change() {
    let map = mapper(&[("speed", "maxSpeed")]);
    let update = update_game_files(
        &[entry("speed", &[3, 2, 1])],
        Some(PROFILE),
        Some(SETTINGS),
        &map,
    );
    assert!(kept(&update.profile));
    assert!(kept(&update.settings));
    assert!(update.report.profile_changed.is_empty());
    assert!(update.report.settings_changed.is_empty());
    assert_eq!(update.report.skipped, names(&["speed", "speed"]));
}

#[test]
fn an_extra_field_survives_an_update() {
    let update = update_game_files(
        &[entry("torque", &[6, 7])],
        Some(PROFILE),
        Some(SETTINGS),
        &mapper(&[]),
    );
    let profile = written(&update.profile);
    assert_eq!(profile["foo"], value("42"));
    assert_eq!(profile["Breakpoints"]["Gear"][0]["foo"], value("42"));
    assert_eq!(profile["Breakpoints"]["Gear"][0]["ID"], value("[1, 2, 3]"));
    assert_eq!(profile["Breakpoints"]["Gear"][1]["ID"], value("[6, 7]"));
    assert!(kept(&update.settings));
}

#[test]
fn only_mapped_fields_are_modified() {
    let update = update_game_files(
        &[entry("speed", &[4]), entry("torque", &[6])],
        None,
        Some(SETTINGS),
        &mapper(&[("speed", "maxSpeed")]),
    );
    assert_eq!(
        written(&update.settings),
        value(r#"{"maxSpeed": [4], "torque": [5], "volume": 0.5, "name": "hall"}"#)
    );
    assert_eq!(update.report.settings_changed, names(&["speed"]));
}

#[test]
fn a_mapped_field_that_the_document_lacks_is_not_added() {
    let update = update_game_files(
        &[entry("speed", &[4])],
        None,
        Some(SETTINGS),
        &mapper(&[("speed", "topSpeed")]),
    );
    assert!(kept(&update.settings));
    assert!(update.report.settings_changed.is_empty());
    assert!(update.report.skipped.is_empty());
}

#[test]
fn a_field_that_is_no_array_counts_as_empty() {
    let map = mapper(&[("a", "name"), ("b", "volume")]);
    let update =
        update_game_files(&[entry("a", &[1]), entry("b", &[])], None, Some(SETTINGS), &map);
    assert_eq!(
        written(&update.settings),
        value(r#"{"maxSpeed": [1, 2, 3], "torque": [5], "volume": 0.5, "name": [1]}"#)
    );
    assert_eq!(update.report.settings_changed, names(&["a"]));
    assert_eq!(update.report.skipped, names(&["b"]));
}

#[test]
fn items_that_are_no_whole_numbers_are_passed_over() {
    let update = update_game_files(
        &[entry("a", &[1, 2])],
        None,
        Some(r#"{"x": [1, "one", 2.5, -3, 2, null]}"#),
        &mapper(&[("a", "x")]),
    );
    assert!(kept(&update.settings));
    assert_eq!(update.report.skipped, names(&["a"]));
}

#[test]
fn whole_numbers_beyond_32_bits_are_reduced() {
    let update = update_game_files(
        &[entry("a", &[1])],
        None,
        Some(r#"{"x": [4294967297]}"#),
        &mapper(&[("a", "x")]),
    );
    assert!(kept(&update.settings));
}

#[test]
fn a_document_that_could_not_be_read_leaves_the_other_to_be_updated() {
    let result = [entry("speed", &[4])];
    let map = mapper(&[("speed", "maxSpeed")]);
    let update = update_game_files(&result, None, Some(SETTINGS), &map);
    assert!(matches!(update.profile, Rewrite::Failed(LoadError::Io)));
    assert!(matches!(update.settings, Rewrite::Write(_)));
    let update = update_game_files(&result, Some(PROFILE), None, &map);
    assert!(matches!(update.profile, Rewrite::Write(_)));
    assert!(matches!(update.settings, Rewrite::Failed(LoadError::Io)));
}

#[test]
fn a_document_that_is_refused_is_reported() {
    let result = [entry("speed", &[4])];
    let map = mapper(&[("speed", "maxSpeed")]);
    let update = update_game_files(&result, Some("{"), Some("nothing"), &map);
    assert!(matches!(update.profile, Rewrite::Failed(LoadError::Parse(ParseError::Syntax))));
    assert!(matches!(update.settings, Rewrite::Failed(LoadError::Parse(ParseError::Syntax))));
    let update = update_game_files(&result, Some("{}"), Some("[]"), &map);
    assert!(matches!(update.profile, Rewrite::Failed(LoadError::Parse(ParseError::Shape))));
    assert!(kept(&update.settings));
}

#[test]
fn documents_can_be_given_as_loaded() {
    let update = reconcile(
        &[entry("speed", &[4])],
        load_document(Some(PROFILE)),
        Err(LoadError::Io),
        &mapper(&[]),
    );
    assert!(matches!(update.profile, Rewrite::Write(_)));
    assert!(matches!(update.settings, Rewrite::Failed(LoadError::Io)));
}

#[test]
fn the_pairs_of_the_mapper_are_applied_in_order() {
    let mut doc = Json::Object(vec![
        ("x".to_string(), Json::Array(vec![])),
        ("y".to_string(), Json::Null),
    ]);
    let report = update_settings(
        &mut doc,
        &mapper(&[("a", "x"), ("b", "x"), ("c", "y"), ("a", "z")]),
        &[entry("a", &[1]), entry("b", &[2])],
    );
    assert_eq!(report.changed, names(&["a", "b"]));
    assert!(report.skipped.is_empty());
    assert_eq!(
        doc,
        Json::Object(vec![
            ("x".to_string(), Json::Array(vec![Json::Uint(2)])),
            ("y".to_string(), Json::Null),
        ])
    );
}

#[test]
fn a_profile_is_loaded_and_saved_as_text() {
    let profile = load_profile(Some(PROFILE)).unwrap();
    assert_eq!(profile.breakpoints.gear.len(), 2);
    assert_eq!(value(&save_profile(&profile)), value(PROFILE));
    assert_eq!(load_profile(None).unwrap_err(), LoadError::Io);
    assert_eq!(load_profile(Some("{")).unwrap_err(), LoadError::Parse(ParseError::Syntax));
    assert_eq!(load_profile(Some("{}")).unwrap_err(), LoadError::Parse(ParseError::Shape));
}

#[test]
fn a_document_is_loaded_and_saved_as_text() {
    let doc = load_document(Some(SETTINGS)).unwrap();
    assert_eq!(value(&save_document(&doc)), value(SETTINGS));
    assert_eq!(save_document(&Json::Array(vec![])), "[]");
    assert_eq!(load_document(None).unwrap_err(), LoadError::Io);
    assert_eq!(load_document(Some("")).unwrap_err(), LoadError::Parse(ParseError::Syntax));
}

#[test]
fn a_field_with_a_repeated_id_takes_a_new_set() {
    let map = mapper(&[("speed", "maxSpeed"), ("torque", "torque")]);
    let update = update_game_files(
        &[entry("speed", &[1, 2, 3]), entry("torque", &[2, 1])],
        Some(r#"{"Breakpoints": {"Gear": [{"ID": [1, 1, 2], "Comment": "speed"}]}}"#),
        Some(r#"{"maxSpeed": [1, 1, 2], "torque": [1, 1, 2]}"#),
        &map,
    );
    assert_eq!(
        written(&update.profile),
        value(r#"{"Breakpoints": {"Gear": [{"ID": [1, 2, 3], "Comment": "speed"}]}}"#)
    );
    assert_eq!(
        written(&update.settings),
        value(r#"{"maxSpeed": [1, 2, 3], "torque": [1, 1, 2]}"#)
    );
    assert_eq!(update.report.profile_changed, names(&["speed"]));
    assert_eq!(update.report.settings_changed, names(&["speed"]));
    assert_eq!(update.report.skipped, names(&["torque"]));
}

#[test]
fn two_pairs_on_one_field_that_agree_write_once() {
    let map = mapper(&[("a", "x"), ("b", "x")]);
    let result = [entry("a", &[1, 2]), entry("b", &[2, 1])];
    let first = update_game_files(&result, None, Some(r#"{"x": []}"#), &map);
    let text = match &first.settings {
        Rewrite::Write(text) => text.clone(),
        other => panic!("the settings are written: {:?}", other),
    };
    assert_eq!(value(&text), value(r#"{"x": [1, 2]}"#));
    assert_eq!(first.report.settings_changed, names(&["a"]));
    let second = update_game_files(&result, None, Some(&text), &map);
    assert!(kept(&second.settings));
    assert!(second.report.settings_changed.is_empty());
}

#[test]
fn two_pairs_on_one_field_that_disagree_write_again() {
    let map = mapper(&[("a", "x"), ("b", "x")]);
    let result = [entry("a", &[1]), entry("b", &[2])];
    let first = update_game_files(&result, None, Some(r#"{"x": []}"#), &map);
    let text = match &first.settings {
        Rewrite::Write(text) => text.clone(),
        other => panic!("the settings are written: {:?}", other),
    };
    assert_eq!(value(&text), value(r#"{"x": [2]}"#));
    let second = update_game_files(&result, None, Some(&text), &map);
    assert_eq!(second.report.settings_changed, names(&["a", "b"]));
    assert_eq!(written(&second.settings), value(r#"{"x": [2]}"#));
}
