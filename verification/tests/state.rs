use gear_sync::engine::Rewrite;
use gear_sync::error::{DecodeError, LoadError, ParseError};
use gear_sync::optimizer::{decode_body, Optimizer};
use gear_sync::state::{load_state, AppState, Phase, RequestPlan, WatchAction, WatchEvent};

const CONFIG: &str = r#"{
    "filePath": "profile.json",
    "settingsPath": "settings.json",
    "settingsMapper": {"speed": "maxSpeed"}
}"#;

const NEW_CONFIG: &str = r#"{
    "filePath": "other/profile.json",
    "settingsPath": "other/settings.json",
    "settingsMapper": {"speed": "topSpeed"}
}"#;

const PROFILE: &str = r#"{"Breakpoints": {"Gear": [{"ID": [1], "Comment": "speed"}]}}"#;

const SETTINGS: &str = r#"{"maxSpeed": [1], "topSpeed": [1]}"#;

const BODY: &str = r#"[{"speed": [1, 2, 3]}]"#;

fn entry(label: &str, ids: &[u32]) -> Optimizer {
    Optimizer { label: label.to_string(), ids: ids.to_vec() }
}

fn value(text: &str) -> serde_json::Value {
    serde_json::from_str(text).unwrap()
}

fn applied(state: &mut AppState, body: &str) -> bool {
    match state.update_files(body) {
        RequestPlan::Apply(entries) => {
            let update = state.apply(&entries, Some(PROFILE), Some(SETTINGS));
            assert!(state.complete(entries, &update, true));
            true
        }
        _ => false,
    }
}

#[test]
fn the_state_starts_without_a_last_result() {
    let state = load_state(CONFIG).unwrap();
    assert_eq!(state.settings.file_path(), "profile.json");
    assert_eq!(state.settings.settings_path(), "settings.json");
    assert!(state.optimizer.is_none());
    assert!(state.previous.is_none());
    assert_eq!(state.phase(), Phase::Idle);
}

#[test]
fn the_state_does_not_start_from_a_bad_configuration() {
    assert_eq!(load_state("{").unwrap_err(), ParseError::Syntax);
    assert_eq!(load_state("{}").unwrap_err(), ParseError::Shape);
}

#[test]
fn the_first_result_is_applied() {
    let state = load_state(CONFIG).unwrap();
    assert!(state.should_apply(&[entry("speed", &[1])]));
    assert!(state.should_apply(&[]));
    let plan = state.update_files(BODY);
    assert_eq!(plan.status(), 200);
    match plan {
        RequestPlan::Apply(entries) => assert_eq!(entries, vec![entry("speed", &[1, 2, 3])]),
        other => panic!("the result is applied: {:?}", other),
    }
}

#[test]
fn the_same_result_is_applied_once() {
    let mut state = load_state(CONFIG).unwrap();
    assert!(applied(&mut state, BODY));
    let plan = state.update_files(BODY);
    assert!(matches!(plan, RequestPlan::Same));
    assert_eq!(plan.status(), 200);
    assert!(!applied(&mut state, BODY));
}

#[test]
fn the_same_ids_in_another_order_are_not_applied_again() {
    let mut state = load_state(CONFIG).unwrap();
    assert!(applied(&mut state, BODY));
    assert!(!applied(&mut state, r#"[{"speed": [3, 2, 1]}]"#));
    assert!(applied(&mut state, r#"[{"speed": [3, 2, 4]}]"#));
}

#[test]
fn a_repeated_id_does_not_hide_a_new_one() {
    let mut state = load_state(CONFIG).unwrap();
    assert!(applied(&mut state, r#"[{"speed": [1, 1, 2]}]"#));
    assert!(!applied(&mut state, r#"[{"speed": [2, 1]}]"#));
    assert!(applied(&mut state, r#"[{"speed": [1, 2, 3]}]"#));
    assert!(applied(&mut state, r#"[{"speed": [1, 1, 2]}]"#));
}

#[test]
fn many_requests_with_one_result_apply_it_once() {
    let mut state = load_state(CONFIG).unwrap();
    let mut count = 0;
    for _ in 0..8 {
        if applied(&mut state, BODY) {
            count += 1;
        }
    }
    assert_eq!(count, 1);
}

#[test]
fn a_malformed_body_changes_nothing() {
    let mut state = load_state(CONFIG).unwrap();
    assert!(applied(&mut state, BODY));
    for (body, error, status) in [
        ("[{\"speed\": [1, 2", DecodeError::Syntax, 400),
        ("{\"speed\": [1]}", DecodeError::Shape, 422),
        ("[{\"speed\": [1]}, {\"speed\": [2]}]", DecodeError::DuplicateLabel, 422),
    ] {
        let plan = state.update_files(body);
        assert_eq!(plan.status(), status);
        match plan {
            RequestPlan::Reject(e) => assert_eq!(e, error),
            other => panic!("the body is refused: {:?}", other),
        }
        assert_eq!(state.optimizer, Some(vec![entry("speed", &[1, 2, 3])]));
        assert_eq!(state.settings.file_path(), "profile.json");
    }
}

#[test]
fn a_failed_update_is_not_committed() {
    let mut state = load_state(CONFIG).unwrap();
    let entries = decode_body(BODY).unwrap();
    let update = state.apply(&entries, None, Some(SETTINGS));
    assert!(matches!(update.profile, Rewrite::Failed(LoadError::Io)));
    assert!(matches!(update.settings, Rewrite::Write(_)));
    assert!(!state.complete(entries, &update, true));
    assert!(state.optimizer.is_none());
    let entries = decode_body(BODY).unwrap();
    let update = state.apply(&entries, Some(PROFILE), Some(SETTINGS));
    assert!(!state.complete(entries, &update, false));
    assert!(state.optimizer.is_none());
    assert!(matches!(state.update_files(BODY), RequestPlan::Apply(_)));
}

#[test]
fn a_reload_without_a_last_result_only_takes_the_mapping() {
    let mut state = load_state(CONFIG).unwrap();
    let action = state.handle_event(WatchEvent::Changed(Some(NEW_CONFIG.to_string())));
    assert_eq!(action, WatchAction::Rest);
    assert_eq!(state.phase(), Phase::Idle);
    assert_eq!(state.settings.file_path(), "other/profile.json");
    assert_eq!(state.settings.settings_path(), "other/settings.json");
    assert!(state.replay(Some(PROFILE), Some(SETTINGS)).is_none());
}

#[test]
fn a_reload_replays_the_last_result_under_the_new_mapping() {
    let mut state = load_state(CONFIG).unwrap();
    assert!(applied(&mut state, BODY));
    let action = state.handle_event(WatchEvent::Changed(Some(NEW_CONFIG.to_string())));
    assert_eq!(action, WatchAction::Replay);
    assert_eq!(state.phase(), Phase::Reloading);
    assert_eq!(
        state.settings.settings_mapper(),
        &vec![("speed".to_string(), "topSpeed".to_string())]
    );
    assert_eq!(state.previous.as_ref().unwrap().file_path(), "profile.json");
    let update = state.replay(Some(PROFILE), Some(SETTINGS)).unwrap();
    match &update.settings {
        Rewrite::Write(text) => {
            assert_eq!(value(text), value(r#"{"maxSpeed": [1], "topSpeed": [1, 2, 3]}"#))
        }
        other => panic!("the settings are written: {:?}", other),
    }
    assert_eq!(update.report.settings_changed, vec!["speed".to_string()]);
    assert!(state.complete_replay(&update, true));
    assert_eq!(state.phase(), Phase::Idle);
    assert!(state.previous.is_none());
    assert_eq!(state.settings.file_path(), "other/profile.json");
    assert_eq!(state.optimizer, Some(vec![entry("speed", &[1, 2, 3])]));
}

#[test]
fn a_failed_replay_puts_the_previous_mapping_back() {
    let mut state = load_state(CONFIG).unwrap();
    assert!(applied(&mut state, BODY));
    let action = state.handle_event(WatchEvent::Changed(Some(NEW_CONFIG.to_string())));
    assert_eq!(action, WatchAction::Replay);
    let update = state.replay(None, Some(SETTINGS)).unwrap();
    assert!(matches!(update.profile, Rewrite::Failed(LoadError::Io)));
    assert!(!state.complete_replay(&update, true));
    assert_eq!(state.phase(), Phase::Idle);
    assert!(state.previous.is_none());
    assert_eq!(state.settings.file_path(), "profile.json");
    assert_eq!(state.settings.settings_path(), "settings.json");
    assert_eq!(
        state.settings.settings_mapper(),
        &vec![("speed".to_string(), "maxSpeed".to_string())]
    );
    assert_eq!(state.optimizer, Some(vec![entry("speed", &[1, 2, 3])]));
    assert!(matches!(state.update_files(BODY), RequestPlan::Same));
}

#[test]
fn a_replay_that_was_not_written_puts_the_previous_mapping_back() {
    let mut state = load_state(CONFIG).unwrap();
    assert!(applied(&mut state, BODY));
    state.handle_event(WatchEvent::Changed(Some(NEW_CONFIG.to_string())));
    let update = state.replay(Some(PROFILE), Some(SETTINGS)).unwrap();
    assert!(update.succeeded());
    assert!(!state.complete_replay(&update, false));
    assert_eq!(state.settings.file_path(), "profile.json");
    let mut state = load_state(CONFIG).unwrap();
    assert!(applied(&mut state, BODY));
    state.handle_event(WatchEvent::Changed(Some(NEW_CONFIG.to_string())));
    assert_eq!(state.handle_event(WatchEvent::Replayed(false)), WatchAction::Rest);
    assert_eq!(state.settings.file_path(), "profile.json");
    assert_eq!(state.phase(), Phase::Idle);
}

#[test]
fn a_second_change_during_a_reload_keeps_the_mapping_in_effect() {
    let mut state = load_state(CONFIG).unwrap();
    assert!(applied(&mut state, BODY));
    state.handle_event(WatchEvent::Changed(Some(NEW_CONFIG.to_string())));
    let action = state.handle_event(WatchEvent::Changed(Some("{".to_string())));
    assert_eq!(action, WatchAction::Failed(LoadError::Parse(ParseError::Syntax)));
    assert_eq!(state.phase(), Phase::Reloading);
    assert_eq!(state.settings.file_path(), "other/profile.json");
    assert_eq!(state.previous.as_ref().unwrap().file_path(), "profile.json");
    let third = NEW_CONFIG.replace("other/", "third/");
    assert_eq!(state.handle_event(WatchEvent::Changed(Some(third))), WatchAction::Replay);
    assert_eq!(state.settings.file_path(), "third/profile.json");
    assert_eq!(state.previous.as_ref().unwrap().file_path(), "profile.json");
    assert_eq!(state.handle_event(WatchEvent::Replayed(false)), WatchAction::Rest);
    assert_eq!(state.settings.file_path(), "profile.json");
}

#[test]
fn a_replay_report_without_a_reload_changes_nothing() {
    let mut state = load_state(CONFIG).unwrap();
    assert_eq!(state.handle_event(WatchEvent::Replayed(false)), WatchAction::Rest);
    assert_eq!(state.handle_event(WatchEvent::Replayed(true)), WatchAction::Rest);
    assert_eq!(state.settings.file_path(), "profile.json");
    assert_eq!(state.phase(), Phase::Idle);
}

#[test]
fn a_failed_reload_keeps_the_previous_mapping() {
    let mut state = load_state(CONFIG).unwrap();
    assert!(applied(&mut state, BODY));
    let action = state.handle_event(WatchEvent::Changed(Some("{".to_string())));
    assert_eq!(action, WatchAction::Failed(LoadError::Parse(ParseError::Syntax)));
    let action = state.handle_event(WatchEvent::Changed(Some("{}".to_string())));
    assert_eq!(action, WatchAction::Failed(LoadError::Parse(ParseError::Shape)));
    let action = state.handle_event(WatchEvent::Changed(None));
    assert_eq!(action, WatchAction::Failed(LoadError::Io));
    assert_eq!(state.phase(), Phase::Idle);
    assert_eq!(state.settings.file_path(), "profile.json");
    assert_eq!(state.optimizer, Some(vec![entry("speed", &[1, 2, 3])]));
}
