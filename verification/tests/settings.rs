use gear_sync::error::ParseError;
use gear_sync::settings::load_settings;

const CONFIG: &str = r#"{
    "filePath": "profile.json",
    "settingsPath": "game/settings.json",
    "settingsMapper": {"speed": "maxSpeed", "torque": "maxTorque"},
    "comment": "anything else is passed over"
}"#;

#[test]
fn settings_are_read_from_the_configuration() {
    let settings = load_settings(CONFIG).unwrap();
    assert_eq!(settings.file_path(), "profile.json");
    assert_eq!(settings.settings_path(), "game/settings.json");
    let mapper = settings.settings_mapper();
    assert_eq!(mapper.len(), 2);
    assert!(mapper.contains(&("speed".to_string(), "maxSpeed".to_string())));
    assert!(mapper.contains(&("torque".to_string(), "maxTorque".to_string())));
}

#[test]
fn an_empty_mapper_is_accepted() {
    let settings =
        load_settings(r#"{"filePath": "a", "settingsPath": "b", "settingsMapper": {}}"#).unwrap();
    assert!(settings.settings_mapper().is_empty());
}

#[test]
fn text_that_is_no_json_is_a_syntax_error() {
    assert_eq!(load_settings("{\"filePath\": ").unwrap_err(), ParseError::Syntax);
}

#[test]
fn a_missing_or_mistyped_field_is_a_shape_error() {
    assert_eq!(
        load_settings(r#"{"settingsPath": "b", "settingsMapper": {}}"#).unwrap_err(),
        ParseError::Shape
    );
    assert_eq!(
        load_settings(r#"{"filePath": "a", "settingsMapper": {}}"#).unwrap_err(),
        ParseError::Shape
    );
    assert_eq!(
        load_settings(r#"{"filePath": "a", "settingsPath": "b"}"#).unwrap_err(),
        ParseError::Shape
    );
    assert_eq!(
        load_settings(r#"{"filePath": 1, "settingsPath": "b", "settingsMapper": {}}"#)
            .unwrap_err(),
        ParseError::Shape
    );
    assert_eq!(
        load_settings(r#"{"filePath": "a", "settingsPath": "b", "settingsMapper": {"x": 1}}"#)
            .unwrap_err(),
        ParseError::Shape
    );
    assert_eq!(load_settings("[]").unwrap_err(), ParseError::Shape);
}
