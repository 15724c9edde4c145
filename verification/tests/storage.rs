use vscode_atomic_tauri::json::{get_path, key_segments, remove_path, set_path, JsonValue};
use vscode_atomic_tauri::paths::UserDataPaths;
use vscode_atomic_tauri::storage::{
    config_get_value, json_object_from_read, storage_resource, ConfigCommand, JsonFileRead, StorageCommand,
    StorageScope, StorageState,
};

fn text(s: &str) -> JsonValue {
    JsonValue::String(s.to_string())
}

fn object(entries: Vec<(&str, JsonValue)>) -> JsonValue {
    JsonValue::Object(entries.into_iter().map(|(k, v)| (k.to_string(), v)).collect())
}

fn duplicate(value: &JsonValue) -> JsonValue {
    match value {
        JsonValue::Null => JsonValue::Null,
        JsonValue::Bool(b) => JsonValue::Bool(*b),
        JsonValue::Number(n) => JsonValue::Number(n.clone()),
        JsonValue::String(s) => JsonValue::String(s.clone()),
        JsonValue::Array(items) => JsonValue::Array(items.iter().map(duplicate).collect()),
        JsonValue::Object(entries) => JsonValue::Object(entries.iter().map(|(k, v)| (k.clone(), duplicate(v))).collect()),
    }
}

#[test]
fn storage_read_after_write_returns_written_value() {
    let mut state = StorageState::new();
    state.set("b".to_string(), text("two"));
    state.set("a".to_string(), text("one"));
    state.set("b".to_string(), text("three"));
    assert!(state.contains(&"a".to_string()));
    assert_eq!(state.keys(), vec!["a".to_string(), "b".to_string()]);
    assert_eq!(state.pop(&"b".to_string()), text("three"));
    assert!(!state.contains(&"b".to_string()));
    assert_eq!(state.pop(&"missing".to_string()), JsonValue::Null);
}

#[test]
fn storage_get_many_answers_null_for_missing_keys() {
    let mut state = StorageState::new();
    state.set("x".to_string(), JsonValue::Bool(true));
    let got = state.get_many(&vec!["x".to_string(), "y".to_string()]);
    match got {
        JsonValue::Object(entries) => {
            assert_eq!(entries.len(), 2);
            assert!(entries.contains(&("x".to_string(), JsonValue::Bool(true))));
            assert!(entries.contains(&("y".to_string(), JsonValue::Null)));
        }
        other => panic!("expected an object, got {other:?}"),
    }
}

#[test]
fn storage_remove_and_into_object() {
    let mut state = StorageState::from_entries(vec![("k".to_string(), text("v")), ("j".to_string(), text("w"))]);
    state.remove(&"k".to_string());
    assert_eq!(state.into_object(), object(vec![("j", text("w"))]));
}

#[test]
fn workspace_storage_requires_a_workspace() {
    let paths = UserDataPaths::new("/data".to_string());
    assert_eq!(storage_resource(&paths, None, None).unwrap(), "/data/User/globalState.json");
    let error = storage_resource(&paths, Some(StorageScope::Workspace), None).expect_err("workspace needed");
    assert_eq!(error.code, "storage.invalidArgument");
    assert_eq!(error.message, "workspace storage requires workspace");
    let path = storage_resource(&paths, Some(StorageScope::Workspace), Some("file:///a b")).unwrap();
    assert!(path.starts_with("/data/User/workspaceStorage/"));
    assert!(path.ends_with("/state.json"));
}

#[test]
fn state_file_reads_are_checked() {
    assert!(json_object_from_read("/s.json", JsonFileRead::NotFound).unwrap().is_empty());
    assert!(json_object_from_read("/s.json", JsonFileRead::Empty).unwrap().is_empty());
    let error = json_object_from_read("/s.json", JsonFileRead::Failed("denied".to_string())).unwrap_err();
    assert_eq!(error.code, "storage.readFailed");
    assert_eq!(error.message, "failed to read /s.json: denied");
    let error = json_object_from_read("/s.json", JsonFileRead::Invalid("eof".to_string())).unwrap_err();
    assert_eq!(error.code, "storage.invalidJson");
    assert_eq!(error.message, "failed to parse /s.json: eof");
    let error = json_object_from_read("/s.json", JsonFileRead::Parsed(JsonValue::Bool(true))).unwrap_err();
    assert_eq!(error.message, "/s.json must contain a JSON object");
    let entries = json_object_from_read("/s.json", JsonFileRead::Parsed(object(vec![("a", text("b"))]))).unwrap();
    assert_eq!(entries, vec![("a".to_string(), text("b"))]);
}

#[test]
fn dotted_keys_read_back_what_was_written() {
    let mut settings = object(vec![]);
    set_path(&mut settings, "editor.fontSize", JsonValue::Number("14".to_string())).unwrap();
    set_path(&mut settings, "editor.tabSize", JsonValue::Number("4".to_string())).unwrap();
    assert_eq!(get_path(&settings, "editor.fontSize"), Some(&JsonValue::Number("14".to_string())));
    let copy = |s: &JsonValue| duplicate(s);
    assert_eq!(config_get_value(copy(&settings), Some("editor.tabSize")), JsonValue::Number("4".to_string()));
    assert_eq!(config_get_value(copy(&settings), Some("editor.missing")), JsonValue::Null);
    assert_eq!(config_get_value(copy(&settings), None), copy(&settings));
    remove_path(&mut settings, "editor.fontSize");
    assert_eq!(get_path(&settings, "editor.fontSize"), None);
    assert_eq!(get_path(&settings, "editor.tabSize"), Some(&JsonValue::Number("4".to_string())));
}

#[test]
fn empty_configuration_key_is_refused() {
    let error = key_segments("..").expect_err("no segments");
    assert_eq!(error.code, "config.invalidKey");
    assert_eq!(error.message, "configuration key is required");
    let mut settings = object(vec![]);
    assert!(set_path(&mut settings, "", JsonValue::Null).is_err());
    assert_eq!(settings, object(vec![]));
}

#[test]
fn storage_and_configuration_commands_parse() {
    assert_eq!(StorageCommand::parse("mget"), Ok(StorageCommand::GetItems));
    assert_eq!(StorageCommand::parse("store"), Ok(StorageCommand::SetItem));
    assert_eq!(StorageCommand::parse("getKeys"), Ok(StorageCommand::Keys));
    assert_eq!(StorageCommand::parse("vacuum").unwrap_err().code, "service.unsupportedCommand");
    assert_eq!(ConfigCommand::parse("getValue"), Ok(ConfigCommand::Get));
    assert_eq!(ConfigCommand::parse("setValue"), Ok(ConfigCommand::Update));
    assert_eq!(ConfigCommand::parse("nope").unwrap_err().code, "service.unsupportedCommand");
}
