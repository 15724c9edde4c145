use vscode_atomic_tauri::json::JsonValue;
use vscode_atomic_tauri::parity::{
    OsProperties, ParityCommand, RustDialogService, RustLifecycleService, RustNativeHostService,
    RustTelemetryService,
};
use vscode_atomic_tauri::service_registry::ServiceId;

fn text(s: &str) -> JsonValue {
    JsonValue::String(s.to_string())
}

fn field<'a>(value: &'a JsonValue, key: &str) -> Option<&'a JsonValue> {
    match value {
        JsonValue::Object(entries) => entries.iter().find(|(k, _)| k == key).map(|(_, v)| v),
        _ => None,
    }
}

fn os() -> OsProperties {
    OsProperties {
        platform: "linux".to_string(),
        arch: "x86_64".to_string(),
        family: "unix".to_string(),
        pid: 42,
        cwd: None,
    }
}

#[test]
fn native_host_reports_os_properties_and_refuses_side_effects() {
    let service = RustNativeHostService;
    let properties = service.call("getOSProperties", os()).expect("os properties returned");
    assert_eq!(field(&properties, "platform"), Some(&text("linux")));
    assert_eq!(field(&properties, "pid"), Some(&JsonValue::Number("42".to_string())));
    assert_eq!(field(&properties, "cwd"), Some(&JsonValue::Null));
    assert_eq!(service.call("windowCount", os()), Ok(JsonValue::Number("1".to_string())));

    let error = service.call("openExternal", os()).expect_err("side effect command denied");
    assert_eq!(error.code, "service.unsupportedCommand");
    assert_eq!(error.message, "nativeHostService does not implement command: openExternal");
}

#[test]
fn dialog_lifecycle_and_telemetry_cover_known_and_unsupported_commands() {
    let dialog = RustDialogService;
    let reply = dialog.call("showMessageBox").expect("message box fallback succeeds");
    assert_eq!(field(&reply, "response"), Some(&JsonValue::Number("0".to_string())));
    assert_eq!(dialog.call("showOpenDialog").expect_err("open dialog denied").code, "service.unsupportedCommand");

    let lifecycle = RustLifecycleService;
    let phase = lifecycle.call("getLifecyclePhase").expect("phase returned");
    assert_eq!(field(&phase, "phase"), Some(&text("ready")));
    assert_eq!(lifecycle.call("quit").expect_err("quit denied").code, "service.unsupportedCommand");

    let mut telemetry = RustTelemetryService::new();
    let event = || JsonValue::Object(vec![("eventName".to_string(), text("startup"))]);
    assert_eq!(telemetry.call("publicLog", vec![event()]), Ok(JsonValue::Null));
    assert_eq!(telemetry.events(), &vec![event()]);
    assert_eq!(telemetry.call("flush", vec![]).expect_err("unknown telemetry command denied").code, "service.unsupportedCommand");
}

#[test]
fn telemetry_log_without_arguments_records_null() {
    let mut telemetry = RustTelemetryService::new();
    telemetry.call("log", vec![]).unwrap();
    assert_eq!(telemetry.events(), &vec![JsonValue::Null]);
    assert_eq!(telemetry.call("telemetryLevel", vec![]), Ok(text("off")));
    let info = telemetry.call("getTelemetryInfo", vec![]).unwrap();
    assert_eq!(field(&info, "sessionId"), Some(&text("tauri")));
    assert_eq!(field(&info, "sqmId"), Some(&text("")));
    assert_eq!(telemetry.events().len(), 1);
}

#[test]
fn parity_commands_belong_to_their_service() {
    assert_eq!(ParityCommand::parse(ServiceId::Dialog, "showMessageBoxSync"), Ok(ParityCommand::ShowMessageBox));
    assert!(ParityCommand::parse(ServiceId::Dialog, "getWindowCount").is_err());
    assert!(ParityCommand::parse(ServiceId::File, "log").is_err());
}
