use vscode_atomic_tauri::json::JsonValue;
use vscode_atomic_tauri::observability::{
    command_trace_id, expected_metric_unit, ext_host_rpc_trace_id, redact_env_value, redact_json_value,
    redact_token_values, required_bridge_metrics, runtime_dependency_preflight_event,
    summarize_runtime_dependency_preflight, validate_metric_event, validate_metric_unit, validate_required_metrics,
    MetricRecord, MetricUnit, MetricValidationError,
    RuntimeDependencyKind, RuntimeDependencyPreflightCheck, RuntimeDependencyPreflightStatus, TraceId, TraceIdCounter,
    runtime_dependency_preflight_trace_id,
    BRIDGE_ROUND_TRIP_MS_METRIC, BRIDGE_SERVICE_BOOT_MS_METRIC, CHANNEL_CALL_INVOCATIONS_METRIC,
    CHANNEL_EVENT_DELIVERED_METRIC, CHANNEL_EVENT_DROPPED_METRIC, CHANNEL_LISTEN_ACTIVE_METRIC,
    EXTENSION_HOST_READY_MS_METRIC, FILE_WATCH_ACTIVE_METRIC, FILE_WRITE_FAILURES_METRIC, PACKAGE_MARKER_METRIC,
    REDACTED_SECRET, SIDECAR_TOKEN_ENV_NAME, TERMINAL_SPAWN_MS_METRIC, WORKBENCH_READY_MS_METRIC,
};

#[test]
fn ext_host_rpc_trace_id_uses_ext_host_scope() {
    let trace_id = ext_host_rpc_trace_id("req-2");

    assert_eq!(trace_id.as_str(), "tauri-command-extHostRpc-req-2");
}

#[test]
fn required_metric_names_remain_stable() {
    assert_eq!(CHANNEL_CALL_INVOCATIONS_METRIC, "channelCall.invocations");
    assert_eq!(CHANNEL_LISTEN_ACTIVE_METRIC, "channelListen.active");
    assert_eq!(CHANNEL_EVENT_DELIVERED_METRIC, "channelEvent.delivered");
    assert_eq!(CHANNEL_EVENT_DROPPED_METRIC, "channelEvent.dropped");
    assert_eq!(FILE_WRITE_FAILURES_METRIC, "fileWrite.failures");
    assert_eq!(BRIDGE_ROUND_TRIP_MS_METRIC, "bridge.roundTripMs");
    assert_eq!(WORKBENCH_READY_MS_METRIC, "workbench.readyMs");
    assert_eq!(EXTENSION_HOST_READY_MS_METRIC, "extensionHost.readyMs");
    assert_eq!(FILE_WATCH_ACTIVE_METRIC, "fileWatch.active");
    assert_eq!(TERMINAL_SPAWN_MS_METRIC, "terminal.spawnMs");
    assert_eq!(BRIDGE_SERVICE_BOOT_MS_METRIC, "bridge.serviceBootMs");
    assert_eq!(PACKAGE_MARKER_METRIC, "package.marker");
}

#[test]
fn package_and_boot_marker_units_are_known() {
    assert_eq!(expected_metric_unit(PACKAGE_MARKER_METRIC), Some(MetricUnit::Count));
    assert_eq!(
        expected_metric_unit(BRIDGE_SERVICE_BOOT_MS_METRIC),
        Some(MetricUnit::Milliseconds)
    );
}

#[test]
fn required_metric_set_matches_rfc_names() {
    assert_eq!(
        required_bridge_metrics(),
        vec![
            "channelCall.invocations",
            "channelListen.active",
            "channelEvent.delivered",
            "channelEvent.dropped",
            "fileWrite.failures",
            "fileWatch.active",
            "bridge.roundTripMs",
            "extensionHost.readyMs",
            "workbench.readyMs",
        ]
    );
}

#[test]
fn redact_env_value_redacts_sidecar_token_only() {
    let token = "vscode-atomic-secret-token";

    assert_eq!(redact_env_value(SIDECAR_TOKEN_ENV_NAME, token), REDACTED_SECRET);
    assert_eq!(redact_env_value("PATH", token), token);
}

#[test]
fn runtime_dependency_preflight_summary_passes_when_no_failures() {
    let summary = summarize_runtime_dependency_preflight(
        RuntimeDependencyKind::EslintPluginImport,
        &vec![
            RuntimeDependencyPreflightCheck::pass("eslint", Some("9.0.0")),
            RuntimeDependencyPreflightCheck::pass("eslint-plugin-import", Some("2.29.1")),
        ],
    );

    assert_eq!(summary.status, RuntimeDependencyPreflightStatus::Pass);
    assert_eq!(summary.passed, 2);
    assert_eq!(summary.failed, 0);
    assert_eq!(summary.total, 2);
    assert_eq!(summary.message, "ESLint plugin import preflight pass: 2/2 passed, 0 failed");
}

#[test]
fn runtime_dependency_preflight_summary_fails_on_any_failure() {
    let event = runtime_dependency_preflight_event(
        TraceId("trace-preflight-1".to_string()),
        RuntimeDependencyKind::GtkGlibWebKitGtk,
        vec![
            RuntimeDependencyPreflightCheck::pass("gtk4", Some("4.14.0")),
            RuntimeDependencyPreflightCheck::pass("glib-2.0", Some("2.80.0")),
            RuntimeDependencyPreflightCheck::fail("webkitgtk-6.0", "pkg-config could not find webkitgtk-6.0"),
        ],
    );
    assert_eq!(event.trace_id.as_str(), "trace-preflight-1");
    assert_eq!(event.name, "runtimeDependency.preflight");
    assert_eq!(event.status, RuntimeDependencyPreflightStatus::Fail);
    assert_eq!(event.summary.passed, 2);
    assert_eq!(event.summary.failed, 1);
    assert_eq!(event.summary.total, 3);
    assert_eq!(event.summary.message, "GTK/GLib/WebKitGTK preflight fail: 2/3 passed, 1 failed");
    assert_eq!(event.checks[2].detail.as_deref(), Some("pkg-config could not find webkitgtk-6.0"));
}

#[test]
fn command_trace_id_is_stable_and_serializes_as_string() {
    let trace_id = command_trace_id("channel.call", "req/1");

    assert_eq!(trace_id.as_str(), "tauri-command-channel-call-req-1");
    assert_eq!(
        serde_json::to_value(trace_id.as_str()).expect("serialize trace id"),
        serde_json::Value::String("tauri-command-channel-call-req-1".to_string())
    );
}

#[test]
fn command_trace_id_makes_parts_safe() {
    assert_eq!(command_trace_id("channel call", "req/1").as_str(), "tauri-command-channel-call-req-1");
}

#[test]
fn trace_id_new_renders_sixteen_hex_digits() {
    let mut counter = TraceIdCounter::new();
    assert_eq!(TraceId::new(&mut counter, "telemetry-adapter").as_str(), "tauri-telemetry-adapter-0000000000000001");
    for _ in 0..253 {
        TraceId::new(&mut counter, "filler");
    }
    assert_eq!(counter.peek(), 255);
    assert_eq!(TraceId::new(&mut counter, "telemetry-adapter").as_str(), "tauri-telemetry-adapter-00000000000000ff");
}

#[test]
fn trace_ids_from_one_counter_do_not_repeat() {
    let mut counter = TraceIdCounter::new();
    let a = TraceId::new(&mut counter, "workbench-boot");
    let b = TraceId::new(&mut counter, "workbench-boot");
    assert_ne!(a, b);
    assert_eq!(b.as_str(), "tauri-workbench-boot-0000000000000002");
    let c = runtime_dependency_preflight_trace_id(&mut counter, RuntimeDependencyKind::GtkGlibWebKitGtk);
    assert!(c.as_str().starts_with("tauri-runtimeDependency-preflight-GTK-GLib-WebKitGTK-"));
    assert!(c.as_str().ends_with("-0000000000000003"));
}

#[test]
fn metric_unit_validation_reports_each_error() {
    assert_eq!(validate_metric_unit(CHANNEL_CALL_INVOCATIONS_METRIC, MetricUnit::Count), Ok(()));
    assert_eq!(
        validate_metric_unit(CHANNEL_CALL_INVOCATIONS_METRIC, MetricUnit::Milliseconds),
        Err(MetricValidationError::InvalidUnit {
            name: CHANNEL_CALL_INVOCATIONS_METRIC.to_string(),
            expected: MetricUnit::Count,
            actual: MetricUnit::Milliseconds,
        })
    );
    assert_eq!(
        validate_metric_unit("unknown.metric", MetricUnit::Count),
        Err(MetricValidationError::UnknownMetric("unknown.metric".to_string()))
    );
}

#[test]
fn token_values_are_redacted_in_free_text() {
    let token = format!("vscode-atomic-{}", "0123456789abcdef".repeat(4));
    assert_eq!(
        redact_token_values(&format!("callback rejected token {}", token)),
        "callback rejected token <redacted>"
    );
    assert_eq!(redact_token_values("vscode-atomic-not-a-token"), "vscode-atomic-not-a-token");
}

fn object(entries: Vec<(&str, JsonValue)>) -> JsonValue {
    JsonValue::Object(entries.into_iter().map(|(k, v)| (k.to_string(), v)).collect())
}

fn text(s: &str) -> JsonValue {
    JsonValue::String(s.to_string())
}

#[test]
fn json_redaction_hides_sensitive_keys() {
    let context = object(vec![
        ("channel", text("extensionHostService")),
        ("dataBase64", text("file contents")),
        ("payload", object(vec![("token", text("abc"))])),
        ("nested", JsonValue::Array(vec![object(vec![("credential", text("secret"))])])),
        ("signingMaterial", text("key")),
    ]);
    let redacted = redact_json_value(&context);
    assert_eq!(
        redacted,
        object(vec![
            ("channel", text("extensionHostService")),
            ("dataBase64", text(REDACTED_SECRET)),
            ("payload", text(REDACTED_SECRET)),
            ("nested", JsonValue::Array(vec![object(vec![("credential", text(REDACTED_SECRET))])])),
            ("signingMaterial", text(REDACTED_SECRET)),
        ])
    );
}

#[test]
fn validates_required_metrics_and_units() {
    let events: Vec<MetricRecord> = required_bridge_metrics()
        .iter()
        .map(|name| MetricRecord {
            name: name.to_string(),
            unit: expected_metric_unit(name).expect("known metric"),
            finite: true,
        })
        .collect();

    assert_eq!(validate_required_metrics(&events), Ok(()));

    let mut malformed = events.clone();
    malformed[0].unit = MetricUnit::Milliseconds;
    assert_eq!(
        validate_required_metrics(&malformed),
        Err(MetricValidationError::InvalidUnit {
            name: CHANNEL_CALL_INVOCATIONS_METRIC.to_string(),
            expected: MetricUnit::Count,
            actual: MetricUnit::Milliseconds,
        })
    );

    assert_eq!(
        validate_required_metrics(&events[1..].to_vec()),
        Err(MetricValidationError::MissingRequiredMetric(CHANNEL_CALL_INVOCATIONS_METRIC.to_string()))
    );
}

#[test]
fn a_value_that_is_not_finite_is_refused_first() {
    let record = MetricRecord { name: "unknown.metric".to_string(), unit: MetricUnit::Bytes, finite: false };
    assert_eq!(
        validate_metric_event(&record),
        Err(MetricValidationError::NonFiniteValue("unknown.metric".to_string()))
    );
    let mut events: Vec<MetricRecord> = required_bridge_metrics()
        .iter()
        .map(|name| MetricRecord { name: name.to_string(), unit: expected_metric_unit(name).unwrap(), finite: true })
        .collect();
    events.push(MetricRecord { name: "unknown.metric".to_string(), unit: MetricUnit::Count, finite: true });
    assert_eq!(
        validate_required_metrics(&events),
        Err(MetricValidationError::UnknownMetric("unknown.metric".to_string()))
    );
}
