use vscode_atomic_tauri::json::JsonValue;
use vscode_atomic_tauri::paths::{
    default_cli_state_root_for_home, default_user_data_root_for_environment, path_join, sanitize_workspace_id,
    AuthCommand, AuthTunnelStateConfig, CliAuthStateService, CliTunnelStateService, TunnelCommand, UserDataPaths,
};

const DATA_PARENT_DIR: &str = ".vscode-oss";

fn text(s: &str) -> JsonValue {
    JsonValue::String(s.to_string())
}

#[test]
fn default_state_root_reuses_cli_data_parent_dir() {
    let root = default_cli_state_root_for_home(Some("/home/tester".to_string()), DATA_PARENT_DIR);
    assert_eq!(root, path_join(&path_join("/home/tester", DATA_PARENT_DIR), "cli"));
    assert!(!root.starts_with("~/"));
}

#[test]
fn unknown_or_empty_home_falls_back_to_tilde() {
    assert_eq!(default_cli_state_root_for_home(None, DATA_PARENT_DIR), "~/.vscode-oss/cli");
    assert_eq!(default_cli_state_root_for_home(Some(String::new()), DATA_PARENT_DIR), "~/.vscode-oss/cli");
}

#[test]
fn default_user_data_root_matches_vscode_locations() {
    assert_eq!(
        default_user_data_root_for_environment(Some("/portable"), Some("/home/a"), Some("/xdg"), "/tmp"),
        "/portable/user-data"
    );
    assert_eq!(
        default_user_data_root_for_environment(None, Some("/home/a"), Some("/xdg"), "/tmp"),
        "/xdg/Code - OSS"
    );
    assert_eq!(default_user_data_root_for_environment(None, Some("/home/a"), None, "/tmp"), "/home/a/.config/Code - OSS");
    assert_eq!(default_user_data_root_for_environment(None, None, None, "/tmp"), "/tmp/Code - OSS");
}

#[test]
fn workspace_ids_are_sanitized() {
    assert_eq!(sanitize_workspace_id("file:///a b"), "file____a_b");
    assert_eq!(sanitize_workspace_id(""), "default");
    assert_eq!(sanitize_workspace_id("ok-1.2_x"), "ok-1.2_x");
    let paths = UserDataPaths::new("/data".to_string());
    assert_eq!(paths.workspace_state_resource("ws"), "/data/User/workspaceStorage/ws/state.json");
    assert_eq!(paths.settings_resource(), "/data/User/settings.json");
}

#[test]
fn auth_state_paths_and_current_state() {
    let service = CliAuthStateService::new(AuthTunnelStateConfig::new("/state".to_string()));
    assert_eq!(service.token_file(), "/state/token.json");
    assert_eq!(
        service.state_paths(),
        JsonValue::Object(vec![
            ("root".to_string(), text("/state")),
            ("tokenFile".to_string(), text("/state/token.json")),
            ("namespacedTokenPattern".to_string(), text("token-{namespace}.json")),
            ("keyringPrefix".to_string(), text("vscode-cli")),
            ("namespacedKeyringPrefixPattern".to_string(), text("vscode-cli-{namespace}")),
        ])
    );
    assert_eq!(
        service.current(),
        JsonValue::Object(vec![
            ("authenticated".to_string(), JsonValue::Bool(false)),
            ("provider".to_string(), JsonValue::Null),
            ("credential".to_string(), JsonValue::Null),
            ("reason".to_string(), text("auth adapter wiring does not read keychain state")),
        ])
    );
}

#[test]
fn tunnel_state_paths_use_quality_or_oss() {
    let service = CliTunnelStateService::new(AuthTunnelStateConfig::new("/state".to_string()));
    let reply = service.state_paths_reply(None, "tunnel-service.log");
    assert_eq!(
        reply,
        JsonValue::Object(vec![
            ("root".to_string(), text("/state")),
            ("tunnelLockfile".to_string(), text("/state/tunnel-oss.lock")),
            ("forwardingLockfile".to_string(), text("/state/forwarding-oss.lock")),
            ("agentHostLockfile".to_string(), text("/state/agent-host-oss.lock")),
            ("serviceLogFile".to_string(), text("/state/tunnel-service.log")),
            ("webServerStorage".to_string(), text("/state/serve-web")),
        ])
    );
    let paths = service.state_paths();
    assert_eq!(paths.tunnel_lockfile(Some("stable")), "/state/tunnel-stable.lock");
}

#[test]
fn auth_and_tunnel_commands_parse() {
    assert_eq!(AuthCommand::parse("getDefaults"), Ok(AuthCommand::Defaults));
    assert_eq!(AuthCommand::parse("getCurrent"), Ok(AuthCommand::Current));
    let error = AuthCommand::parse("login").unwrap_err();
    assert_eq!(error.message, "authService does not implement command: login");
    assert_eq!(TunnelCommand::parse("getStatus"), Ok(TunnelCommand::Status));
    assert_eq!(TunnelCommand::parse("statePaths"), Ok(TunnelCommand::StatePaths));
    assert_eq!(TunnelCommand::parse("start").unwrap_err().code, "service.unsupportedCommand");
}

#[test]
fn tunnel_adapter_exposes_state_paths_from_launcher_paths() {
    let root = "/tmp/vscode-atomic-auth-tunnels-test".to_string();
    let service = CliTunnelStateService::new(AuthTunnelStateConfig::new(root.clone()));
    let result = service.state_paths_reply(None, "tunnel-service.log");
    let field = |key: &str| match &result {
        JsonValue::Object(entries) => entries.iter().find(|(k, _)| k == key).map(|(_, v)| v),
        _ => None,
    };

    assert_eq!(field("root"), Some(&text(&root)));
    assert_eq!(field("serviceLogFile"), Some(&text(&path_join(&root, "tunnel-service.log"))));
    match field("tunnelLockfile") {
        Some(JsonValue::String(s)) => assert!(s.ends_with("tunnel-oss.lock")),
        other => panic!("unexpected {other:?}"),
    }
}
