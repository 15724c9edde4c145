use vscode_atomic_tauri::sidecar::{
    generate_handshake_token, preferred_transport_endpoint, redact_token, transport_endpoint, transport_env_value, ExtensionHostSidecar,
    SidecarHandshake,
    SidecarTransportEndpoint, HANDSHAKE_TOKEN_PREFIX,
};

fn test_handshake() -> SidecarHandshake {
    SidecarHandshake {
        token: "secret-token".to_string(),
        transport: SidecarTransportEndpoint::Tcp { host: "127.0.0.1".to_string(), port: 0 },
    }
}

#[test]
fn transport_env_value_encodes_authenticated_endpoint_without_token() {
    let handshake = test_handshake();

    let value = transport_env_value(&handshake.transport);

    assert_eq!(value, "tcp:127.0.0.1:0");
    assert!(!value.contains(&handshake.token));
}

#[test]
fn transport_env_value_names_socket_and_pipe() {
    assert_eq!(
        transport_env_value(&SidecarTransportEndpoint::UnixSocket { path: "/tmp/ext.sock".to_string() }),
        "unix:/tmp/ext.sock"
    );
    assert_eq!(
        transport_env_value(&SidecarTransportEndpoint::NamedPipe { name: r"\\.\pipe\ext".to_string() }),
        r"pipe:\\.\pipe\ext"
    );
    assert_eq!(
        transport_env_value(&SidecarTransportEndpoint::Tcp { host: "localhost".to_string(), port: 8080 }),
        "tcp:localhost:8080"
    );
}

#[test]
fn handshake_token_has_prefix_and_sixty_four_hex_digits() {
    let token = generate_handshake_token().expect("random bytes available");
    assert!(token.starts_with(HANDSHAKE_TOKEN_PREFIX));
    let hex = &token[HANDSHAKE_TOKEN_PREFIX.len()..];
    assert_eq!(hex.len(), 64);
    assert!(hex.chars().all(|c| c.is_ascii_hexdigit() && !c.is_ascii_uppercase()));
}

#[test]
fn preferred_transport_endpoint_does_not_embed_sidecar_token_value() {
    let endpoint = preferred_transport_endpoint("/tmp", false).expect("random bytes available");
    let value = transport_env_value(&endpoint);

    assert!(!value.contains("vscode-atomic-ext-vscode-atomic-"));
}

#[test]
fn redact_token_hides_every_occurrence() {
    let handshake = test_handshake();
    assert_eq!(
        redact_token("spawn failed: secret-token and secret-token".to_string(), Some(&handshake)),
        "spawn failed: <redacted> and <redacted>"
    );
    assert_eq!(redact_token("unchanged".to_string(), None), "unchanged");
}

use vscode_atomic_tauri::contracts::{ExtHostRpcDirection, ExtHostRpcEnvelope, ExtHostRpcMessage, ExtHostRpcRequest};
use vscode_atomic_tauri::sidecar::{ext_host_rpc_payload, ExtensionSidecarSpawnConfig, RpcArgument, SidecarCommand};

#[test]
fn sidecar_process_env_adds_token_and_transport_last() {
    let config = ExtensionSidecarSpawnConfig::packaged_extension_host(test_handshake(), None, Some(String::new()), "/app/ext.js");
    assert_eq!(config.executable, "node");
    assert_eq!(config.args, vec!["/app/ext.js", "--type=extensionHost", "--transformURIs"]);
    let env = config.process_env();
    assert_eq!(env.len(), 5);
    assert_eq!(env[3], ("VSCODE_ATOMIC_EXTENSION_HOST_TOKEN".to_string(), "secret-token".to_string()));
    assert_eq!(env[4], ("VSCODE_ATOMIC_EXTENSION_HOST_TRANSPORT".to_string(), "tcp:127.0.0.1:0".to_string()));
}

#[test]
fn sidecar_commands_parse() {
    assert_eq!(SidecarCommand::parse("startSidecar"), Ok(SidecarCommand::Start));
    assert_eq!(SidecarCommand::parse("sendRpc"), Ok(SidecarCommand::Rpc));
    assert_eq!(SidecarCommand::parse("markCrashed"), Ok(SidecarCommand::MarkCrashed));
    let error = SidecarCommand::parse("restart").unwrap_err();
    assert_eq!(error.message, "extensionHostService does not implement command: restart");
}

fn envelope(protocol: &str) -> ExtHostRpcEnvelope {
    let mut e = ExtHostRpcEnvelope::request(
        "req-1".to_string(),
        "trace-1".to_string(),
        ExtHostRpcDirection::MainToExtHost,
        ExtHostRpcRequest { actor: "MainThreadCommands".to_string(), method: "$run".to_string(), args: Vec::new(), cancellation_id: None },
    );
    e.protocol = protocol.to_string();
    e
}

#[test]
fn ext_host_rpc_envelopes_are_checked() {
    let accepted = ext_host_rpc_payload(RpcArgument::Parsed(envelope("extHost.protocol"))).unwrap();
    assert_eq!(accepted, envelope("extHost.protocol"));
    assert!(matches!(accepted.message, ExtHostRpcMessage::Request { .. }));

    let error = ext_host_rpc_payload(RpcArgument::Parsed(envelope("other"))).unwrap_err();
    assert_eq!(error.code, "extensionHost.rpcInvalidProtocol");
    assert_eq!(error.message, "extension host rpc protocol must be extHost.protocol");

    let error = ext_host_rpc_payload(RpcArgument::Missing).unwrap_err();
    assert_eq!(error.code, "extensionHost.rpcMissingEnvelope");
    assert_eq!(error.message, "extension host rpc requires extHost.protocol envelope");

    let error = ext_host_rpc_payload(RpcArgument::Invalid("missing field `protocol`".to_string())).unwrap_err();
    assert_eq!(error.code, "extensionHost.rpcInvalidEnvelope");
    assert_eq!(error.message, "extension host rpc envelope is invalid: missing field `protocol`");
}

#[test]
fn envelope_constructors_name_the_protocol() {
    let e = ExtHostRpcEnvelope::cancel("r".to_string(), "t".to_string(), ExtHostRpcDirection::ExtHostToMain, None);
    assert_eq!(e.protocol, "extHost.protocol");
    assert_eq!(e.message, ExtHostRpcMessage::Cancel { cancellation_id: None });
    let e = ExtHostRpcEnvelope::response("r".to_string(), "t".to_string(), ExtHostRpcDirection::ExtHostToMain, None);
    assert_eq!(e.message, ExtHostRpcMessage::Response { result: None });
}

#[test]
fn extension_host_sidecar_default_is_new() {
    assert_eq!(ExtensionHostSidecar::default(), ExtensionHostSidecar::new());
}

#[test]
fn transport_endpoint_is_a_pipe_on_windows_and_a_socket_elsewhere() {
    assert_eq!(
        transport_endpoint(true, "/tmp", "abc"),
        SidecarTransportEndpoint::NamedPipe { name: r"\\.\pipe\vscode-atomic-ext-abc".to_string() }
    );
    assert_eq!(
        transport_endpoint(false, "/tmp", "abc"),
        SidecarTransportEndpoint::UnixSocket { path: "/tmp/vscode-atomic-ext-abc.sock".to_string() }
    );
    match preferred_transport_endpoint("/tmp", true).expect("random bytes available") {
        SidecarTransportEndpoint::NamedPipe { name } => {
            assert!(name.starts_with(r"\\.\pipe\vscode-atomic-ext-"));
            assert_eq!(name.len(), r"\\.\pipe\vscode-atomic-ext-".len() + 32);
        }
        other => panic!("expected a named pipe, got {:?}", transport_env_value(&other)),
    }
}
