use vscode_atomic_tauri::observability::REDACTED_SECRET;
use vscode_atomic_tauri::service_registry::ServiceError;
use vscode_atomic_tauri::sidecar::{
    generate_handshake_token, ExtensionSidecarServiceImpl, ExtensionSidecarSnapshot, ExtensionSidecarSpawnConfig,
    ExtensionSidecarState, SidecarHandshake, SidecarTransportEndpoint, SpawnOutcome, StartStep,
    HANDSHAKE_TOKEN_PREFIX,
};

fn handshake() -> SidecarHandshake {
    SidecarHandshake {
        token: generate_handshake_token().expect("random bytes available"),
        transport: SidecarTransportEndpoint::Tcp { host: "127.0.0.1".to_string(), port: 0 },
    }
}

fn same_handshake(h: &SidecarHandshake) -> SidecarHandshake {
    SidecarHandshake {
        token: h.token.clone(),
        transport: SidecarTransportEndpoint::Tcp { host: "127.0.0.1".to_string(), port: 0 },
    }
}

/// Runs a start request as the host does: ask the service, spawn with the
/// packaged extension host configuration, and report what came of it.
fn start(
    service: &mut ExtensionSidecarServiceImpl,
    spawn: impl FnOnce(&ExtensionSidecarSpawnConfig) -> SpawnOutcome,
) -> Result<ExtensionSidecarSnapshot, ServiceError> {
    match service.begin_start() {
        StartStep::AlreadyRunning(snapshot) => Ok(snapshot),
        StartStep::Spawn(_) => {
            let h = handshake();
            let config = ExtensionSidecarSpawnConfig::packaged_extension_host(
                same_handshake(&h),
                None,
                None,
                "/app/out/bootstrap-fork.js",
            );
            let outcome = spawn(&config);
            service.finish_start(h, outcome)
        }
    }
}

/// The error of a result that must be one; snapshots hold the token and
/// have no `Debug`, so `expect_err` is not available.
fn error_of<T>(result: Result<T, ServiceError>, what: &str) -> ServiceError {
    match result {
        Ok(_) => panic!("{what}"),
        Err(error) => error,
    }
}

fn spawned(_: &ExtensionSidecarSpawnConfig) -> SpawnOutcome {
    SpawnOutcome::Spawned { process_id: 4242, exited_before_ready: None }
}

#[test]
fn token_generation_produces_random_hex_tokens() {
    let tokens = (0..16).map(|_| generate_handshake_token().expect("random bytes")).collect::<Vec<_>>();

    for token in &tokens {
        let hex = token.strip_prefix(HANDSHAKE_TOKEN_PREFIX).expect("token has vscode-atomic prefix");

        assert_eq!(hex.len(), 64);
        assert_eq!(token.len(), HANDSHAKE_TOKEN_PREFIX.len() + 64);
        assert!(hex.bytes().all(|byte| byte.is_ascii_hexdigit()));
        assert!(hex.bytes().all(|byte| !byte.is_ascii_uppercase()));
    }

    let unique_tokens = tokens.iter().collect::<std::collections::HashSet<_>>();
    assert_eq!(unique_tokens.len(), tokens.len());
}

#[test]
fn start_transitions_not_started_to_ready() {
    let mut service = ExtensionSidecarServiceImpl::new();

    let snapshot = start(&mut service, spawned).expect("sidecar starts");

    assert_eq!(snapshot.state, ExtensionSidecarState::Ready);
    assert!(snapshot.handshake.is_some());
    assert!(snapshot.process_id.is_some());

    service.stop(None).expect("sidecar stops");
}

#[test]
fn start_spawns_packaged_extension_host_not_minimal_stub() {
    let mut service = ExtensionSidecarServiceImpl::new();
    let mut seen_token = String::new();
    let mut seen_args = Vec::new();
    let snapshot = start(&mut service, |config| {
        seen_token = config.handshake.token.clone();
        seen_args = config.args.clone();
        SpawnOutcome::Spawned { process_id: 7, exited_before_ready: None }
    })
    .expect("sidecar starts");

    assert_eq!(snapshot.state, ExtensionSidecarState::Ready);
    assert_eq!(seen_token, snapshot.handshake.expect("handshake").token);
    assert_ne!(seen_args.first().map(String::as_str), Some("-e"));
    assert!(seen_args.first().expect("entrypoint arg present").ends_with("out/bootstrap-fork.js"));
    assert!(seen_args.iter().any(|arg| arg == "--type=extensionHost"));

    service.stop(None).expect("sidecar stops");
}

#[test]
fn stop_transitions_ready_to_stopped() {
    let mut service = ExtensionSidecarServiceImpl::new();
    start(&mut service, spawned).expect("sidecar starts");

    let snapshot = service.stop(None).expect("sidecar stops");

    assert_eq!(snapshot.state, ExtensionSidecarState::Stopped);
    assert!(snapshot.handshake.is_none());
    assert!(snapshot.process_id.is_none());
}

#[test]
fn snapshot_marks_exited_process_crashed() {
    let mut service = ExtensionSidecarServiceImpl::new();
    start(&mut service, spawned).expect("sidecar starts");

    service.process_exited();
    let snapshot = service.snapshot();

    assert_eq!(snapshot.state, ExtensionSidecarState::Crashed);
    assert!(snapshot.process_id.is_none());
}

#[test]
fn spawn_failure_transitions_to_crashed() {
    let mut service = ExtensionSidecarServiceImpl::new();

    let error = error_of(start(&mut service, |_| SpawnOutcome::Failed("spawn failed".to_string())), "spawn fails");
    let snapshot = service.snapshot();

    assert_eq!(error.code, "extensionHost.sidecarSpawnFailed");
    assert_eq!(snapshot.state, ExtensionSidecarState::Crashed);
    assert!(snapshot.handshake.is_some());
}

#[test]
fn spawn_failure_redacts_token_from_error_message() {
    let mut service = ExtensionSidecarServiceImpl::new();

    let error = error_of(
        start(&mut service, |config| SpawnOutcome::Failed(format!("spawn failed with token {}", config.handshake.token))),
        "spawn fails",
    );
    let snapshot = service.snapshot();
    let token = snapshot.handshake.as_ref().expect("failed start retains handshake context internally").token.as_str();

    assert_eq!(error.code, "extensionHost.sidecarSpawnFailed");
    assert!(!error.message.contains(token));
    assert!(error.message.contains(REDACTED_SECRET));
}

#[test]
fn start_rejects_process_that_exits_before_readiness() {
    let mut service = ExtensionSidecarServiceImpl::new();

    let error = error_of(
        start(&mut service, |_| SpawnOutcome::Spawned { process_id: 9, exited_before_ready: Some("exit status: 0".to_string()) }),
        "early sidecar exit fails startup readiness",
    );
    let snapshot = service.snapshot();

    assert_eq!(error.code, "extensionHost.sidecarNotReady");
    assert!(error.message.contains("extension host sidecar exited before readiness"));
    assert_eq!(snapshot.state, ExtensionSidecarState::Crashed);
    assert!(snapshot.process_id.is_none());
}

#[test]
fn crashed_start_uses_restart_path_to_ready() {
    let mut service = ExtensionSidecarServiceImpl::new();

    assert_eq!(service.mark_crashed().state, ExtensionSidecarState::Crashed);

    match service.begin_start() {
        StartStep::Spawn(snapshot) => assert_eq!(snapshot.state, ExtensionSidecarState::Restarting),
        StartStep::AlreadyRunning(_) => panic!("a crashed sidecar is restarted"),
    }
    let snapshot = service
        .finish_start(handshake(), SpawnOutcome::Spawned { process_id: 11, exited_before_ready: None })
        .expect("sidecar restarts");

    assert_eq!(snapshot.state, ExtensionSidecarState::Ready);
    assert!(snapshot.process_id.is_some());

    service.stop(None).expect("sidecar stops");
}

#[test]
fn start_of_a_running_sidecar_is_a_no_op() {
    let mut service = ExtensionSidecarServiceImpl::new();
    let first = start(&mut service, spawned).unwrap();
    let second = start(&mut service, |_| panic!("no second spawn")).unwrap();
    assert!(first == second);
}

#[test]
fn failed_stop_leaves_the_sidecar_running() {
    let mut service = ExtensionSidecarServiceImpl::new();
    start(&mut service, spawned).unwrap();
    let error = error_of(service.stop(Some("kill failed".to_string())), "stop fails");
    assert_eq!(error.code, "extensionHost.sidecarStopFailed");
    assert_eq!(error.message, "kill failed");
    assert_eq!(service.snapshot().state, ExtensionSidecarState::Ready);
}

#[test]
fn callbacks_need_the_current_token_and_a_live_sidecar() {
    let mut service = ExtensionSidecarServiceImpl::new();
    let snapshot = start(&mut service, spawned).expect("sidecar starts");
    let token = snapshot.handshake.unwrap().token;
    assert!(service.emit_callback(&token).is_ok());
    assert!(service.emit_callback("vscode-atomic-wrong").is_err());
    service.stop(None).unwrap();
    assert!(service.emit_callback(&token).is_err());
}

#[test]
fn listeners_are_keyed_and_removed() {
    let mut service = ExtensionSidecarServiceImpl::new();
    let (key, initial) = service.listen("lifecycle").expect("lifecycle listen");
    assert!(initial.is_some());
    assert!(service.listen("bogus").is_err());
    service.unlisten(key);
}
