use vscode_atomic_tauri::json::JsonValue;
use vscode_atomic_tauri::terminal::{
    first_arg, required_id, stream_matches, validate_command, validate_size, ResizeTerminalRequest, RustTerminalService,
    SpawnTerminalRequest, TerminalCommand, TerminalLifecycleState, TerminalListen, TerminalServiceError, TerminalSize,
    TerminalStreamKind, WriteTerminalRequest, SHELL_INTEGRATION_ENV,
};

fn spawn_request(id: Option<&str>, cols: Option<u16>, rows: Option<u16>) -> SpawnTerminalRequest {
    SpawnTerminalRequest {
        id: id.map(str::to_string),
        command: "shell".to_string(),
        args: Vec::new(),
        cwd: None,
        env: Vec::new(),
        cols,
        rows,
    }
}

/// Plans and completes a spawn, as the service does around its backend.
fn spawn(service: &mut RustTerminalService, request: SpawnTerminalRequest) -> Result<String, TerminalServiceError> {
    let plan = service.plan_spawn(request)?;
    let status = service.complete_spawn(&plan.id, plan.size)?;
    Ok(status.id)
}

#[test]
fn spawn_injects_shell_integration_env_and_enters_running() {
    let mut service = RustTerminalService::new();
    let plan = service
        .plan_spawn(SpawnTerminalRequest {
            id: Some("term-1".to_string()),
            command: "shell".to_string(),
            args: vec!["--login".to_string()],
            cwd: Some("/tmp".to_string()),
            env: vec![("PATH".to_string(), "/bin".to_string())],
            cols: Some(120),
            rows: Some(30),
        })
        .expect("spawn accepted");
    assert!(plan.env.contains(&(SHELL_INTEGRATION_ENV.to_string(), "1".to_string())));
    assert!(plan.env.contains(&("PATH".to_string(), "/bin".to_string())));
    assert_eq!(plan.args, vec!["--login".to_string()]);

    let status = service.complete_spawn(&plan.id, plan.size).expect("spawn succeeds");
    assert_eq!(status.id, "term-1");
    assert_eq!(status.state, TerminalLifecycleState::Running);
    assert_eq!(status.size, Some(TerminalSize { cols: 120, rows: 30 }));
}

#[test]
fn spawn_rejects_duplicate_id_and_invalid_size() {
    let mut service = RustTerminalService::new();
    spawn(&mut service, spawn_request(Some("term-1"), Some(80), Some(24))).expect("first spawn succeeds");
    let duplicate = service.plan_spawn(spawn_request(Some("term-1"), Some(80), Some(24))).expect_err("duplicate");
    assert_eq!(duplicate.code, "terminal.exists");
    assert_eq!(duplicate.message, "terminal already exists: term-1");
    let invalid = service.plan_spawn(spawn_request(Some("term-2"), Some(0), Some(24))).expect_err("zero size");
    assert_eq!(invalid.code, "terminal.invalidRequest");
    let half = service.plan_spawn(spawn_request(Some("term-3"), Some(10), None)).expect_err("half a size");
    assert_eq!(half.message, "terminal size requires both cols and rows");
    let mut blank = spawn_request(Some("term-4"), None, None);
    blank.command = " \t".to_string();
    assert_eq!(service.plan_spawn(blank).unwrap_err().message, "terminal command is required");
}

#[test]
fn generated_terminal_ids_count_up() {
    let mut service = RustTerminalService::new();
    let a = spawn(&mut service, spawn_request(None, None, None)).unwrap();
    let b = spawn(&mut service, spawn_request(None, None, None)).unwrap();
    assert_ne!(a, b);
    assert!(a.starts_with("terminal-"));
}

/// Plans and commits a resize, as the service does around its backend;
/// says whether the backend was asked to resize.
fn resize(
    service: &mut RustTerminalService,
    id: &str,
    cols: u16,
    rows: u16,
) -> Result<(vscode_atomic_tauri::terminal::TerminalStatus, bool), TerminalServiceError> {
    let (size, live) = service.plan_resize(&ResizeTerminalRequest { id: id.to_string(), cols, rows })?;
    let status = service.commit_resize(id, size)?;
    Ok((status, live))
}

#[test]
fn resize_coalesces_to_latest_size() {
    let mut service = RustTerminalService::new();
    spawn(&mut service, spawn_request(Some("term-1"), None, None)).expect("spawn succeeds");

    resize(&mut service, "term-1", 80, 24).expect("first resize succeeds");
    let (status, _) = resize(&mut service, "term-1", 132, 43).expect("second resize succeeds");

    assert_eq!(status.size, Some(TerminalSize { cols: 132, rows: 43 }));
    assert_eq!(service.status("term-1").expect("status succeeds").size, status.size);
}

#[test]
fn resize_unknown_terminal_does_not_call_backend() {
    let mut service = RustTerminalService::new();
    let error = resize(&mut service, "missing-term", 80, 24).expect_err("missing terminal rejected");
    assert_eq!(error.code, "terminal.missing");
    assert_eq!(error.message, "terminal not found: missing-term");
}

#[test]
fn resize_rejects_zero_dimensions_before_backend_call() {
    let mut service = RustTerminalService::new();
    spawn(&mut service, spawn_request(Some("term-1"), None, None)).expect("spawn succeeds");
    let error = resize(&mut service, "term-1", 120, 0).expect_err("zero rows rejected");
    assert_eq!(error.code, "terminal.invalidRequest");
    assert_eq!(service.status("term-1").unwrap().size, None);
}

#[test]
fn kill_cleans_backend_and_exited_resize_stays_cached() {
    let mut service = RustTerminalService::new();
    spawn(&mut service, spawn_request(Some("term-1"), Some(80), Some(24))).expect("spawn succeeds");
    service.mark_exited("term-1").expect("kill succeeds");

    let (status, backend_resized) = resize(&mut service, "term-1", 120, 40).expect("exited resize succeeds");

    assert_eq!(status.state, TerminalLifecycleState::Exited);
    assert_eq!(status.size, Some(TerminalSize { cols: 120, rows: 40 }));
    assert!(!backend_resized);
}

#[test]
fn write_forwards_input_to_running_terminal() {
    let mut service = RustTerminalService::new();
    spawn(&mut service, spawn_request(Some("term-1"), None, None)).expect("spawn succeeds");
    let status = service
        .check_write(&WriteTerminalRequest { id: "term-1".to_string(), data: "echo ok\n".to_string() })
        .expect("write succeeds");
    assert_eq!(status.state, TerminalLifecycleState::Running);
}

#[test]
fn terminal_service_parity_covers_duplicate_empty_and_size_guards() {
    let mut service = RustTerminalService::new();
    spawn(&mut service, spawn_request(Some("guarded-terminal"), Some(80), Some(24))).expect("first spawn succeeds");

    let duplicate = service
        .plan_spawn(spawn_request(Some("guarded-terminal"), Some(80), Some(24)))
        .expect_err("duplicate terminal rejected");
    assert_eq!(duplicate.code, "terminal.exists");

    let mut empty = spawn_request(Some("empty-command-terminal"), Some(80), Some(24));
    empty.command = "   ".to_string();
    assert_eq!(service.plan_spawn(empty).expect_err("empty command rejected").code, "terminal.invalidRequest");

    let partial_size = service
        .plan_spawn(spawn_request(Some("partial-size-terminal"), Some(80), None))
        .expect_err("partial size rejected");
    assert_eq!(partial_size.code, "terminal.invalidRequest");

    let zero_size = resize(&mut service, "guarded-terminal", 0, 24).expect_err("zero cols rejected");
    assert_eq!(zero_size.code, "terminal.invalidRequest");
}

#[test]
fn write_rejects_exited_terminal() {
    let mut service = RustTerminalService::new();
    spawn(&mut service, spawn_request(Some("term-1"), None, None)).unwrap();
    assert!(service.check_write(&WriteTerminalRequest { id: "term-1".to_string(), data: "ls\n".to_string() }).is_ok());
    service.mark_exited("term-1").expect("kill succeeds");
    let error = service
        .check_write(&WriteTerminalRequest { id: "term-1".to_string(), data: "ignored".to_string() })
        .expect_err("exited write rejected");
    assert_eq!(error.code, "terminal.invalidRequest");
    assert_eq!(error.message, "terminal is not accepting input: term-1");
}

#[test]
fn exited_resize_stays_cached_without_backend_resize() {
    let mut service = RustTerminalService::new();
    spawn(&mut service, spawn_request(Some("term-1"), Some(80), Some(24))).unwrap();
    service.mark_exited("term-1").unwrap();
    let (size, live) = service.plan_resize(&ResizeTerminalRequest { id: "term-1".to_string(), cols: 90, rows: 30 }).unwrap();
    assert!(!live);
    assert_eq!(size, TerminalSize { cols: 90, rows: 30 });
    let status = service.commit_resize("term-1", size).unwrap();
    assert_eq!(status.state, TerminalLifecycleState::Exited);
    assert_eq!(service.status("term-1").unwrap().size, Some(TerminalSize { cols: 90, rows: 30 }));
}

#[test]
fn lifecycle_transitions_through_exit_reconnect_and_dispose() {
    let mut service = RustTerminalService::new();
    spawn(&mut service, spawn_request(Some("term-1"), None, None)).unwrap();
    assert_eq!(service.mark_exited("term-1").expect("kill succeeds").state, TerminalLifecycleState::Exited);
    assert_eq!(service.reconnect("term-1").expect("reconnect succeeds").state, TerminalLifecycleState::Reconnected);
    assert_eq!(service.dispose("term-1").expect("dispose succeeds").state, TerminalLifecycleState::Disposed);
    assert!(matches!(service.status("term-1"), Err(TerminalServiceError { code: "terminal.missing", .. })));
}

#[test]
fn commands_and_events_parse() {
    assert_eq!(TerminalCommand::parse("spawn"), Ok(TerminalCommand::Spawn));
    assert_eq!(TerminalCommand::parse("drainEvents"), Ok(TerminalCommand::DrainEvents));
    assert_eq!(TerminalCommand::parse("bogus").unwrap_err().code, "service.unsupportedCommand");
    assert_eq!(TerminalListen::parse("bogus").unwrap_err().code, "service.unsupportedListen");
    assert!(stream_matches(None, TerminalStreamKind::Stderr));
    assert!(stream_matches(Some(TerminalStreamKind::Stdout), TerminalStreamKind::Stdout));
    assert!(!stream_matches(Some(TerminalStreamKind::Stdout), TerminalStreamKind::Stderr));
}

#[test]
fn request_arguments_are_checked() {
    let args = vec![JsonValue::String("term-9".to_string())];
    assert_eq!(required_id("status", &args), Ok("term-9".to_string()));
    assert!(first_arg("status", &Vec::new()).is_err());
    assert_eq!(required_id("status", &vec![JsonValue::Null]).unwrap_err().message, "status requires terminal id");
    assert!(validate_command("ls").is_ok());
    assert!(validate_size(TerminalSize { cols: 1, rows: 0 }).is_err());
    assert_eq!(validate_size(TerminalSize { cols: 2, rows: 3 }), Ok(TerminalSize { cols: 2, rows: 3 }));
}
