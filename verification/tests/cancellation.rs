use vscode_atomic_tauri::cancellation::CancellationManager;
use vscode_atomic_tauri::contracts::{CancelRequest, CancellationId};

#[test]
fn cancel_marks_matching_active_request() {
    let mut manager = CancellationManager::new();
    let guard = manager.begin(
        "req-1".to_string(),
        Some(CancellationId("cancel-1".to_string())),
    );

    assert!(manager.cancel(&CancelRequest {
        cancellation_id: CancellationId("cancel-1".to_string()),
        request_id: Some("req-1".to_string()),
    }));
    assert!(guard.is_cancelled(&manager));
}

#[test]
fn cancel_ignores_mismatched_request_id() {
    let mut manager = CancellationManager::new();
    let guard = manager.begin(
        "req-1".to_string(),
        Some(CancellationId("cancel-1".to_string())),
    );

    assert!(!manager.cancel(&CancelRequest {
        cancellation_id: CancellationId("cancel-1".to_string()),
        request_id: Some("req-2".to_string()),
    }));
    assert!(!guard.is_cancelled(&manager));
}

#[test]
fn cancel_before_begin_marks_the_request_when_it_starts() {
    let mut manager = CancellationManager::new();
    assert!(manager.cancel(&CancelRequest {
        cancellation_id: CancellationId("cancel-early".to_string()),
        request_id: None,
    }));
    let guard = manager.begin(
        "req-early".to_string(),
        Some(CancellationId("cancel-early".to_string())),
    );
    assert!(guard.is_cancelled(&manager));
}

#[test]
fn cancel_without_request_id_matches_any_request() {
    let mut manager = CancellationManager::new();
    let guard = manager.begin("req-9".to_string(), Some(CancellationId("c-9".to_string())));
    assert!(manager.cancel(&CancelRequest {
        cancellation_id: CancellationId("c-9".to_string()),
        request_id: None,
    }));
    assert!(guard.is_cancelled(&manager));
}

#[test]
fn guards_of_other_requests_are_not_cancelled() {
    let mut manager = CancellationManager::new();
    let first = manager.begin("req-a".to_string(), Some(CancellationId("a".to_string())));
    let second = manager.begin("req-b".to_string(), Some(CancellationId("b".to_string())));
    assert!(manager.cancel(&CancelRequest {
        cancellation_id: CancellationId("a".to_string()),
        request_id: Some("req-a".to_string()),
    }));
    assert!(first.is_cancelled(&manager));
    assert!(!second.is_cancelled(&manager));
}

#[test]
fn finished_request_releases_its_cancellation_id() {
    let mut manager = CancellationManager::new();
    let guard = manager.begin("req-f".to_string(), Some(CancellationId("f".to_string())));
    manager.finish(guard);
    // With the request gone, a matching cancel is recorded for a later request.
    assert!(manager.cancel(&CancelRequest {
        cancellation_id: CancellationId("f".to_string()),
        request_id: Some("req-other".to_string()),
    }));
    let later = manager.begin("req-other".to_string(), Some(CancellationId("f".to_string())));
    assert!(later.is_cancelled(&manager));
}
