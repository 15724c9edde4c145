use vscode_atomic_tauri::contracts::SubscriptionId;
use vscode_atomic_tauri::subscriptions::{
    SubscriptionError, SubscriptionManager, SubscriptionRequest, CHANNEL_EVENT_NAME,
    DEFAULT_SUBSCRIPTION_BUFFER_CAPACITY,
};

fn request(id: Option<&str>, window: &str) -> SubscriptionRequest {
    SubscriptionRequest {
        subscription_id: id.map(|s| SubscriptionId(s.to_string())),
        channel: "fileService".to_string(),
        event: "onDidChange".to_string(),
        window_label: window.to_string(),
    }
}

#[test]
fn generated_ids_count_up() {
    let mut manager = SubscriptionManager::default();
    assert_eq!(manager.buffer_capacity(), DEFAULT_SUBSCRIPTION_BUFFER_CAPACITY);
    let a = manager.subscribe(request(None, "main")).unwrap();
    let b = manager.subscribe(request(None, "main")).unwrap();
    assert_eq!(a.0, "rust-subscription-1");
    assert_eq!(b.0, "rust-subscription-2");
    assert_eq!(manager.len(), 2);
    assert_eq!(CHANNEL_EVENT_NAME, "channel_event");
}

#[test]
fn duplicate_id_in_one_window_is_refused() {
    let mut manager = SubscriptionManager::new(8);
    manager.subscribe(request(Some("sub-1"), "main")).unwrap();
    let error = manager.subscribe(request(Some("sub-1"), "main")).unwrap_err();
    assert_eq!(error, SubscriptionError::DuplicateSubscription(SubscriptionId("sub-1".to_string())));
    assert_eq!(error.code(), "subscription.duplicateId");
    assert_eq!(error.message(), "subscription already registered: sub-1");
    // Another window may use the same id.
    assert!(manager.subscribe(request(Some("sub-1"), "other")).is_ok());
    assert_eq!(manager.len(), 2);
}

#[test]
fn dispose_is_scoped_to_the_window_and_idempotent() {
    let mut manager = SubscriptionManager::new(0);
    assert_eq!(manager.buffer_capacity(), 1);
    let id = manager.subscribe(request(Some("s"), "a")).unwrap();
    manager.subscribe(request(Some("s"), "b")).unwrap();
    assert!(manager.dispose_for_window("a", &id));
    assert!(!manager.dispose_for_window("a", &id));
    assert!(manager.contains_for_window("b", &id));
    assert!(!manager.contains_for_window("a", &id));
    assert!(manager.dispose(&id));
    assert!(!manager.dispose(&id));
    assert!(manager.is_empty());
}

#[test]
fn late_events_of_a_disposed_subscription_are_dropped() {
    let mut manager = SubscriptionManager::new(4);
    let id = manager.subscribe(request(Some("s"), "w")).unwrap();
    let seq = manager.sequence_of("w", &id).unwrap();
    assert!(manager.is_live("w", &id, seq));
    manager.dispose_for_window("w", &id);
    assert!(!manager.is_live("w", &id, seq));
    // Re-subscribing under the same id gets a new sequence; the old stream's
    // end leaves the new subscription alone.
    manager.subscribe(request(Some("s"), "w")).unwrap();
    let newer = manager.sequence_of("w", &id).unwrap();
    assert_ne!(newer, seq);
    manager.finish_stream("w", &id, seq);
    assert!(manager.contains_for_window("w", &id));
    manager.finish_stream("w", &id, newer);
    assert!(!manager.contains_for_window("w", &id));
}

#[test]
fn subscription_info_reports_the_registration() {
    let mut manager = SubscriptionManager::new(4);
    let id = manager.subscribe(request(Some("info"), "win")).unwrap();
    let info = manager.subscription(&id).unwrap();
    assert_eq!(info.channel, "fileService");
    assert_eq!(info.event, "onDidChange");
    assert_eq!(info.window_label, "win");
    assert!(!info.disposed);
    assert!(manager.subscription(&SubscriptionId("none".to_string())).is_none());
}
