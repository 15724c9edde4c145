use vscode_atomic_tauri::bridge::{
    canceled_response, channel_error_from, complete_listen, finish_call, listen_subscription_id, start_call,
};
use vscode_atomic_tauri::cancellation::CancellationManager;
use vscode_atomic_tauri::contracts::{
    CancelRequest, CancellationId, ChannelCallRequest, ChannelError, ChannelListenRequest, SubscriptionId,
};
use vscode_atomic_tauri::json::JsonValue;
use vscode_atomic_tauri::service_registry::{ServiceError, ServiceId};
use vscode_atomic_tauri::subscriptions::SubscriptionManager;

fn call(request_id: &str, cancellation_id: Option<&str>) -> ChannelCallRequest {
    ChannelCallRequest {
        request_id: request_id.to_string(),
        channel: "nativeHost".to_string(),
        command: "windowCount".to_string(),
        args: Vec::new(),
        cancellation_id: cancellation_id.map(|c| CancellationId(c.to_string())),
    }
}

fn listen(request_id: &str, subscription_id: Option<&str>) -> ChannelListenRequest {
    ChannelListenRequest {
        request_id: request_id.to_string(),
        channel: "fileService".to_string(),
        event: "fs_watch".to_string(),
        args: Vec::new(),
        subscription_id: subscription_id.map(|s| SubscriptionId(s.to_string())),
    }
}

#[test]
fn call_is_answered_with_its_result() {
    let mut cancellations = CancellationManager::new();
    let (guard, proceed) = start_call(&mut cancellations, &call("req-1", Some("c-1")));
    assert!(proceed);
    let response = finish_call(&mut cancellations, guard, "req-1".to_string(), Some(Ok(JsonValue::Number("1".to_string()))));
    assert_eq!(response.request_id, "req-1");
    assert_eq!(response.result, Some(JsonValue::Number("1".to_string())));
    assert_eq!(response.error, None);
}

#[test]
fn cancelled_call_is_answered_canceled() {
    let mut cancellations = CancellationManager::new();
    let (guard, proceed) = start_call(&mut cancellations, &call("req-2", Some("c-2")));
    assert!(proceed);
    assert!(cancellations.cancel(&CancelRequest {
        cancellation_id: CancellationId("c-2".to_string()),
        request_id: Some("req-2".to_string()),
    }));
    let response = finish_call(&mut cancellations, guard, "req-2".to_string(), Some(Ok(JsonValue::Null)));
    assert_eq!(response, canceled_response("req-2".to_string()));
    let error = response.error.unwrap();
    assert_eq!(error.code, "Canceled");
    assert_eq!(error.message, "Canceled");
}

#[test]
fn call_cancelled_before_it_starts_is_not_dispatched() {
    let mut cancellations = CancellationManager::new();
    assert!(cancellations.cancel(&CancelRequest { cancellation_id: CancellationId("c-3".to_string()), request_id: None }));
    let (guard, proceed) = start_call(&mut cancellations, &call("req-3", Some("c-3")));
    assert!(!proceed);
    let response = finish_call(&mut cancellations, guard, "req-3".to_string(), None);
    assert_eq!(response.error.unwrap().code, "Canceled");
}

#[test]
fn service_errors_reach_the_webview_unchanged() {
    let mut cancellations = CancellationManager::new();
    let (guard, _) = start_call(&mut cancellations, &call("req-4", None));
    let error = channel_error_from(ServiceError::unsupported(ServiceId::NativeHost, "openExternal"));
    assert_eq!(error.code, "service.unsupportedCommand");
    let response = finish_call(&mut cancellations, guard, "req-4".to_string(), Some(Err(error)));
    assert_eq!(
        response.error,
        Some(ChannelError {
            code: "service.unsupportedCommand".to_string(),
            message: "nativeHostService does not implement command: openExternal".to_string(),
            details: None,
        })
    );
}

#[test]
fn listen_requires_a_subscription_id() {
    let response = listen_subscription_id(&listen("req-5", None)).unwrap_err();
    let error = response.error.unwrap();
    assert_eq!(error.code, "subscription.missingId");
    assert_eq!(error.message, "channel_listen requires subscriptionId");
    assert_eq!(listen_subscription_id(&listen("req-6", Some("s-1"))).unwrap().0, "s-1");
}

#[test]
fn listen_registers_once_per_window() {
    let mut subscriptions = SubscriptionManager::new(8);
    let request = listen("req-7", Some("s-7"));
    let id = listen_subscription_id(&request).unwrap();
    let response = complete_listen(&mut subscriptions, &request, id, "main".to_string(), Ok(()));
    assert_eq!(response.result, Some(JsonValue::Null));
    let again = complete_listen(&mut subscriptions, &request, SubscriptionId("s-7".to_string()), "main".to_string(), Ok(()));
    let error = again.error.unwrap();
    assert_eq!(error.code, "subscription.duplicateId");
    assert_eq!(error.message, "subscription already registered: s-7");
    let refused = complete_listen(
        &mut subscriptions,
        &listen("req-8", Some("s-8")),
        SubscriptionId("s-8".to_string()),
        "main".to_string(),
        Err(ServiceError::unsupported_listen(ServiceId::File, "bogus")),
    );
    assert_eq!(refused.error.unwrap().code, "service.unsupportedListen");
    assert_eq!(subscriptions.len(), 1);
}
