use vscode_atomic_tauri::rpc::{
    reply_for, CallOutcome, CallsMap, Dispatch, HandlerOutcome, MessageIdCounter, MethodKind, PartialIncoming,
    ResponseError, RpcMethodBuilder, RpcReply,
};

fn request(id: Option<u32>, method: &str) -> PartialIncoming {
    PartialIncoming { id, method: Some(method.to_string()), error: None }
}

fn builder() -> RpcMethodBuilder {
    let mut b = RpcMethodBuilder::new();
    b.register_async("echo");
    b.register_sync("add");
    b
}

#[test]
fn requests_go_to_their_registered_handler() {
    let mut d = builder().build::<u8>();
    match d.dispatch(request(Some(1), "add")) {
        Dispatch::Run { id, method, kind } => {
            assert_eq!(id, Some(1));
            assert_eq!(method, "add");
            assert_eq!(kind, MethodKind::Sync);
        }
        _ => panic!("expected the add handler"),
    }
    match d.dispatch(request(None, "echo")) {
        Dispatch::Run { id, kind, .. } => {
            assert_eq!(id, None);
            assert_eq!(kind, MethodKind::Async);
        }
        _ => panic!("expected the echo handler"),
    }
}

#[test]
fn unknown_method_returns_error() {
    let mut d = builder().build::<u8>();
    match d.dispatch(request(Some(99), "nope")) {
        Dispatch::Refuse(Some(reply)) => {
            assert_eq!(reply.id, 99);
            assert_eq!(reply.error.code, -1);
            assert_eq!(reply.error.message, "Method not found: nope");
        }
        _ => panic!("expected an error reply"),
    }
    match d.dispatch(request(None, "nope")) {
        Dispatch::Refuse(None) => {}
        _ => panic!("a notification gets no reply"),
    }
}

#[test]
fn async_registration_replaces_a_handler() {
    let mut b = RpcMethodBuilder::new();
    b.register_sync("m");
    b.register_async("m");
    let mut d = b.build::<()>();
    match d.dispatch(request(Some(1), "m")) {
        Dispatch::Run { kind, .. } => assert_eq!(kind, MethodKind::Async),
        _ => panic!("expected the handler"),
    }
}

#[test]
fn handler_outcomes_earn_their_replies() {
    match reply_for(Some(3), HandlerOutcome::Done(7i64)) {
        Some(RpcReply::Success { id, result }) => {
            assert_eq!(id, 3);
            assert_eq!(result, 7);
        }
        _ => panic!("expected success"),
    }
    match reply_for::<i64>(Some(4), HandlerOutcome::BadParams("bad".to_string())) {
        Some(RpcReply::Error(e)) => {
            assert_eq!(e.id, 4);
            assert_eq!(e.error.code, 0);
            assert_eq!(e.error.message, "bad");
        }
        _ => panic!("expected an error"),
    }
    match reply_for::<i64>(Some(5), HandlerOutcome::Failed("boom".to_string())) {
        Some(RpcReply::Error(e)) => assert_eq!(e.error.code, -1),
        _ => panic!("expected an error"),
    }
    assert!(reply_for(None, HandlerOutcome::Done(1)).is_none());
}

#[test]
fn responses_settle_their_call_once() {
    let mut calls: CallsMap<&str> = CallsMap::new();
    calls.insert(1, "first");
    calls.insert(2, "second");
    assert!(calls.contains(1));
    match calls.route_response(Some(1), None) {
        Some(("first", CallOutcome::Success)) => {}
        _ => panic!("expected the first call to succeed"),
    }
    assert!(calls.route_response(Some(1), None).is_none());
    let error = ResponseError { code: 5, message: "no".to_string() };
    match calls.route_response(Some(2), Some(error)) {
        Some(("second", CallOutcome::Error(e))) => assert_eq!(e.message, "no"),
        _ => panic!("expected the second call to fail"),
    }
    assert!(calls.route_response(None, None).is_none());
    assert!(!calls.contains(2));
}

#[test]
fn cancel_all_drops_pending_calls() {
    let mut calls: CallsMap<u8> = CallsMap::new();
    calls.insert(7, 1);
    calls.insert(7, 2);
    assert_eq!(calls.remove(7), Some(2));
    calls.insert(8, 3);
    calls.cancel_all();
    assert!(!calls.contains(8));
}

#[test]
fn server_dispatcher_routes_responses_to_its_own_calls() {
    let mut d = builder().build::<u8>();
    match d.dispatch(PartialIncoming { id: Some(1), method: None, error: None }) {
        Dispatch::Ignore => {}
        _ => panic!("no call of the server waits for id 1"),
    }
}

#[test]
fn message_ids_count_from_one() {
    let mut ids = MessageIdCounter::new();
    assert_eq!(ids.next_message_id(), 1);
    assert_eq!(ids.next_message_id(), 2);
    assert_eq!(ids.next_message_id(), 3);
}
