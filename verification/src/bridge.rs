//! What the webview bridge answers: calls, with their cancellation, and
//! listen requests, with their subscription. Dispatching to the services
//! happens outside, between the steps here.
use vstd::prelude::*;
use crate::cancellation::{finish_spec, is_cancelled_spec, state_wf, CancellationManager, RequestCancellationGuard};
use crate::contracts::{CancellationId, ChannelCallRequest, ChannelError, ChannelListenRequest, ChannelResponse, SubscriptionId};
use crate::json::JsonValue;
use crate::service_registry::ServiceError;
use crate::subscriptions::{generated_id, subscribe_spec, SubscriptionError, SubscriptionManager, SubscriptionRequest};
use crate::text::owned;

verus! {

/// The error a cancelled call is answered with.
pub open spec fn is_canceled_error(e: ChannelError) -> bool {
    e.code@ == "Canceled"@ && e.message@ == "Canceled"@ && e.details is None
}

/// An answer carrying a result.
pub fn success_response(request_id: String, result: JsonValue) -> (r: ChannelResponse)
    ensures
        r.request_id == request_id,
        r.result == Some(result),
        r.error is None,
{
    ChannelResponse { request_id, result: Some(result), error: None }
}

/// An answer carrying an error.
pub fn error_response(request_id: String, error: ChannelError) -> (r: ChannelResponse)
    ensures
        r.request_id == request_id,
        r.result is None,
        r.error == Some(error),
{
    ChannelResponse { request_id, result: None, error: Some(error) }
}

/// The answer to a cancelled call.
pub fn canceled_response(request_id: String) -> (r: ChannelResponse)
    ensures
        r.request_id == request_id,
        r.result is None,
        r.error matches Some(e) && is_canceled_error(e),
{
    error_response(request_id, ChannelError { code: owned("Canceled"), message: owned("Canceled"), details: None })
}

/// A service error as the webview sees it.
pub fn channel_error_from(error: ServiceError) -> (e: ChannelError)
    ensures
        e.code@ == error.code@,
        e.message == error.message,
        e.details is None,
{
    ChannelError { code: owned(error.code), message: error.message, details: None }
}

/// Registers a call with the cancellations under its request id and
/// cancellation id. Says whether to dispatch it: not when a cancellation
/// for it arrived already.
pub fn start_call(cancellations: &mut CancellationManager, request: &ChannelCallRequest) -> (r: (RequestCancellationGuard, bool))
    requires
        old(cancellations)@.next_token < u64::MAX,
    ensures
        final(cancellations)@ == crate::cancellation::begin_spec(
            old(cancellations)@,
            request.request_id@,
            match request.cancellation_id { Some(c) => Some(c.0@), None => None },
        ),
        r.0.token() == old(cancellations)@.next_token,
        r.0.cid() == match request.cancellation_id { Some(c) => Some(c.0@), None => None::<Seq<char>> },
        r.1 == !is_cancelled_spec(final(cancellations)@, r.0.token()),
        state_wf(old(cancellations)@) ==> state_wf(final(cancellations)@),
{
    let cid = match &request.cancellation_id {
        Some(c) => Some(CancellationId(owned(c.0.as_str()))),
        None => None,
    };
    let guard = cancellations.begin(owned(request.request_id.as_str()), cid);
    let proceed = !guard.is_cancelled(cancellations);
    (guard, proceed)
}

/// Ends a call: hands its guard back and answers it. A call that was not
/// dispatched (`None`), or that was cancelled meanwhile, is answered
/// `Canceled`; any other gets its result or its error.
pub fn finish_call(
    cancellations: &mut CancellationManager,
    guard: RequestCancellationGuard,
    request_id: String,
    dispatched: Option<Result<JsonValue, ChannelError>>,
) -> (r: ChannelResponse)
    ensures
        final(cancellations)@ == finish_spec(old(cancellations)@, guard.cid(), guard.token()),
        state_wf(old(cancellations)@) ==> state_wf(final(cancellations)@),
        r.request_id == request_id,
        (dispatched is None || is_cancelled_spec(old(cancellations)@, guard.token()))
            ==> r.result is None && (r.error matches Some(e) && is_canceled_error(e)),
        !(dispatched is None || is_cancelled_spec(old(cancellations)@, guard.token())) ==> match dispatched {
            Some(Ok(v)) => r.result == Some(v) && r.error is None,
            Some(Err(e)) => r.result is None && r.error == Some(e),
            None => true,
        },
{
    let cancelled = guard.is_cancelled(cancellations);
    cancellations.finish(guard);
    if cancelled {
        return canceled_response(request_id);
    }
    match dispatched {
        None => canceled_response(request_id),
        Some(Ok(v)) => success_response(request_id, v),
        Some(Err(e)) => error_response(request_id, e),
    }
}

/// A listen request must name the subscription it opens.
pub fn listen_subscription_id(request: &ChannelListenRequest) -> (r: Result<SubscriptionId, ChannelResponse>)
    ensures
        match request.subscription_id {
            Some(id) => r matches Ok(got) && got.0@ == id.0@,
            None => r matches Err(resp) && resp.request_id@ == request.request_id@ && resp.result is None
                && (resp.error matches Some(e) && e.code@ == "subscription.missingId"@
                    && e.message@ == "channel_listen requires subscriptionId"@ && e.details is None),
        },
{
    match &request.subscription_id {
        Some(id) => Ok(SubscriptionId(owned(id.0.as_str()))),
        None => Err(error_response(
            owned(request.request_id.as_str()),
            ChannelError {
                code: owned("subscription.missingId"),
                message: owned("channel_listen requires subscriptionId"),
                details: None,
            },
        )),
    }
}

/// Ends a listen request once the service was asked to listen: a refusal
/// of the service is the answer; otherwise the subscription of the window
/// is registered, and a duplicate is refused. The answer to a success is
/// `null`.
pub fn complete_listen(
    subscriptions: &mut SubscriptionManager,
    request: &ChannelListenRequest,
    subscription_id: SubscriptionId,
    window_label: String,
    dispatched: Result<(), ServiceError>,
) -> (r: ChannelResponse)
    requires
        old(subscriptions).wf(),
        old(subscriptions)@.last_sequence < u64::MAX,
    ensures
        final(subscriptions).wf(),
        r.request_id@ == request.request_id@,
        match dispatched {
            Err(e) => final(subscriptions)@ == old(subscriptions)@ && r.result is None
                && (r.error matches Some(ce) && ce.code@ == e.code@ && ce.message == e.message && ce.details is None),
            Ok(()) => {
                let (s2, ok) = subscribe_spec(old(subscriptions)@, window_label@, subscription_id.0@, request.channel@, request.event@);
                &&& final(subscriptions)@.records == s2.records
                &&& final(subscriptions)@.last_sequence == s2.last_sequence
                &&& (ok ==> r.result == Some(JsonValue::Null) && r.error is None)
                &&& (!ok ==> r.result is None && (r.error matches Some(ce) && ce.code@ == "subscription.duplicateId"@
                    && ce.message@ == "subscription already registered: "@ + subscription_id.0@ && ce.details is None))
            },
        },
{
    let request_id = owned(request.request_id.as_str());
    match dispatched {
        Err(e) => error_response(request_id, channel_error_from(e)),
        Ok(()) => {
            let sub = SubscriptionRequest {
                subscription_id: Some(subscription_id),
                channel: owned(request.channel.as_str()),
                event: owned(request.event.as_str()),
                window_label,
            };
            match subscriptions.subscribe(sub) {
                Ok(_) => success_response(request_id, JsonValue::Null),
                Err(e) => {
                    let code = e.code();
                    let message = e.message();
                    error_response(request_id, ChannelError { code: owned(code), message, details: None })
                },
            }
        },
    }
}

} // verus!
