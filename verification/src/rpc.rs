//! The JSON-RPC core shared by the server and the client side: which
//! handler an incoming message goes to, the reply a handler's outcome earns,
//! and the calls still waiting for their response.
use vstd::prelude::*;
use crate::json::JsonValue;
use crate::keyed::{distinct_keys, lemma_rows_dom, lemma_rows_push, lemma_rows_remove, lemma_rows_update, lemma_rows_value, rows_map};
use crate::text::{concat2, owned, str_eq};

verus! {

/// Whether a handler answers at once or through a future.
#[derive(Debug, Clone, Copy, PartialEq, Eq, Structural)]
pub enum MethodKind {
    Sync,
    Async,
}

/// The error a call is answered with.
#[derive(Debug, Clone)]
pub struct ResponseError {
    pub code: i32,
    pub message: String,
}

/// An error reply to a request that carried an id.
#[derive(Debug, Clone)]
pub struct ErrorResponse {
    pub id: u32,
    pub error: ResponseError,
}

/// The fields of an incoming message that decide where it goes.
#[derive(Debug, Clone)]
pub struct PartialIncoming {
    pub id: Option<u32>,
    pub method: Option<String>,
    pub error: Option<ResponseError>,
}

/// A request as it goes on the wire; a notification has no id.
pub struct FullRequest<M, P> {
    pub id: Option<u32>,
    pub method: M,
    pub params: P,
}

/// The parameters of an incoming request.
pub struct RequestParams<P> {
    pub params: P,
}

/// An error as an IPC channel sends it.
#[derive(Debug, Clone, PartialEq, Eq)]
pub struct WireError {
    pub code: i32,
    pub message: String,
}

/// A message of an IPC channel.
#[derive(Debug, PartialEq)]
pub enum ChannelMessage {
    /// Client to server: call a command.
    Request { id: u32, command: String, arg: JsonValue },
    /// Server to client: a successful reply.
    Response { id: u32, result: JsonValue },
    /// Server to client: an error reply.
    ResponseError { id: u32, error: WireError },
    /// Client to server: cancel a request in flight.
    Cancel { id: u32 },
    /// Either way: an event.
    Event { event: String, data: JsonValue },
    /// Client to server: subscribe to an event stream of the server.
    Subscribe { id: u32, event: String },
    /// Client to server: end a subscription.
    Unsubscribe { id: u32 },
}

/// A method call with its payload, as the simplest IPC channels carry it.
#[derive(Debug, PartialEq)]
pub struct IpcMessage {
    pub method: String,
    pub payload: JsonValue,
}

/// What running a handler came to.
pub enum HandlerOutcome<R> {
    /// The parameters did not decode; the text says why.
    BadParams(String),
    /// The handler failed; the text says why.
    Failed(String),
    /// The handler's result.
    Done(R),
}

/// The reply to a request that carried an id.
pub enum RpcReply<R> {
    Success { id: u32, result: R },
    Error(ErrorResponse),
}

/// An error reply with the given id, code and text.
pub open spec fn is_error_reply(e: ErrorResponse, id: u32, code: int, message: Seq<char>) -> bool {
    e.id == id && e.error.code == code && e.error.message@ == message
}

/// The reply a handler's outcome earns: none for a notification (a request
/// without an id); code 0 for parameters that did not decode, code -1 for a
/// handler that failed, and the result otherwise.
pub fn reply_for<R>(id: Option<u32>, outcome: HandlerOutcome<R>) -> (r: Option<RpcReply<R>>)
    ensures
        match id {
            None => r is None,
            Some(i) => match outcome {
                HandlerOutcome::BadParams(m) => (r matches Some(RpcReply::Error(e)) && is_error_reply(e, i, 0, m@)),
                HandlerOutcome::Failed(m) => (r matches Some(RpcReply::Error(e)) && is_error_reply(e, i, -1, m@)),
                HandlerOutcome::Done(v) => (r matches Some(RpcReply::Success { id: j, result }) && j == i && result == v),
            },
        },
{
    match id {
        None => None,
        Some(i) => match outcome {
            HandlerOutcome::BadParams(m) => Some(RpcReply::Error(ErrorResponse { id: i, error: ResponseError { code: 0, message: m } })),
            HandlerOutcome::Failed(m) => Some(RpcReply::Error(ErrorResponse { id: i, error: ResponseError { code: -1, message: m } })),
            HandlerOutcome::Done(v) => Some(RpcReply::Success { id: i, result: v }),
        },
    }
}

/// The rows of a method table, each name taken by its characters.
pub open spec fn method_rows(v: Seq<(String, MethodKind)>) -> Seq<(Seq<char>, MethodKind)> {
    v.map_values(|r: (String, MethodKind)| (r.0@, r.1))
}

/// Where `name` stands in a method table, if it is there.
fn find_method(methods: &Vec<(String, MethodKind)>, name: &str) -> (r: Option<usize>)
    ensures
        match r {
            Some(i) => i < methods@.len() && methods@[i as int].0@ == name@,
            None => forall|j: int| 0 <= j < methods@.len() ==> methods@[j].0@ != name@,
        },
{
    let mut i: usize = 0;
    while i < methods.len()
        invariant
            i <= methods@.len(),
            forall|j: int| 0 <= j < i ==> methods@[j].0@ != name@,
        decreases methods@.len() - i,
    {
        if str_eq(methods[i].0.as_str(), name) {
            return Some(i);
        }
        i = i + 1;
    }
    None
}

proof fn lemma_method_lookup(v: Seq<(String, MethodKind)>, name: Seq<char>)
    requires
        distinct_keys(method_rows(v)),
    ensures
        rows_map(method_rows(v)).contains_key(name) <==> exists|j: int| 0 <= j < v.len() && (#[trigger] v[j]).0@ == name,
        forall|j: int| 0 <= j < v.len() && (#[trigger] v[j]).0@ == name ==> rows_map(method_rows(v))[name] == v[j].1,
{
    let rows = method_rows(v);
    lemma_rows_dom(rows, name);
    if rows_map(rows).contains_key(name) {
        let j = choose|j: int| 0 <= j < rows.len() && (#[trigger] rows[j]).0 == name;
        assert(v[j].0@ == name);
    }
    assert forall|j: int| 0 <= j < v.len() && (#[trigger] v[j]).0@ == name implies rows_map(method_rows(v))[name] == v[j].1 by {
        lemma_rows_value(rows, j);
        assert(rows[j] == (v[j].0@, v[j].1));
    }
    if exists|j: int| 0 <= j < v.len() && (#[trigger] v[j]).0@ == name {
        let j = choose|j: int| 0 <= j < v.len() && (#[trigger] v[j]).0@ == name;
        assert(rows[j].0 == name);
    }
}

/// Collects the handlers of a server before it starts: each name once.
pub struct RpcMethodBuilder {
    methods: Vec<(String, MethodKind)>,
}

impl View for RpcMethodBuilder {
    type V = Map<Seq<char>, MethodKind>;

    closed spec fn view(&self) -> Map<Seq<char>, MethodKind> {
        rows_map(method_rows(self.methods@))
    }
}

impl RpcMethodBuilder {
    pub closed spec fn wf(&self) -> bool {
        distinct_keys(method_rows(self.methods@))
    }

    pub fn new() -> (b: RpcMethodBuilder)
        ensures
            b.wf(),
            b@ == Map::<Seq<char>, MethodKind>::empty(),
    {
        let b = RpcMethodBuilder { methods: Vec::new() };
        proof { assert(method_rows(b.methods@) =~= Seq::<(Seq<char>, MethodKind)>::empty()); }
        b
    }

    /// Registers a handler that answers at once; a name can hold only one
    /// such handler.
    pub fn register_sync(&mut self, method_name: &str)
        requires
            old(self).wf(),
            !old(self)@.contains_key(method_name@),
        ensures
            final(self).wf(),
            final(self)@ == old(self)@.insert(method_name@, MethodKind::Sync),
    {
        let ghost before = self.methods@;
        self.methods.push((owned(method_name), MethodKind::Sync));
        proof {
            assert(method_rows(self.methods@) =~= method_rows(before).push((method_name@, MethodKind::Sync)));
            lemma_rows_push(method_rows(before), (method_name@, MethodKind::Sync));
        }
    }

    /// Registers a handler that answers through a future, in place of any
    /// handler under that name.
    pub fn register_async(&mut self, method_name: &str)
        requires
            old(self).wf(),
        ensures
            final(self).wf(),
            final(self)@ == old(self)@.insert(method_name@, MethodKind::Async),
    {
        let ghost before = self.methods@;
        match find_method(&self.methods, method_name) {
            Some(i) => {
                let name = owned(method_name);
                self.methods.set(i, (name, MethodKind::Async));
                proof {
                    let rows = method_rows(before);
                    assert(method_rows(self.methods@) =~= rows.update(i as int, (rows[i as int].0, MethodKind::Async)));
                    lemma_rows_update(rows, i as int, MethodKind::Async);
                }
            },
            None => {
                self.methods.push((owned(method_name), MethodKind::Async));
                proof {
                    lemma_method_lookup(before, method_name@);
                    assert(method_rows(self.methods@) =~= method_rows(before).push((method_name@, MethodKind::Async)));
                    lemma_rows_push(method_rows(before), (method_name@, MethodKind::Async));
                }
            },
        }
    }

    /// The dispatcher serving the registered handlers, with no call pending.
    pub fn build<T>(self) -> (d: RpcDispatcher<T>)
        requires
            self.wf(),
        ensures
            d.wf(),
            d.methods_view() == self@,
            d.calls_view() == Map::<u32, T>::empty(),
    {
        RpcDispatcher { methods: self.methods, calls: CallsMap::new() }
    }
}

/// How a response settles the call it answers.
#[derive(Debug, Clone)]
pub enum CallOutcome {
    Success,
    Error(ResponseError),
}

/// The outcome a response carries: its error, if it has one.
pub open spec fn outcome_of(error: Option<ResponseError>) -> CallOutcome {
    match error {
        Some(e) => CallOutcome::Error(e),
        None => CallOutcome::Success,
    }
}

/// Where a response goes, and the waiting calls after it: a response with
/// the id of a waiting call settles that call, with its error if it carries
/// one, and the call stops waiting; any other response is dropped.
pub open spec fn route_spec<T>(calls: Map<u32, T>, id: Option<u32>, error: Option<ResponseError>) -> (Option<(T, CallOutcome)>, Map<u32, T>) {
    match id {
        Some(i) => if calls.contains_key(i) {
            (Some((calls[i], outcome_of(error))), calls.remove(i))
        } else {
            (None, calls)
        },
        None => (None, calls),
    }
}

/// The calls sent and not yet answered, by request id, each with what
/// receives its outcome.
pub struct CallsMap<T> {
    rows: Vec<(u32, T)>,
}

impl<T> View for CallsMap<T> {
    type V = Map<u32, T>;

    closed spec fn view(&self) -> Map<u32, T> {
        rows_map(self.rows@)
    }
}

impl<T> CallsMap<T> {
    pub closed spec fn wf(&self) -> bool {
        distinct_keys(self.rows@)
    }

    pub fn new() -> (c: CallsMap<T>)
        ensures
            c.wf(),
            c@ == Map::<u32, T>::empty(),
    {
        CallsMap { rows: Vec::new() }
    }

    fn find(&self, id: u32) -> (r: Option<usize>)
        requires
            self.wf(),
        ensures
            match r {
                Some(i) => i < self.rows@.len() && self.rows@[i as int].0 == id,
                None => !self@.contains_key(id),
            },
    {
        let mut i: usize = 0;
        while i < self.rows.len()
            invariant
                i <= self.rows@.len(),
                forall|j: int| 0 <= j < i ==> self.rows@[j].0 != id,
            decreases self.rows@.len() - i,
        {
            if self.rows[i].0 == id {
                return Some(i);
            }
            i = i + 1;
        }
        proof {
            lemma_rows_dom(self.rows@, id);
        }
        None
    }

    /// Whether a call with this id waits for its response.
    pub fn contains(&self, id: u32) -> (r: bool)
        requires
            self.wf(),
        ensures
            r == self@.contains_key(id),
    {
        let found = self.find(id);
        proof {
            if found is Some {
                lemma_rows_value(self.rows@, found.unwrap() as int);
            }
        }
        found.is_some()
    }

    /// Records a call as waiting, in place of any call under that id.
    pub fn insert(&mut self, id: u32, slot: T)
        requires
            old(self).wf(),
        ensures
            final(self).wf(),
            final(self)@ == old(self)@.insert(id, slot),
    {
        let ghost before = self.rows@;
        match self.find(id) {
            Some(i) => {
                self.rows.set(i, (id, slot));
                proof { lemma_rows_update(before, i as int, slot); }
            },
            None => {
                self.rows.push((id, slot));
                proof { lemma_rows_push(before, (id, slot)); }
            },
        }
    }

    /// Takes out the call waiting under this id, if there is one.
    pub fn remove(&mut self, id: u32) -> (r: Option<T>)
        requires
            old(self).wf(),
        ensures
            final(self).wf(),
            final(self)@ == old(self)@.remove(id),
            match r {
                Some(slot) => old(self)@.contains_key(id) && slot == old(self)@[id],
                None => !old(self)@.contains_key(id),
            },
    {
        let ghost before = self.rows@;
        match self.find(id) {
            Some(i) => {
                let row = self.rows.remove(i);
                proof {
                    lemma_rows_value(before, i as int);
                    lemma_rows_remove(before, i as int);
                }
                Some(row.1)
            },
            None => {
                proof { assert(old(self)@.remove(id) =~= old(self)@); }
                None
            },
        }
    }

    /// Drops every waiting call, as on shutdown.
    pub fn cancel_all(&mut self)
        ensures
            final(self).wf(),
            final(self)@ == Map::<u32, T>::empty(),
    {
        self.rows = Vec::new();
        proof { assert(rows_map(self.rows@) =~= Map::<u32, T>::empty()); }
    }

    /// Routes a response to the call it answers (see `route_spec`).
    pub fn route_response(&mut self, id: Option<u32>, error: Option<ResponseError>) -> (r: Option<(T, CallOutcome)>)
        requires
            old(self).wf(),
        ensures
            final(self).wf(),
            (r, final(self)@) == route_spec(old(self)@, id, error),
    {
        match id {
            Some(i) => match self.remove(i) {
                Some(slot) => {
                    let outcome = match error {
                        Some(e) => CallOutcome::Error(e),
                        None => CallOutcome::Success,
                    };
                    Some((slot, outcome))
                },
                None => {
                    proof { assert(old(self)@.remove(i) =~= old(self)@); }
                    None
                },
            },
            None => None,
        }
    }
}

/// What a server does with an incoming message.
pub enum Dispatch<T> {
    /// Run the handler registered under the method's name.
    Run { id: Option<u32>, method: String, kind: MethodKind },
    /// No handler has that name: send the error, where the request has an id.
    Refuse(Option<ErrorResponse>),
    /// A response settles a waiting call.
    Deliver(T, CallOutcome),
    /// Nothing to do.
    Ignore,
}

/// The server side: the registered handlers and the calls of its own that
/// wait for a response.
pub struct RpcDispatcher<T> {
    methods: Vec<(String, MethodKind)>,
    calls: CallsMap<T>,
}

impl<T> RpcDispatcher<T> {
    pub closed spec fn wf(&self) -> bool {
        distinct_keys(method_rows(self.methods@)) && self.calls.wf()
    }

    pub closed spec fn methods_view(&self) -> Map<Seq<char>, MethodKind> {
        rows_map(method_rows(self.methods@))
    }

    pub closed spec fn calls_view(&self) -> Map<u32, T> {
        self.calls@
    }

    /// Where an incoming message goes: a request to the handler registered
    /// under its method (or, for a name with no handler, an error with code
    /// -1 where the request has an id); a message without a method is a
    /// response, which settles the waiting call it answers.
    pub fn dispatch(&mut self, partial: PartialIncoming) -> (r: Dispatch<T>)
        requires
            old(self).wf(),
        ensures
            final(self).wf(),
            final(self).methods_view() == old(self).methods_view(),
            match partial.method {
                Some(m) => final(self).calls_view() == old(self).calls_view() && if old(self).methods_view().contains_key(m@) {
                    r matches Dispatch::Run { id, method, kind } && id == partial.id && method@ == m@
                        && kind == old(self).methods_view()[m@]
                } else {
                    r matches Dispatch::Refuse(reply) && match partial.id {
                        None => reply is None,
                        Some(i) => (reply matches Some(e) && is_error_reply(e, i, -1, "Method not found: "@ + m@)),
                    }
                },
                None => match partial.id {
                    Some(i) => if old(self).calls_view().contains_key(i) {
                        r == Dispatch::Deliver(old(self).calls_view()[i], outcome_of(partial.error))
                            && final(self).calls_view() == old(self).calls_view().remove(i)
                    } else {
                        r is Ignore && final(self).calls_view() == old(self).calls_view()
                    },
                    None => r is Ignore && final(self).calls_view() == old(self).calls_view(),
                },
            },
    {
        let PartialIncoming { id, method, error } = partial;
        match method {
            Some(m) => {
                proof { lemma_method_lookup(self.methods@, m@); }
                match find_method(&self.methods, m.as_str()) {
                    Some(i) => {
                        let kind = self.methods[i].1;
                        Dispatch::Run { id, method: m, kind }
                    },
                    None => match id {
                        Some(i) => Dispatch::Refuse(Some(ErrorResponse {
                            id: i,
                            error: ResponseError { code: -1, message: concat2("Method not found: ", m.as_str()) },
                        })),
                        None => Dispatch::Refuse(None),
                    },
                }
            },
            None => match self.calls.route_response(id, error) {
                Some((slot, outcome)) => Dispatch::Deliver(slot, outcome),
                None => Dispatch::Ignore,
            },
        }
    }
}

/// Hands out request ids: 1, 2, 3 and on, wrapping past the largest `u32`.
pub struct MessageIdCounter {
    next: u32,
}

impl View for MessageIdCounter {
    type V = u32;

    closed spec fn view(&self) -> u32 {
        self.next
    }
}

impl MessageIdCounter {
    pub fn new() -> (c: MessageIdCounter)
        ensures
            c@ == 1,
    {
        MessageIdCounter { next: 1 }
    }

    /// The next request id.
    pub fn next_message_id(&mut self) -> (id: u32)
        ensures
            id == old(self)@,
            final(self)@ == (if old(self)@ == u32::MAX { 0 } else { old(self)@ + 1 }),
    {
        let id = self.next;
        self.next = if self.next == u32::MAX { 0 } else { self.next + 1 };
        id
    }
}

/// A response settles its call once: routed a second time, the same
/// response finds no call waiting and is dropped, and the table stays as
/// the first routing left it.
pub proof fn lemma_response_settles_once<T>(calls: Map<u32, T>, id: u32, error: Option<ResponseError>, again: Option<ResponseError>)
    ensures
        route_spec(route_spec(calls, Some(id), error).1, Some(id), again).0 is None,
        route_spec(route_spec(calls, Some(id), error).1, Some(id), again).1 == route_spec(calls, Some(id), error).1,
{
    if calls.contains_key(id) {
        assert(!calls.remove(id).contains_key(id));
    }
}

} // verus!
