//! The terminal service's sessions and the decisions it takes on each
//! request. Spawning, writing to and killing processes happen outside; the
//! service validates requests, tracks each session's lifecycle state and
//! size, and reports statuses.
use vstd::prelude::*;
use crate::json::{field_of, json_field, JsonValue};
use crate::keyed::{distinct_keys, lemma_rows_dom, lemma_rows_push, lemma_rows_remove, lemma_rows_update, lemma_rows_value, rows_map};
use crate::numfmt::{decimal, to_decimal};
use crate::observability::{is_white, is_white_char};
use crate::service_registry::{service_name, ServiceError, ServiceId};
use crate::text::{chars_of, concat2, owned, str_eq};

verus! {

/// Environment variable that turns shell integration on.
pub const SHELL_INTEGRATION_ENV: &'static str = "VSCODE_SHELL_INTEGRATION";

/// Where a terminal session is in its life.
#[derive(Debug, Clone, Copy, PartialEq, Eq, Structural)]
pub enum TerminalLifecycleState {
    Created,
    Launching,
    Running,
    Exited,
    Reconnected,
    Disposed,
}

/// Whether a session in this state takes input and follows resizes.
pub open spec fn is_live_state(s: TerminalLifecycleState) -> bool {
    match s {
        TerminalLifecycleState::Created | TerminalLifecycleState::Launching | TerminalLifecycleState::Running
        | TerminalLifecycleState::Reconnected => true,
        _ => false,
    }
}

fn is_live(s: TerminalLifecycleState) -> (r: bool)
    ensures
        r == is_live_state(s),
{
    match s {
        TerminalLifecycleState::Created | TerminalLifecycleState::Launching | TerminalLifecycleState::Running
        | TerminalLifecycleState::Reconnected => true,
        _ => false,
    }
}

/// Columns and rows of a terminal.
#[derive(Debug, Clone, Copy, PartialEq, Eq, Structural)]
pub struct TerminalSize {
    pub cols: u16,
    pub rows: u16,
}

/// A request to start a terminal.
#[derive(Debug, Clone, PartialEq, Eq)]
pub struct SpawnTerminalRequest {
    pub id: Option<String>,
    pub command: String,
    pub args: Vec<String>,
    pub cwd: Option<String>,
    /// Environment variables, each name once.
    pub env: Vec<(String, String)>,
    pub cols: Option<u16>,
    pub rows: Option<u16>,
}

#[derive(Debug, Clone, PartialEq, Eq)]
pub struct ResizeTerminalRequest {
    pub id: String,
    pub cols: u16,
    pub rows: u16,
}

#[derive(Debug, Clone, PartialEq, Eq)]
pub struct KillTerminalRequest {
    pub id: String,
}

#[derive(Debug, Clone, PartialEq, Eq)]
pub struct WriteTerminalRequest {
    pub id: String,
    pub data: String,
}

/// What the service reports of a session.
#[derive(Debug, Clone, PartialEq, Eq)]
pub struct TerminalStatus {
    pub id: String,
    pub state: TerminalLifecycleState,
    pub size: Option<TerminalSize>,
}

/// Output of a session.
#[derive(Debug, Clone, Copy, PartialEq, Eq, Structural)]
pub enum TerminalStreamKind {
    Stdout,
    Stderr,
}

#[derive(Debug, Clone, PartialEq, Eq)]
pub struct TerminalStreamEvent {
    pub id: String,
    pub stream: TerminalStreamKind,
    pub data: String,
}

/// A session's status as sent to lifecycle listeners.
#[derive(Debug, Clone, PartialEq, Eq)]
pub struct TerminalLifecycleEvent {
    pub id: String,
    pub state: TerminalLifecycleState,
    pub size: Option<TerminalSize>,
}

impl TerminalLifecycleEvent {
    /// The lifecycle event that reports a status.
    pub fn from_status(status: TerminalStatus) -> (e: TerminalLifecycleEvent)
        ensures
            e.id == status.id,
            e.state == status.state,
            e.size == status.size,
    {
        TerminalLifecycleEvent { id: status.id, state: status.state, size: status.size }
    }
}

/// What the process backend is asked to start.
#[derive(Debug, Clone, PartialEq, Eq)]
pub struct BackendSpawnRequest {
    pub id: String,
    pub command: String,
    pub args: Vec<String>,
    pub cwd: Option<String>,
    pub env: Vec<(String, String)>,
    pub size: Option<TerminalSize>,
}

/// Why a terminal request failed.
#[derive(Debug, Clone, PartialEq, Eq)]
pub struct TerminalServiceError {
    pub code: &'static str,
    pub message: String,
}

impl TerminalServiceError {
    /// A failure of the process backend.
    pub fn backend(message: String) -> (e: TerminalServiceError)
        ensures
            e.code@ == "terminal.backend"@,
            e.message == message,
    {
        TerminalServiceError { code: "terminal.backend", message }
    }

    /// No session has this id.
    pub fn missing(id: &str) -> (e: TerminalServiceError)
        ensures
            e.code@ == "terminal.missing"@,
            e.message@ == "terminal not found: "@ + id@,
    {
        TerminalServiceError { code: "terminal.missing", message: concat2("terminal not found: ", id) }
    }

    /// The request is malformed.
    pub fn invalid(message: &str) -> (e: TerminalServiceError)
        ensures
            e.code@ == "terminal.invalidRequest"@,
            e.message@ == message@,
    {
        TerminalServiceError { code: "terminal.invalidRequest", message: owned(message) }
    }

    /// A session with this id exists already.
    pub fn already_exists(id: &str) -> (e: TerminalServiceError)
        ensures
            e.code@ == "terminal.exists"@,
            e.message@ == "terminal already exists: "@ + id@,
    {
        TerminalServiceError { code: "terminal.exists", message: concat2("terminal already exists: ", id) }
    }

    /// The same error as a service error.
    pub fn into_service_error(self) -> (e: ServiceError)
        ensures
            e.code == self.code,
            e.message == self.message,
    {
        ServiceError { code: self.code, message: self.message }
    }
}

/// Whether a command is blank: empty or white space only.
pub open spec fn is_blank(s: Seq<char>) -> bool {
    forall|i: int| 0 <= i < s.len() ==> is_white(#[trigger] s[i])
}

fn blank(s: &str) -> (r: bool)
    ensures
        r == is_blank(s@),
{
    let cs = chars_of(s);
    let mut i: usize = 0;
    while i < cs.len()
        invariant
            cs@ == s@,
            i <= cs@.len(),
            forall|j: int| 0 <= j < i ==> is_white(#[trigger] s@[j]),
        decreases cs@.len() - i,
    {
        if !is_white_char(cs[i]) {
            return false;
        }
        i = i + 1;
    }
    true
}

/// A terminal needs a command that is not blank.
pub fn validate_command(command: &str) -> (r: Result<(), TerminalServiceError>)
    ensures
        is_blank(command@) ==> (r matches Err(e) && e.code@ == "terminal.invalidRequest"@
            && e.message@ == "terminal command is required"@),
        !is_blank(command@) ==> r is Ok,
{
    if blank(command) {
        Err(TerminalServiceError::invalid("terminal command is required"))
    } else {
        Ok(())
    }
}

/// A terminal size needs at least one column and one row.
pub fn validate_size(size: TerminalSize) -> (r: Result<TerminalSize, TerminalServiceError>)
    ensures
        (size.cols == 0 || size.rows == 0) ==> (r matches Err(e) && e.code@ == "terminal.invalidRequest"@
            && e.message@ == "terminal size cols and rows must be greater than zero"@),
        !(size.cols == 0 || size.rows == 0) ==> r == Ok::<TerminalSize, TerminalServiceError>(size),
{
    if size.cols == 0 || size.rows == 0 {
        Err(TerminalServiceError::invalid("terminal size cols and rows must be greater than zero"))
    } else {
        Ok(size)
    }
}

pub open spec fn env_pairs(v: Seq<(String, String)>) -> Seq<(Seq<char>, Seq<char>)> {
    v.map_values(|e: (String, String)| (e.0@, e.1@))
}

/// `env` without the variables named `name`.
pub open spec fn without_name(env: Seq<(Seq<char>, Seq<char>)>, name: Seq<char>) -> Seq<(Seq<char>, Seq<char>)>
    decreases env.len(),
{
    if env.len() == 0 {
        env
    } else {
        let r = without_name(env.drop_last(), name);
        if env.last().0 == name { r } else { r.push(env.last()) }
    }
}

/// The environment a terminal runs with: the requested one with shell
/// integration turned on.
pub open spec fn with_shell_integration(env: Seq<(Seq<char>, Seq<char>)>) -> Seq<(Seq<char>, Seq<char>)> {
    without_name(env, SHELL_INTEGRATION_ENV@).push((SHELL_INTEGRATION_ENV@, "1"@))
}

fn set_shell_integration(env: Vec<(String, String)>) -> (out: Vec<(String, String)>)
    ensures
        env_pairs(out@) == with_shell_integration(env_pairs(env@)),
{
    let ghost orig = env_pairs(env@);
    let mut out: Vec<(String, String)> = Vec::new();
    let mut i: usize = 0;
    while i < env.len()
        invariant
            orig == env_pairs(env@),
            i <= env@.len(),
            env_pairs(out@) == without_name(orig.take(i as int), SHELL_INTEGRATION_ENV@),
        decreases env@.len() - i,
    {
        proof { assert(orig.take(i + 1).drop_last() =~= orig.take(i as int)); }
        let e = &env[i];
        if !str_eq(e.0.as_str(), SHELL_INTEGRATION_ENV) {
            let ghost before = out@;
            out.push((owned(e.0.as_str()), owned(e.1.as_str())));
            proof {
                assert(out@.drop_last() =~= before);
                assert(env_pairs(out@) =~= env_pairs(before).push(orig[i as int]));
            }
        }
        i = i + 1;
    }
    proof { assert(orig.take(env@.len() as int) =~= orig); }
    let ghost before = out@;
    out.push((owned(SHELL_INTEGRATION_ENV), owned("1")));
    proof {
        assert(out@.drop_last() =~= before);
        assert(env_pairs(out@) =~= env_pairs(before).push((SHELL_INTEGRATION_ENV@, "1"@)));
    }
    out
}

/// A session's state and size.
pub type SessionView = (TerminalLifecycleState, Option<TerminalSize>);

/// The terminal sessions by id, and the number for the next generated id.
pub struct TerminalTable {
    pub sessions: Map<Seq<char>, SessionView>,
    pub next_id: u64,
}

/// The id generated for a terminal that brings none.
pub open spec fn generated_terminal_id(n: u64) -> Seq<char> {
    "terminal-"@ + decimal(n as nat)
}

/// The size a spawn request asks for: none, or both dimensions (each at
/// least one); any other combination is refused with this message.
pub open spec fn requested_size(cols: Option<u16>, rows: Option<u16>) -> Result<Option<TerminalSize>, Seq<char>> {
    match (cols, rows) {
        (Some(c), Some(r)) => if c == 0 || r == 0 {
            Err("terminal size cols and rows must be greater than zero"@)
        } else {
            Ok(Some(TerminalSize { cols: c, rows: r }))
        },
        (None, None) => Ok(None),
        _ => Err("terminal size requires both cols and rows"@),
    }
}

/// Whether a status reports session `id` of the table.
pub open spec fn reports_session(status: TerminalStatus, t: TerminalTable, id: Seq<char>) -> bool {
    t.sessions.contains_key(id) && status.id@ == id && status.state == t.sessions[id].0
        && status.size == t.sessions[id].1
}

/// The error for a session that does not exist.
pub open spec fn is_missing_error(e: TerminalServiceError, id: Seq<char>) -> bool {
    e.code@ == "terminal.missing"@ && e.message@ == "terminal not found: "@ + id
}

struct SessionRow {
    id: String,
    state: TerminalLifecycleState,
    size: Option<TerminalSize>,
}

spec fn session_rows(s: Seq<SessionRow>) -> Seq<(Seq<char>, SessionView)> {
    s.map_values(|r: SessionRow| (r.id@, (r.state, r.size)))
}

/// The terminal sessions the service tracks.
pub struct RustTerminalService {
    sessions: Vec<SessionRow>,
    next_id: u64,
}

impl View for RustTerminalService {
    type V = TerminalTable;

    closed spec fn view(&self) -> TerminalTable {
        TerminalTable { sessions: rows_map(session_rows(self.sessions@)), next_id: self.next_id }
    }
}

impl RustTerminalService {
    /// No two sessions share an id.
    pub closed spec fn wf(&self) -> bool {
        distinct_keys(session_rows(self.sessions@))
    }

    /// A service with no sessions.
    pub fn new() -> (s: RustTerminalService)
        ensures
            s.wf(),
            s@.sessions == Map::<Seq<char>, SessionView>::empty(),
            s@.next_id == 1,
    {
        let s = RustTerminalService { sessions: Vec::new(), next_id: 1 };
        proof { assert(session_rows(s.sessions@) =~= Seq::<(Seq<char>, SessionView)>::empty()); }
        s
    }

    fn find(&self, id: &str) -> (r: Option<usize>)
        requires
            self.wf(),
        ensures
            match r {
                Some(i) => i < self.sessions@.len() && session_rows(self.sessions@)[i as int].0 == id@
                    && self@.sessions.contains_key(id@)
                    && self@.sessions[id@] == session_rows(self.sessions@)[i as int].1,
                None => !self@.sessions.contains_key(id@),
            },
    {
        let mut i: usize = 0;
        while i < self.sessions.len()
            invariant
                self.wf(),
                i <= self.sessions@.len(),
                forall|j: int| 0 <= j < i ==> (#[trigger] session_rows(self.sessions@)[j]).0 != id@,
            decreases self.sessions@.len() - i,
        {
            if str_eq(self.sessions[i].id.as_str(), id) {
                proof { lemma_rows_value(session_rows(self.sessions@), i as int); }
                return Some(i);
            }
            i = i + 1;
        }
        proof { lemma_rows_dom(session_rows(self.sessions@), id@); }
        None
    }

    fn status_at(&self, i: usize) -> (s: TerminalStatus)
        requires
            i < self.sessions@.len(),
        ensures
            s.id@ == self.sessions@[i as int].id@,
            s.state == self.sessions@[i as int].state,
            s.size == self.sessions@[i as int].size,
    {
        let r = &self.sessions[i];
        TerminalStatus { id: owned(r.id.as_str()), state: r.state, size: r.size }
    }

    /// The id a new terminal gets: its own, or else a generated one.
    pub fn resolve_terminal_id(&mut self, id: Option<String>) -> (r: String)
        ensures
            final(self).wf() == old(self).wf(),
            final(self)@.sessions == old(self)@.sessions,
            match id {
                Some(given) => r == given && final(self)@.next_id == old(self)@.next_id,
                None => r@ == generated_terminal_id(old(self)@.next_id)
                    && final(self)@.next_id == old(self)@.next_id.wrapping_add(1),
            },
    {
        match id {
            Some(given) => given,
            None => {
                let n = self.next_id;
                self.next_id = n.wrapping_add(1);
                let digits = to_decimal(n);
                concat2("terminal-", digits.as_str())
            },
        }
    }

    /// Checks a spawn request and says what to ask the backend for: the
    /// command must not be blank, the id must be free, and the size must
    /// give both dimensions or neither. The environment gets shell
    /// integration turned on.
    pub fn plan_spawn(&mut self, request: SpawnTerminalRequest) -> (r: Result<BackendSpawnRequest, TerminalServiceError>)
        requires
            old(self).wf(),
        ensures
            final(self).wf(),
            final(self)@.sessions == old(self)@.sessions,
            final(self)@.next_id == match request.id {
                Some(_) => old(self)@.next_id,
                None => old(self)@.next_id.wrapping_add(1),
            },
            ({
                let id = match request.id {
                    Some(given) => given@,
                    None => generated_terminal_id(old(self)@.next_id),
                };
                if is_blank(request.command@) {
                    r matches Err(e) && e.code@ == "terminal.invalidRequest"@ && e.message@ == "terminal command is required"@
                } else if old(self)@.sessions.contains_key(id) {
                    r matches Err(e) && e.code@ == "terminal.exists"@ && e.message@ == "terminal already exists: "@ + id
                } else {
                    match requested_size(request.cols, request.rows) {
                        Err(m) => r matches Err(e) && e.code@ == "terminal.invalidRequest"@ && e.message@ == m,
                        Ok(size) => r matches Ok(b) && b.id@ == id && b.command == request.command
                            && b.args == request.args && b.cwd == request.cwd && b.size == size
                            && env_pairs(b.env@) == with_shell_integration(env_pairs(request.env@)),
                    }
                }
            }),
    {
        let id = self.resolve_terminal_id(request.id);
        match validate_command(request.command.as_str()) {
            Err(e) => return Err(e),
            Ok(()) => {},
        }
        match self.find(id.as_str()) {
            Some(_) => return Err(TerminalServiceError::already_exists(id.as_str())),
            None => {},
        }
        let env = set_shell_integration(request.env);
        let size = match (request.cols, request.rows) {
            (Some(cols), Some(rows)) => match validate_size(TerminalSize { cols, rows }) {
                Ok(s) => Some(s),
                Err(e) => return Err(e),
            },
            (None, None) => None,
            _ => return Err(TerminalServiceError::invalid("terminal size requires both cols and rows")),
        };
        Ok(BackendSpawnRequest { id, command: request.command, args: request.args, cwd: request.cwd, env, size })
    }

    /// Registers a terminal the backend started, running. Refused, with the
    /// table unchanged, when the id was taken meanwhile.
    pub fn complete_spawn(&mut self, id: &str, size: Option<TerminalSize>) -> (r: Result<TerminalStatus, TerminalServiceError>)
        requires
            old(self).wf(),
        ensures
            final(self).wf(),
            final(self)@.next_id == old(self)@.next_id,
            old(self)@.sessions.contains_key(id@) ==> final(self)@ == old(self)@
                && (r matches Err(e) && e.code@ == "terminal.exists"@ && e.message@ == "terminal already exists: "@ + id@),
            !old(self)@.sessions.contains_key(id@) ==> final(self)@.sessions
                == old(self)@.sessions.insert(id@, (TerminalLifecycleState::Running, size))
                && (r matches Ok(st) && reports_session(st, final(self)@, id@)),
    {
        match self.find(id) {
            Some(_) => Err(TerminalServiceError::already_exists(id)),
            None => {
                let ghost rows = session_rows(self.sessions@);
                self.sessions.push(SessionRow { id: owned(id), state: TerminalLifecycleState::Running, size });
                proof {
                    assert(session_rows(self.sessions@) =~= rows.push((id@, (TerminalLifecycleState::Running, size))));
                    lemma_rows_push(rows, (id@, (TerminalLifecycleState::Running, size)));
                }
                Ok(TerminalStatus { id: owned(id), state: TerminalLifecycleState::Running, size })
            },
        }
    }

    /// The status of session `id`.
    pub fn status(&self, id: &str) -> (r: Result<TerminalStatus, TerminalServiceError>)
        requires
            self.wf(),
        ensures
            self@.sessions.contains_key(id@) ==> (r matches Ok(st) && reports_session(st, self@, id@)),
            !self@.sessions.contains_key(id@) ==> (r matches Err(e) && is_missing_error(e, id@)),
    {
        match self.find(id) {
            Some(i) => Ok(self.status_at(i)),
            None => Err(TerminalServiceError::missing(id)),
        }
    }

    fn set_row(&mut self, i: usize, state: TerminalLifecycleState, size: Option<TerminalSize>)
        requires
            old(self).wf(),
            i < old(self).sessions@.len(),
        ensures
            final(self).wf(),
            final(self)@.next_id == old(self)@.next_id,
            final(self)@.sessions == old(self)@.sessions.insert(session_rows(old(self).sessions@)[i as int].0, (state, size)),
            final(self).sessions@.len() == old(self).sessions@.len(),
            final(self).sessions@[i as int].id@ == old(self).sessions@[i as int].id@,
            final(self).sessions@[i as int].state == state,
            final(self).sessions@[i as int].size == size,
    {
        let ghost rows = session_rows(self.sessions@);
        let id = owned(self.sessions[i].id.as_str());
        self.sessions.set(i, SessionRow { id, state, size });
        proof {
            assert(session_rows(self.sessions@) =~= rows.update(i as int, (rows[i as int].0, (state, size))));
            lemma_rows_update(rows, i as int, (state, size));
        }
    }

    /// Checks a resize: the size must have a column and a row, and the
    /// session must exist. Says the size and whether the backend is to be
    /// resized too (only a live session is).
    pub fn plan_resize(&self, request: &ResizeTerminalRequest) -> (r: Result<(TerminalSize, bool), TerminalServiceError>)
        requires
            self.wf(),
        ensures
            (request.cols == 0 || request.rows == 0) ==> (r matches Err(e) && e.code@ == "terminal.invalidRequest"@
                && e.message@ == "terminal size cols and rows must be greater than zero"@),
            !(request.cols == 0 || request.rows == 0) && !self@.sessions.contains_key(request.id@)
                ==> (r matches Err(e) && is_missing_error(e, request.id@)),
            !(request.cols == 0 || request.rows == 0) && self@.sessions.contains_key(request.id@)
                ==> r == Ok::<(TerminalSize, bool), TerminalServiceError>((
                    TerminalSize { cols: request.cols, rows: request.rows },
                    is_live_state(self@.sessions[request.id@].0),
                )),
    {
        let size = match validate_size(TerminalSize { cols: request.cols, rows: request.rows }) {
            Ok(s) => s,
            Err(e) => return Err(e),
        };
        match self.find(request.id.as_str()) {
            Some(i) => Ok((size, is_live(self.sessions[i].state))),
            None => Err(TerminalServiceError::missing(request.id.as_str())),
        }
    }

    /// Records a session's new size; the status is what lifecycle listeners
    /// are sent.
    pub fn commit_resize(&mut self, id: &str, size: TerminalSize) -> (r: Result<TerminalStatus, TerminalServiceError>)
        requires
            old(self).wf(),
        ensures
            final(self).wf(),
            final(self)@.next_id == old(self)@.next_id,
            old(self)@.sessions.contains_key(id@) ==> final(self)@.sessions
                == old(self)@.sessions.insert(id@, (old(self)@.sessions[id@].0, Some(size)))
                && (r matches Ok(st) && reports_session(st, final(self)@, id@)),
            !old(self)@.sessions.contains_key(id@) ==> final(self)@ == old(self)@
                && (r matches Err(e) && is_missing_error(e, id@)),
    {
        match self.find(id) {
            Some(i) => {
                let state = self.sessions[i].state;
                self.set_row(i, state, Some(size));
                proof { lemma_rows_value(session_rows(self.sessions@), i as int); }
                Ok(self.status_at(i))
            },
            None => Err(TerminalServiceError::missing(id)),
        }
    }

    fn set_state(&mut self, id: &str, state: TerminalLifecycleState) -> (r: Result<TerminalStatus, TerminalServiceError>)
        requires
            old(self).wf(),
        ensures
            final(self).wf(),
            final(self)@.next_id == old(self)@.next_id,
            old(self)@.sessions.contains_key(id@) ==> final(self)@.sessions
                == old(self)@.sessions.insert(id@, (state, old(self)@.sessions[id@].1))
                && (r matches Ok(st) && reports_session(st, final(self)@, id@)),
            !old(self)@.sessions.contains_key(id@) ==> final(self)@ == old(self)@
                && (r matches Err(e) && is_missing_error(e, id@)),
    {
        match self.find(id) {
            Some(i) => {
                let size = self.sessions[i].size;
                self.set_row(i, state, size);
                proof { lemma_rows_value(session_rows(self.sessions@), i as int); }
                Ok(self.status_at(i))
            },
            None => Err(TerminalServiceError::missing(id)),
        }
    }

    /// Records that a session's process was killed: it has exited.
    pub fn mark_exited(&mut self, id: &str) -> (r: Result<TerminalStatus, TerminalServiceError>)
        requires
            old(self).wf(),
        ensures
            final(self).wf(),
            final(self)@.next_id == old(self)@.next_id,
            old(self)@.sessions.contains_key(id@) ==> final(self)@.sessions
                == old(self)@.sessions.insert(id@, (TerminalLifecycleState::Exited, old(self)@.sessions[id@].1))
                && (r matches Ok(st) && reports_session(st, final(self)@, id@)),
            !old(self)@.sessions.contains_key(id@) ==> final(self)@ == old(self)@
                && (r matches Err(e) && is_missing_error(e, id@)),
    {
        self.set_state(id, TerminalLifecycleState::Exited)
    }

    /// Reattaches to a session: it is reconnected.
    pub fn reconnect(&mut self, id: &str) -> (r: Result<TerminalStatus, TerminalServiceError>)
        requires
            old(self).wf(),
        ensures
            final(self).wf(),
            final(self)@.next_id == old(self)@.next_id,
            old(self)@.sessions.contains_key(id@) ==> final(self)@.sessions
                == old(self)@.sessions.insert(id@, (TerminalLifecycleState::Reconnected, old(self)@.sessions[id@].1))
                && (r matches Ok(st) && reports_session(st, final(self)@, id@)),
            !old(self)@.sessions.contains_key(id@) ==> final(self)@ == old(self)@
                && (r matches Err(e) && is_missing_error(e, id@)),
    {
        self.set_state(id, TerminalLifecycleState::Reconnected)
    }

    /// Checks that a session takes input: it must exist and be live.
    pub fn check_write(&self, request: &WriteTerminalRequest) -> (r: Result<TerminalStatus, TerminalServiceError>)
        requires
            self.wf(),
        ensures
            !self@.sessions.contains_key(request.id@) ==> (r matches Err(e) && is_missing_error(e, request.id@)),
            self@.sessions.contains_key(request.id@) && !is_live_state(self@.sessions[request.id@].0)
                ==> (r matches Err(e) && e.code@ == "terminal.invalidRequest"@
                    && e.message@ == "terminal is not accepting input: "@ + request.id@),
            self@.sessions.contains_key(request.id@) && is_live_state(self@.sessions[request.id@].0)
                ==> (r matches Ok(st) && reports_session(st, self@, request.id@)),
    {
        match self.find(request.id.as_str()) {
            Some(i) => {
                if !is_live(self.sessions[i].state) {
                    let message = concat2("terminal is not accepting input: ", request.id.as_str());
                    return Err(TerminalServiceError { code: "terminal.invalidRequest", message });
                }
                Ok(self.status_at(i))
            },
            None => Err(TerminalServiceError::missing(request.id.as_str())),
        }
    }

    /// Removes a session; its last status says it is disposed.
    pub fn dispose(&mut self, id: &str) -> (r: Result<TerminalStatus, TerminalServiceError>)
        requires
            old(self).wf(),
        ensures
            final(self).wf(),
            final(self)@.next_id == old(self)@.next_id,
            old(self)@.sessions.contains_key(id@) ==> final(self)@.sessions == old(self)@.sessions.remove(id@)
                && (r matches Ok(st) && st.id@ == id@ && st.state == TerminalLifecycleState::Disposed
                    && st.size == old(self)@.sessions[id@].1),
            !old(self)@.sessions.contains_key(id@) ==> final(self)@ == old(self)@
                && (r matches Err(e) && is_missing_error(e, id@)),
    {
        match self.find(id) {
            Some(i) => {
                let size = self.sessions[i].size;
                let ghost rows = session_rows(self.sessions@);
                self.sessions.remove(i);
                proof {
                    assert(session_rows(self.sessions@) =~= rows.remove(i as int));
                    lemma_rows_remove(rows, i as int);
                }
                Ok(TerminalStatus { id: owned(id), state: TerminalLifecycleState::Disposed, size })
            },
            None => Err(TerminalServiceError::missing(id)),
        }
    }
}

/// A command of the terminal service.
#[derive(Debug, Clone, Copy, PartialEq, Eq, Structural)]
pub enum TerminalCommand {
    Spawn,
    Resize,
    Write,
    Kill,
    Reconnect,
    Dispose,
    DrainEvents,
    Status,
}

pub open spec fn parse_terminal_command(s: Seq<char>) -> Option<TerminalCommand> {
    if s == "spawn"@ {
        Some(TerminalCommand::Spawn)
    } else if s == "resize"@ {
        Some(TerminalCommand::Resize)
    } else if s == "write"@ {
        Some(TerminalCommand::Write)
    } else if s == "kill"@ {
        Some(TerminalCommand::Kill)
    } else if s == "reconnect"@ {
        Some(TerminalCommand::Reconnect)
    } else if s == "dispose"@ {
        Some(TerminalCommand::Dispose)
    } else if s == "drainEvents"@ {
        Some(TerminalCommand::DrainEvents)
    } else if s == "status"@ {
        Some(TerminalCommand::Status)
    } else {
        None
    }
}

impl TerminalCommand {
    /// The command named `command`; any other name is refused as a command
    /// the terminal service does not implement.
    pub fn parse(command: &str) -> (r: Result<TerminalCommand, ServiceError>)
        ensures
            match parse_terminal_command(command@) {
                Some(c) => r == Ok::<TerminalCommand, ServiceError>(c),
                None => r matches Err(e) && e.code@ == "service.unsupportedCommand"@
                    && e.message@ == service_name(ServiceId::Terminal) + " does not implement command: "@ + command@,
            },
    {
        if str_eq(command, "spawn") {
            Ok(TerminalCommand::Spawn)
        } else if str_eq(command, "resize") {
            Ok(TerminalCommand::Resize)
        } else if str_eq(command, "write") {
            Ok(TerminalCommand::Write)
        } else if str_eq(command, "kill") {
            Ok(TerminalCommand::Kill)
        } else if str_eq(command, "reconnect") {
            Ok(TerminalCommand::Reconnect)
        } else if str_eq(command, "dispose") {
            Ok(TerminalCommand::Dispose)
        } else if str_eq(command, "drainEvents") {
            Ok(TerminalCommand::DrainEvents)
        } else if str_eq(command, "status") {
            Ok(TerminalCommand::Status)
        } else {
            Err(ServiceError::unsupported(ServiceId::Terminal, command))
        }
    }
}

/// What a terminal listener listens to.
#[derive(Debug, Clone, Copy, PartialEq, Eq, Structural)]
pub enum TerminalListen {
    /// Output, of one stream or (with `None`) of both.
    Stream(Option<TerminalStreamKind>),
    Lifecycle,
}

pub open spec fn parse_terminal_listen(s: Seq<char>) -> Option<TerminalListen> {
    if s == "stdout"@ {
        Some(TerminalListen::Stream(Some(TerminalStreamKind::Stdout)))
    } else if s == "stderr"@ {
        Some(TerminalListen::Stream(Some(TerminalStreamKind::Stderr)))
    } else if s == "stream"@ {
        Some(TerminalListen::Stream(None))
    } else if s == "lifecycle"@ {
        Some(TerminalListen::Lifecycle)
    } else {
        None
    }
}

impl TerminalListen {
    /// The listener named by `event`; any other name is refused.
    pub fn parse(event: &str) -> (r: Result<TerminalListen, ServiceError>)
        ensures
            match parse_terminal_listen(event@) {
                Some(l) => r == Ok::<TerminalListen, ServiceError>(l),
                None => r matches Err(e) && e.code@ == "service.unsupportedListen"@
                    && e.message@ == service_name(ServiceId::Terminal) + " does not implement event: "@ + event@,
            },
    {
        if str_eq(event, "stdout") {
            Ok(TerminalListen::Stream(Some(TerminalStreamKind::Stdout)))
        } else if str_eq(event, "stderr") {
            Ok(TerminalListen::Stream(Some(TerminalStreamKind::Stderr)))
        } else if str_eq(event, "stream") {
            Ok(TerminalListen::Stream(None))
        } else if str_eq(event, "lifecycle") {
            Ok(TerminalListen::Lifecycle)
        } else {
            Err(ServiceError::unsupported_listen(ServiceId::Terminal, event))
        }
    }
}

/// Whether an output event of stream `kind` goes to a listener with this
/// filter.
pub fn stream_matches(filter: Option<TerminalStreamKind>, kind: TerminalStreamKind) -> (r: bool)
    ensures
        r == match filter {
            Some(f) => f == kind,
            None => true,
        },
{
    match filter {
        Some(f) => f == kind,
        None => true,
    }
}

/// The first argument of a call, which carries its payload.
pub fn first_arg<'a>(command: &str, args: &'a Vec<JsonValue>) -> (r: Result<&'a JsonValue, TerminalServiceError>)
    ensures
        args@.len() > 0 ==> (r matches Ok(v) && *v == args@[0]),
        args@.len() == 0 ==> (r matches Err(e) && e.code@ == "terminal.invalidRequest"@
            && e.message@ == command@ + " requires one argument"@),
{
    if args.len() == 0 {
        let message = concat2(command, " requires one argument");
        Err(TerminalServiceError { code: "terminal.invalidRequest", message })
    } else {
        Ok(&args[0])
    }
}

/// The error for a payload that does not decode.
pub fn invalid_payload(command: &str, error: &str) -> (e: TerminalServiceError)
    ensures
        e.code@ == "terminal.invalidRequest"@,
        e.message@ == "invalid "@ + command@ + " payload: "@ + error@,
{
    let mut message = concat2("invalid ", command);
    crate::text::push_str(&mut message, " payload: ");
    crate::text::push_str(&mut message, error);
    TerminalServiceError { code: "terminal.invalidRequest", message }
}

/// The terminal id a call names: its first argument, a string.
pub fn required_id(command: &str, args: &Vec<JsonValue>) -> (r: Result<String, TerminalServiceError>)
    ensures
        (args@.len() > 0 && args@[0] is String) ==> (r matches Ok(id) && id@ == args@[0]->String_0@),
        !(args@.len() > 0 && args@[0] is String) ==> (r matches Err(e) && e.code@ == "terminal.invalidRequest"@
            && e.message@ == command@ + " requires terminal id"@),
{
    if args.len() > 0 {
        match &args[0] {
            JsonValue::String(s) => return Ok(owned(s.as_str())),
            _ => {},
        }
    }
    let message = concat2(command, " requires terminal id");
    Err(TerminalServiceError { code: "terminal.invalidRequest", message })
}

/// The terminal id a listen request names: its first argument, either a
/// string or an object whose `id` entry is a string.
pub open spec fn listen_id_of(args: Seq<JsonValue>) -> Option<Seq<char>> {
    if args.len() == 0 {
        None
    } else {
        match args[0] {
            JsonValue::String(s) => Some(s@),
            _ => match field_of(args[0], "id"@) {
                Some(JsonValue::String(s)) => Some(s@),
                _ => None,
            },
        }
    }
}

pub fn listen_id(event: &str, args: &Vec<JsonValue>) -> (r: Result<String, TerminalServiceError>)
    ensures
        match listen_id_of(args@) {
            Some(id) => r matches Ok(got) && got@ == id,
            None => r matches Err(e) && e.code@ == "terminal.invalidRequest"@
                && e.message@ == event@ + " requires terminal id"@,
        },
{
    if args.len() > 0 {
        match &args[0] {
            JsonValue::String(s) => return Ok(owned(s.as_str())),
            other => match json_field(other, "id") {
                Some(JsonValue::String(s)) => return Ok(owned(s.as_str())),
                _ => {},
            },
        }
    }
    let message = concat2(event, " requires terminal id");
    Err(TerminalServiceError { code: "terminal.invalidRequest", message })
}

/// A killed session stops taking input and following resizes, and keeps
/// its last size; reconnecting makes it live again; disposing removes it,
/// and disposing it again finds nothing.
pub proof fn lemma_session_lifecycle(t: TerminalTable, id: Seq<char>, size: Option<TerminalSize>)
    ensures
        ({
            let running = t.sessions.insert(id, (TerminalLifecycleState::Running, size));
            let exited = running.insert(id, (TerminalLifecycleState::Exited, running[id].1));
            let reconnected = exited.insert(id, (TerminalLifecycleState::Reconnected, exited[id].1));
            let disposed = reconnected.remove(id);
            &&& is_live_state(running[id].0)
            &&& !is_live_state(exited[id].0) && exited[id].1 == size
            &&& is_live_state(reconnected[id].0) && reconnected[id].1 == size
            &&& !disposed.contains_key(id)
            &&& disposed.remove(id) == disposed
        }),
{
    let running = t.sessions.insert(id, (TerminalLifecycleState::Running, size));
    let exited = running.insert(id, (TerminalLifecycleState::Exited, running[id].1));
    let reconnected = exited.insert(id, (TerminalLifecycleState::Reconnected, exited[id].1));
    let disposed = reconnected.remove(id);
    assert(disposed.remove(id) =~= disposed);
}

/// Sessions are independent: changing or removing one leaves every other
/// as it was.
pub proof fn lemma_sessions_independent(t: TerminalTable, id: Seq<char>, other: Seq<char>, v: SessionView)
    requires
        id != other,
    ensures
        t.sessions.insert(id, v).contains_key(other) == t.sessions.contains_key(other),
        t.sessions.remove(id).contains_key(other) == t.sessions.contains_key(other),
        t.sessions.contains_key(other) ==> t.sessions.insert(id, v)[other] == t.sessions[other]
            && t.sessions.remove(id)[other] == t.sessions[other],
{
}

} // verus!
