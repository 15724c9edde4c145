//! The extension host sidecar: its handshake, its spawn configuration, and
//! the lifecycle decisions of the service that runs it. Spawning, polling
//! and stopping the process happen outside; the service is told what came
//! of each and decides the next state.
use vstd::prelude::*;
use crate::contracts::{ExtHostRpcEnvelope, EXT_HOST_RPC_PROTOCOL};
use crate::numfmt::{decimal, hex_fixed, push_decimal, push_hex_fixed};
use crate::observability::{REDACTED_SECRET, SIDECAR_TOKEN_ENV_NAME};
use crate::paths::{join_spec, path_join};
use crate::service_registry::{service_name, ServiceError, ServiceId};
use crate::text::{chars_of, concat2, concat3, occurs_at, owned, push_char, push_str, str_eq};

verus! {

/// Prefix of every handshake token.
pub const HANDSHAKE_TOKEN_PREFIX: &'static str = "vscode-atomic-";
/// Environment variable that tells the sidecar where to connect.
pub const TRANSPORT_ENV: &'static str = "VSCODE_ATOMIC_EXTENSION_HOST_TRANSPORT";
/// Environment variable that overrides the node executable.
pub const NODE_EXECUTABLE_ENV: &'static str = "VSCODE_ATOMIC_EXTENSION_HOST_NODE";
/// Environment variable that overrides the extension host entry point.
pub const EXTENSION_HOST_ENTRYPOINT_ENV: &'static str = "VSCODE_ATOMIC_EXTENSION_HOST_ENTRYPOINT";
pub const VSCODE_ESM_ENTRYPOINT_ENV: &'static str = "VSCODE_ESM_ENTRYPOINT";
pub const VSCODE_ESM_EXTENSION_HOST_ENTRYPOINT: &'static str = "vs/workbench/api/node/extensionHostProcess";
pub const ELECTRON_RUN_AS_NODE_ENV: &'static str = "ELECTRON_RUN_AS_NODE";
pub const VSCODE_HANDLES_UNCAUGHT_ERRORS_ENV: &'static str = "VSCODE_HANDLES_UNCAUGHT_ERRORS";

/// Where the sidecar is in its life.
#[derive(Debug, Clone, Copy, PartialEq, Eq, Structural)]
pub enum ExtensionSidecarState {
    NotStarted,
    Starting,
    Ready,
    Crashed,
    Restarting,
    Stopped,
}

impl ExtensionSidecarState {
    /// The state's name as it appears in events.
    pub fn as_str(self) -> (r: &'static str)
        ensures
            r@ == state_name(self),
    {
        match self {
            ExtensionSidecarState::NotStarted => "NotStarted",
            ExtensionSidecarState::Starting => "Starting",
            ExtensionSidecarState::Ready => "Ready",
            ExtensionSidecarState::Crashed => "Crashed",
            ExtensionSidecarState::Restarting => "Restarting",
            ExtensionSidecarState::Stopped => "Stopped",
        }
    }
}

pub open spec fn state_name(s: ExtensionSidecarState) -> Seq<char> {
    match s {
        ExtensionSidecarState::NotStarted => "NotStarted"@,
        ExtensionSidecarState::Starting => "Starting"@,
        ExtensionSidecarState::Ready => "Ready"@,
        ExtensionSidecarState::Crashed => "Crashed"@,
        ExtensionSidecarState::Restarting => "Restarting"@,
        ExtensionSidecarState::Stopped => "Stopped"@,
    }
}

/// How the sidecar reaches back to the host.
#[derive(Debug, Clone, PartialEq, Eq)]
pub enum SidecarTransportEndpoint {
    UnixSocket { path: String },
    NamedPipe { name: String },
    Tcp { host: String, port: u16 },
}

/// A transport endpoint by its contents.
pub enum EndpointView {
    Unix(Seq<char>),
    Pipe(Seq<char>),
    Tcp(Seq<char>, u16),
}

impl View for SidecarTransportEndpoint {
    type V = EndpointView;

    open spec fn view(&self) -> EndpointView {
        match self {
            SidecarTransportEndpoint::UnixSocket { path } => EndpointView::Unix(path@),
            SidecarTransportEndpoint::NamedPipe { name } => EndpointView::Pipe(name@),
            SidecarTransportEndpoint::Tcp { host, port } => EndpointView::Tcp(host@, *port),
        }
    }
}

/// The secret the sidecar presents, and where it connects.
///
/// It has no `Debug`: a debug rendering would show the token.
#[derive(Clone, PartialEq, Eq)]
pub struct SidecarHandshake {
    pub token: String,
    pub transport: SidecarTransportEndpoint,
}

/// A handshake by its contents: token and endpoint.
pub type HandshakeView = (Seq<char>, EndpointView);

impl View for SidecarHandshake {
    type V = HandshakeView;

    open spec fn view(&self) -> HandshakeView {
        (self.token@, self.transport@)
    }
}

/// A copy of an endpoint.
pub fn copy_endpoint(e: &SidecarTransportEndpoint) -> (r: SidecarTransportEndpoint)
    ensures
        r@ == e@,
{
    match e {
        SidecarTransportEndpoint::UnixSocket { path } => SidecarTransportEndpoint::UnixSocket { path: owned(path.as_str()) },
        SidecarTransportEndpoint::NamedPipe { name } => SidecarTransportEndpoint::NamedPipe { name: owned(name.as_str()) },
        SidecarTransportEndpoint::Tcp { host, port } => SidecarTransportEndpoint::Tcp { host: owned(host.as_str()), port: *port },
    }
}

/// A copy of a handshake.
pub fn copy_handshake(h: &SidecarHandshake) -> (r: SidecarHandshake)
    ensures
        r@ == h@,
{
    SidecarHandshake { token: owned(h.token.as_str()), transport: copy_endpoint(&h.transport) }
}

/// The value of the transport environment variable for an endpoint.
pub open spec fn transport_env_spec(e: EndpointView) -> Seq<char> {
    match e {
        EndpointView::Unix(p) => "unix:"@ + p,
        EndpointView::Pipe(n) => "pipe:"@ + n,
        EndpointView::Tcp(h, port) => "tcp:"@ + h + ":"@ + decimal(port as nat),
    }
}

/// Encodes an endpoint for the sidecar's environment: `unix:<path>`,
/// `pipe:<name>` or `tcp:<host>:<port>`.
pub fn transport_env_value(transport: &SidecarTransportEndpoint) -> (r: String)
    ensures
        r@ == transport_env_spec(transport@),
{
    match transport {
        SidecarTransportEndpoint::UnixSocket { path } => concat2("unix:", path.as_str()),
        SidecarTransportEndpoint::NamedPipe { name } => concat2("pipe:", name.as_str()),
        SidecarTransportEndpoint::Tcp { host, port } => {
            let mut out = concat3("tcp:", host.as_str(), ":");
            push_decimal(&mut out, *port as u64);
            out
        },
    }
}

/// The events a sidecar listener can subscribe to.
#[derive(Debug, Clone, Copy, PartialEq, Eq, Structural)]
pub enum SidecarEventKind {
    Handshake,
    Lifecycle,
    Callback,
    Rpc,
}

pub open spec fn event_kind_name(k: SidecarEventKind) -> Seq<char> {
    match k {
        SidecarEventKind::Handshake => "handshake"@,
        SidecarEventKind::Lifecycle => "lifecycle"@,
        SidecarEventKind::Callback => "callback"@,
        SidecarEventKind::Rpc => "rpc"@,
    }
}

pub open spec fn parse_event_kind(s: Seq<char>) -> Option<SidecarEventKind> {
    if s == "handshake"@ {
        Some(SidecarEventKind::Handshake)
    } else if s == "lifecycle"@ {
        Some(SidecarEventKind::Lifecycle)
    } else if s == "callback"@ {
        Some(SidecarEventKind::Callback)
    } else if s == "rpc"@ {
        Some(SidecarEventKind::Rpc)
    } else {
        None
    }
}

/// Each event kind reads back from its name, and an unknown name reads as
/// no kind; so distinct kinds have distinct names.
pub proof fn lemma_event_kind_names(k: SidecarEventKind, other: SidecarEventKind)
    ensures
        parse_event_kind(event_kind_name(k)) == Some(k),
        event_kind_name(k) == event_kind_name(other) ==> k == other,
{
    reveal_strlit("handshake");
    reveal_strlit("lifecycle");
    reveal_strlit("callback");
    reveal_strlit("rpc");
    assert("lifecycle"@[0] != "handshake"@[0]);
    assert("callback"@[0] != "handshake"@[0] && "callback"@[0] != "lifecycle"@[0]);
    assert("rpc"@.len() != "handshake"@.len() && "rpc"@.len() != "lifecycle"@.len() && "rpc"@.len() != "callback"@.len());
    if event_kind_name(k) == event_kind_name(other) {
        assert(parse_event_kind(event_kind_name(other)) == Some(other));
    }
}

impl SidecarEventKind {
    /// The event kind named `event`; any other name is refused as an event
    /// the service does not implement.
    pub fn parse(service_id: ServiceId, event: &str) -> (r: Result<SidecarEventKind, ServiceError>)
        ensures
            match parse_event_kind(event@) {
                Some(k) => r == Ok::<SidecarEventKind, ServiceError>(k),
                None => r matches Err(e) && e.code@ == "service.unsupportedListen"@
                    && e.message@ == service_name(service_id) + " does not implement event: "@ + event@,
            },
    {
        if str_eq(event, "handshake") {
            Ok(SidecarEventKind::Handshake)
        } else if str_eq(event, "lifecycle") {
            Ok(SidecarEventKind::Lifecycle)
        } else if str_eq(event, "callback") {
            Ok(SidecarEventKind::Callback)
        } else if str_eq(event, "rpc") {
            Ok(SidecarEventKind::Rpc)
        } else {
            Err(ServiceError::unsupported_listen(service_id, event))
        }
    }

    /// The event's name.
    pub fn as_str(self) -> (r: &'static str)
        ensures
            r@ == event_kind_name(self),
    {
        match self {
            SidecarEventKind::Handshake => "handshake",
            SidecarEventKind::Lifecycle => "lifecycle",
            SidecarEventKind::Callback => "callback",
            SidecarEventKind::Rpc => "rpc",
        }
    }
}

/// Two lower-case hexadecimal digits per byte, high nibble first.
pub open spec fn hex_bytes(b: Seq<u8>) -> Seq<char>
    decreases b.len(),
{
    if b.len() == 0 {
        seq![]
    } else {
        hex_bytes(b.drop_last()) + hex_fixed(b.last() as nat, 2)
    }
}

/// Appends each byte as two lower-case hexadecimal digits.
pub fn append_lower_hex(output: &mut String, bytes: &Vec<u8>)
    ensures
        final(output)@ == old(output)@ + hex_bytes(bytes@),
{
    let mut i: usize = 0;
    while i < bytes.len()
        invariant
            i <= bytes@.len(),
            output@ == old(output)@ + hex_bytes(bytes@.take(i as int)),
        decreases bytes@.len() - i,
    {
        let ghost before = output@;
        push_hex_fixed(output, bytes[i] as u64, 2);
        proof {
            assert(bytes@.take(i + 1).drop_last() =~= bytes@.take(i as int));
            assert(output@ =~= old(output)@ + hex_bytes(bytes@.take(i + 1)));
        }
        i = i + 1;
    }
    proof { assert(bytes@.take(bytes@.len() as int) =~= bytes@); }
}

/// Fills a buffer with bytes from the operating system's random source.
///
/// Trusted wrapper around `getrandom::getrandom`: the contract claims only
/// that the buffer keeps its length; the answer is `false` when the random
/// source failed. Which bytes come back is left open.
#[verifier::external_body]
fn fill_random(buf: &mut Vec<u8>) -> (ok: bool)
    ensures
        final(buf)@.len() == old(buf)@.len(),
{
    getrandom::getrandom(buf.as_mut_slice()).is_ok()
}

fn zero_bytes(n: usize) -> (v: Vec<u8>)
    ensures
        v@.len() == n,
{
    let mut v: Vec<u8> = Vec::new();
    let mut i: usize = 0;
    while i < n
        invariant
            i <= n,
            v@.len() == i,
        decreases n - i,
    {
        v.push(0);
        i = i + 1;
    }
    v
}

/// A fresh handshake token: the prefix and 32 random bytes in hexadecimal.
/// `None` when the operating system's random source is unavailable.
pub fn generate_handshake_token() -> (r: Option<String>)
    ensures
        r matches Some(t) ==> exists|b: Seq<u8>| b.len() == 32 && t@ == HANDSHAKE_TOKEN_PREFIX@ + hex_bytes(b),
{
    let mut bytes = zero_bytes(32);
    if !fill_random(&mut bytes) {
        return None;
    }
    let mut token = owned(HANDSHAKE_TOKEN_PREFIX);
    append_lower_hex(&mut token, &bytes);
    Some(token)
}

/// A random suffix for transport names: 16 random bytes in hexadecimal.
pub fn transport_name_suffix() -> (r: Option<String>)
    ensures
        r matches Some(t) ==> exists|b: Seq<u8>| b.len() == 16 && t@ == hex_bytes(b),
{
    let mut bytes = zero_bytes(16);
    if !fill_random(&mut bytes) {
        return None;
    }
    let mut suffix = String::new();
    append_lower_hex(&mut suffix, &bytes);
    Some(suffix)
}

/// Where a sidecar listens, given a name suffix: on Windows a named pipe,
/// elsewhere a Unix socket in the temporary directory.
pub open spec fn endpoint_spec(windows: bool, temp_dir: Seq<char>, suffix: Seq<char>) -> EndpointView {
    if windows {
        EndpointView::Pipe("\\\\.\\pipe\\vscode-atomic-ext-"@ + suffix)
    } else {
        EndpointView::Unix(join_spec(temp_dir, "vscode-atomic-ext-"@ + suffix + ".sock"@))
    }
}

/// The endpoint named by `suffix`: a named pipe on Windows, else a Unix
/// socket in `temp_dir`.
pub fn transport_endpoint(windows: bool, temp_dir: &str, suffix: &str) -> (e: SidecarTransportEndpoint)
    ensures
        e@ == endpoint_spec(windows, temp_dir@, suffix@),
{
    if windows {
        SidecarTransportEndpoint::NamedPipe { name: concat2("\\\\.\\pipe\\vscode-atomic-ext-", suffix) }
    } else {
        let name = concat3("vscode-atomic-ext-", suffix, ".sock");
        SidecarTransportEndpoint::UnixSocket { path: path_join(temp_dir, name.as_str()) }
    }
}

/// The endpoint a new sidecar listens on, named with a random suffix: a
/// named pipe on Windows, else a Unix socket in the temporary directory.
/// `None` when the operating system's random source is unavailable.
pub fn preferred_transport_endpoint(temp_dir: &str, windows: bool) -> (r: Option<SidecarTransportEndpoint>)
    ensures
        r matches Some(e) ==> exists|b: Seq<u8>| b.len() == 16 && e@ == endpoint_spec(windows, temp_dir@, hex_bytes(b)),
{
    match transport_name_suffix() {
        Some(suffix) => Some(transport_endpoint(windows, temp_dir, suffix.as_str())),
        None => None,
    }
}

/// What `str::replace` gives: every non-overlapping occurrence of `pat`,
/// from the left, replaced by `rep`. An empty pattern matches before each
/// character and at the end.
pub open spec fn replace_all(s: Seq<char>, pat: Seq<char>, rep: Seq<char>) -> Seq<char>
    decreases s.len(),
{
    if pat.len() == 0 {
        if s.len() == 0 {
            rep
        } else {
            rep + seq![s[0]] + replace_all(s.skip(1), pat, rep)
        }
    } else if s.len() < pat.len() {
        s
    } else if s.take(pat.len() as int) == pat {
        rep + replace_all(s.skip(pat.len() as int), pat, rep)
    } else {
        seq![s[0]] + replace_all(s.skip(1), pat, rep)
    }
}

/// Replaces every occurrence of `pat` in `s` by `rep`.
pub fn replace_str(s: &str, pat: &str, rep: &str) -> (out: String)
    ensures
        out@ == replace_all(s@, pat@, rep@),
{
    let cs = chars_of(s);
    let ps = chars_of(pat);
    let mut out = String::new();
    let mut i: usize = 0;
    proof { assert(cs@.skip(0) =~= cs@); }
    while i < cs.len()
        invariant
            i <= cs@.len(),
            cs@ == s@,
            ps@ == pat@,
            replace_all(s@, pat@, rep@) == out@ + replace_all(cs@.skip(i as int), pat@, rep@),
        decreases cs@.len() - i,
    {
        let ghost rest = cs@.skip(i as int);
        if ps.len() == 0 {
            push_str(&mut out, rep);
            push_char(&mut out, cs[i]);
            proof {
                assert(rest.skip(1) =~= cs@.skip(i + 1));
                assert(rest[0] == cs@[i as int]);
            }
            i = i + 1;
        } else if occurs_at(&cs, &ps, i) {
            push_str(&mut out, rep);
            proof {
                assert(rest.take(ps@.len() as int) =~= cs@.subrange(i as int, i + ps@.len()));
                assert(rest.skip(ps@.len() as int) =~= cs@.skip(i + ps@.len()));
            }
            i = i + ps.len();
        } else {
            push_char(&mut out, cs[i]);
            proof {
                if rest.len() >= ps@.len() {
                    assert(rest.take(ps@.len() as int) =~= cs@.subrange(i as int, i + ps@.len()));
                }
                assert(rest.skip(1) =~= cs@.skip(i + 1));
                assert(rest[0] == cs@[i as int]);
            }
            i = i + 1;
        }
        proof { assert(out@ + replace_all(cs@.skip(i as int), pat@, rep@) =~= replace_all(s@, pat@, rep@)); }
    }
    proof { assert(cs@.skip(i as int) =~= Seq::<char>::empty()); }
    if ps.len() == 0 {
        push_str(&mut out, rep);
    }
    out
}

/// `message` with the handshake's token replaced by the redaction marker.
pub open spec fn redact_token_spec(message: Seq<char>, handshake: Option<HandshakeView>) -> Seq<char> {
    match handshake {
        Some(h) => replace_all(message, h.0, REDACTED_SECRET@),
        None => message,
    }
}

/// Removes the handshake token from a message before it leaves the service.
pub fn redact_token(message: String, handshake: Option<&SidecarHandshake>) -> (r: String)
    ensures
        r@ == redact_token_spec(message@, match handshake { Some(h) => Some(h@), None => None }),
{
    match handshake {
        Some(h) => replace_str(message.as_str(), h.token.as_str(), REDACTED_SECRET),
        None => message,
    }
}

/// How to launch the sidecar process.
#[derive(Clone, PartialEq, Eq)]
pub struct ExtensionSidecarSpawnConfig {
    pub executable: String,
    pub args: Vec<String>,
    /// Extra environment variables, each name once.
    pub env: Vec<(String, String)>,
    pub handshake: SidecarHandshake,
}

pub open spec fn string_views(v: Seq<String>) -> Seq<Seq<char>> {
    v.map_values(|s: String| s@)
}

pub open spec fn env_views(v: Seq<(String, String)>) -> Seq<(Seq<char>, Seq<char>)> {
    v.map_values(|e: (String, String)| (e.0@, e.1@))
}

/// A value given through the environment, if it is set and not empty.
pub open spec fn non_empty(v: Option<Seq<char>>) -> Option<Seq<char>> {
    match v {
        Some(s) => if s.len() > 0 { Some(s) } else { None },
        None => None,
    }
}

fn choose_non_empty(v: Option<String>, fallback: &str) -> (r: String)
    ensures
        r@ == match non_empty(match v { Some(s) => Some(s@), None => None }) {
            Some(s) => s,
            None => fallback@,
        },
{
    match v {
        Some(s) => {
            if s.as_str().is_empty() {
                owned(fallback)
            } else {
                s
            }
        },
        None => owned(fallback),
    }
}

impl ExtensionSidecarSpawnConfig {
    /// Runs the packaged extension host under node. `node_executable` and
    /// `entrypoint` are the values of the override variables, when set; an
    /// empty one counts as unset. The entry point otherwise is
    /// `default_entrypoint`.
    pub fn packaged_extension_host(
        handshake: SidecarHandshake,
        node_executable: Option<String>,
        entrypoint: Option<String>,
        default_entrypoint: &str,
    ) -> (c: ExtensionSidecarSpawnConfig)
        ensures
            c.executable@ == match non_empty(match node_executable { Some(s) => Some(s@), None => None }) {
                Some(s) => s,
                None => "node"@,
            },
            string_views(c.args@) == seq![
                match non_empty(match entrypoint { Some(s) => Some(s@), None => None }) {
                    Some(s) => s,
                    None => default_entrypoint@,
                },
                "--type=extensionHost"@,
                "--transformURIs"@,
            ],
            env_views(c.env@) == seq![
                (VSCODE_ESM_ENTRYPOINT_ENV@, VSCODE_ESM_EXTENSION_HOST_ENTRYPOINT@),
                (ELECTRON_RUN_AS_NODE_ENV@, "1"@),
                (VSCODE_HANDLES_UNCAUGHT_ERRORS_ENV@, "true"@),
            ],
            c.handshake == handshake,
    {
        let mut env: Vec<(String, String)> = Vec::new();
        env.push((owned(VSCODE_ESM_ENTRYPOINT_ENV), owned(VSCODE_ESM_EXTENSION_HOST_ENTRYPOINT)));
        env.push((owned(ELECTRON_RUN_AS_NODE_ENV), owned("1")));
        env.push((owned(VSCODE_HANDLES_UNCAUGHT_ERRORS_ENV), owned("true")));
        let mut args: Vec<String> = Vec::new();
        args.push(choose_non_empty(entrypoint, default_entrypoint));
        args.push(owned("--type=extensionHost"));
        args.push(owned("--transformURIs"));
        let c = ExtensionSidecarSpawnConfig {
            executable: choose_non_empty(node_executable, "node"),
            args,
            env,
            handshake,
        };
        proof {
            assert(string_views(c.args@) =~= seq![c.args@[0]@, c.args@[1]@, c.args@[2]@]);
            assert(env_views(c.env@) =~= seq![
                (c.env@[0].0@, c.env@[0].1@),
                (c.env@[1].0@, c.env@[1].1@),
                (c.env@[2].0@, c.env@[2].1@),
            ]);
        }
        c
    }

    /// The environment variables the sidecar process gets on top of the
    /// inherited ones, in the order they are set (a later one wins): the
    /// configured ones, then the handshake token, then the transport.
    pub fn process_env(&self) -> (r: Vec<(String, String)>)
        ensures
            env_views(r@) == env_views(self.env@)
                .push((SIDECAR_TOKEN_ENV_NAME@, self.handshake.token@))
                .push((TRANSPORT_ENV@, transport_env_spec(self.handshake.transport@))),
    {
        let mut out: Vec<(String, String)> = Vec::new();
        let mut i: usize = 0;
        while i < self.env.len()
            invariant
                i <= self.env@.len(),
                env_views(out@) == env_views(self.env@).take(i as int),
            decreases self.env@.len() - i,
        {
            let ghost before = out@;
            out.push((owned(self.env[i].0.as_str()), owned(self.env[i].1.as_str())));
            proof {
                assert(env_views(out@) =~= env_views(before).push((self.env@[i as int].0@, self.env@[i as int].1@)));
                assert(env_views(self.env@).take(i + 1) =~= env_views(self.env@).take(i as int).push((self.env@[i as int].0@, self.env@[i as int].1@)));
            }
            i = i + 1;
        }
        proof { assert(env_views(self.env@).take(self.env@.len() as int) =~= env_views(self.env@)); }
        let ghost base = out@;
        out.push((owned(SIDECAR_TOKEN_ENV_NAME), owned(self.handshake.token.as_str())));
        out.push((owned(TRANSPORT_ENV), transport_env_value(&self.handshake.transport)));
        proof {
            assert(env_views(out@) =~= env_views(base)
                .push((SIDECAR_TOKEN_ENV_NAME@, self.handshake.token@))
                .push((TRANSPORT_ENV@, transport_env_spec(self.handshake.transport@))));
        }
        out
    }

    /// A node process that only idles; for trying out the plumbing.
    pub fn minimal_node(handshake: SidecarHandshake) -> (c: ExtensionSidecarSpawnConfig)
        ensures
            c.executable@ == "node"@,
            string_views(c.args@) == seq!["-e"@, "setInterval(() => {}, 2147483647);"@],
            c.env@.len() == 0,
            c.handshake == handshake,
    {
        let mut args: Vec<String> = Vec::new();
        args.push(owned("-e"));
        args.push(owned("setInterval(() => {}, 2147483647);"));
        let c = ExtensionSidecarSpawnConfig { executable: owned("node"), args, env: Vec::new(), handshake };
        proof { assert(string_views(c.args@) =~= seq![c.args@[0]@, c.args@[1]@]); }
        c
    }
}

/// What the service reports of the sidecar.
#[derive(Clone, PartialEq, Eq)]
pub struct ExtensionSidecarSnapshot {
    pub state: ExtensionSidecarState,
    pub handshake: Option<SidecarHandshake>,
    pub process_id: Option<u32>,
}

pub open spec fn opt_handshake_view(h: Option<SidecarHandshake>) -> Option<HandshakeView> {
    match h {
        Some(x) => Some(x@),
        None => None,
    }
}

/// An event the service sends to its listeners.
#[derive(Clone, PartialEq, Eq)]
pub enum SidecarEvent {
    Handshake { state: ExtensionSidecarState, handshake: SidecarHandshake, process_id: Option<u32> },
    Lifecycle { state: ExtensionSidecarState, process_id: Option<u32> },
}

impl SidecarEvent {
    pub fn kind(&self) -> (k: SidecarEventKind)
        ensures
            k == match self {
                SidecarEvent::Handshake { .. } => SidecarEventKind::Handshake,
                SidecarEvent::Lifecycle { .. } => SidecarEventKind::Lifecycle,
            },
    {
        match self {
            SidecarEvent::Handshake { .. } => SidecarEventKind::Handshake,
            SidecarEvent::Lifecycle { .. } => SidecarEventKind::Lifecycle,
        }
    }
}

/// The lifecycle event that reports a snapshot.
pub fn lifecycle_event(snapshot: &ExtensionSidecarSnapshot) -> (e: SidecarEvent)
    ensures
        e == (SidecarEvent::Lifecycle { state: snapshot.state, process_id: snapshot.process_id }),
{
    SidecarEvent::Lifecycle { state: snapshot.state, process_id: snapshot.process_id }
}

/// The handshake event that reports a snapshot, when it has a handshake.
pub fn handshake_event(snapshot: &ExtensionSidecarSnapshot) -> (e: Option<SidecarEvent>)
    ensures
        e is Some == snapshot.handshake is Some,
        e matches Some(ev) ==> (ev matches SidecarEvent::Handshake { state, handshake, process_id }
            && state == snapshot.state && process_id == snapshot.process_id
            && handshake@ == snapshot.handshake->0@),
{
    match &snapshot.handshake {
        Some(h) => Some(SidecarEvent::Handshake {
            state: snapshot.state,
            handshake: copy_handshake(h),
            process_id: snapshot.process_id,
        }),
        None => None,
    }
}

/// The events sent when the sidecar reaches a new state: the handshake
/// event when there is a handshake, then the lifecycle event.
pub fn snapshot_events(snapshot: &ExtensionSidecarSnapshot) -> (events: Vec<SidecarEvent>)
    ensures
        events@.len() == if snapshot.handshake is Some { 2int } else { 1int },
        events@.last() == (SidecarEvent::Lifecycle { state: snapshot.state, process_id: snapshot.process_id }),
        snapshot.handshake is Some ==> (events@[0] matches SidecarEvent::Handshake { state, handshake, process_id }
            && state == snapshot.state && process_id == snapshot.process_id
            && handshake@ == snapshot.handshake->0@),
{
    let mut events: Vec<SidecarEvent> = Vec::new();
    match handshake_event(snapshot) {
        Some(e) => events.push(e),
        None => {},
    }
    events.push(lifecycle_event(snapshot));
    events
}

/// The service's state.
pub struct SidecarView {
    pub state: ExtensionSidecarState,
    pub process_id: Option<u32>,
    pub handshake: Option<HandshakeView>,
    /// Listener keys and the events they listen to, oldest first.
    pub listeners: Seq<(u64, SidecarEventKind)>,
    pub next_listener_key: u64,
}

/// What came of spawning the sidecar.
pub enum SpawnOutcome {
    /// The process runs; `exited_before_ready` holds its exit status when it
    /// exited within the startup grace period.
    Spawned { process_id: u32, exited_before_ready: Option<String> },
    /// Spawning failed with this message.
    Failed(String),
}

/// What a start request leads to.
pub enum StartStep {
    /// The sidecar is ready or starting already: this is its snapshot.
    AlreadyRunning(ExtensionSidecarSnapshot),
    /// Spawn a sidecar; the snapshot reports the transition (starting or
    /// restarting) to the lifecycle listeners.
    Spawn(ExtensionSidecarSnapshot),
}

/// A start request: a running sidecar is left alone; a crashed one is
/// restarted, any other one started.
pub open spec fn begin_start_spec(v: SidecarView) -> (SidecarView, bool) {
    match v.state {
        ExtensionSidecarState::Ready | ExtensionSidecarState::Starting => (v, false),
        ExtensionSidecarState::Crashed => (SidecarView { state: ExtensionSidecarState::Restarting, ..v }, true),
        _ => (SidecarView { state: ExtensionSidecarState::Starting, ..v }, true),
    }
}

/// The state after a spawn with handshake `h`: ready with its process, or
/// crashed when spawning failed or the process exited before readiness.
/// Either way the handshake is kept.
pub open spec fn finish_start_spec(v: SidecarView, h: HandshakeView, spawned: Option<u32>) -> SidecarView {
    match spawned {
        Some(pid) => SidecarView {
            state: ExtensionSidecarState::Ready,
            process_id: Some(pid),
            handshake: Some(h),
            ..v
        },
        None => SidecarView { state: ExtensionSidecarState::Crashed, process_id: None, handshake: Some(h), ..v },
    }
}

/// The state after a stop whose process stop succeeded (or when there was
/// no process).
pub open spec fn stop_spec(v: SidecarView) -> SidecarView {
    SidecarView { state: ExtensionSidecarState::Stopped, process_id: None, handshake: None, ..v }
}

/// The state after the sidecar is marked crashed.
pub open spec fn mark_crashed_spec(v: SidecarView) -> SidecarView {
    SidecarView { state: ExtensionSidecarState::Crashed, process_id: None, ..v }
}

/// The state after the process was found to have exited.
pub open spec fn process_exited_spec(v: SidecarView) -> SidecarView {
    if v.process_id is Some {
        SidecarView { state: ExtensionSidecarState::Crashed, process_id: None, ..v }
    } else {
        v
    }
}

/// Why a callback with `token` is refused, as an error code; `None` when it
/// is accepted.
pub open spec fn callback_refusal(v: SidecarView, token: Seq<char>) -> Option<Seq<char>> {
    if v.state != ExtensionSidecarState::Ready || v.process_id is None {
        Some("extensionHost.sidecarNotReady"@)
    } else if v.handshake is None {
        Some("extensionHost.sidecarNotReady"@)
    } else if token != v.handshake.unwrap().0 {
        Some("extensionHost.invalidSidecarToken"@)
    } else {
        None
    }
}

pub open spec fn listeners_of(listeners: Seq<(u64, SidecarEventKind)>, kind: SidecarEventKind) -> Seq<u64>
    decreases listeners.len(),
{
    if listeners.len() == 0 {
        seq![]
    } else {
        let rest = listeners_of(listeners.drop_last(), kind);
        if listeners.last().1 == kind { rest.push(listeners.last().0) } else { rest }
    }
}

/// The keys of the listeners of one event are exactly the keys registered
/// for that event: a key is returned for a kind if and only if a listener
/// with that key was registered for that kind.
pub proof fn lemma_listeners_of_kind(listeners: Seq<(u64, SidecarEventKind)>, kind: SidecarEventKind, k: u64)
    ensures
        listeners_of(listeners, kind).contains(k)
            <==> exists|j: int| 0 <= j < listeners.len() && listeners[j] == (k, kind),
    decreases listeners.len(),
{
    if listeners.len() > 0 {
        let init = listeners.drop_last();
        let rest = listeners_of(init, kind);
        lemma_listeners_of_kind(init, kind, k);
        if exists|j: int| 0 <= j < init.len() && init[j] == (k, kind) {
            let j = choose|j: int| 0 <= j < init.len() && init[j] == (k, kind);
            assert(listeners[j] == init[j]);
        }
        if exists|j: int| 0 <= j < listeners.len() && listeners[j] == (k, kind) {
            let j = choose|j: int| 0 <= j < listeners.len() && listeners[j] == (k, kind);
            if j < init.len() {
                assert(init[j] == listeners[j]);
                assert(rest.contains(k));
                let a = choose|a: int| 0 <= a < rest.len() && rest[a] == k;
                if listeners.last().1 == kind {
                    assert(rest.push(listeners.last().0)[a] == k);
                }
            } else {
                assert(listeners.last() == (k, kind));
                assert(rest.push(k)[rest.len() as int] == k);
            }
        }
        if listeners_of(listeners, kind).contains(k) {
            let out = listeners_of(listeners, kind);
            let a = choose|a: int| 0 <= a < out.len() && out[a] == k;
            if listeners.last().1 == kind && a == rest.len() {
                assert(listeners[listeners.len() - 1] == (k, kind));
            } else {
                assert(out[a] == rest[a]);
                assert(rest.contains(k));
                let j = choose|j: int| 0 <= j < init.len() && init[j] == (k, kind);
                assert(listeners[j] == init[j]);
            }
        }
    }
}

/// The keys of the listeners of one event are the keys of the entries
/// registered for that event, in the order they were registered.
pub proof fn lemma_listeners_of_in_order(listeners: Seq<(u64, SidecarEventKind)>, kind: SidecarEventKind)
    ensures
        listeners_of(listeners, kind)
            == listeners.filter(|e: (u64, SidecarEventKind)| e.1 == kind).map_values(|e: (u64, SidecarEventKind)| e.0),
    decreases listeners.len(),
{
    let pred = |e: (u64, SidecarEventKind)| e.1 == kind;
    let key = |e: (u64, SidecarEventKind)| e.0;
    if listeners.len() > 0 {
        let init = listeners.drop_last();
        lemma_listeners_of_in_order(init, kind);
        let f = init.filter(pred);
        reveal(Seq::filter);
        assert(listeners.filter(pred) == if pred(listeners.last()) { f.push(listeners.last()) } else { f });
        if pred(listeners.last()) {
            assert(f.push(listeners.last()).map_values(key) =~= f.map_values(key).push(listeners.last().0));
        }
    } else {
        reveal(Seq::filter);
        assert(listeners.filter(pred).map_values(key) =~= Seq::<u64>::empty());
    }
}

pub open spec fn without_listener(listeners: Seq<(u64, SidecarEventKind)>, key: u64) -> Seq<(u64, SidecarEventKind)>
    decreases listeners.len(),
{
    if listeners.len() == 0 {
        listeners
    } else {
        let rest = without_listener(listeners.drop_last(), key);
        if listeners.last().0 == key { rest } else { rest.push(listeners.last()) }
    }
}

/// Removing a listener removes every entry under its key and keeps every
/// other entry.
pub proof fn lemma_without_listener_members(listeners: Seq<(u64, SidecarEventKind)>, key: u64, e: (u64, SidecarEventKind))
    ensures
        without_listener(listeners, key).contains(e) <==> (listeners.contains(e) && e.0 != key),
    decreases listeners.len(),
{
    if listeners.len() > 0 {
        let init = listeners.drop_last();
        let rest = without_listener(init, key);
        lemma_without_listener_members(init, key, e);
        let out = without_listener(listeners, key);
        if out.contains(e) {
            let a = choose|a: int| 0 <= a < out.len() && out[a] == e;
            if listeners.last().0 != key && a == rest.len() {
                assert(listeners[listeners.len() - 1] == e);
            } else {
                assert(out[a] == rest[a]);
                assert(rest.contains(e));
                let j = choose|j: int| 0 <= j < init.len() && init[j] == e;
                assert(listeners[j] == init[j]);
            }
        }
        if listeners.contains(e) && e.0 != key {
            let j = choose|j: int| 0 <= j < listeners.len() && listeners[j] == e;
            if j < init.len() {
                assert(init[j] == listeners[j]);
                assert(rest.contains(e));
                let a = choose|a: int| 0 <= a < rest.len() && rest[a] == e;
                if listeners.last().0 != key {
                    assert(rest.push(listeners.last())[a] == e);
                }
            } else {
                assert(rest.push(listeners.last())[rest.len() as int] == e);
            }
        }
    }
}

/// A stopped sidecar refuses every callback as not ready, whatever token it
/// carries, the token of the handshake it ran with included; so does a
/// crashed one.
pub proof fn lemma_stopped_sidecar_refuses_callbacks(v: SidecarView, token: Seq<char>)
    ensures
        callback_refusal(stop_spec(v), token) == Some("extensionHost.sidecarNotReady"@),
        callback_refusal(mark_crashed_spec(v), token) == Some("extensionHost.sidecarNotReady"@),
        v.process_id is Some ==> callback_refusal(process_exited_spec(v), token) == Some("extensionHost.sidecarNotReady"@),
{
}

/// A sidecar that started with handshake `h` accepts a callback exactly
/// when it carries `h`'s token; any other token is refused as invalid.
pub proof fn lemma_callback_needs_current_token(v: SidecarView, h: HandshakeView, process_id: u32, token: Seq<char>)
    ensures
        ({
            let v1 = finish_start_spec(v, h, Some(process_id));
            &&& (callback_refusal(v1, token) is None <==> token == h.0)
            &&& token != h.0 ==> callback_refusal(v1, token) == Some("extensionHost.invalidSidecarToken"@)
        }),
{
}

/// Starting a sidecar that is ready or starting changes nothing; a crashed
/// one goes through restarting, any other through starting; a successful
/// spawn then makes it ready with its process and handshake.
pub proof fn lemma_start_transitions(v: SidecarView, h: HandshakeView, process_id: u32)
    ensures
        (v.state == ExtensionSidecarState::Ready || v.state == ExtensionSidecarState::Starting)
            ==> begin_start_spec(v) == (v, false),
        v.state == ExtensionSidecarState::Crashed
            ==> begin_start_spec(v).1 && begin_start_spec(v).0.state == ExtensionSidecarState::Restarting,
        (v.state == ExtensionSidecarState::NotStarted || v.state == ExtensionSidecarState::Stopped
            || v.state == ExtensionSidecarState::Restarting)
            ==> begin_start_spec(v).1 && begin_start_spec(v).0.state == ExtensionSidecarState::Starting,
        ({
            let v2 = finish_start_spec(begin_start_spec(v).0, h, Some(process_id));
            v2.state == ExtensionSidecarState::Ready && v2.process_id == Some(process_id) && v2.handshake == Some(h)
        }),
        ({
            let v2 = finish_start_spec(begin_start_spec(v).0, h, None);
            v2.state == ExtensionSidecarState::Crashed && v2.process_id is None && v2.handshake == Some(h)
        }),
{
}

/// Runs the decisions of the extension host sidecar service.
pub struct ExtensionSidecarServiceImpl {
    state: ExtensionSidecarState,
    process_id: Option<u32>,
    last_handshake: Option<SidecarHandshake>,
    listeners: Vec<(u64, SidecarEventKind)>,
    next_listener_key: u64,
}

impl View for ExtensionSidecarServiceImpl {
    type V = SidecarView;

    closed spec fn view(&self) -> SidecarView {
        SidecarView {
            state: self.state,
            process_id: self.process_id,
            handshake: opt_handshake_view(self.last_handshake),
            listeners: self.listeners@,
            next_listener_key: self.next_listener_key,
        }
    }
}

/// Whether a snapshot reports the service state `v`.
pub open spec fn reports(s: ExtensionSidecarSnapshot, v: SidecarView) -> bool {
    s.state == v.state && s.process_id == v.process_id && opt_handshake_view(s.handshake) == v.handshake
}

impl ExtensionSidecarServiceImpl {
    /// Whether another listener can be added: the listener keys are not
    /// used up.
    pub fn can_listen(&self) -> (r: bool)
        ensures
            r == (self@.next_listener_key < u64::MAX),
    {
        self.next_listener_key < u64::MAX
    }

    /// A service whose sidecar was never started.
    pub fn new() -> (s: ExtensionSidecarServiceImpl)
        ensures
            s@.state == ExtensionSidecarState::NotStarted,
            s@.process_id is None,
            s@.handshake is None,
            s@.listeners.len() == 0,
            s@.next_listener_key == 1,
    {
        ExtensionSidecarServiceImpl {
            state: ExtensionSidecarState::NotStarted,
            process_id: None,
            last_handshake: None,
            listeners: Vec::new(),
            next_listener_key: 1,
        }
    }

    /// The current state, process and handshake.
    pub fn snapshot(&self) -> (s: ExtensionSidecarSnapshot)
        ensures
            reports(s, self@),
    {
        ExtensionSidecarSnapshot {
            state: self.state,
            handshake: match &self.last_handshake {
                Some(h) => Some(copy_handshake(h)),
                None => None,
            },
            process_id: self.process_id,
        }
    }

    /// The sidecar process was found to have exited (or could not be
    /// polled): a running sidecar counts as crashed.
    pub fn process_exited(&mut self)
        ensures
            final(self)@ == process_exited_spec(old(self)@),
    {
        if self.process_id.is_some() {
            self.process_id = None;
            self.state = ExtensionSidecarState::Crashed;
        }
    }

    /// Decides what a start request does.
    pub fn begin_start(&mut self) -> (step: StartStep)
        ensures
            final(self)@ == begin_start_spec(old(self)@).0,
            match step {
                StartStep::AlreadyRunning(s) => !begin_start_spec(old(self)@).1 && reports(s, final(self)@),
                StartStep::Spawn(s) => begin_start_spec(old(self)@).1 && reports(s, final(self)@),
            },
    {
        match self.state {
            ExtensionSidecarState::Ready | ExtensionSidecarState::Starting => {
                return StartStep::AlreadyRunning(self.snapshot());
            },
            ExtensionSidecarState::Crashed => {
                self.state = ExtensionSidecarState::Restarting;
            },
            _ => {
                self.state = ExtensionSidecarState::Starting;
            },
        }
        StartStep::Spawn(self.snapshot())
    }

    /// Records what came of spawning the sidecar with `handshake`. A
    /// failure or an early exit leaves it crashed and is answered with an
    /// error whose message does not hold the token.
    pub fn finish_start(&mut self, handshake: SidecarHandshake, outcome: SpawnOutcome) -> (r: Result<ExtensionSidecarSnapshot, ServiceError>)
        ensures
            final(self)@ == finish_start_spec(
                old(self)@,
                handshake@,
                match outcome {
                    SpawnOutcome::Spawned { process_id, exited_before_ready: None } => Some(process_id),
                    _ => None,
                },
            ),
            match outcome {
                SpawnOutcome::Spawned { process_id, exited_before_ready: None } => r matches Ok(s) && reports(s, final(self)@),
                SpawnOutcome::Spawned { exited_before_ready: Some(status), .. } => r matches Err(e)
                    && e.code@ == "extensionHost.sidecarNotReady"@
                    && e.message@ == "extension host sidecar exited before readiness: "@ + status@,
                SpawnOutcome::Failed(message) => r matches Err(e)
                    && e.code@ == "extensionHost.sidecarSpawnFailed"@
                    && e.message@ == redact_token_spec(message@, Some(handshake@)),
            },
    {
        match outcome {
            SpawnOutcome::Spawned { process_id, exited_before_ready: None } => {
                self.last_handshake = Some(handshake);
                self.process_id = Some(process_id);
                self.state = ExtensionSidecarState::Ready;
                Ok(self.snapshot())
            },
            SpawnOutcome::Spawned { exited_before_ready: Some(status), .. } => {
                self.last_handshake = Some(handshake);
                self.process_id = None;
                self.state = ExtensionSidecarState::Crashed;
                Err(ServiceError {
                    code: "extensionHost.sidecarNotReady",
                    message: concat2("extension host sidecar exited before readiness: ", status.as_str()),
                })
            },
            SpawnOutcome::Failed(message) => {
                let redacted = redact_token(message, Some(&handshake));
                self.last_handshake = Some(handshake);
                self.process_id = None;
                self.state = ExtensionSidecarState::Crashed;
                Err(ServiceError { code: "extensionHost.sidecarSpawnFailed", message: redacted })
            },
        }
    }

    /// Stops the sidecar. `stop_error` is what stopping the running process
    /// failed with, if it did; the state then stays as it was.
    pub fn stop(&mut self, stop_error: Option<String>) -> (r: Result<ExtensionSidecarSnapshot, ServiceError>)
        ensures
            match stop_error {
                Some(m) if old(self)@.process_id is Some => final(self)@ == old(self)@
                    && (r matches Err(e) && e.code@ == "extensionHost.sidecarStopFailed"@ && e.message@ == m@),
                _ => final(self)@ == stop_spec(old(self)@) && (r matches Ok(s) && reports(s, final(self)@)),
            },
    {
        if self.process_id.is_some() {
            match stop_error {
                Some(m) => {
                    return Err(ServiceError { code: "extensionHost.sidecarStopFailed", message: m });
                },
                None => {},
            }
        }
        self.process_id = None;
        self.last_handshake = None;
        self.state = ExtensionSidecarState::Stopped;
        Ok(self.snapshot())
    }

    /// Marks the sidecar crashed (its process, if any, is stopped outside).
    pub fn mark_crashed(&mut self) -> (s: ExtensionSidecarSnapshot)
        ensures
            final(self)@ == mark_crashed_spec(old(self)@),
            reports(s, final(self)@),
    {
        self.process_id = None;
        self.state = ExtensionSidecarState::Crashed;
        self.snapshot()
    }

    /// Checks a callback from the sidecar: it is accepted only from a ready
    /// sidecar and with the token of its current handshake.
    pub fn emit_callback(&self, token: &str) -> (r: Result<(), ServiceError>)
        ensures
            match callback_refusal(self@, token@) {
                None => r is Ok,
                Some(code) => r matches Err(e) && e.code@ == code,
            },
            r matches Err(e) ==> e.message@ == if self@.state != ExtensionSidecarState::Ready || self@.process_id is None {
                "extension host sidecar is not ready"@
            } else if self@.handshake is None {
                "extension host sidecar has no active handshake"@
            } else {
                "extension host sidecar callback token rejected"@
            },
    {
        if self.state != ExtensionSidecarState::Ready || self.process_id.is_none() {
            return Err(ServiceError {
                code: "extensionHost.sidecarNotReady",
                message: owned("extension host sidecar is not ready"),
            });
        }
        match &self.last_handshake {
            None => Err(ServiceError {
                code: "extensionHost.sidecarNotReady",
                message: owned("extension host sidecar has no active handshake"),
            }),
            Some(h) => {
                if !str_eq(token, h.token.as_str()) {
                    Err(ServiceError {
                        code: "extensionHost.invalidSidecarToken",
                        message: owned("extension host sidecar callback token rejected"),
                    })
                } else {
                    Ok(())
                }
            },
        }
    }

    /// Adds a listener for the event named `event` and returns its key, with
    /// the event it is sent at once: the current handshake for a handshake
    /// listener (if there is one), the current state for a lifecycle one.
    pub fn listen(&mut self, event: &str) -> (r: Result<(u64, Option<SidecarEvent>), ServiceError>)
        requires
            old(self)@.next_listener_key < u64::MAX,
        ensures
            match parse_event_kind(event@) {
                None => final(self)@ == old(self)@ && (r matches Err(e)
                    && e.code@ == "service.unsupportedListen"@
                    && e.message@ == service_name(ServiceId::ExtensionHost) + " does not implement event: "@ + event@),
                Some(kind) => r matches Ok((key, initial))
                    && key == old(self)@.next_listener_key
                    && final(self)@ == (SidecarView {
                        listeners: old(self)@.listeners.push((key, kind)),
                        next_listener_key: (key + 1) as u64,
                        ..old(self)@
                    })
                    && match kind {
                        SidecarEventKind::Lifecycle => initial == Some(SidecarEvent::Lifecycle {
                            state: old(self)@.state,
                            process_id: old(self)@.process_id,
                        }),
                        SidecarEventKind::Handshake => match old(self)@.handshake {
                            Some(h) => initial matches Some(SidecarEvent::Handshake { state, handshake, process_id })
                                && state == old(self)@.state && process_id == old(self)@.process_id && handshake@ == h,
                            None => initial is None,
                        },
                        _ => initial is None,
                    },
            },
    {
        let kind = match SidecarEventKind::parse(ServiceId::ExtensionHost, event) {
            Ok(k) => k,
            Err(e) => return Err(e),
        };
        let key = self.next_listener_key;
        self.next_listener_key = key + 1;
        let snapshot = self.snapshot();
        let initial = match kind {
            SidecarEventKind::Handshake => handshake_event(&snapshot),
            SidecarEventKind::Lifecycle => Some(lifecycle_event(&snapshot)),
            _ => None,
        };
        self.listeners.push((key, kind));
        Ok((key, initial))
    }

    /// Removes the listener with this key.
    pub fn unlisten(&mut self, key: u64)
        ensures
            final(self)@ == (SidecarView { listeners: without_listener(old(self)@.listeners, key), ..old(self)@ }),
    {
        let mut kept: Vec<(u64, SidecarEventKind)> = Vec::new();
        let ghost orig = self.listeners@;
        let mut i: usize = 0;
        while i < self.listeners.len()
            invariant
                orig == self.listeners@,
                i <= orig.len(),
                kept@ == without_listener(orig.take(i as int), key),
            decreases orig.len() - i,
        {
            proof { assert(orig.take(i + 1).drop_last() =~= orig.take(i as int)); }
            let e = self.listeners[i];
            if e.0 != key {
                kept.push(e);
            }
            i = i + 1;
        }
        proof { assert(orig.take(orig.len() as int) =~= orig); }
        self.listeners = kept;
    }

    /// The keys of the listeners of one event, oldest first.
    pub fn listeners_for(&self, kind: SidecarEventKind) -> (keys: Vec<u64>)
        ensures
            keys@ == listeners_of(self@.listeners, kind),
    {
        let mut keys: Vec<u64> = Vec::new();
        let mut i: usize = 0;
        while i < self.listeners.len()
            invariant
                i <= self.listeners@.len(),
                keys@ == listeners_of(self.listeners@.take(i as int), kind),
            decreases self.listeners@.len() - i,
        {
            proof { assert(self.listeners@.take(i + 1).drop_last() =~= self.listeners@.take(i as int)); }
            let e = self.listeners[i];
            if e.1 == kind {
                keys.push(e.0);
            }
            i = i + 1;
        }
        proof { assert(self.listeners@.take(self.listeners@.len() as int) =~= self.listeners@); }
        keys
    }
}


/// What the host made of the first argument of an extension host RPC call.
pub enum RpcArgument {
    /// The call had no argument.
    Missing,
    /// The argument is not an envelope; the parser's error.
    Invalid(String),
    /// The argument read as an envelope.
    Parsed(ExtHostRpcEnvelope),
}

/// The envelope an extension host RPC call forwards: it must be present,
/// read as an envelope, and name the extension host protocol.
pub fn ext_host_rpc_payload(argument: RpcArgument) -> (r: Result<ExtHostRpcEnvelope, ServiceError>)
    ensures
        match argument {
            RpcArgument::Missing => (r matches Err(e) && e.code@ == "extensionHost.rpcMissingEnvelope"@
                && e.message@ == "extension host rpc requires extHost.protocol envelope"@),
            RpcArgument::Invalid(t) => (r matches Err(e) && e.code@ == "extensionHost.rpcInvalidEnvelope"@
                && e.message@ == "extension host rpc envelope is invalid: "@ + t@),
            RpcArgument::Parsed(env) => if env.protocol@ == EXT_HOST_RPC_PROTOCOL@ {
                r == Ok::<ExtHostRpcEnvelope, ServiceError>(env)
            } else {
                r matches Err(e) && e.code@ == "extensionHost.rpcInvalidProtocol"@
                    && e.message@ == "extension host rpc protocol must be extHost.protocol"@
            },
        },
{
    match argument {
        RpcArgument::Missing => Err(ServiceError {
            code: "extensionHost.rpcMissingEnvelope",
            message: owned("extension host rpc requires extHost.protocol envelope"),
        }),
        RpcArgument::Invalid(t) => Err(ServiceError {
            code: "extensionHost.rpcInvalidEnvelope",
            message: concat2("extension host rpc envelope is invalid: ", t.as_str()),
        }),
        RpcArgument::Parsed(env) => {
            if str_eq(env.protocol.as_str(), EXT_HOST_RPC_PROTOCOL) {
                Ok(env)
            } else {
                Err(ServiceError {
                    code: "extensionHost.rpcInvalidProtocol",
                    message: owned("extension host rpc protocol must be extHost.protocol"),
                })
            }
        },
    }
}


/// A command of the extension host service.
#[derive(Debug, Clone, Copy, PartialEq, Eq, Structural)]
pub enum SidecarCommand {
    Start,
    Stop,
    Status,
    MarkCrashed,
    Rpc,
}

pub open spec fn parse_sidecar_command(s: Seq<char>) -> Option<SidecarCommand> {
    if s == "startSidecar"@ || s == "start"@ {
        Some(SidecarCommand::Start)
    } else if s == "stopSidecar"@ || s == "stop"@ {
        Some(SidecarCommand::Stop)
    } else if s == "status"@ {
        Some(SidecarCommand::Status)
    } else if s == "markCrashed"@ {
        Some(SidecarCommand::MarkCrashed)
    } else if s == "rpc"@ || s == "sendRpc"@ {
        Some(SidecarCommand::Rpc)
    } else {
        None
    }
}

impl SidecarCommand {
    pub fn parse(command: &str) -> (r: Result<SidecarCommand, ServiceError>)
        ensures
            match parse_sidecar_command(command@) {
                Some(c) => r == Ok::<SidecarCommand, ServiceError>(c),
                None => r matches Err(e) && e.code@ == "service.unsupportedCommand"@
                    && e.message@ == service_name(ServiceId::ExtensionHost) + " does not implement command: "@ + command@,
            },
    {
        if str_eq(command, "startSidecar") || str_eq(command, "start") {
            Ok(SidecarCommand::Start)
        } else if str_eq(command, "stopSidecar") || str_eq(command, "stop") {
            Ok(SidecarCommand::Stop)
        } else if str_eq(command, "status") {
            Ok(SidecarCommand::Status)
        } else if str_eq(command, "markCrashed") {
            Ok(SidecarCommand::MarkCrashed)
        } else if str_eq(command, "rpc") || str_eq(command, "sendRpc") {
            Ok(SidecarCommand::Rpc)
        } else {
            Err(ServiceError::unsupported(ServiceId::ExtensionHost, command))
        }
    }
}

/// The manager of the extension host child process, as the extension host
/// crate declares it; it holds nothing yet, so every value is the same.
#[derive(Debug, Default, PartialEq, Eq)]
pub struct ExtensionHostSidecar {
    _priv: (),
}

impl ExtensionHostSidecar {
    pub fn new() -> ExtensionHostSidecar {
        ExtensionHostSidecar { _priv: () }
    }
}

} // verus!
