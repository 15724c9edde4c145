//! Trace ids, metric names and units, secret redaction, and runtime
//! dependency preflight summaries.
use vstd::prelude::*;
use crate::json::JsonValue;
use crate::numfmt::{decimal, hex_bound, hex_fixed, lemma_hex_fixed_injective, lemma_hex_fixed_len, push_decimal, push_hex_fixed};
use crate::text::{chars_of, concat2, contains_chars, contains_seq, owned, push_char, push_str, starts_with,
    starts_with_chars, str_eq, string_from_chars};

verus! {

pub const SIDECAR_TOKEN_ENV_NAME: &'static str = "VSCODE_ATOMIC_EXTENSION_HOST_TOKEN";
pub const REDACTED_SECRET: &'static str = "<redacted>";

pub const CHANNEL_CALL_INVOCATIONS_METRIC: &'static str = "channelCall.invocations";
pub const CHANNEL_LISTEN_ACTIVE_METRIC: &'static str = "channelListen.active";
pub const CHANNEL_EVENT_DELIVERED_METRIC: &'static str = "channelEvent.delivered";
pub const CHANNEL_EVENT_DROPPED_METRIC: &'static str = "channelEvent.dropped";
pub const FILE_WRITE_FAILURES_METRIC: &'static str = "fileWrite.failures";
pub const BRIDGE_ROUND_TRIP_MS_METRIC: &'static str = "bridge.roundTripMs";
pub const WORKBENCH_READY_MS_METRIC: &'static str = "workbench.readyMs";
pub const EXTENSION_HOST_READY_MS_METRIC: &'static str = "extensionHost.readyMs";
pub const FILE_WATCH_ACTIVE_METRIC: &'static str = "fileWatch.active";
pub const TERMINAL_SPAWN_MS_METRIC: &'static str = "terminal.spawnMs";
pub const BRIDGE_SERVICE_BOOT_MS_METRIC: &'static str = "bridge.serviceBootMs";
pub const PACKAGE_MARKER_METRIC: &'static str = "package.marker";
pub const RUNTIME_DEPENDENCY_PREFLIGHT_EVENT_NAME: &'static str = "runtimeDependency.preflight";

/// The metrics every bridge session must report.
pub fn required_bridge_metrics() -> (names: Vec<&'static str>)
    ensures
        names@.len() == 9,
        names@[0]@ == "channelCall.invocations"@,
        names@[1]@ == "channelListen.active"@,
        names@[2]@ == "channelEvent.delivered"@,
        names@[3]@ == "channelEvent.dropped"@,
        names@[4]@ == "fileWrite.failures"@,
        names@[5]@ == "fileWatch.active"@,
        names@[6]@ == "bridge.roundTripMs"@,
        names@[7]@ == "extensionHost.readyMs"@,
        names@[8]@ == "workbench.readyMs"@,
{
    let mut names: Vec<&'static str> = Vec::new();
    names.push("channelCall.invocations");
    names.push("channelListen.active");
    names.push("channelEvent.delivered");
    names.push("channelEvent.dropped");
    names.push("fileWrite.failures");
    names.push("fileWatch.active");
    names.push("bridge.roundTripMs");
    names.push("extensionHost.readyMs");
    names.push("workbench.readyMs");
    names
}

/// Identifies one traced operation.
#[derive(Debug, Clone, PartialEq, Eq)]
pub struct TraceId(pub String);

/// Characters kept in a trace id token; others become `-`.
pub open spec fn token_char(c: char) -> char {
    if ('a' <= c <= 'z') || ('A' <= c <= 'Z') || ('0' <= c <= '9') || c == '-' || c == '_' {
        c
    } else {
        '-'
    }
}

/// `value` with every character outside `[A-Za-z0-9_-]` replaced by `-`.
pub open spec fn stable_token_spec(value: Seq<char>) -> Seq<char> {
    value.map_values(|c: char| token_char(c))
}

/// Makes a value safe to embed in a trace id.
pub fn stable_token(value: &str) -> (out: String)
    ensures
        out@ == stable_token_spec(value@),
{
    let cs = chars_of(value);
    let mut out = String::new();
    let mut i: usize = 0;
    while i < cs.len()
        invariant
            i <= cs.len(),
            cs@ == value@,
            out@ == stable_token_spec(cs@.take(i as int)),
        decreases cs.len() - i,
    {
        let c = cs[i];
        let t = if ('a' <= c && c <= 'z') || ('A' <= c && c <= 'Z') || ('0' <= c && c <= '9') || c == '-'
            || c == '_' {
            c
        } else {
            '-'
        };
        push_char(&mut out, t);
        proof { assert(stable_token_spec(cs@.take(i + 1)) =~= stable_token_spec(cs@.take(i as int)).push(t)); }
        i = i + 1;
    }
    proof { assert(cs@.take(cs@.len() as int) =~= cs@); }
    out
}

pub open spec fn command_trace_spec(command: Seq<char>, request_id: Seq<char>) -> Seq<char> {
    "tauri-command-"@ + stable_token_spec(command) + "-"@ + stable_token_spec(request_id)
}

/// The process-wide sequence that trace ids are numbered from. It starts
/// at 1, and each id takes the current number and moves it on by one,
/// wrapping around past the largest `u64`.
pub struct TraceIdCounter {
    next: u64,
}

impl View for TraceIdCounter {
    type V = u64;

    closed spec fn view(&self) -> u64 {
        self.next
    }
}

impl TraceIdCounter {
    pub fn new() -> (c: TraceIdCounter)
        ensures
            c@ == 1,
    {
        TraceIdCounter { next: 1 }
    }

    /// The number the next id takes.
    pub fn peek(&self) -> (n: u64)
        ensures
            n == self@,
    {
        self.next
    }

    fn take(&mut self) -> (n: u64)
        ensures
            n == old(self)@,
            final(self)@ == old(self)@.wrapping_add(1),
    {
        let n = self.next;
        self.next = n.wrapping_add(1);
        n
    }
}

/// `tauri-<scope>-<sequence as 16 lower-case hex digits>`.
pub open spec fn trace_id_spec(scope: Seq<char>, sequence: u64) -> Seq<char> {
    "tauri-"@ + scope + "-"@ + hex_fixed(sequence as nat, 16)
}

/// Trace ids numbered differently never coincide, whatever their scopes:
/// ids drawn from one counter do not repeat until the counter wraps.
pub proof fn lemma_trace_ids_fresh(scope_a: Seq<char>, scope_b: Seq<char>, a: u64, b: u64)
    requires
        a != b,
    ensures
        trace_id_spec(scope_a, a) != trace_id_spec(scope_b, b),
{
    let x = trace_id_spec(scope_a, a);
    let y = trace_id_spec(scope_b, b);
    lemma_hex_fixed_len(a as nat, 16);
    lemma_hex_fixed_len(b as nat, 16);
    if x == y {
        assert(x.skip(x.len() - 16) =~= hex_fixed(a as nat, 16));
        assert(y.skip(y.len() - 16) =~= hex_fixed(b as nat, 16));
        assert(hex_bound(16) == 0x1_0000_0000_0000_0000) by {
            reveal_with_fuel(hex_bound, 17);
        }
        lemma_hex_fixed_injective(a as nat, b as nat, 16);
    }
}

impl TraceId {
    /// A fresh trace id: `tauri-<scope>-<sequence>`, numbered by the
    /// counter, which moves on by one.
    pub fn new(counter: &mut TraceIdCounter, scope: &str) -> (t: TraceId)
        ensures
            t.0@ == trace_id_spec(scope@, old(counter)@),
            final(counter)@ == old(counter)@.wrapping_add(1),
    {
        let sequence = counter.take();
        let mut s = owned("tauri-");
        push_str(&mut s, scope);
        push_char(&mut s, '-');
        push_hex_fixed(&mut s, sequence, 16);
        proof { reveal_strlit("-"); }
        TraceId(s)
    }

    /// The trace id of a bridge command: `tauri-command-<command>-<request>`,
    /// both made safe with [`stable_token`].
    pub fn for_command(command: &str, request_id: &str) -> (t: TraceId)
        ensures
            t.0@ == command_trace_spec(command@, request_id@),
    {
        let mut s = owned("tauri-command-");
        let c = stable_token(command);
        push_str(&mut s, c.as_str());
        push_str(&mut s, "-");
        let r = stable_token(request_id);
        push_str(&mut s, r.as_str());
        TraceId(s)
    }

    pub fn as_str(&self) -> (s: &str)
        ensures
            s@ == self.0@,
    {
        self.0.as_str()
    }
}

/// The trace id of a bridge command.
pub fn command_trace_id(command: &str, request_id: &str) -> (t: TraceId)
    ensures
        t.0@ == command_trace_spec(command@, request_id@),
{
    TraceId::for_command(command, request_id)
}

/// The trace id of an extension host RPC request.
pub fn ext_host_rpc_trace_id(request_id: &str) -> (t: TraceId)
    ensures
        t.0@ == command_trace_spec("extHostRpc"@, request_id@),
{
    TraceId::for_command("extHostRpc", request_id)
}

/// The unit a metric is reported in.
#[derive(Debug, Clone, Copy, PartialEq, Eq, Structural)]
pub enum MetricUnit {
    Count,
    Milliseconds,
    Bytes,
}

/// Why a set of metric events is not acceptable.
#[derive(Debug, Clone, PartialEq, Eq)]
pub enum MetricValidationError {
    MissingRequiredMetric(String),
    UnknownMetric(String),
    NonFiniteValue(String),
    InvalidUnit { name: String, expected: MetricUnit, actual: MetricUnit },
}

/// The unit each known metric is reported in.
pub open spec fn expected_unit_spec(name: Seq<char>) -> Option<MetricUnit> {
    if name == "channelCall.invocations"@ || name == "channelListen.active"@ || name == "channelEvent.delivered"@
        || name == "channelEvent.dropped"@ || name == "fileWrite.failures"@ || name == "fileWatch.active"@
        || name == "package.marker"@ {
        Some(MetricUnit::Count)
    } else if name == "bridge.roundTripMs"@ || name == "extensionHost.readyMs"@ || name == "workbench.readyMs"@
        || name == "terminal.spawnMs"@ || name == "bridge.serviceBootMs"@ {
        Some(MetricUnit::Milliseconds)
    } else {
        None
    }
}

/// The unit a known metric is reported in; `None` for an unknown metric.
pub fn expected_metric_unit(name: &str) -> (u: Option<MetricUnit>)
    ensures
        u == expected_unit_spec(name@),
{
    if str_eq(name, "channelCall.invocations") || str_eq(name, "channelListen.active") || str_eq(
        name,
        "channelEvent.delivered",
    ) || str_eq(name, "channelEvent.dropped") || str_eq(name, "fileWrite.failures") || str_eq(
        name,
        "fileWatch.active",
    ) || str_eq(name, "package.marker") {
        Some(MetricUnit::Count)
    } else if str_eq(name, "bridge.roundTripMs") || str_eq(name, "extensionHost.readyMs") || str_eq(
        name,
        "workbench.readyMs",
    ) || str_eq(name, "terminal.spawnMs") || str_eq(name, "bridge.serviceBootMs") {
        Some(MetricUnit::Milliseconds)
    } else {
        None
    }
}

/// Checks the name and unit of one metric event (whose value is finite).
pub fn validate_metric_unit(name: &str, unit: MetricUnit) -> (r: Result<(), MetricValidationError>)
    ensures
        match expected_unit_spec(name@) {
            None => r matches Err(MetricValidationError::UnknownMetric(n)) && n@ == name@,
            Some(u) => if u == unit { r is Ok } else {
                r matches Err(MetricValidationError::InvalidUnit { name: n, expected, actual })
                    && n@ == name@ && expected == u && actual == unit
            },
        },
{
    match expected_metric_unit(name) {
        None => Err(MetricValidationError::UnknownMetric(owned(name))),
        Some(expected) => {
            if expected == unit {
                Ok(())
            } else {
                Err(MetricValidationError::InvalidUnit { name: owned(name), expected, actual: unit })
            }
        },
    }
}

/// What validation reads of a metric event: its name, its unit, and
/// whether its value is a finite number.
#[derive(Debug, Clone, PartialEq, Eq)]
pub struct MetricRecord {
    pub name: String,
    pub unit: MetricUnit,
    pub finite: bool,
}

/// A validation error as mathematical values.
pub enum MetricErrorView {
    Missing(Seq<char>),
    Unknown(Seq<char>),
    NonFinite(Seq<char>),
    Invalid(Seq<char>, MetricUnit, MetricUnit),
}

pub open spec fn error_view(e: MetricValidationError) -> MetricErrorView {
    match e {
        MetricValidationError::MissingRequiredMetric(n) => MetricErrorView::Missing(n@),
        MetricValidationError::UnknownMetric(n) => MetricErrorView::Unknown(n@),
        MetricValidationError::NonFiniteValue(n) => MetricErrorView::NonFinite(n@),
        MetricValidationError::InvalidUnit { name, expected, actual } => MetricErrorView::Invalid(name@, expected, actual),
    }
}

/// What is wrong with one event, if anything: a value that is not finite,
/// then an unknown name, then a unit other than the name's.
pub open spec fn record_error(r: MetricRecord) -> Option<MetricErrorView> {
    if !r.finite {
        Some(MetricErrorView::NonFinite(r.name@))
    } else {
        match expected_unit_spec(r.name@) {
            None => Some(MetricErrorView::Unknown(r.name@)),
            Some(u) => if u == r.unit { None } else { Some(MetricErrorView::Invalid(r.name@, u, r.unit)) },
        }
    }
}

/// The metrics every bridge session must report, in the order they are
/// checked.
pub open spec fn required_metric_names() -> Seq<Seq<char>> {
    seq![
        "channelCall.invocations"@,
        "channelListen.active"@,
        "channelEvent.delivered"@,
        "channelEvent.dropped"@,
        "fileWrite.failures"@,
        "fileWatch.active"@,
        "bridge.roundTripMs"@,
        "extensionHost.readyMs"@,
        "workbench.readyMs"@,
    ]
}

pub open spec fn has_metric(records: Seq<MetricRecord>, name: Seq<char>) -> bool {
    exists|i: int| 0 <= i < records.len() && (#[trigger] records[i]).name@ == name
}

/// The first required name, from the `k`-th on, that no event carries.
pub open spec fn first_missing_from(records: Seq<MetricRecord>, k: int) -> Option<Seq<char>>
    decreases required_metric_names().len() - k,
{
    if k >= required_metric_names().len() {
        None
    } else if !has_metric(records, required_metric_names()[k]) {
        Some(required_metric_names()[k])
    } else {
        first_missing_from(records, k + 1)
    }
}

/// The error of the first faulty event, from the `i`-th on.
pub open spec fn first_error_from(records: Seq<MetricRecord>, i: int) -> Option<MetricErrorView>
    decreases records.len() - i,
{
    if i >= records.len() {
        None
    } else {
        match record_error(records[i]) {
            Some(e) => Some(e),
            None => first_error_from(records, i + 1),
        }
    }
}

/// What validating a set of events finds: the first required metric that
/// is missing; else the first faulty event's error; else nothing.
pub open spec fn validation_spec(records: Seq<MetricRecord>) -> Option<MetricErrorView> {
    match first_missing_from(records, 0) {
        Some(n) => Some(MetricErrorView::Missing(n)),
        None => first_error_from(records, 0),
    }
}

/// Checks one metric event.
pub fn validate_metric_event(record: &MetricRecord) -> (r: Result<(), MetricValidationError>)
    ensures
        match r {
            Ok(()) => record_error(*record) is None,
            Err(e) => record_error(*record) == Some(error_view(e)),
        },
{
    if !record.finite {
        return Err(MetricValidationError::NonFiniteValue(owned(record.name.as_str())));
    }
    validate_metric_unit(record.name.as_str(), record.unit)
}

fn carries_metric(records: &Vec<MetricRecord>, name: &str) -> (r: bool)
    ensures
        r == has_metric(records@, name@),
{
    let mut j: usize = 0;
    while j < records.len()
        invariant
            j <= records@.len(),
            forall|x: int| 0 <= x < j ==> (#[trigger] records@[x]).name@ != name@,
        decreases records@.len() - j,
    {
        if str_eq(records[j].name.as_str(), name) {
            return true;
        }
        j = j + 1;
    }
    false
}

/// Checks that every required metric was reported, then each event in
/// turn; the first failure is the answer.
pub fn validate_required_metrics(records: &Vec<MetricRecord>) -> (r: Result<(), MetricValidationError>)
    ensures
        match r {
            Ok(()) => validation_spec(records@) is None,
            Err(e) => validation_spec(records@) == Some(error_view(e)),
        },
{
    let names = required_bridge_metrics();
    assert(forall|k: int| 0 <= k < 9 ==> #[trigger] names@[k]@ == required_metric_names()[k]);
    let mut k: usize = 0;
    while k < names.len()
        invariant
            names@.len() == 9,
            k <= 9,
            forall|x: int| 0 <= x < 9 ==> #[trigger] names@[x]@ == required_metric_names()[x],
            first_missing_from(records@, 0) == first_missing_from(records@, k as int),
        decreases 9 - k,
    {
        if !carries_metric(records, names[k]) {
            return Err(MetricValidationError::MissingRequiredMetric(owned(names[k])));
        }
        k = k + 1;
    }
    let mut i: usize = 0;
    while i < records.len()
        invariant
            i <= records@.len(),
            first_missing_from(records@, 0) is None,
            first_error_from(records@, 0) == first_error_from(records@, i as int),
        decreases records@.len() - i,
    {
        match validate_metric_event(&records[i]) {
            Err(e) => return Err(e),
            Ok(()) => {},
        }
        i = i + 1;
    }
    Ok(())
}

/// The environment value shown in logs: the sidecar token is redacted,
/// everything else shown as is.
pub fn redact_env_value<'a>(name: &str, value: &'a str) -> (r: &'a str)
    ensures
        r@ == if name@ == SIDECAR_TOKEN_ENV_NAME@ { REDACTED_SECRET@ } else { value@ },
{
    if str_eq(name, SIDECAR_TOKEN_ENV_NAME) {
        REDACTED_SECRET
    } else {
        value
    }
}

/// The text that stands for a redacted sidecar token.
pub fn redacted_sidecar_token() -> (r: &'static str)
    ensures
        r@ == REDACTED_SECRET@,
{
    REDACTED_SECRET
}

pub open spec fn is_hex_digit(c: char) -> bool {
    ('0' <= c <= '9') || ('a' <= c <= 'f') || ('A' <= c <= 'F')
}

/// A sidecar handshake token: `vscode-atomic-` and at least sixteen hex digits.
pub open spec fn is_sidecar_token_spec(v: Seq<char>) -> bool {
    let prefix = "vscode-atomic-"@;
    starts_with(v, prefix) && v.len() - prefix.len() >= 16
        && forall|i: int| prefix.len() <= i < v.len() ==> is_hex_digit(#[trigger] v[i])
}

/// Whether a value is a sidecar handshake token.
pub fn is_sidecar_token_value(value: &Vec<char>) -> (r: bool)
    ensures
        r == is_sidecar_token_spec(value@),
{
    proof { reveal_strlit("vscode-atomic-"); }
    let prefix = chars_of("vscode-atomic-");
    if !starts_with_chars(value, &prefix) {
        return false;
    }
    if value.len() - prefix.len() < 16 {
        return false;
    }
    let mut i = prefix.len();
    while i < value.len()
        invariant
            prefix@ == "vscode-atomic-"@,
            prefix.len() <= i <= value.len(),
            forall|j: int| prefix@.len() <= j < i ==> is_hex_digit(#[trigger] value@[j]),
        decreases value.len() - i,
    {
        let c = value[i];
        if !(('0' <= c && c <= '9') || ('a' <= c && c <= 'f') || ('A' <= c && c <= 'F')) {
            return false;
        }
        i = i + 1;
    }
    true
}

/// Whitespace as `char::is_whitespace` defines it (the Unicode White_Space
/// property).
pub open spec fn is_white(c: char) -> bool {
    c == '\t' || c == '\n' || c == '\u{b}' || c == '\u{c}' || c == '\r' || c == ' ' || c == '\u{85}'
        || c == '\u{a0}' || c == '\u{1680}' || ('\u{2000}' <= c <= '\u{200a}') || c == '\u{2028}'
        || c == '\u{2029}' || c == '\u{202f}' || c == '\u{205f}' || c == '\u{3000}'
}

pub(crate) fn is_white_char(c: char) -> (r: bool)
    ensures
        r == is_white(c),
{
    c == '\t' || c == '\n' || c == '\u{b}' || c == '\u{c}' || c == '\r' || c == ' ' || c == '\u{85}'
        || c == '\u{a0}' || c == '\u{1680}' || ('\u{2000}' <= c && c <= '\u{200a}') || c == '\u{2028}'
        || c == '\u{2029}' || c == '\u{202f}' || c == '\u{205f}' || c == '\u{3000}'
}

/// Punctuation trimmed around a word before it is checked for a token.
pub open spec fn is_trim_punct(c: char) -> bool {
    c == ',' || c == ';' || c == ':' || c == ')' || c == '(' || c == '[' || c == ']' || c == '{' || c == '}'
}

fn is_trim_punct_char(c: char) -> (r: bool)
    ensures
        r == is_trim_punct(c),
{
    c == ',' || c == ';' || c == ':' || c == ')' || c == '(' || c == '[' || c == ']' || c == '{' || c == '}'
}

/// The words of `s`: its maximal runs of non-whitespace characters.
pub open spec fn words_from(s: Seq<char>, i: int, start: int, acc: Seq<Seq<char>>) -> Seq<Seq<char>>
    decreases s.len() - i,
{
    if i >= s.len() || i < 0 {
        if start < i && 0 <= start { acc.push(s.subrange(start, i)) } else { acc }
    } else if is_white(s[i]) {
        let acc2 = if 0 <= start < i { acc.push(s.subrange(start, i)) } else { acc };
        words_from(s, i + 1, i + 1, acc2)
    } else {
        words_from(s, i + 1, start, acc)
    }
}

pub open spec fn words(s: Seq<char>) -> Seq<Seq<char>> {
    words_from(s, 0, 0, seq![])
}

/// How many characters at the front of `w` are trimmed punctuation.
pub open spec fn lead_punct(w: Seq<char>) -> int
    decreases w.len(),
{
    if w.len() > 0 && is_trim_punct(w[0]) { 1 + lead_punct(w.drop_first()) } else { 0 }
}

/// How many characters at the back of `w` are trimmed punctuation.
pub open spec fn trail_punct(w: Seq<char>) -> int
    decreases w.len(),
{
    if w.len() > 0 && is_trim_punct(w.last()) { 1 + trail_punct(w.drop_last()) } else { 0 }
}

proof fn lemma_punct_bounds(w: Seq<char>)
    ensures
        0 <= lead_punct(w) <= w.len(),
        0 <= trail_punct(w) <= w.len(),
    decreases w.len(),
{
    if w.len() > 0 {
        lemma_punct_bounds(w.drop_first());
        lemma_punct_bounds(w.drop_last());
    }
}

/// One word with a token in it redacted (the punctuation around it kept).
pub open spec fn redact_word(w: Seq<char>) -> Seq<char> {
    let l = lead_punct(w);
    if l == w.len() {
        if is_sidecar_token_spec(seq![]) { "<redacted>"@ } else { w }
    } else {
        let t = trail_punct(w);
        let core = w.subrange(l, w.len() - t);
        if is_sidecar_token_spec(core) {
            w.take(l) + "<redacted>"@ + w.skip(w.len() - t)
        } else {
            w
        }
    }
}

/// Words joined by single spaces.
pub open spec fn join_words(ws: Seq<Seq<char>>) -> Seq<char>
    decreases ws.len(),
{
    if ws.len() == 0 {
        seq![]
    } else if ws.len() == 1 {
        ws[0]
    } else {
        join_words(ws.drop_last()) + " "@ + ws.last()
    }
}

/// A free text with every sidecar token redacted; its words end up joined
/// by single spaces.
pub open spec fn redact_token_values_spec(value: Seq<char>) -> Seq<char> {
    join_words(words(value).map_values(|w: Seq<char>| redact_word(w)))
}


proof fn lemma_lead_punct(w: Seq<char>, k: int)
    requires
        0 <= k <= w.len(),
        forall|j: int| 0 <= j < k ==> is_trim_punct(#[trigger] w[j]),
        k == w.len() || !is_trim_punct(w[k]),
    ensures
        lead_punct(w) == k,
    decreases k,
{
    if k > 0 {
        lemma_lead_punct(w.drop_first(), k - 1);
    }
}

proof fn lemma_trail_punct(w: Seq<char>, k: int)
    requires
        0 <= k <= w.len(),
        forall|j: int| w.len() - k <= j < w.len() ==> is_trim_punct(#[trigger] w[j]),
        k == w.len() || !is_trim_punct(w[w.len() - 1 - k]),
    ensures
        trail_punct(w) == k,
    decreases k,
{
    if k > 0 {
        let d = w.drop_last();
        assert forall|j: int| d.len() - (k - 1) <= j < d.len() implies is_trim_punct(#[trigger] d[j]) by {
            assert(d[j] == w[j]);
        }
        if k - 1 < d.len() {
            assert(d[d.len() - 1 - (k - 1)] == w[w.len() - 1 - k]);
        }
        lemma_trail_punct(d, k - 1);
    }
}

/// Redacts a token inside one word, keeping the punctuation around it.
fn redact_word_exec(w: &Vec<char>) -> (out: Vec<char>)
    ensures
        out@ == redact_word(w@),
{
    proof { reveal_strlit("<redacted>"); }
    let mut l: usize = 0;
    while l < w.len() && is_trim_punct_char(w[l])
        invariant
            l <= w.len(),
            forall|j: int| 0 <= j < l ==> is_trim_punct(#[trigger] w@[j]),
        decreases w.len() - l,
    {
        l = l + 1;
    }
    proof { lemma_lead_punct(w@, l as int); }
    let redacted = chars_of("<redacted>");
    if l == w.len() {
        let empty: Vec<char> = Vec::new();
        if is_sidecar_token_value(&empty) {
            return redacted;
        }
        return w.clone();
    }
    let mut t: usize = 0;
    while t < w.len() && is_trim_punct_char(w[w.len() - 1 - t])
        invariant
            t <= w.len(),
            forall|j: int| w.len() - t <= j < w.len() ==> is_trim_punct(#[trigger] w@[j]),
        decreases w.len() - t,
    {
        t = t + 1;
    }
    proof { lemma_trail_punct(w@, t as int); lemma_punct_bounds(w@); }
    if l > w.len() - t {
        proof { assert(false) by {
            assert(!is_trim_punct(w@[l as int]));
        } }
        return w.clone();
    }
    let mut core: Vec<char> = Vec::new();
    let mut i = l;
    while i < w.len() - t
        invariant
            l <= i <= w.len() - t,
            t <= w.len(),
            core@ == w@.subrange(l as int, i as int),
        decreases w.len() - t - i,
    {
        core.push(w[i]);
        proof { assert(w@.subrange(l as int, i + 1) =~= w@.subrange(l as int, i as int).push(w@[i as int])); }
        i = i + 1;
    }
    if !is_sidecar_token_value(&core) {
        return w.clone();
    }
    let mut out: Vec<char> = Vec::new();
    let mut j: usize = 0;
    while j < l
        invariant
            j <= l,
            l <= w.len(),
            out@ == w@.take(j as int),
        decreases l - j,
    {
        out.push(w[j]);
        proof { assert(w@.take(j + 1) =~= w@.take(j as int).push(w@[j as int])); }
        j = j + 1;
    }
    let mut k: usize = 0;
    while k < redacted.len()
        invariant
            k <= redacted.len(),
            out@ == w@.take(l as int) + redacted@.take(k as int),
        decreases redacted.len() - k,
    {
        out.push(redacted[k]);
        proof { assert(redacted@.take(k + 1) =~= redacted@.take(k as int).push(redacted@[k as int])); }
        k = k + 1;
    }
    let mut m = w.len() - t;
    proof { assert(redacted@.take(redacted@.len() as int) =~= redacted@); }
    while m < w.len()
        invariant
            t <= w.len(),
            w.len() - t <= m <= w.len(),
            out@ == w@.take(l as int) + redacted@ + w@.subrange(w.len() - t, m as int),
        decreases w.len() - m,
    {
        out.push(w[m]);
        proof {
            assert(w@.subrange(w.len() - t, m + 1) =~= w@.subrange(w.len() - t, m as int).push(w@[m as int]));
        }
        m = m + 1;
    }
    proof { assert(w@.subrange(w.len() - t, w.len() as int) =~= w@.skip(w.len() - t)); }
    out
}

/// Redacts every sidecar token in a free text; the words of the text are
/// joined by single spaces.
pub fn redact_token_values(value: &str) -> (out: String)
    ensures
        out@ == redact_token_values_spec(value@),
{
    let s = chars_of(value);
    let mut ws: Vec<Vec<char>> = Vec::new();
    let mut start: usize = 0;
    let mut i: usize = 0;
    proof { assert(ws@.map_values(|v: Vec<char>| v@) =~= Seq::<Seq<char>>::empty()); }
    while i < s.len()
        invariant
            start <= i <= s.len(),
            s@ == value@,
            words(s@) == words_from(s@, i as int, start as int, ws@.map_values(|v: Vec<char>| v@)),
        decreases s.len() - i,
    {
        if is_white_char(s[i]) {
            if start < i {
                let mut w: Vec<char> = Vec::new();
                let mut k = start;
                while k < i
                    invariant
                        start <= k <= i,
                        i <= s.len(),
                        w@ == s@.subrange(start as int, k as int),
                    decreases i - k,
                {
                    w.push(s[k]);
                    proof { assert(s@.subrange(start as int, k + 1) =~= s@.subrange(start as int, k as int).push(s@[k as int])); }
                    k = k + 1;
                }
                let ghost before = ws@;
                ws.push(w);
                proof { assert(ws@.map_values(|v: Vec<char>| v@) =~= before.map_values(|v: Vec<char>| v@).push(s@.subrange(start as int, i as int))); }
            }
            start = i + 1;
        }
        i = i + 1;
    }
    if start < i {
        let mut w: Vec<char> = Vec::new();
        let mut k = start;
        while k < i
            invariant
                start <= k <= i,
                i <= s.len(),
                w@ == s@.subrange(start as int, k as int),
            decreases i - k,
        {
            w.push(s[k]);
            proof { assert(s@.subrange(start as int, k + 1) =~= s@.subrange(start as int, k as int).push(s@[k as int])); }
            k = k + 1;
        }
        let ghost before = ws@;
        ws.push(w);
        proof { assert(ws@.map_values(|v: Vec<char>| v@) =~= before.map_values(|v: Vec<char>| v@).push(s@.subrange(start as int, i as int))); }
    }
    let ghost wv = ws@.map_values(|v: Vec<char>| v@);
    proof { assert(words(s@) == wv); }
    let mut out = String::new();
    let mut j: usize = 0;
    while j < ws.len()
        invariant
            j <= ws.len(),
            wv == ws@.map_values(|v: Vec<char>| v@),
            out@ == join_words(wv.take(j as int).map_values(|w: Seq<char>| redact_word(w))),
        decreases ws.len() - j,
    {
        let r = redact_word_exec(&ws[j]);
        let ghost prev = out@;
        if j > 0 {
            push_char(&mut out, ' ');
        }
        let rs = string_from_chars(&r);
        push_str(&mut out, rs.as_str());
        proof {
            let m = wv.take(j + 1).map_values(|w: Seq<char>| redact_word(w));
            assert(m.drop_last() =~= wv.take(j as int).map_values(|w: Seq<char>| redact_word(w)));
            assert(m.last() == r@);
            if j > 0 {
                assert(out@ =~= prev + " "@ + r@) by { reveal_strlit(" "); }
            } else {
                assert(m.len() == 1);
                assert(out@ =~= r@);
            }
        }
        j = j + 1;
    }
    proof { assert(wv.take(wv.len() as int) =~= wv); }
    out
}


pub open spec fn ends_with(s: Seq<char>, p: Seq<char>) -> bool {
    p.len() <= s.len() && s.skip(s.len() - p.len()) == p
}

fn ends_with_chars(s: &Vec<char>, p: &Vec<char>) -> (r: bool)
    ensures
        r == ends_with(s@, p@),
{
    if p.len() > s.len() {
        return false;
    }
    let at = s.len() - p.len();
    let r = crate::text::occurs_at(s, p, at);
    proof { assert(s@.subrange(at as int, at + p.len()) =~= s@.skip(at as int)); }
    r
}

/// A path-like value that is redacted in logs: absolute, home-relative,
/// a file URI, or naming a user directory.
pub open spec fn is_path_like(v: Seq<char>) -> bool {
    starts_with(v, "/"@) || starts_with(v, "~/"@) || starts_with(v, "file://"@) || contains_seq(v, "/Users/"@)
        || contains_seq(v, "/home/"@) || contains_seq(v, "\\Users\\"@)
}

/// The value shown in logs for a path: path-like values are redacted.
pub fn redact_path_value<'a>(value: &'a str) -> (r: &'a str)
    ensures
        r@ == if is_path_like(value@) { REDACTED_SECRET@ } else { value@ },
{
    let v = chars_of(value);
    if starts_with_chars(&v, &chars_of("/")) || starts_with_chars(&v, &chars_of("~/")) || starts_with_chars(
        &v,
        &chars_of("file://"),
    ) || contains_chars(&v, &chars_of("/Users/")) || contains_chars(&v, &chars_of("/home/")) || contains_chars(
        &v,
        &chars_of("\\Users\\"),
    ) {
        REDACTED_SECRET
    } else {
        value
    }
}

pub open spec fn is_ascii_alnum(c: char) -> bool {
    ('a' <= c <= 'z') || ('A' <= c <= 'Z') || ('0' <= c <= '9')
}

/// A key with everything but ASCII letters and digits dropped, lower-cased.
pub open spec fn normalize_key(s: Seq<char>) -> Seq<char>
    decreases s.len(),
{
    if s.len() == 0 {
        seq![]
    } else {
        let r = normalize_key(s.drop_last());
        if is_ascii_alnum(s.last()) { r.push(crate::file_uri::ascii_lower(s.last())) } else { r }
    }
}

fn normalize_key_exec(key: &str) -> (out: Vec<char>)
    ensures
        out@ == normalize_key(key@),
{
    let cs = chars_of(key);
    let mut out: Vec<char> = Vec::new();
    let mut i: usize = 0;
    while i < cs.len()
        invariant
            i <= cs.len(),
            cs@ == key@,
            out@ == normalize_key(cs@.take(i as int)),
        decreases cs.len() - i,
    {
        let c = cs[i];
        proof {
            assert(cs@.take(i + 1).drop_last() =~= cs@.take(i as int));
            assert(cs@.take(i + 1).last() == c);
        }
        if ('a' <= c && c <= 'z') || ('A' <= c && c <= 'Z') || ('0' <= c && c <= '9') {
            let l = if 'A' <= c && c <= 'Z' { ((c as u8) + 32) as char } else { c };
            proof { if 'A' <= c && c <= 'Z' { assert(((c as u8) + 32) as u32 == (c as u32) + 32); } }
            out.push(l);
        }
        i = i + 1;
    }
    proof { assert(cs@.take(cs@.len() as int) =~= cs@); }
    out
}

/// Keys whose values are secrets or file contents.
pub open spec fn is_sensitive_key_spec(key: Seq<char>) -> bool {
    let n = normalize_key(key);
    contains_seq(n, "token"@) || contains_seq(n, "credential"@) || contains_seq(n, "password"@)
        || contains_seq(n, "secret"@) || contains_seq(n, "signing"@) || contains_seq(n, "signature"@)
        || contains_seq(n, "privatekey"@) || n == "database64"@ || n == "filecontents"@ || n == "content"@
        || n == "contents"@ || n == "payload"@ || n == "extensionpayload"@
}

/// Whether the value under this key is a secret or file contents.
pub fn is_sensitive_key(key: &str) -> (r: bool)
    ensures
        r == is_sensitive_key_spec(key@),
{
    let n = normalize_key_exec(key);
    let s = string_from_chars(&n);
    let ns = s.as_str();
    contains_chars(&n, &chars_of("token")) || contains_chars(&n, &chars_of("credential")) || contains_chars(
        &n,
        &chars_of("password"),
    ) || contains_chars(&n, &chars_of("secret")) || contains_chars(&n, &chars_of("signing")) || contains_chars(
        &n,
        &chars_of("signature"),
    ) || contains_chars(&n, &chars_of("privatekey")) || str_eq(ns, "database64") || str_eq(ns, "filecontents")
        || str_eq(ns, "content") || str_eq(ns, "contents") || str_eq(ns, "payload") || str_eq(ns, "extensionpayload")
}

/// Keys whose values are paths or URIs.
pub open spec fn is_sensitive_path_key_spec(key: Seq<char>) -> bool {
    let n = normalize_key(key);
    n == "path"@ || n == "filepath"@ || n == "filename"@ || n == "resource"@ || n == "uri"@ || ends_with(n, "path"@)
        || ends_with(n, "uri"@)
}

/// Whether the value under this key is a path or a URI.
pub fn is_sensitive_path_key(key: &str) -> (r: bool)
    ensures
        r == is_sensitive_path_key_spec(key@),
{
    let n = normalize_key_exec(key);
    let s = string_from_chars(&n);
    let ns = s.as_str();
    str_eq(ns, "path") || str_eq(ns, "filepath") || str_eq(ns, "filename") || str_eq(ns, "resource") || str_eq(
        ns,
        "uri",
    ) || ends_with_chars(&n, &chars_of("path")) || ends_with_chars(&n, &chars_of("uri"))
}

/// Outcome of a runtime dependency check.
#[derive(Debug, Clone, Copy, PartialEq, Eq, Structural)]
pub enum RuntimeDependencyPreflightStatus {
    Pass,
    Fail,
}

/// The runtime dependencies checked before launch.
#[derive(Debug, Clone, Copy, PartialEq, Eq, Structural)]
pub enum RuntimeDependencyKind {
    PkgConfig,
    GtkGlibWebKitGtk,
    Tsgo,
    EslintPluginImport,
}

pub open spec fn display_name_spec(k: RuntimeDependencyKind) -> Seq<char> {
    match k {
        RuntimeDependencyKind::PkgConfig => "pkg-config"@,
        RuntimeDependencyKind::GtkGlibWebKitGtk => "GTK/GLib/WebKitGTK"@,
        RuntimeDependencyKind::Tsgo => "tsgo"@,
        RuntimeDependencyKind::EslintPluginImport => "ESLint plugin import"@,
    }
}

impl RuntimeDependencyKind {
    /// The human readable name of the dependency.
    pub fn display_name(self) -> (s: &'static str)
        ensures
            s@ == display_name_spec(self),
    {
        match self {
            RuntimeDependencyKind::PkgConfig => "pkg-config",
            RuntimeDependencyKind::GtkGlibWebKitGtk => "GTK/GLib/WebKitGTK",
            RuntimeDependencyKind::Tsgo => "tsgo",
            RuntimeDependencyKind::EslintPluginImport => "ESLint plugin import",
        }
    }
}

/// One check of a runtime dependency.
#[derive(Debug, Clone, PartialEq, Eq)]
pub struct RuntimeDependencyPreflightCheck {
    pub name: String,
    pub status: RuntimeDependencyPreflightStatus,
    pub version: Option<String>,
    pub detail: Option<String>,
}

impl RuntimeDependencyPreflightCheck {
    /// A passed check, with the version found.
    pub fn pass(name: &str, version: Option<&str>) -> (c: RuntimeDependencyPreflightCheck)
        ensures
            c.name@ == name@,
            c.status == RuntimeDependencyPreflightStatus::Pass,
            c.version matches Some(v) ==> version matches Some(w) && v@ == w@,
            c.version is None <==> version is None,
            c.detail is None,
    {
        RuntimeDependencyPreflightCheck {
            name: owned(name),
            status: RuntimeDependencyPreflightStatus::Pass,
            version: match version { Some(v) => Some(owned(v)), None => None },
            detail: None,
        }
    }

    /// A failed check, with what went wrong.
    pub fn fail(name: &str, detail: &str) -> (c: RuntimeDependencyPreflightCheck)
        ensures
            c.name@ == name@,
            c.status == RuntimeDependencyPreflightStatus::Fail,
            c.version is None,
            c.detail matches Some(d) && d@ == detail@,
    {
        RuntimeDependencyPreflightCheck {
            name: owned(name),
            status: RuntimeDependencyPreflightStatus::Fail,
            version: None,
            detail: Some(owned(detail)),
        }
    }
}

/// Totals of a runtime dependency preflight.
#[derive(Debug, Clone, PartialEq, Eq)]
pub struct RuntimeDependencyPreflightSummary {
    pub status: RuntimeDependencyPreflightStatus,
    pub passed: usize,
    pub failed: usize,
    pub total: usize,
    pub message: String,
}

/// A runtime dependency preflight, ready to be logged.
#[derive(Debug, Clone, PartialEq, Eq)]
pub struct RuntimeDependencyPreflightEvent {
    pub trace_id: TraceId,
    pub name: String,
    pub dependency: RuntimeDependencyKind,
    pub status: RuntimeDependencyPreflightStatus,
    pub summary: RuntimeDependencyPreflightSummary,
    pub checks: Vec<RuntimeDependencyPreflightCheck>,
}

/// How many checks failed.
pub open spec fn count_failed(checks: Seq<RuntimeDependencyPreflightCheck>) -> nat
    decreases checks.len(),
{
    if checks.len() == 0 {
        0
    } else {
        count_failed(checks.drop_last()) + if checks.last().status == RuntimeDependencyPreflightStatus::Fail {
            1nat
        } else {
            0nat
        }
    }
}

proof fn lemma_count_failed_bound(checks: Seq<RuntimeDependencyPreflightCheck>)
    ensures
        count_failed(checks) <= checks.len(),
    decreases checks.len(),
{
    if checks.len() > 0 {
        lemma_count_failed_bound(checks.drop_last());
    }
}

pub open spec fn status_label(s: RuntimeDependencyPreflightStatus) -> Seq<char> {
    match s {
        RuntimeDependencyPreflightStatus::Pass => "pass"@,
        RuntimeDependencyPreflightStatus::Fail => "fail"@,
    }
}

/// `<name> preflight <status>: <passed>/<total> passed, <failed> failed`.
pub open spec fn summary_message(
    dependency: RuntimeDependencyKind,
    status: RuntimeDependencyPreflightStatus,
    passed: nat,
    failed: nat,
    total: nat,
) -> Seq<char> {
    display_name_spec(dependency) + " preflight "@ + status_label(status) + ": "@ + decimal(passed) + "/"@
        + decimal(total) + " passed, "@ + decimal(failed) + " failed"@
}

fn format_runtime_dependency_preflight_summary(
    dependency: RuntimeDependencyKind,
    status: RuntimeDependencyPreflightStatus,
    passed: usize,
    failed: usize,
    total: usize,
) -> (m: String)
    ensures
        m@ == summary_message(dependency, status, passed as nat, failed as nat, total as nat),
{
    let label = match status {
        RuntimeDependencyPreflightStatus::Pass => "pass",
        RuntimeDependencyPreflightStatus::Fail => "fail",
    };
    let mut m = owned(dependency.display_name());
    push_str(&mut m, " preflight ");
    push_str(&mut m, label);
    push_str(&mut m, ": ");
    push_decimal(&mut m, passed as u64);
    push_str(&mut m, "/");
    push_decimal(&mut m, total as u64);
    push_str(&mut m, " passed, ");
    push_decimal(&mut m, failed as u64);
    push_str(&mut m, " failed");
    m
}

/// Summarises the checks of one dependency: it passes when no check failed.
pub fn summarize_runtime_dependency_preflight(
    dependency: RuntimeDependencyKind,
    checks: &Vec<RuntimeDependencyPreflightCheck>,
) -> (s: RuntimeDependencyPreflightSummary)
    ensures
        s.failed == count_failed(checks@),
        s.total == checks@.len(),
        s.passed == s.total - s.failed,
        s.status == if s.failed == 0 { RuntimeDependencyPreflightStatus::Pass } else {
            RuntimeDependencyPreflightStatus::Fail
        },
        s.message@ == summary_message(dependency, s.status, s.passed as nat, s.failed as nat, s.total as nat),
{
    let mut failed: usize = 0;
    let mut i: usize = 0;
    while i < checks.len()
        invariant
            i <= checks.len(),
            failed == count_failed(checks@.take(i as int)),
            failed <= i,
        decreases checks.len() - i,
    {
        proof {
            assert(checks@.take(i + 1).drop_last() =~= checks@.take(i as int));
            assert(checks@.take(i + 1).last() == checks@[i as int]);
        }
        match checks[i].status {
            RuntimeDependencyPreflightStatus::Fail => { failed = failed + 1; },
            RuntimeDependencyPreflightStatus::Pass => {},
        }
        i = i + 1;
    }
    proof { assert(checks@.take(checks@.len() as int) =~= checks@); }
    let total = checks.len();
    let passed = total - failed;
    let status = if failed == 0 { RuntimeDependencyPreflightStatus::Pass } else { RuntimeDependencyPreflightStatus::Fail };
    RuntimeDependencyPreflightSummary {
        status,
        passed,
        failed,
        total,
        message: format_runtime_dependency_preflight_summary(dependency, status, passed, failed, total),
    }
}

/// The preflight event of one dependency, with its summary.
pub fn runtime_dependency_preflight_event(
    trace_id: TraceId,
    dependency: RuntimeDependencyKind,
    checks: Vec<RuntimeDependencyPreflightCheck>,
) -> (e: RuntimeDependencyPreflightEvent)
    ensures
        e.trace_id == trace_id,
        e.name@ == RUNTIME_DEPENDENCY_PREFLIGHT_EVENT_NAME@,
        e.dependency == dependency,
        e.checks == checks,
        e.status == e.summary.status,
        e.summary.failed == count_failed(checks@),
        e.summary.total == checks@.len(),
        e.summary.passed == e.summary.total - e.summary.failed,
        e.summary.status == if e.summary.failed == 0 { RuntimeDependencyPreflightStatus::Pass } else {
            RuntimeDependencyPreflightStatus::Fail
        },
        e.summary.message@ == summary_message(
            dependency,
            e.summary.status,
            e.summary.passed as nat,
            e.summary.failed as nat,
            e.summary.total as nat,
        ),
{
    let summary = summarize_runtime_dependency_preflight(dependency, &checks);
    RuntimeDependencyPreflightEvent {
        trace_id,
        name: owned(RUNTIME_DEPENDENCY_PREFLIGHT_EVENT_NAME),
        dependency,
        status: summary.status,
        summary,
        checks,
    }
}

/// The trace id of a dependency preflight, numbered by the counter, which
/// moves on by one.
pub fn runtime_dependency_preflight_trace_id(counter: &mut TraceIdCounter, dependency: RuntimeDependencyKind) -> (t: TraceId)
    ensures
        t.0@ == trace_id_spec(
            "runtimeDependency-preflight-"@ + stable_token_spec(display_name_spec(dependency)),
            old(counter)@,
        ),
        final(counter)@ == old(counter)@.wrapping_add(1),
{
    let token = stable_token(dependency.display_name());
    let scope = concat2("runtimeDependency-preflight-", token.as_str());
    TraceId::new(counter, scope.as_str())
}

/// An open question about crash reporting, kept where the reporter would go.
#[derive(Debug, Clone, PartialEq, Eq)]
pub struct CrashReporterPlaceholder {
    pub owner_question: &'static str,
}

impl Default for CrashReporterPlaceholder {
    fn default() -> (p: Self)
        ensures
            p.owner_question@ == "Who owns the Tauri crash reporter replacement and upload pipeline?"@,
    {
        CrashReporterPlaceholder {
            owner_question: "Who owns the Tauri crash reporter replacement and upload pipeline?",
        }
    }
}


/// `r` is `v` with secrets redacted: values under sensitive keys become
/// `<redacted>`, values under path keys have their paths redacted, and
/// strings elsewhere have their sidecar tokens redacted.
pub open spec fn redacted_json(v: JsonValue, r: JsonValue) -> bool
    decreases v,
{
    match v {
        JsonValue::Object(e) => match r {
            JsonValue::Object(f) => {
                &&& f@.len() == e@.len()
                &&& forall|i: int| 0 <= i < e@.len() ==> (#[trigger] f@[i]).0@ == e@[i].0@ && {
                    let k = e@[i].0@;
                    if is_sensitive_key_spec(k) {
                        f@[i].1 matches JsonValue::String(s) && s@ == REDACTED_SECRET@
                    } else if is_sensitive_path_key_spec(k) {
                        redacted_path_json(e@[i].1, f@[i].1)
                    } else {
                        redacted_json(e@[i].1, f@[i].1)
                    }
                }
            },
            _ => false,
        },
        JsonValue::Array(a) => match r {
            JsonValue::Array(b) => b@.len() == a@.len() && forall|i: int| 0 <= i < a@.len() ==> redacted_json(a@[i], #[trigger] b@[i]),
            _ => false,
        },
        JsonValue::String(s) => r matches JsonValue::String(t) && t@ == redact_token_values_spec(s@),
        JsonValue::Null => r == JsonValue::Null,
        JsonValue::Bool(b) => r == JsonValue::Bool(b),
        JsonValue::Number(n) => r matches JsonValue::Number(m) && m@ == n@,
    }
}

/// `r` is `v` with path-like strings redacted, through objects (whose path
/// keys stay path-redacted and other keys get the general redaction) and
/// arrays.
pub open spec fn redacted_path_json(v: JsonValue, r: JsonValue) -> bool
    decreases v,
{
    match v {
        JsonValue::String(s) => r matches JsonValue::String(t) && t@ == if is_path_like(s@) { REDACTED_SECRET@ } else { s@ },
        JsonValue::Object(e) => match r {
            JsonValue::Object(f) => {
                &&& f@.len() == e@.len()
                &&& forall|i: int| 0 <= i < e@.len() ==> (#[trigger] f@[i]).0@ == e@[i].0@ && if is_sensitive_path_key_spec(e@[i].0@) {
                    redacted_path_json(e@[i].1, f@[i].1)
                } else {
                    redacted_json(e@[i].1, f@[i].1)
                }
            },
            _ => false,
        },
        JsonValue::Array(a) => match r {
            JsonValue::Array(b) => b@.len() == a@.len() && forall|i: int| 0 <= i < a@.len() ==> redacted_path_json(a@[i], #[trigger] b@[i]),
            _ => false,
        },
        JsonValue::Null => r == JsonValue::Null,
        JsonValue::Bool(b) => r == JsonValue::Bool(b),
        JsonValue::Number(n) => r matches JsonValue::Number(m) && m@ == n@,
    }
}


fn redacted_string() -> (v: JsonValue)
    ensures
        v matches JsonValue::String(s) && s@ == REDACTED_SECRET@,
{
    JsonValue::String(owned(REDACTED_SECRET))
}

/// Redacts secrets in a JSON value: see [`redacted_json`].
pub fn redact_json_value(value: &JsonValue) -> (r: JsonValue)
    ensures
        redacted_json(*value, r),
    decreases value,
{
    match value {
        JsonValue::Object(entries) => {
            let mut out: Vec<(String, JsonValue)> = Vec::new();
            let mut i: usize = 0;
            while i < entries.len()
                invariant
                    i <= entries.len(),
                    out@.len() == i,
                    *value == JsonValue::Object(*entries),
                    forall|j: int| 0 <= j < i ==> (#[trigger] out@[j]).0@ == entries@[j].0@ && {
                        let k = entries@[j].0@;
                        if is_sensitive_key_spec(k) {
                            out@[j].1 matches JsonValue::String(s) && s@ == REDACTED_SECRET@
                        } else if is_sensitive_path_key_spec(k) {
                            redacted_path_json(entries@[j].1, out@[j].1)
                        } else {
                            redacted_json(entries@[j].1, out@[j].1)
                        }
                    },
                decreases entries.len() - i,
            {
                let key = &entries[i].0;
                let child = &entries[i].1;
                proof {
                    assert(decreases_to!(*value => value->Object_0));
                    assert(decreases_to!(*entries => entries@));
                    assert(decreases_to!(entries@ => entries@[i as int]));
                    assert(decreases_to!(entries@[i as int] => entries@[i as int].1));
                    assert(decreases_to!(*value => entries@[i as int].1));
                }
                let redacted = if is_sensitive_key(key.as_str()) {
                    redacted_string()
                } else if is_sensitive_path_key(key.as_str()) {
                    redact_path_json_value(child)
                } else {
                    redact_json_value(child)
                };
                out.push((key.clone(), redacted));
                i = i + 1;
            }
            JsonValue::Object(out)
        },
        JsonValue::Array(items) => {
            let mut out: Vec<JsonValue> = Vec::new();
            let mut i: usize = 0;
            while i < items.len()
                invariant
                    i <= items.len(),
                    out@.len() == i,
                    *value == JsonValue::Array(*items),
                    forall|j: int| 0 <= j < i ==> redacted_json(items@[j], #[trigger] out@[j]),
                decreases items.len() - i,
            {
                proof {
                    assert(decreases_to!(*value => value->Array_0));
                    assert(decreases_to!(*items => items@));
                    assert(decreases_to!(items@ => items@[i as int]));
                    assert(decreases_to!(*value => items@[i as int]));
                }
                out.push(redact_json_value(&items[i]));
                i = i + 1;
            }
            JsonValue::Array(out)
        },
        JsonValue::String(s) => JsonValue::String(redact_token_values(s.as_str())),
        JsonValue::Null => JsonValue::Null,
        JsonValue::Bool(b) => JsonValue::Bool(*b),
        JsonValue::Number(n) => JsonValue::Number(n.clone()),
    }
}

/// Redacts paths in a JSON value found under a path key: see
/// [`redacted_path_json`].
pub fn redact_path_json_value(value: &JsonValue) -> (r: JsonValue)
    ensures
        redacted_path_json(*value, r),
    decreases value,
{
    match value {
        JsonValue::String(s) => JsonValue::String(owned(redact_path_value(s.as_str()))),
        JsonValue::Object(entries) => {
            let mut out: Vec<(String, JsonValue)> = Vec::new();
            let mut i: usize = 0;
            while i < entries.len()
                invariant
                    i <= entries.len(),
                    out@.len() == i,
                    *value == JsonValue::Object(*entries),
                    forall|j: int| 0 <= j < i ==> (#[trigger] out@[j]).0@ == entries@[j].0@ && if is_sensitive_path_key_spec(entries@[j].0@) {
                        redacted_path_json(entries@[j].1, out@[j].1)
                    } else {
                        redacted_json(entries@[j].1, out@[j].1)
                    },
                decreases entries.len() - i,
            {
                let key = &entries[i].0;
                let child = &entries[i].1;
                proof {
                    assert(decreases_to!(*value => value->Object_0));
                    assert(decreases_to!(*entries => entries@));
                    assert(decreases_to!(entries@ => entries@[i as int]));
                    assert(decreases_to!(entries@[i as int] => entries@[i as int].1));
                    assert(decreases_to!(*value => entries@[i as int].1));
                }
                let redacted = if is_sensitive_path_key(key.as_str()) {
                    redact_path_json_value(child)
                } else {
                    redact_json_value(child)
                };
                out.push((key.clone(), redacted));
                i = i + 1;
            }
            JsonValue::Object(out)
        },
        JsonValue::Array(items) => {
            let mut out: Vec<JsonValue> = Vec::new();
            let mut i: usize = 0;
            while i < items.len()
                invariant
                    i <= items.len(),
                    out@.len() == i,
                    *value == JsonValue::Array(*items),
                    forall|j: int| 0 <= j < i ==> redacted_path_json(items@[j], #[trigger] out@[j]),
                decreases items.len() - i,
            {
                proof {
                    assert(decreases_to!(*value => value->Array_0));
                    assert(decreases_to!(*items => items@));
                    assert(decreases_to!(items@ => items@[i as int]));
                    assert(decreases_to!(*value => items@[i as int]));
                }
                out.push(redact_path_json_value(&items[i]));
                i = i + 1;
            }
            JsonValue::Array(out)
        },
        JsonValue::Null => JsonValue::Null,
        JsonValue::Bool(b) => JsonValue::Bool(*b),
        JsonValue::Number(n) => JsonValue::Number(n.clone()),
    }
}

} // verus!
