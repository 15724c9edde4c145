//! Log levels, console loggers and their registry, output channels, and
//! the telemetry service that does nothing.
use vstd::prelude::*;
use crate::text::{concat2, owned, str_eq};

use crate::events::{without_key, ListenerRegistry};

verus! {

/// How severe a log message is; `Off` as a logger's level silences it.
#[derive(Debug, Clone, Copy, PartialEq, Eq, Structural)]
pub enum LogLevel {
    Off,
    Trace,
    Debug,
    Info,
    Warning,
    Error,
    Critical,
}

/// The rank of a level, from `Off` (0) to `Critical` (6).
pub open spec fn level_rank(l: LogLevel) -> nat {
    match l {
        LogLevel::Off => 0,
        LogLevel::Trace => 1,
        LogLevel::Debug => 2,
        LogLevel::Info => 3,
        LogLevel::Warning => 4,
        LogLevel::Error => 5,
        LogLevel::Critical => 6,
    }
}

impl LogLevel {
    /// The level's rank.
    pub fn rank(self) -> (r: u8)
        ensures
            r == level_rank(self),
    {
        match self {
            LogLevel::Off => 0,
            LogLevel::Trace => 1,
            LogLevel::Debug => 2,
            LogLevel::Info => 3,
            LogLevel::Warning => 4,
            LogLevel::Error => 5,
            LogLevel::Critical => 6,
        }
    }
}

/// Whether a logger at `level` writes a message of `message_level`: not
/// when it is off, and only messages at least as severe as its level.
pub open spec fn emits(level: LogLevel, message_level: LogLevel) -> bool {
    level != LogLevel::Off && level_rank(message_level) >= level_rank(level)
}

/// A logger that writes to the console, named, with a level.
pub struct ConsoleLogger {
    name: String,
    level: LogLevel,
}

impl ConsoleLogger {
    pub closed spec fn name_view(&self) -> Seq<char> {
        self.name@
    }

    pub closed spec fn level_view(&self) -> LogLevel {
        self.level
    }

    pub fn new(name: &str, level: LogLevel) -> (l: ConsoleLogger)
        ensures
            l.name_view() == name@,
            l.level_view() == level,
    {
        ConsoleLogger { name: owned(name), level }
    }

    /// The logger's name.
    pub fn name(&self) -> (r: &str)
        ensures
            r@ == self.name_view(),
    {
        self.name.as_str()
    }

    /// Whether a message of this level is written.
    pub fn should_emit(&self, message_level: LogLevel) -> (r: bool)
        ensures
            r == emits(self.level_view(), message_level),
    {
        self.level != LogLevel::Off && message_level.rank() >= self.level.rank()
    }

    pub fn set_level(&mut self, level: LogLevel)
        ensures
            final(self).level_view() == level,
            final(self).name_view() == old(self).name_view(),
    {
        self.level = level;
    }

    pub fn get_level(&self) -> (r: LogLevel)
        ensures
            r == self.level_view(),
    {
        self.level
    }
}

/// The text an output channel holds, in the pieces it was given, and the
/// listeners told of each change.
pub struct OutputChannel {
    name: String,
    lines: Vec<String>,
    listeners: ListenerRegistry,
}

pub open spec fn line_views(v: Seq<String>) -> Seq<Seq<char>> {
    v.map_values(|s: String| s@)
}

impl OutputChannel {
    pub closed spec fn lines_view(&self) -> Seq<Seq<char>> {
        line_views(self.lines@)
    }

    /// The listeners of changes.
    pub closed spec fn listeners(&self) -> ListenerRegistry {
        self.listeners
    }

    pub closed spec fn wf(&self) -> bool {
        self.listeners.wf()
    }

    pub closed spec fn name_view(&self) -> Seq<char> {
        self.name@
    }

    /// The channel's name.
    pub fn name(&self) -> (r: &str)
        ensures
            r@ == self.name_view(),
    {
        self.name.as_str()
    }

    pub fn new(name: &str) -> (c: OutputChannel)
        ensures
            c.wf(),
            c.name_view() == name@,
            c.lines_view() == Seq::<Seq<char>>::empty(),
            c.listeners().keys() == Seq::<u64>::empty(),
            c.listeners().next_key() == 0,
    {
        let c = OutputChannel { name: owned(name), lines: Vec::new(), listeners: ListenerRegistry::new() };
        proof { assert(line_views(c.lines@) =~= Seq::<Seq<char>>::empty()); }
        c
    }

    /// Whether another listener can be added.
    pub fn can_listen(&self) -> (r: bool)
        ensures
            r == (self.listeners().next_key() < u64::MAX),
    {
        self.listeners.can_add()
    }

    /// Subscribes to change events; returns the listener's key, which the
    /// changes name from now on.
    pub fn on_did_change(&mut self) -> (key: u64)
        requires
            old(self).wf(),
            old(self).listeners().next_key() < u64::MAX,
        ensures
            final(self).wf(),
            final(self).lines_view() == old(self).lines_view(),
            final(self).name_view() == old(self).name_view(),
            key == old(self).listeners().next_key(),
            final(self).listeners().keys() == old(self).listeners().keys().push(key),
            final(self).listeners().next_key() == old(self).listeners().next_key() + 1,
    {
        self.listeners.add()
    }

    /// Unsubscribes a listener.
    pub fn remove_listener(&mut self, key: u64)
        requires
            old(self).wf(),
        ensures
            final(self).wf(),
            final(self).lines_view() == old(self).lines_view(),
            final(self).name_view() == old(self).name_view(),
            final(self).listeners().keys() == old(self).listeners().keys().filter(without_key(key)),
            final(self).listeners().next_key() == old(self).listeners().next_key(),
    {
        self.listeners.remove(key)
    }

    /// Appends text as it is; returns the listeners to tell, each once.
    pub fn append(&mut self, value: &str) -> (told: Vec<u64>)
        ensures
            final(self).lines_view() == old(self).lines_view().push(value@),
            final(self).name_view() == old(self).name_view(),
            final(self).wf() == old(self).wf(),
            final(self).listeners() == old(self).listeners(),
            told@ == old(self).listeners().keys(),
    {
        let ghost before = self.lines@;
        self.lines.push(owned(value));
        proof { assert(line_views(self.lines@) =~= line_views(before).push(value@)); }
        self.listeners.notify()
    }

    /// Appends text and a newline; returns the listeners to tell, each once.
    pub fn append_line(&mut self, value: &str) -> (told: Vec<u64>)
        ensures
            final(self).lines_view() == old(self).lines_view().push(value@ + "\n"@),
            final(self).name_view() == old(self).name_view(),
            final(self).wf() == old(self).wf(),
            final(self).listeners() == old(self).listeners(),
            told@ == old(self).listeners().keys(),
    {
        let ghost before = self.lines@;
        self.lines.push(concat2(value, "\n"));
        proof { assert(line_views(self.lines@) =~= line_views(before).push(value@ + "\n"@)); }
        self.listeners.notify()
    }

    /// Replaces everything by `value`; returns the listeners to tell, each
    /// once.
    pub fn replace(&mut self, value: &str) -> (told: Vec<u64>)
        ensures
            final(self).lines_view() == seq![value@],
            final(self).name_view() == old(self).name_view(),
            final(self).wf() == old(self).wf(),
            final(self).listeners() == old(self).listeners(),
            told@ == old(self).listeners().keys(),
    {
        let mut lines: Vec<String> = Vec::new();
        lines.push(owned(value));
        self.lines = lines;
        proof { assert(line_views(self.lines@) =~= seq![value@]); }
        self.listeners.notify()
    }

    /// Empties the channel; returns the listeners to tell, each once.
    pub fn clear(&mut self) -> (told: Vec<u64>)
        ensures
            final(self).lines_view() == Seq::<Seq<char>>::empty(),
            final(self).name_view() == old(self).name_view(),
            final(self).wf() == old(self).wf(),
            final(self).listeners() == old(self).listeners(),
            told@ == old(self).listeners().keys(),
    {
        self.lines = Vec::new();
        proof { assert(line_views(self.lines@) =~= Seq::<Seq<char>>::empty()); }
        self.listeners.notify()
    }

    /// What the channel holds.
    pub fn snapshot(&self) -> (r: Vec<String>)
        ensures
            line_views(r@) == self.lines_view(),
    {
        let mut out: Vec<String> = Vec::new();
        let mut i: usize = 0;
        while i < self.lines.len()
            invariant
                i <= self.lines@.len(),
                line_views(out@) == line_views(self.lines@).take(i as int),
            decreases self.lines@.len() - i,
        {
            let ghost before = out@;
            out.push(owned(self.lines[i].as_str()));
            proof {
                assert(line_views(out@) =~= line_views(before).push(self.lines@[i as int]@));
                assert(line_views(self.lines@).take(i + 1) =~= line_views(self.lines@).take(i as int).push(self.lines@[i as int]@));
            }
            i = i + 1;
        }
        proof { assert(line_views(self.lines@).take(self.lines@.len() as int) =~= line_views(self.lines@)); }
        out
    }
}

/// The loggers by name, each created once with the service's default level.
pub struct LoggerService {
    loggers: Vec<ConsoleLogger>,
    default_level: LogLevel,
}

impl LoggerService {
    /// The names of the loggers, in the order they were created.
    pub closed spec fn names(&self) -> Seq<Seq<char>> {
        self.loggers@.map_values(|l: ConsoleLogger| l.name@)
    }

    /// The logger at an index.
    pub closed spec fn logger_at(&self, i: int) -> ConsoleLogger {
        self.loggers@[i]
    }

    pub closed spec fn default_level_view(&self) -> LogLevel {
        self.default_level
    }

    pub fn new(default_level: LogLevel) -> (s: LoggerService)
        ensures
            s.names() == Seq::<Seq<char>>::empty(),
            s.default_level_view() == default_level,
    {
        let s = LoggerService { loggers: Vec::new(), default_level };
        proof { assert(s.names() =~= Seq::<Seq<char>>::empty()); }
        s
    }

    /// The logger named `name`, by its index: the one created earlier under
    /// that name, or a new one at the default level.
    pub fn get_logger(&mut self, name: &str) -> (i: usize)
        ensures
            final(self).default_level_view() == old(self).default_level_view(),
            old(self).names().contains(name@) ==> final(self).names() == old(self).names()
                && i < final(self).names().len() && final(self).names()[i as int] == name@
                && forall|j: int| 0 <= j < i ==> final(self).names()[j] != name@,
            !old(self).names().contains(name@) ==> final(self).names() == old(self).names().push(name@)
                && i == old(self).names().len()
                && final(self).logger_at(i as int).level_view() == old(self).default_level_view(),
            forall|j: int| 0 <= j < old(self).names().len() ==> final(self).logger_at(j) == old(self).logger_at(j),
    {
        let mut i: usize = 0;
        while i < self.loggers.len()
            invariant
                i <= self.loggers@.len(),
                forall|j: int| 0 <= j < i ==> self.names()[j] != name@,
            decreases self.loggers@.len() - i,
        {
            if str_eq(self.loggers[i].name.as_str(), name) {
                proof { assert(self.names()[i as int] == name@); }
                return i;
            }
            i = i + 1;
        }
        let ghost before = self.names();
        let level = self.default_level;
        self.loggers.push(ConsoleLogger::new(name, level));
        proof {
            assert(self.names() =~= before.push(name@));
            if before.contains(name@) {
                let j = choose|j: int| 0 <= j < before.len() && before[j] == name@;
                assert(false);
            }
        }
        i
    }

    /// The logger at an index.
    pub fn logger(&self, i: usize) -> (l: &ConsoleLogger)
        requires
            i < self.names().len(),
        ensures
            *l == self.logger_at(i as int),
    {
        &self.loggers[i]
    }

    /// Changes the level of the logger at an index.
    pub fn set_level(&mut self, i: usize, level: LogLevel)
        requires
            i < old(self).names().len(),
        ensures
            final(self).names() == old(self).names(),
            final(self).logger_at(i as int).level_view() == level,
            forall|j: int| 0 <= j < old(self).names().len() && j != i ==> #[trigger] final(self).logger_at(j) == old(self).logger_at(j),
            final(self).default_level_view() == old(self).default_level_view(),
    {
        let mut l = ConsoleLogger::new(self.loggers[i].name.as_str(), level);
        let ghost before = self.names();
        self.loggers.set(i, l);
        proof { assert(self.names() =~= before); }
    }
}

/// The telemetry service that sends nothing and is never enabled.
pub struct NullTelemetryService;

impl NullTelemetryService {
    /// Always `false`.
    pub fn is_enabled(&self) -> (r: bool)
        ensures
            !r,
    {
        false
    }

    /// Changes nothing.
    pub fn set_enabled(&self, enabled: bool) {
    }
}

} // verus!
