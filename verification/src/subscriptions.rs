//! The table of event subscriptions that webview windows hold on bridge
//! channels. A subscription is keyed by its window label and subscription
//! id; the same id may be used by different windows.
use vstd::prelude::*;
use crate::contracts::SubscriptionId;
use crate::numfmt::{decimal, to_decimal};
use crate::text::{concat2, owned, str_eq};

verus! {

/// Name of the webview event that carries channel events.
pub const CHANNEL_EVENT_NAME: &'static str = "channel_event";
/// Capacity of a subscription's event buffer when none is given.
pub const DEFAULT_SUBSCRIPTION_BUFFER_CAPACITY: usize = 64;

/// Why a subscription could not be registered or an event not delivered.
#[derive(Debug, Clone, PartialEq, Eq)]
pub enum SubscriptionError {
    DuplicateSubscription(SubscriptionId),
    EmitFailed(String),
}

impl SubscriptionError {
    /// The stable error code.
    pub fn code(&self) -> (r: &'static str)
        ensures
            r@ == match self {
                SubscriptionError::DuplicateSubscription(_) => "subscription.duplicateId"@,
                SubscriptionError::EmitFailed(_) => "subscription.emitFailed"@,
            },
    {
        match self {
            SubscriptionError::DuplicateSubscription(_) => "subscription.duplicateId",
            SubscriptionError::EmitFailed(_) => "subscription.emitFailed",
        }
    }

    /// A message for people.
    pub fn message(&self) -> (r: String)
        ensures
            r@ == match self {
                SubscriptionError::DuplicateSubscription(id) => "subscription already registered: "@ + id.0@,
                SubscriptionError::EmitFailed(e) => "failed to emit subscription event: "@ + e@,
            },
    {
        match self {
            SubscriptionError::DuplicateSubscription(id) => concat2("subscription already registered: ", id.0.as_str()),
            SubscriptionError::EmitFailed(e) => concat2("failed to emit subscription event: ", e.as_str()),
        }
    }
}

/// A window's request to subscribe to an event of a channel.
#[derive(Debug, Clone, PartialEq, Eq)]
pub struct SubscriptionRequest {
    pub subscription_id: Option<SubscriptionId>,
    pub channel: String,
    pub event: String,
    pub window_label: String,
}

/// What is known of a registered subscription.
#[derive(Debug, Clone, PartialEq, Eq)]
pub struct SubscriptionInfo {
    pub subscription_id: SubscriptionId,
    pub channel: String,
    pub event: String,
    pub window_label: String,
    pub disposed: bool,
}

struct SubscriptionRecord {
    subscription_id: String,
    channel: String,
    event: String,
    window_label: String,
    sequence: u64,
}

/// A subscription key: window label, then subscription id.
pub type SubKey = (Seq<char>, Seq<char>);
/// A registered subscription: channel, event, and the sequence number it
/// was registered under.
pub type SubEntry = (Seq<char>, Seq<char>, u64);

/// The state of a subscription manager.
pub struct SubState {
    pub records: Map<SubKey, SubEntry>,
    /// Sequence number of the last registration.
    pub last_sequence: u64,
    /// Number used for the next generated subscription id.
    pub next_generated_id: u64,
    pub buffer_capacity: usize,
}

/// The id generated for a subscription that brings none.
pub open spec fn generated_id(n: u64) -> Seq<char> {
    "rust-subscription-"@ + decimal(n as nat)
}

/// The state after registering `(window, id)` and whether it was
/// registered: an id already registered for the window is refused and
/// nothing changes.
pub open spec fn subscribe_spec(s: SubState, window: Seq<char>, id: Seq<char>, channel: Seq<char>, event: Seq<char>) -> (SubState, bool) {
    if s.records.contains_key((window, id)) {
        (s, false)
    } else {
        let seq = (s.last_sequence + 1) as u64;
        (SubState {
            records: s.records.insert((window, id), (channel, event, seq)),
            last_sequence: seq,
            next_generated_id: s.next_generated_id,
            buffer_capacity: s.buffer_capacity,
        }, true)
    }
}

/// The state after disposing `(window, id)`, and whether it was registered.
pub open spec fn dispose_for_window_spec(s: SubState, window: Seq<char>, id: Seq<char>) -> (SubState, bool) {
    (SubState {
        records: s.records.remove((window, id)),
        last_sequence: s.last_sequence,
        next_generated_id: s.next_generated_id,
        buffer_capacity: s.buffer_capacity,
    }, s.records.contains_key((window, id)))
}

/// Whether some window holds a subscription with this id.
pub open spec fn has_id(s: SubState, id: Seq<char>) -> bool {
    exists|w: Seq<char>| #[trigger] s.records.contains_key((w, id))
}

/// Whether events of the subscription registered under `sequence` are
/// still delivered: it is registered, and not replaced by a later one.
pub open spec fn is_live_spec(s: SubState, window: Seq<char>, id: Seq<char>, sequence: u64) -> bool {
    s.records.contains_key((window, id)) && s.records[(window, id)].2 == sequence
}

/// The state after the event stream of the subscription registered under
/// `sequence` ends: its record goes, unless a later registration replaced it.
pub open spec fn finish_stream_spec(s: SubState, window: Seq<char>, id: Seq<char>, sequence: u64) -> SubState {
    if is_live_spec(s, window, id, sequence) {
        dispose_for_window_spec(s, window, id).0
    } else {
        s
    }
}

/// Every registered subscription's sequence number is at most the last one
/// handed out.
pub open spec fn sequences_wf(s: SubState) -> bool {
    forall|k: SubKey| #[trigger] s.records.contains_key(k) ==> s.records[k].2 <= s.last_sequence
}

/// Disposing a window's subscription twice: the second call finds nothing.
pub proof fn lemma_dispose_idempotent(s: SubState, window: Seq<char>, id: Seq<char>)
    ensures
        ({
            let (s1, _) = dispose_for_window_spec(s, window, id);
            let (s2, r2) = dispose_for_window_spec(s1, window, id);
            !r2 && s2 == s1
        }),
{
    let (s1, _) = dispose_for_window_spec(s, window, id);
    assert(s1.records.remove((window, id)) =~= s1.records);
}

/// The same subscription id in two windows names two subscriptions:
/// disposing one leaves the other.
pub proof fn lemma_dispose_scoped_to_window(s: SubState, window: Seq<char>, other: Seq<char>, id: Seq<char>)
    requires
        window != other,
    ensures
        dispose_for_window_spec(s, window, id).0.records.contains_key((other, id)) == s.records.contains_key((other, id)),
        s.records.contains_key((other, id)) ==>
            dispose_for_window_spec(s, window, id).0.records[(other, id)] == s.records[(other, id)],
{
}

/// A window cannot register an id it already holds: the request is refused
/// and the registered subscription stays as it was.
pub proof fn lemma_duplicate_refused(s: SubState, window: Seq<char>, id: Seq<char>, channel: Seq<char>, event: Seq<char>)
    requires
        s.records.contains_key((window, id)),
    ensures
        subscribe_spec(s, window, id, channel, event) == (s, false),
{
}

/// Events that arrive after a subscription was disposed are not delivered.
pub proof fn lemma_late_events_dropped(s: SubState, window: Seq<char>, id: Seq<char>, sequence: u64)
    ensures
        !is_live_spec(dispose_for_window_spec(s, window, id).0, window, id, sequence),
{
}

/// When a window disposes a subscription and registers the same id again,
/// the end of the old subscription's event stream leaves the new one in
/// place, and the old stream's events are no longer delivered.
pub proof fn lemma_stale_stream_end_keeps_new_subscription(
    s: SubState,
    window: Seq<char>,
    id: Seq<char>,
    channel: Seq<char>,
    event: Seq<char>,
    old_sequence: u64,
)
    requires
        sequences_wf(s),
        s.last_sequence < u64::MAX,
        old_sequence <= s.last_sequence,
    ensures
        ({
            let s1 = dispose_for_window_spec(s, window, id).0;
            let (s2, ok) = subscribe_spec(s1, window, id, channel, event);
            &&& ok
            &&& sequences_wf(s2)
            &&& !is_live_spec(s2, window, id, old_sequence)
            &&& finish_stream_spec(s2, window, id, old_sequence) == s2
            &&& s2.records.contains_key((window, id))
        }),
{
}

type Row = (SubKey, SubEntry);

spec fn row_views(s: Seq<SubscriptionRecord>) -> Seq<Row> {
    s.map_values(|r: SubscriptionRecord| ((r.window_label@, r.subscription_id@), (r.channel@, r.event@, r.sequence)))
}

spec fn row_map(s: Seq<Row>) -> Map<SubKey, SubEntry>
    decreases s.len(),
{
    if s.len() == 0 {
        Map::empty()
    } else {
        row_map(s.drop_last()).insert(s.last().0, s.last().1)
    }
}

spec fn unique_keys(s: Seq<Row>) -> bool {
    forall|i: int, j: int| 0 <= i < j < s.len() ==> (#[trigger] s[i]).0 != (#[trigger] s[j]).0
}

proof fn lemma_row_map_dom(s: Seq<Row>, k: SubKey)
    ensures
        row_map(s).contains_key(k) <==> exists|i: int| 0 <= i < s.len() && (#[trigger] s[i]).0 == k,
    decreases s.len(),
{
    if s.len() > 0 {
        lemma_row_map_dom(s.drop_last(), k);
        if row_map(s).contains_key(k) && s.last().0 != k {
            let i = choose|i: int| 0 <= i < s.len() - 1 && (#[trigger] s.drop_last()[i]).0 == k;
            assert(s[i].0 == k);
        }
        if exists|i: int| 0 <= i < s.len() && (#[trigger] s[i]).0 == k {
            let i = choose|i: int| 0 <= i < s.len() && (#[trigger] s[i]).0 == k;
            if i < s.len() - 1 {
                assert(s.drop_last()[i].0 == k);
            }
        }
    }
}

proof fn lemma_row_map_value(s: Seq<Row>, i: int)
    requires
        unique_keys(s),
        0 <= i < s.len(),
    ensures
        row_map(s).contains_key(s[i].0),
        row_map(s)[s[i].0] == s[i].1,
    decreases s.len(),
{
    if i < s.len() - 1 {
        assert(s.drop_last()[i] == s[i]);
        lemma_row_map_value(s.drop_last(), i);
        assert(s[i].0 != s[s.len() - 1].0);
    }
}

proof fn lemma_row_map_remove(s: Seq<Row>, i: int)
    requires
        unique_keys(s),
        0 <= i < s.len(),
    ensures
        row_map(s.remove(i)) =~= row_map(s).remove(s[i].0),
        unique_keys(s.remove(i)),
    decreases s.len(),
{
    let k = s[i].0;
    if i == s.len() - 1 {
        assert(s.remove(i) =~= s.drop_last());
        assert(!row_map(s.drop_last()).contains_key(k)) by {
            lemma_row_map_dom(s.drop_last(), k);
            if row_map(s.drop_last()).contains_key(k) {
                let j = choose|j: int| 0 <= j < s.drop_last().len() && (#[trigger] s.drop_last()[j]).0 == k;
                assert(s[j].0 == k);
            }
        }
    } else {
        let d = s.drop_last();
        assert(d[i] == s[i]);
        lemma_row_map_remove(d, i);
        assert(s.remove(i).drop_last() =~= d.remove(i));
        assert(s.remove(i).last() == s.last());
        assert(s.last().0 != k);
    }
}

proof fn lemma_row_map_len(s: Seq<Row>)
    requires
        unique_keys(s),
    ensures
        row_map(s).dom().finite(),
        row_map(s).dom().len() == s.len(),
    decreases s.len(),
{
    if s.len() > 0 {
        let d = s.drop_last();
        lemma_row_map_len(d);
        lemma_row_map_dom(d, s.last().0);
        if row_map(d).contains_key(s.last().0) {
            let j = choose|j: int| 0 <= j < d.len() && (#[trigger] d[j]).0 == s.last().0;
            assert(s[j].0 == s[s.len() - 1].0);
        }
    }
}

proof fn lemma_row_map_push(s: Seq<Row>, r: Row)
    requires
        unique_keys(s),
        !row_map(s).contains_key(r.0),
    ensures
        unique_keys(s.push(r)),
        row_map(s.push(r)) == row_map(s).insert(r.0, r.1),
{
    assert(s.push(r).drop_last() =~= s);
    assert forall|i: int, j: int| 0 <= i < j < s.push(r).len() implies (#[trigger] s.push(r)[i]).0 != (#[trigger] s.push(r)[j]).0 by {
        if j == s.len() {
            lemma_row_map_dom(s, r.0);
            assert(s.push(r)[i] == s[i]);
        } else {
            assert(s.push(r)[i] == s[i]);
            assert(s.push(r)[j] == s[j]);
        }
    }
}

/// Holds the subscriptions of all windows.
pub struct SubscriptionManager {
    records: Vec<SubscriptionRecord>,
    last_sequence: u64,
    next_generated_id: u64,
    buffer_capacity: usize,
}

impl View for SubscriptionManager {
    type V = SubState;

    closed spec fn view(&self) -> SubState {
        SubState {
            records: row_map(row_views(self.records@)),
            last_sequence: self.last_sequence,
            next_generated_id: self.next_generated_id,
            buffer_capacity: self.buffer_capacity,
        }
    }
}

impl SubscriptionManager {
    /// No two records share a key.
    pub closed spec fn wf(&self) -> bool {
        unique_keys(row_views(self.records@))
    }

    /// An empty manager whose event buffers hold `buffer_capacity` events
    /// (at least one).
    pub fn new(buffer_capacity: usize) -> (m: SubscriptionManager)
        ensures
            m.wf(),
            m@.records == Map::<SubKey, SubEntry>::empty(),
            m@.last_sequence == 0,
            m@.next_generated_id == 1,
            m@.buffer_capacity == if buffer_capacity < 1 { 1 } else { buffer_capacity },
    {
        let cap = if buffer_capacity < 1 { 1 } else { buffer_capacity };
        let m = SubscriptionManager { records: Vec::new(), last_sequence: 0, next_generated_id: 1, buffer_capacity: cap };
        proof { assert(row_views(m.records@) =~= Seq::<Row>::empty()); }
        m
    }

    /// Whether another subscription can be registered: the sequence numbers
    /// are not used up.
    pub fn can_subscribe(&self) -> (r: bool)
        ensures
            r == (self@.last_sequence < u64::MAX),
    {
        self.last_sequence < u64::MAX
    }

    /// How many events a subscription's buffer holds.
    pub fn buffer_capacity(&self) -> (r: usize)
        ensures
            r == self@.buffer_capacity,
    {
        self.buffer_capacity
    }

    /// The id a subscription is registered under: its own, or else a newly
    /// generated one.
    pub fn resolve_subscription_id(&mut self, subscription_id: Option<SubscriptionId>) -> (id: SubscriptionId)
        ensures
            final(self).wf() == old(self).wf(),
            final(self)@.records == old(self)@.records,
            final(self)@.last_sequence == old(self)@.last_sequence,
            final(self)@.buffer_capacity == old(self)@.buffer_capacity,
            match subscription_id {
                Some(given) => id == given && final(self)@.next_generated_id == old(self)@.next_generated_id,
                None => id.0@ == generated_id(old(self)@.next_generated_id)
                    && final(self)@.next_generated_id == old(self)@.next_generated_id.wrapping_add(1),
            },
    {
        match subscription_id {
            Some(given) => given,
            None => {
                let n = self.next_generated_id;
                self.next_generated_id = n.wrapping_add(1);
                let digits = to_decimal(n);
                SubscriptionId(concat2("rust-subscription-", digits.as_str()))
            },
        }
    }

    /// Index of the record with this key, if any.
    fn find_key(&self, window: &str, id: &str) -> (r: Option<usize>)
        requires
            self.wf(),
        ensures
            match r {
                Some(i) => i < self.records@.len() && row_views(self.records@)[i as int].0 == (window@, id@),
                None => !self@.records.contains_key((window@, id@)),
            },
    {
        let mut i: usize = 0;
        while i < self.records.len()
            invariant
                i <= self.records@.len(),
                forall|j: int| 0 <= j < i ==> (#[trigger] row_views(self.records@)[j]).0 != (window@, id@),
            decreases self.records@.len() - i,
        {
            let r = &self.records[i];
            if str_eq(r.window_label.as_str(), window) && str_eq(r.subscription_id.as_str(), id) {
                return Some(i);
            }
            i = i + 1;
        }
        proof {
            lemma_row_map_dom(row_views(self.records@), (window@, id@));
        }
        None
    }

    /// Index of a record with this subscription id, in any window.
    fn find_id(&self, id: &str) -> (r: Option<usize>)
        ensures
            match r {
                Some(i) => i < self.records@.len() && row_views(self.records@)[i as int].0.1 == id@,
                None => !has_id(self@, id@),
            },
    {
        let mut i: usize = 0;
        while i < self.records.len()
            invariant
                i <= self.records@.len(),
                forall|j: int| 0 <= j < i ==> (#[trigger] row_views(self.records@)[j]).0.1 != id@,
            decreases self.records@.len() - i,
        {
            if str_eq(self.records[i].subscription_id.as_str(), id) {
                return Some(i);
            }
            i = i + 1;
        }
        proof {
            if has_id(self@, id@) {
                let w = choose|w: Seq<char>| #[trigger] self@.records.contains_key((w, id@));
                lemma_row_map_dom(row_views(self.records@), (w, id@));
            }
        }
        None
    }

    fn remove_at(&mut self, i: usize)
        requires
            old(self).wf(),
            i < old(self).records@.len(),
        ensures
            final(self).wf(),
            final(self)@.records == old(self)@.records.remove(row_views(old(self).records@)[i as int].0),
            final(self)@.last_sequence == old(self)@.last_sequence,
            final(self)@.next_generated_id == old(self)@.next_generated_id,
            final(self)@.buffer_capacity == old(self)@.buffer_capacity,
    {
        let ghost v = row_views(self.records@);
        self.records.remove(i);
        proof {
            assert(row_views(self.records@) =~= v.remove(i as int));
            lemma_row_map_remove(v, i as int);
        }
    }

    /// Registers a subscription under its own id or a generated one. An id
    /// the window already holds is refused with `DuplicateSubscription`, and
    /// the table is left as it was.
    pub fn subscribe(&mut self, request: SubscriptionRequest) -> (r: Result<SubscriptionId, SubscriptionError>)
        requires
            old(self).wf(),
            old(self)@.last_sequence < u64::MAX,
        ensures
            final(self).wf(),
            final(self)@.buffer_capacity == old(self)@.buffer_capacity,
            ({
                let id = match request.subscription_id {
                    Some(given) => given.0@,
                    None => generated_id(old(self)@.next_generated_id),
                };
                let (s2, ok) = subscribe_spec(old(self)@, request.window_label@, id, request.channel@, request.event@);
                &&& final(self)@.records == s2.records
                &&& final(self)@.last_sequence == s2.last_sequence
                &&& final(self)@.next_generated_id == match request.subscription_id {
                    Some(_) => old(self)@.next_generated_id,
                    None => old(self)@.next_generated_id.wrapping_add(1),
                }
                &&& match r {
                    Ok(got) => ok && got.0@ == id,
                    Err(e) => !ok && e is DuplicateSubscription && e->DuplicateSubscription_0.0@ == id,
                }
            }),
    {
        let id = self.resolve_subscription_id(request.subscription_id);
        match self.find_key(request.window_label.as_str(), id.0.as_str()) {
            Some(i) => {
                proof { lemma_row_map_value(row_views(self.records@), i as int); }
                Err(SubscriptionError::DuplicateSubscription(id))
            },
            None => {
                let seq = self.last_sequence + 1;
                let ghost v = row_views(self.records@);
                self.records.push(SubscriptionRecord {
                    subscription_id: owned(id.0.as_str()),
                    channel: request.channel,
                    event: request.event,
                    window_label: request.window_label,
                    sequence: seq,
                });
                self.last_sequence = seq;
                proof {
                    assert(row_views(self.records@) =~= v.push(row_views(self.records@).last()));
                    lemma_row_map_push(v, row_views(self.records@).last());
                }
                Ok(id)
            },
        }
    }

    /// Disposes the subscription `subscription_id` of window `window_label`;
    /// `true` if it was registered.
    pub fn dispose_for_window(&mut self, window_label: &str, subscription_id: &SubscriptionId) -> (r: bool)
        requires
            old(self).wf(),
        ensures
            final(self).wf(),
            (final(self)@, r) == dispose_for_window_spec(old(self)@, window_label@, subscription_id.0@),
    {
        match self.find_key(window_label, subscription_id.0.as_str()) {
            Some(i) => {
                proof { lemma_row_map_value(row_views(self.records@), i as int); }
                self.remove_at(i);
                true
            },
            None => {
                proof { assert(self@.records.remove((window_label@, subscription_id.0@)) =~= self@.records); }
                false
            },
        }
    }

    /// Disposes one subscription with this id, whatever its window; `true`
    /// if some window held one. Which window's goes is left open.
    pub fn dispose(&mut self, subscription_id: &SubscriptionId) -> (r: bool)
        requires
            old(self).wf(),
        ensures
            final(self).wf(),
            r == has_id(old(self)@, subscription_id.0@),
            r ==> exists|w: Seq<char>| #[trigger] old(self)@.records.contains_key((w, subscription_id.0@))
                && final(self)@ == dispose_for_window_spec(old(self)@, w, subscription_id.0@).0,
            !r ==> final(self)@ == old(self)@,
    {
        match self.find_id(subscription_id.0.as_str()) {
            Some(i) => {
                let ghost k = row_views(self.records@)[i as int].0;
                proof { lemma_row_map_value(row_views(self.records@), i as int); }
                self.remove_at(i);
                proof {
                    assert(old(self)@.records.contains_key((k.0, subscription_id.0@)));
                    assert(self@ == dispose_for_window_spec(old(self)@, k.0, subscription_id.0@).0);
                }
                true
            },
            None => false,
        }
    }

    /// Whether window `window_label` holds subscription `subscription_id`.
    pub fn contains_for_window(&self, window_label: &str, subscription_id: &SubscriptionId) -> (r: bool)
        requires
            self.wf(),
        ensures
            r == self@.records.contains_key((window_label@, subscription_id.0@)),
    {
        match self.find_key(window_label, subscription_id.0.as_str()) {
            Some(i) => {
                proof { lemma_row_map_value(row_views(self.records@), i as int); }
                true
            },
            None => false,
        }
    }

    /// Whether some window holds a subscription with this id.
    pub fn contains(&self, subscription_id: &SubscriptionId) -> (r: bool)
        requires
            self.wf(),
        ensures
            r == has_id(self@, subscription_id.0@),
    {
        match self.find_id(subscription_id.0.as_str()) {
            Some(i) => {
                proof {
                    let k = row_views(self.records@)[i as int].0;
                    lemma_row_map_value(row_views(self.records@), i as int);
                    assert(self@.records.contains_key((k.0, subscription_id.0@)));
                }
                true
            },
            None => false,
        }
    }

    /// What is known of a subscription with this id, in some window that
    /// holds one.
    pub fn subscription(&self, subscription_id: &SubscriptionId) -> (r: Option<SubscriptionInfo>)
        requires
            self.wf(),
        ensures
            r is Some == has_id(self@, subscription_id.0@),
            r matches Some(info) ==> {
                &&& info.subscription_id.0@ == subscription_id.0@
                &&& self@.records.contains_key((info.window_label@, subscription_id.0@))
                &&& self@.records[(info.window_label@, subscription_id.0@)].0 == info.channel@
                &&& self@.records[(info.window_label@, subscription_id.0@)].1 == info.event@
                &&& !info.disposed
            },
    {
        match self.find_id(subscription_id.0.as_str()) {
            Some(i) => {
                proof {
                    let k = row_views(self.records@)[i as int].0;
                    lemma_row_map_value(row_views(self.records@), i as int);
                    assert(self@.records.contains_key((k.0, subscription_id.0@)));
                }
                let rec = &self.records[i];
                Some(SubscriptionInfo {
                    subscription_id: SubscriptionId(owned(rec.subscription_id.as_str())),
                    channel: owned(rec.channel.as_str()),
                    event: owned(rec.event.as_str()),
                    window_label: owned(rec.window_label.as_str()),
                    disposed: false,
                })
            },
            None => None,
        }
    }

    /// The number of registered subscriptions.
    pub fn len(&self) -> (r: usize)
        requires
            self.wf(),
        ensures
            r == self@.records.len(),
    {
        proof { lemma_row_map_len(row_views(self.records@)); }
        self.records.len()
    }

    /// Whether no subscription is registered.
    pub fn is_empty(&self) -> (r: bool)
        requires
            self.wf(),
        ensures
            r == (self@.records.len() == 0),
    {
        self.len() == 0
    }

    /// Whether an event of the subscription registered under `sequence`
    /// is to be delivered; one that arrives after its disposal is dropped.
    pub fn is_live(&self, window_label: &str, subscription_id: &SubscriptionId, sequence: u64) -> (r: bool)
        requires
            self.wf(),
        ensures
            r == is_live_spec(self@, window_label@, subscription_id.0@, sequence),
    {
        match self.find_key(window_label, subscription_id.0.as_str()) {
            Some(i) => {
                proof { lemma_row_map_value(row_views(self.records@), i as int); }
                self.records[i].sequence == sequence
            },
            None => false,
        }
    }

    /// The sequence number a registered subscription was registered under.
    pub fn sequence_of(&self, window_label: &str, subscription_id: &SubscriptionId) -> (r: Option<u64>)
        requires
            self.wf(),
        ensures
            r is Some == self@.records.contains_key((window_label@, subscription_id.0@)),
            r matches Some(q) ==> self@.records[(window_label@, subscription_id.0@)].2 == q,
    {
        match self.find_key(window_label, subscription_id.0.as_str()) {
            Some(i) => {
                proof { lemma_row_map_value(row_views(self.records@), i as int); }
                Some(self.records[i].sequence)
            },
            None => None,
        }
    }

    /// Called when the event stream of the subscription registered under
    /// `sequence` ends: its record goes, unless it was disposed or replaced.
    pub fn finish_stream(&mut self, window_label: &str, subscription_id: &SubscriptionId, sequence: u64)
        requires
            old(self).wf(),
        ensures
            final(self).wf(),
            final(self)@ == finish_stream_spec(old(self)@, window_label@, subscription_id.0@, sequence),
    {
        match self.find_key(window_label, subscription_id.0.as_str()) {
            Some(i) => {
                proof { lemma_row_map_value(row_views(self.records@), i as int); }
                if self.records[i].sequence == sequence {
                    self.remove_at(i);
                }
            },
            None => {},
        }
    }
}

impl Default for SubscriptionManager {
    fn default() -> (m: SubscriptionManager)
        ensures
            m.wf(),
            m@.records == Map::<SubKey, SubEntry>::empty(),
            m@.last_sequence == 0,
            m@.next_generated_id == 1,
            m@.buffer_capacity == DEFAULT_SUBSCRIPTION_BUFFER_CAPACITY,
    {
        SubscriptionManager::new(DEFAULT_SUBSCRIPTION_BUFFER_CAPACITY)
    }
}

} // verus!
