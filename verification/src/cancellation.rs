//! Cancellation of in-flight bridge requests.
use vstd::prelude::*;
use crate::contracts::{CancelRequest, CancellationId};
use crate::text::{owned, str_eq};

verus! {

/// A request that can currently be cancelled by its cancellation id.
struct ActiveCancellation {
    cancellation_id: String,
    request_id: String,
    token: u64,
}

/// Tracks in-flight requests and the cancellations asked for them. A
/// cancellation that arrives before its request begins is remembered and
/// applied when the request begins.
pub struct CancellationManager {
    active: Vec<ActiveCancellation>,
    cancelled: Vec<String>,
    flags: Vec<(u64, bool)>,
    next_token: u64,
}

/// Held by a request while it runs; ask it whether the request was
/// cancelled, and hand it back to the manager when the request ends.
pub struct RequestCancellationGuard {
    cancellation_id: Option<CancellationId>,
    token: u64,
}

/// The state of a cancellation manager.
pub struct CancelState {
    /// Active requests by cancellation id: request id and guard token.
    pub active: Map<Seq<char>, (Seq<char>, u64)>,
    /// Cancellation ids cancelled before their request began.
    pub pending: Set<Seq<char>>,
    /// The cancelled flag of each live guard, by token.
    pub flags: Map<u64, bool>,
    /// The token the next guard gets.
    pub next_token: u64,
}

/// The state after a request begins: the guard gets the next token, and its
/// flag starts out set if a cancellation for its id was already pending.
pub open spec fn begin_spec(s: CancelState, request_id: Seq<char>, cid: Option<Seq<char>>) -> CancelState {
    let t = s.next_token;
    match cid {
        None => CancelState {
            active: s.active,
            pending: s.pending,
            flags: s.flags.insert(t, false),
            next_token: (t + 1) as u64,
        },
        Some(c) => CancelState {
            active: s.active.insert(c, (request_id, t)),
            pending: s.pending.remove(c),
            flags: s.flags.insert(t, s.pending.contains(c)),
            next_token: (t + 1) as u64,
        },
    }
}

/// The request id a cancel request names, if any.
pub open spec fn asked_request_id(request: &CancelRequest) -> Option<Seq<char>> {
    match request.request_id {
        Some(q) => Some(q@),
        None => None,
    }
}

/// Whether a cancel request names the active request `active_request`.
pub open spec fn request_matches(asked: Option<Seq<char>>, active_request: Seq<char>) -> bool {
    match asked {
        Some(r) => r == active_request,
        None => true,
    }
}

/// The state after a cancel request, and its answer. A request that is
/// active is cancelled if the request id matches (or none was given); an id
/// with no active request is remembered as pending, and the answer is `true`.
pub open spec fn cancel_spec(s: CancelState, cid: Seq<char>, asked: Option<Seq<char>>) -> (CancelState, bool) {
    if s.active.contains_key(cid) {
        let (rid, t) = s.active[cid];
        if request_matches(asked, rid) {
            let flags = if s.flags.contains_key(t) { s.flags.insert(t, true) } else { s.flags };
            (CancelState { active: s.active, pending: s.pending, flags: flags, next_token: s.next_token }, true)
        } else {
            (s, false)
        }
    } else {
        (CancelState { active: s.active, pending: s.pending.insert(cid), flags: s.flags, next_token: s.next_token }, true)
    }
}

/// The state after the request of guard `token` ends: its flag goes, and so
/// do the active entry and any pending cancellation under its id.
pub open spec fn finish_spec(s: CancelState, cid: Option<Seq<char>>, token: u64) -> CancelState {
    match cid {
        None => CancelState { active: s.active, pending: s.pending, flags: s.flags.remove(token), next_token: s.next_token },
        Some(c) => CancelState {
            active: s.active.remove(c),
            pending: s.pending.remove(c),
            flags: s.flags.remove(token),
            next_token: s.next_token,
        },
    }
}

/// Whether the guard with this token was cancelled.
pub open spec fn is_cancelled_spec(s: CancelState, token: u64) -> bool {
    s.flags.contains_key(token) && s.flags[token]
}

/// Every live guard, and every active entry, has a token below the next one
/// to be handed out: a new guard never shares a token with a live one, and
/// no active entry names the guard a request begins with.
pub open spec fn state_wf(s: CancelState) -> bool {
    &&& forall|t: u64| #[trigger] s.flags.contains_key(t) ==> t < s.next_token
    &&& forall|c: Seq<char>| #[trigger] s.active.contains_key(c) ==> s.active[c].1 < s.next_token
}

type Entry = (Seq<char>, Seq<char>, u64);

/// A request begun under a cancellation id is cancelled by a cancel request
/// for that id that names its request id, or names none: the answer is
/// `true` and the request's guard reads as cancelled.
pub proof fn lemma_cancel_after_begin(s: CancelState, request_id: Seq<char>, cid: Seq<char>, asked: Option<Seq<char>>)
    requires
        asked is None || asked == Some(request_id),
    ensures
        ({
            let s1 = begin_spec(s, request_id, Some(cid));
            let (s2, r) = cancel_spec(s1, cid, asked);
            r && is_cancelled_spec(s2, s.next_token)
        }),
{
}

/// A cancel request for an id under which no request is active is answered
/// `true`, and the request that later begins under that id starts out
/// cancelled.
pub proof fn lemma_cancel_before_begin(s: CancelState, cid: Seq<char>, asked: Option<Seq<char>>, request_id: Seq<char>)
    requires
        !s.active.contains_key(cid),
    ensures
        ({
            let (s1, r) = cancel_spec(s, cid, asked);
            let s2 = begin_spec(s1, request_id, Some(cid));
            r && is_cancelled_spec(s2, s1.next_token)
        }),
{
}

/// A cancel request whose request id differs from that of the active request
/// under the id is answered `false` and changes nothing.
pub proof fn lemma_mismatched_cancel_ignored(s: CancelState, cid: Seq<char>, asked: Seq<char>)
    requires
        s.active.contains_key(cid),
        s.active[cid].0 != asked,
    ensures
        cancel_spec(s, cid, Some(asked)) == (s, false),
{
}

/// Beginning, cancelling and finishing keep every live guard's token below
/// the next one, and beginning a request leaves the flags of the guards
/// already live as they were.
pub proof fn lemma_guards_isolated(s: CancelState, request_id: Seq<char>, cid: Option<Seq<char>>, c: Seq<char>, asked: Option<Seq<char>>, token: u64)
    requires
        state_wf(s),
        s.next_token < u64::MAX,
    ensures
        state_wf(begin_spec(s, request_id, cid)),
        state_wf(cancel_spec(s, c, asked).0),
        state_wf(finish_spec(s, cid, token)),
        forall|u: u64| #[trigger] s.flags.contains_key(u) ==>
            begin_spec(s, request_id, cid).flags.contains_key(u)
            && begin_spec(s, request_id, cid).flags[u] == s.flags[u],
{
}

/// A request begun without a cancellation id is never cancelled: no active
/// entry names its guard, so no cancel request reaches it, and requests that
/// begin later do not change that.
pub proof fn lemma_request_without_id_not_cancelled(
    s: CancelState,
    request_id: Seq<char>,
    c: Seq<char>,
    asked: Option<Seq<char>>,
    later_request: Seq<char>,
    later_cid: Option<Seq<char>>,
)
    requires
        state_wf(s),
        s.next_token < u64::MAX - 1,
    ensures
        ({
            let t = s.next_token;
            let s1 = begin_spec(s, request_id, None);
            let s2 = cancel_spec(s1, c, asked).0;
            let s3 = begin_spec(s1, later_request, later_cid);
            &&& !is_cancelled_spec(s2, t)
            &&& forall|k: Seq<char>| #[trigger] s3.active.contains_key(k) ==> s3.active[k].1 != t
            &&& !is_cancelled_spec(cancel_spec(s3, c, asked).0, t)
        }),
{
}

/// Once a request's guard is handed back, nothing is active or pending
/// under its cancellation id and its flag is gone.
pub proof fn lemma_finish_releases_id(s: CancelState, cid: Seq<char>, token: u64)
    ensures
        !finish_spec(s, Some(cid), token).active.contains_key(cid),
        !finish_spec(s, Some(cid), token).pending.contains(cid),
        !finish_spec(s, Some(cid), token).flags.contains_key(token),
{
}

spec fn entry_views(s: Seq<ActiveCancellation>) -> Seq<Entry> {
    s.map_values(|a: ActiveCancellation| (a.cancellation_id@, a.request_id@, a.token))
}

spec fn active_map(s: Seq<Entry>) -> Map<Seq<char>, (Seq<char>, u64)>
    decreases s.len(),
{
    if s.len() == 0 {
        Map::empty()
    } else {
        let a = s.last();
        active_map(s.drop_last()).insert(a.0, (a.1, a.2))
    }
}

spec fn active_without(s: Seq<Entry>, c: Seq<char>) -> Seq<Entry>
    decreases s.len(),
{
    if s.len() == 0 {
        s
    } else {
        let r = active_without(s.drop_last(), c);
        if s.last().0 == c { r } else { r.push(s.last()) }
    }
}

proof fn lemma_active_without(s: Seq<Entry>, c: Seq<char>)
    ensures
        active_map(active_without(s, c)) =~= active_map(s).remove(c),
    decreases s.len(),
{
    if s.len() > 0 {
        lemma_active_without(s.drop_last(), c);
        let r = active_without(s.drop_last(), c);
        if s.last().0 != c {
            assert(r.push(s.last()).drop_last() =~= r);
        }
    }
}

/// Entries after index `i` do not mention `c`: the map's entry for `c` is
/// that of the prefix.
proof fn lemma_active_prefix(s: Seq<Entry>, i: int, c: Seq<char>)
    requires
        0 <= i <= s.len(),
        forall|j: int| i <= j < s.len() ==> (#[trigger] s[j]).0 != c,
    ensures
        active_map(s).contains_key(c) == active_map(s.take(i)).contains_key(c),
        active_map(s).contains_key(c) ==> active_map(s)[c] == active_map(s.take(i))[c],
    decreases s.len() - i,
{
    if i < s.len() {
        assert(s.drop_last().take(i) =~= s.take(i));
        lemma_active_prefix(s.drop_last(), i, c);
    } else {
        assert(s.take(i) =~= s);
    }
}

spec fn flag_map(s: Seq<(u64, bool)>) -> Map<u64, bool>
    decreases s.len(),
{
    if s.len() == 0 {
        Map::empty()
    } else {
        flag_map(s.drop_last()).insert(s.last().0, s.last().1)
    }
}

spec fn flags_without(s: Seq<(u64, bool)>, t: u64) -> Seq<(u64, bool)>
    decreases s.len(),
{
    if s.len() == 0 {
        s
    } else {
        let r = flags_without(s.drop_last(), t);
        if s.last().0 == t { r } else { r.push(s.last()) }
    }
}

proof fn lemma_flags_without(s: Seq<(u64, bool)>, t: u64)
    ensures
        flag_map(flags_without(s, t)) =~= flag_map(s).remove(t),
    decreases s.len(),
{
    if s.len() > 0 {
        lemma_flags_without(s.drop_last(), t);
        let r = flags_without(s.drop_last(), t);
        if s.last().0 != t {
            assert(r.push(s.last()).drop_last() =~= r);
        }
    }
}

spec fn flags_set(s: Seq<(u64, bool)>, t: u64) -> Seq<(u64, bool)> {
    s.map_values(|e: (u64, bool)| if e.0 == t { (e.0, true) } else { e })
}

proof fn lemma_flags_set(s: Seq<(u64, bool)>, t: u64)
    ensures
        flag_map(flags_set(s, t)) =~= if flag_map(s).contains_key(t) {
            flag_map(s).insert(t, true)
        } else {
            flag_map(s)
        },
    decreases s.len(),
{
    if s.len() > 0 {
        assert(flags_set(s, t).drop_last() =~= flags_set(s.drop_last(), t));
        lemma_flags_set(s.drop_last(), t);
    }
}

spec fn name_views(s: Seq<String>) -> Seq<Seq<char>> {
    s.map_values(|n: String| n@)
}

spec fn name_set(s: Seq<Seq<char>>) -> Set<Seq<char>>
    decreases s.len(),
{
    if s.len() == 0 {
        Set::empty()
    } else {
        name_set(s.drop_last()).insert(s.last())
    }
}

spec fn names_without(s: Seq<Seq<char>>, c: Seq<char>) -> Seq<Seq<char>>
    decreases s.len(),
{
    if s.len() == 0 {
        s
    } else {
        let r = names_without(s.drop_last(), c);
        if s.last() == c { r } else { r.push(s.last()) }
    }
}

proof fn lemma_names_without(s: Seq<Seq<char>>, c: Seq<char>)
    ensures
        name_set(names_without(s, c)) =~= name_set(s).remove(c),
    decreases s.len(),
{
    if s.len() > 0 {
        lemma_names_without(s.drop_last(), c);
        let r = names_without(s.drop_last(), c);
        if s.last() != c {
            assert(r.push(s.last()).drop_last() =~= r);
        }
    }
}

proof fn lemma_name_set_take(s: Seq<Seq<char>>, i: int)
    requires
        0 <= i < s.len(),
    ensures
        name_set(s.take(i + 1)) == name_set(s.take(i)).insert(s[i]),
{
    assert(s.take(i + 1).drop_last() =~= s.take(i));
}

impl View for CancellationManager {
    type V = CancelState;

    closed spec fn view(&self) -> CancelState {
        CancelState {
            active: active_map(entry_views(self.active@)),
            pending: name_set(name_views(self.cancelled@)),
            flags: flag_map(self.flags@),
            next_token: self.next_token,
        }
    }
}

impl RequestCancellationGuard {
    /// The cancellation id the guard's request was begun under.
    pub closed spec fn cid(&self) -> Option<Seq<char>> {
        match self.cancellation_id {
            Some(c) => Some(c.0@),
            None => None,
        }
    }

    /// The token that names this guard's flag in the manager.
    pub closed spec fn token(&self) -> u64 {
        self.token
    }

    /// Whether the request of this guard was cancelled.
    pub fn is_cancelled(&self, manager: &CancellationManager) -> (r: bool)
        ensures
            r == is_cancelled_spec(manager@, self.token()),
    {
        let mut i: usize = manager.flags.len();
        proof { assert(manager.flags@.take(i as int) =~= manager.flags@); }
        while i > 0
            invariant
                i <= manager.flags@.len(),
                forall|j: int| i <= j < manager.flags@.len() ==> (#[trigger] manager.flags@[j]).0 != self.token,
                flag_map(manager.flags@).contains_key(self.token) == flag_map(manager.flags@.take(i as int)).contains_key(self.token),
                flag_map(manager.flags@).contains_key(self.token) ==> flag_map(manager.flags@)[self.token] == flag_map(manager.flags@.take(i as int))[self.token],
            decreases i,
        {
            let e = manager.flags[i - 1];
            proof { assert(manager.flags@.take(i as int).drop_last() =~= manager.flags@.take(i - 1)); }
            if e.0 == self.token {
                return e.1;
            }
            i = i - 1;
        }
        false
    }
}

impl CancellationManager {
    /// Whether another request can begin: the guard tokens are not used up.
    pub fn can_begin(&self) -> (r: bool)
        ensures
            r == (self@.next_token < u64::MAX),
    {
        self.next_token < u64::MAX
    }

    /// A manager with no requests, no pending cancellations and no guards.
    pub fn new() -> (m: CancellationManager)
        ensures
            m@.active == Map::<Seq<char>, (Seq<char>, u64)>::empty(),
            m@.pending == Set::<Seq<char>>::empty(),
            m@.flags == Map::<u64, bool>::empty(),
            m@.next_token == 0,
            state_wf(m@),
    {
        CancellationManager { active: Vec::new(), cancelled: Vec::new(), flags: Vec::new(), next_token: 0 }
    }

    fn remove_active(&mut self, c: &str)
        ensures
            entry_views(final(self).active@) == active_without(entry_views(old(self).active@), c@),
            final(self).cancelled@ == old(self).cancelled@,
            final(self).flags@ == old(self).flags@,
            final(self).next_token == old(self).next_token,
    {
        let mut kept: Vec<ActiveCancellation> = Vec::new();
        let ghost orig = entry_views(self.active@);
        let mut i: usize = 0;
        let n = self.active.len();
        while i < n
            invariant
                n == self.active@.len(),
                orig == entry_views(self.active@),
                i <= n,
                entry_views(kept@) == active_without(orig.take(i as int), c@),
            decreases n - i,
        {
            proof { assert(orig.take(i + 1).drop_last() =~= orig.take(i as int)); }
            let a = &self.active[i];
            if !str_eq(a.cancellation_id.as_str(), c) {
                let ghost before = kept@;
                kept.push(ActiveCancellation {
                    cancellation_id: owned(a.cancellation_id.as_str()),
                    request_id: owned(a.request_id.as_str()),
                    token: a.token,
                });
                proof {
                    assert(kept@.drop_last() =~= before);
                    assert(entry_views(kept@) =~= entry_views(before).push(orig[i as int]));
                }
            }
            i = i + 1;
        }
        proof { assert(orig.take(n as int) =~= orig); }
        self.active = kept;
    }

    fn remove_cancelled(&mut self, c: &str)
        ensures
            name_views(final(self).cancelled@) == names_without(name_views(old(self).cancelled@), c@),
            final(self).active@ == old(self).active@,
            final(self).flags@ == old(self).flags@,
            final(self).next_token == old(self).next_token,
    {
        let mut kept: Vec<String> = Vec::new();
        let ghost orig = name_views(self.cancelled@);
        let mut i: usize = 0;
        let n = self.cancelled.len();
        while i < n
            invariant
                n == self.cancelled@.len(),
                orig == name_views(self.cancelled@),
                i <= n,
                name_views(kept@) == names_without(orig.take(i as int), c@),
            decreases n - i,
        {
            proof { assert(orig.take(i + 1).drop_last() =~= orig.take(i as int)); }
            let name = &self.cancelled[i];
            if !str_eq(name.as_str(), c) {
                let ghost before = kept@;
                kept.push(owned(name.as_str()));
                proof {
                    assert(kept@.drop_last() =~= before);
                    assert(name_views(kept@) =~= name_views(before).push(orig[i as int]));
                }
            }
            i = i + 1;
        }
        proof { assert(orig.take(n as int) =~= orig); }
        self.cancelled = kept;
    }

    fn has_cancelled(&self, c: &str) -> (r: bool)
        ensures
            r == name_set(name_views(self.cancelled@)).contains(c@),
    {
        let ghost v = name_views(self.cancelled@);
        let mut i: usize = 0;
        let mut found = false;
        while i < self.cancelled.len()
            invariant
                v == name_views(self.cancelled@),
                i <= v.len(),
                found == name_set(v.take(i as int)).contains(c@),
            decreases self.cancelled@.len() - i,
        {
            proof { lemma_name_set_take(v, i as int); }
            if str_eq(self.cancelled[i].as_str(), c) {
                found = true;
            }
            i = i + 1;
        }
        proof { assert(v.take(i as int) =~= v); }
        found
    }

    fn set_flag(&mut self, t: u64)
        ensures
            final(self).flags@ == flags_set(old(self).flags@, t),
            final(self).active@ == old(self).active@,
            final(self).cancelled@ == old(self).cancelled@,
            final(self).next_token == old(self).next_token,
    {
        let ghost orig = self.flags@;
        let mut i: usize = 0;
        while i < self.flags.len()
            invariant
                i <= self.flags@.len(),
                self.flags@.len() == orig.len(),
                forall|j: int| 0 <= j < i ==> #[trigger] self.flags@[j] == flags_set(orig, t)[j],
                forall|j: int| i <= j < orig.len() ==> #[trigger] self.flags@[j] == orig[j],
                self.active@ == old(self).active@,
                self.cancelled@ == old(self).cancelled@,
                self.next_token == old(self).next_token,
                orig == old(self).flags@,
            decreases orig.len() - i,
        {
            let e = self.flags[i];
            if e.0 == t {
                self.flags.set(i, (t, true));
            }
            i = i + 1;
        }
        proof { assert(self.flags@ =~= flags_set(orig, t)); }
    }

    fn remove_flag(&mut self, t: u64)
        ensures
            final(self).flags@ == flags_without(old(self).flags@, t),
            final(self).active@ == old(self).active@,
            final(self).cancelled@ == old(self).cancelled@,
            final(self).next_token == old(self).next_token,
    {
        let mut kept: Vec<(u64, bool)> = Vec::new();
        let ghost orig = self.flags@;
        let mut i: usize = 0;
        let n = self.flags.len();
        while i < n
            invariant
                n == orig.len(),
                orig == self.flags@,
                i <= n,
                kept@ == flags_without(orig.take(i as int), t),
            decreases n - i,
        {
            proof { assert(orig.take(i + 1).drop_last() =~= orig.take(i as int)); }
            let e = self.flags[i];
            if e.0 != t {
                kept.push(e);
            }
            i = i + 1;
        }
        proof { assert(orig.take(n as int) =~= orig); }
        self.flags = kept;
    }

    /// The request id and token of the entry active under `c`.
    fn find_active(&self, c: &str) -> (r: Option<(String, u64)>)
        ensures
            match r {
                Some((rid, t)) => active_map(entry_views(self.active@)).contains_key(c@)
                    && active_map(entry_views(self.active@))[c@] == (rid@, t),
                None => !active_map(entry_views(self.active@)).contains_key(c@),
            },
    {
        let ghost v = entry_views(self.active@);
        let mut i: usize = self.active.len();
        proof { assert(v.take(i as int) =~= v); }
        while i > 0
            invariant
                v == entry_views(self.active@),
                i <= v.len(),
                forall|j: int| i <= j < v.len() ==> (#[trigger] v[j]).0 != c@,
            decreases i,
        {
            let a = &self.active[i - 1];
            if str_eq(a.cancellation_id.as_str(), c) {
                proof {
                    lemma_active_prefix(v, i as int, c@);
                    assert(v.take(i as int).drop_last() =~= v.take(i - 1));
                }
                return Some((owned(a.request_id.as_str()), a.token));
            }
            i = i - 1;
        }
        proof {
            lemma_active_prefix(v, 0, c@);
            assert(v.take(0) =~= Seq::<Entry>::empty());
        }
        None
    }

    /// Registers a request that begins, under its cancellation id if it has
    /// one, and returns its guard. A cancellation that was already asked for
    /// that id is applied to the new guard at once.
    pub fn begin(&mut self, request_id: String, cancellation_id: Option<CancellationId>) -> (g: RequestCancellationGuard)
        requires
            old(self)@.next_token < u64::MAX,
        ensures
            final(self)@ == begin_spec(old(self)@, request_id@, g.cid()),
            state_wf(old(self)@) ==> state_wf(final(self)@),
            g.token() == old(self)@.next_token,
            g.cid() == match cancellation_id {
                Some(c) => Some(c.0@),
                None => None::<Seq<char>>,
            },
    {
        let t = self.next_token;
        let ghost s0 = self@;
        let mut cancelled = false;
        let cid_out = match &cancellation_id {
            Some(c) => {
                let ghost ev0 = entry_views(self.active@);
                cancelled = self.has_cancelled(c.0.as_str());
                self.remove_cancelled(c.0.as_str());
                proof { lemma_names_without(name_views(old(self).cancelled@), c.0@); }
                self.remove_active(c.0.as_str());
                proof { lemma_active_without(ev0, c.0@); }
                let ghost before = self.active@;
                self.active.push(ActiveCancellation {
                    cancellation_id: owned(c.0.as_str()),
                    request_id: request_id,
                    token: t,
                });
                proof {
                    assert(self.active@.drop_last() =~= before);
                    assert(entry_views(self.active@).drop_last() =~= entry_views(before));
                }
                Some(CancellationId(owned(c.0.as_str())))
            },
            None => None,
        };
        let ghost fl = self.flags@;
        self.flags.push((t, cancelled));
        proof { assert(self.flags@.drop_last() =~= fl); }
        self.next_token = t + 1;
        let g = RequestCancellationGuard { cancellation_id: cid_out, token: t };
        proof {
            assert(self@.active =~= begin_spec(s0, request_id@, g.cid()).active);
            assert(self@.pending =~= begin_spec(s0, request_id@, g.cid()).pending);
            assert(self@.flags =~= begin_spec(s0, request_id@, g.cid()).flags);
        }
        g
    }

    /// Asks for the cancellation of a request. Answers `true` when the active
    /// request under the id is cancelled, or when no request is active under
    /// it (the cancellation then waits for the request to begin); `false`
    /// when the given request id is not that of the active request.
    pub fn cancel(&mut self, request: &CancelRequest) -> (r: bool)
        ensures
            (final(self)@, r) == cancel_spec(
                old(self)@,
                request.cancellation_id.0@,
                asked_request_id(request),
            ),
            state_wf(old(self)@) ==> state_wf(final(self)@),
    {
        let c = request.cancellation_id.0.as_str();
        let ghost asked = asked_request_id(request);
        let ghost s0 = self@;
        match self.find_active(c) {
            Some((rid, t)) => {
                let matches = match &request.request_id {
                    Some(q) => str_eq(q.as_str(), rid.as_str()),
                    None => true,
                };
                if matches {
                    let ghost fl = self.flags@;
                    self.set_flag(t);
                    proof {
                        lemma_flags_set(fl, t);
                        assert(self@.flags =~= cancel_spec(s0, c@, asked).0.flags);
                    }
                    true
                } else {
                    false
                }
            },
            None => {
                let ghost cv = name_views(self.cancelled@);
                self.cancelled.push(owned(c));
                proof {
                    assert(name_views(self.cancelled@).drop_last() =~= cv);
                    assert(self@.pending =~= cancel_spec(s0, c@, asked).0.pending);
                }
                true
            },
        }
    }

    /// Ends the request of a guard: its flag goes, and so do the active
    /// entry and any pending cancellation under its cancellation id.
    pub fn finish(&mut self, guard: RequestCancellationGuard)
        ensures
            final(self)@ == finish_spec(old(self)@, guard.cid(), guard.token()),
            state_wf(old(self)@) ==> state_wf(final(self)@),
    {
        let ghost s0 = self@;
        let ghost fl = self.flags@;
        self.remove_flag(guard.token);
        proof { lemma_flags_without(fl, guard.token); }
        if let Some(c) = &guard.cancellation_id {
            let ghost ev0 = entry_views(self.active@);
            let ghost nv0 = name_views(self.cancelled@);
            self.remove_active(c.0.as_str());
            proof { lemma_active_without(ev0, c.0@); }
            self.remove_cancelled(c.0.as_str());
            proof { lemma_names_without(nv0, c.0@); }
        }
        proof {
            assert(self@.active =~= finish_spec(s0, guard.cid(), guard.token()).active);
            assert(self@.pending =~= finish_spec(s0, guard.cid(), guard.token()).pending);
            assert(self@.flags =~= finish_spec(s0, guard.cid(), guard.token()).flags);
        }
    }
}

} // verus!
