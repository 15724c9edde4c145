//! The bookkeeping of events and observable values: who is listening, in
//! what order they are told, when a derived value must be computed again.
//! The listeners themselves (callbacks) are held by the caller, under the
//! keys handed out here; a key names the same listener until it is removed.
use vstd::prelude::*;

verus! {

/// Listener keys in the order they were added. Keys are handed out in
/// increasing order and never reused.
pub struct ListenerRegistry {
    keys: Vec<u64>,
    next_key: u64,
}

pub open spec fn increasing(s: Seq<u64>) -> bool {
    forall|i: int, j: int| 0 <= i < j < s.len() ==> s[i] < s[j]
}

/// Every key except `key`.
pub open spec fn without_key(key: u64) -> spec_fn(u64) -> bool {
    |k: u64| k != key
}

impl ListenerRegistry {
    /// The registered keys, oldest first.
    pub closed spec fn keys(&self) -> Seq<u64> {
        self.keys@
    }

    /// The key the next listener gets.
    pub closed spec fn next_key(&self) -> u64 {
        self.next_key
    }

    pub closed spec fn wf(&self) -> bool {
        &&& increasing(self.keys@)
        &&& forall|i: int| 0 <= i < self.keys@.len() ==> self.keys@[i] < self.next_key
    }

    pub fn new() -> (r: ListenerRegistry)
        ensures
            r.wf(),
            r.keys() == Seq::<u64>::empty(),
            r.next_key() == 0,
    {
        ListenerRegistry { keys: Vec::new(), next_key: 0 }
    }

    /// Whether another listener can be added: the keys are not used up.
    pub fn can_add(&self) -> (r: bool)
        ensures
            r == (self.next_key() < u64::MAX),
    {
        self.next_key < u64::MAX
    }

    /// Adds a listener; its key comes last in the notification order.
    pub fn add(&mut self) -> (key: u64)
        requires
            old(self).wf(),
            old(self).next_key() < u64::MAX,
        ensures
            final(self).wf(),
            key == old(self).next_key(),
            final(self).keys() == old(self).keys().push(key),
            final(self).next_key() == old(self).next_key() + 1,
    {
        let key = self.next_key;
        self.keys.push(key);
        self.next_key = key + 1;
        key
    }

    /// Removes a listener; the others keep their order. An unknown key
    /// changes nothing.
    pub fn remove(&mut self, key: u64)
        requires
            old(self).wf(),
        ensures
            final(self).wf(),
            final(self).keys() == old(self).keys().filter(without_key(key)),
            final(self).next_key() == old(self).next_key(),
    {
        let ghost s = self.keys@;
        let ghost p = without_key(key);
        let mut out: Vec<u64> = Vec::new();
        let mut i: usize = 0;
        proof {
            assert(s.take(0) =~= Seq::<u64>::empty());
            reveal(Seq::filter);
        }
        while i < self.keys.len()
            invariant
                s == self.keys@,
                p == without_key(key),
                i <= s.len(),
                increasing(s),
                forall|x: int| 0 <= x < s.len() ==> s[x] < self.next_key,
                out@ == s.take(i as int).filter(p),
                increasing(out@),
                forall|x: int| #![trigger out@[x]] 0 <= x < out@.len() ==> exists|y: int| 0 <= y < i && out@[x] == #[trigger] s[y],
            decreases s.len() - i,
        {
            let k = self.keys[i];
            proof {
                assert(s.take(i + 1).drop_last() =~= s.take(i as int));
                assert(s.take(i + 1).last() == k);
                reveal(Seq::filter);
                if k != key {
                    assert(p(k));
                    assert(s.take(i + 1).filter(p) == s.take(i as int).filter(p).push(k));
                } else {
                    assert(!p(k));
                    assert(s.take(i + 1).filter(p) == s.take(i as int).filter(p));
                }
            }
            if k != key {
                proof {
                    assert forall|x: int| 0 <= x < out@.len() implies out@[x] < k by {
                        let y = choose|y: int| 0 <= y < i && out@[x] == #[trigger] s[y];
                    }
                }
                out.push(k);
                proof {
                    assert forall|x: int| #![trigger out@[x]] 0 <= x < out@.len() implies exists|y: int| 0 <= y < i + 1 && out@[x] == #[trigger] s[y] by {
                        if x == out@.len() - 1 {
                            assert(out@[x] == s[i as int]);
                        } else {
                            let y = choose|y: int| 0 <= y < i && out@[x] == #[trigger] s[y];
                            assert(out@[x] == s[y]);
                        }
                    }
                }
            } else {
                proof {
                    assert forall|x: int| #![trigger out@[x]] 0 <= x < out@.len() implies exists|y: int| 0 <= y < i + 1 && out@[x] == #[trigger] s[y] by {
                        let y = choose|y: int| 0 <= y < i && out@[x] == #[trigger] s[y];
                        assert(out@[x] == s[y]);
                    }
                }
            }
            i = i + 1;
        }
        proof {
            assert(s.take(s.len() as int) =~= s);
            assert forall|x: int| 0 <= x < out@.len() implies out@[x] < self.next_key by {
                let y = choose|y: int| 0 <= y < s.len() && out@[x] == #[trigger] s[y];
            }
        }
        self.keys = out;
    }

    /// The keys to tell of an event: every listener, oldest first.
    pub fn notify(&self) -> (keys: Vec<u64>)
        ensures
            keys@ == self.keys(),
    {
        let mut out: Vec<u64> = Vec::new();
        let mut i: usize = 0;
        while i < self.keys.len()
            invariant
                i <= self.keys@.len(),
                out@ == self.keys@.take(i as int),
            decreases self.keys@.len() - i,
        {
            out.push(self.keys[i]);
            proof { assert(out@ =~= self.keys@.take(i + 1)); }
            i = i + 1;
        }
        proof { assert(self.keys@.take(self.keys@.len() as int) =~= self.keys@); }
        out
    }

    pub fn len(&self) -> (n: usize)
        ensures
            n == self.keys().len(),
    {
        self.keys.len()
    }
}

/// Each listener is told of an event exactly once: the keys notified hold
/// no repeats.
pub proof fn lemma_each_listener_told_once(r: &ListenerRegistry)
    requires
        r.wf(),
    ensures
        r.keys().no_duplicates(),
{
    assert forall|i: int, j: int| 0 <= i < r.keys().len() && 0 <= j < r.keys().len() && i != j
        implies r.keys()[i] != r.keys()[j] by {
        if i < j {
            assert(r.keys()[i] < r.keys()[j]);
        } else {
            assert(r.keys()[j] < r.keys()[i]);
        }
    }
}

/// A removed listener is not told of later events, and the listeners that
/// stay are told as before.
pub proof fn lemma_removed_listener_not_told(keys: Seq<u64>, key: u64, other: u64)
    ensures
        !keys.filter(without_key(key)).contains(key),
        other != key ==> (keys.filter(without_key(key)).contains(other) <==> keys.contains(other)),
{
    broadcast use vstd::seq_lib::group_filter_ensures;
    if keys.filter(without_key(key)).contains(key) {
        let i = choose|i: int| 0 <= i < keys.filter(without_key(key)).len() && keys.filter(without_key(key))[i] == key;
        assert(without_key(key)(keys.filter(without_key(key))[i]));
    }
    if other != key && keys.contains(other) {
        let i = choose|i: int| 0 <= i < keys.len() && keys[i] == other;
        assert(without_key(key)(keys[i]));
    }
    if other != key && keys.filter(without_key(key)).contains(other) {
        keys.lemma_filter_contains_rev(without_key(key), other);
    }
}

/// A single-event emitter: `on` registers a listener, by its index, and
/// `fire` tells every listener, in the order they were registered.
pub struct EventEmitter {
    listeners: usize,
}

impl EventEmitter {
    /// How many listeners are registered.
    pub closed spec fn count(&self) -> nat {
        self.listeners as nat
    }

    pub fn new() -> (e: EventEmitter)
        ensures
            e.count() == 0,
    {
        EventEmitter { listeners: 0 }
    }

    /// Registers a listener; returns its index.
    pub fn on(&mut self) -> (index: usize)
        requires
            old(self).count() < usize::MAX,
        ensures
            index == old(self).count(),
            final(self).count() == old(self).count() + 1,
    {
        let index = self.listeners;
        self.listeners = index + 1;
        index
    }

    /// The listeners to call for one event: each index once, in order.
    pub fn fire(&self) -> (indices: Vec<usize>)
        ensures
            indices@.len() == self.count(),
            forall|i: int| 0 <= i < indices@.len() ==> indices@[i] == i,
    {
        let mut out: Vec<usize> = Vec::new();
        let mut i: usize = 0;
        while i < self.listeners
            invariant
                i <= self.listeners,
                out@.len() == i,
                forall|x: int| 0 <= x < i ==> out@[x] == x,
            decreases self.listeners - i,
        {
            out.push(i);
            i = i + 1;
        }
        out
    }
}

impl Default for EventEmitter {
    fn default() -> (e: EventEmitter)
        ensures
            e.count() == 0,
    {
        EventEmitter::new()
    }
}

/// A writable observable value and the observers told of each change.
pub struct Observable<T> {
    value: T,
    observers: ListenerRegistry,
}

impl<T> Observable<T> {
    pub closed spec fn value(&self) -> T {
        self.value
    }

    pub closed spec fn observers(&self) -> ListenerRegistry {
        self.observers
    }

    pub closed spec fn wf(&self) -> bool {
        self.observers.wf()
    }

    pub fn new(initial: T) -> (o: Observable<T>)
        ensures
            o.wf(),
            o.value() == initial,
            o.observers().keys() == Seq::<u64>::empty(),
            o.observers().next_key() == 0,
    {
        Observable { value: initial, observers: ListenerRegistry::new() }
    }

    /// The current value.
    pub fn get(&self) -> (v: &T)
        ensures
            *v == self.value(),
    {
        &self.value
    }

    /// Sets the value; returns the observers to tell, each once.
    pub fn set(&mut self, value: T) -> (told: Vec<u64>)
        requires
            old(self).wf(),
        ensures
            final(self).wf(),
            final(self).value() == value,
            final(self).observers() == old(self).observers(),
            told@ == old(self).observers().keys(),
    {
        self.value = value;
        self.observers.notify()
    }

    /// Whether another observer can be added.
    pub fn can_add_observer(&self) -> (r: bool)
        ensures
            r == (self.observers().next_key() < u64::MAX),
    {
        self.observers.can_add()
    }

    /// Subscribes an observer; returns its id for later removal.
    pub fn add_observer(&mut self) -> (id: u64)
        requires
            old(self).wf(),
            old(self).observers().next_key() < u64::MAX,
        ensures
            final(self).wf(),
            final(self).value() == old(self).value(),
            id == old(self).observers().next_key(),
            final(self).observers().keys() == old(self).observers().keys().push(id),
            final(self).observers().next_key() == old(self).observers().next_key() + 1,
    {
        self.observers.add()
    }

    /// Unsubscribes the observer with this id.
    pub fn remove_observer(&mut self, id: u64)
        requires
            old(self).wf(),
        ensures
            final(self).wf(),
            final(self).value() == old(self).value(),
            final(self).observers().keys() == old(self).observers().keys().filter(without_key(id)),
            final(self).observers().next_key() == old(self).observers().next_key(),
    {
        self.observers.remove(id)
    }
}

/// The state of a derived value: the value last computed, whether an
/// upstream change made it stale, and its own observers. It starts stale,
/// and is computed again only when read while stale.
pub struct DerivedState<T> {
    cached: Option<T>,
    dirty: bool,
    observers: ListenerRegistry,
}

impl<T> DerivedState<T> {
    pub closed spec fn cached(&self) -> Option<T> {
        self.cached
    }

    pub closed spec fn is_dirty(&self) -> bool {
        self.dirty
    }

    pub closed spec fn observers(&self) -> ListenerRegistry {
        self.observers
    }

    pub closed spec fn wf(&self) -> bool {
        &&& self.observers.wf()
        &&& (!self.dirty ==> self.cached is Some)
    }

    pub fn new() -> (d: DerivedState<T>)
        ensures
            d.wf(),
            d.is_dirty(),
            d.cached() is None,
            d.observers().keys() == Seq::<u64>::empty(),
            d.observers().next_key() == 0,
    {
        DerivedState { cached: None, dirty: true, observers: ListenerRegistry::new() }
    }

    /// Whether a read must compute the value again.
    pub fn needs_compute(&self) -> (r: bool)
        ensures
            r == self.is_dirty(),
    {
        self.dirty
    }

    /// Keeps a freshly computed value; the state is no longer stale.
    pub fn store(&mut self, value: T)
        requires
            old(self).wf(),
        ensures
            final(self).wf(),
            !final(self).is_dirty(),
            final(self).cached() == Some(value),
            final(self).observers() == old(self).observers(),
    {
        self.cached = Some(value);
        self.dirty = false;
    }

    /// The value last computed, when it is not stale.
    pub fn current(&self) -> (v: Option<&T>)
        requires
            self.wf(),
        ensures
            self.is_dirty() ==> v is None,
            !self.is_dirty() ==> (v matches Some(x) && Some(*x) == self.cached()),
    {
        if self.dirty {
            None
        } else {
            match &self.cached {
                Some(x) => Some(x),
                None => None,
            }
        }
    }

    /// An upstream value changed: the state becomes stale, and its own
    /// observers are to be told, each once.
    pub fn handle_change(&mut self) -> (told: Vec<u64>)
        requires
            old(self).wf(),
        ensures
            final(self).wf(),
            final(self).is_dirty(),
            final(self).cached() == old(self).cached(),
            final(self).observers() == old(self).observers(),
            told@ == old(self).observers().keys(),
    {
        self.dirty = true;
        self.observers.notify()
    }

    /// Whether another observer can be added.
    pub fn can_add_observer(&self) -> (r: bool)
        ensures
            r == (self.observers().next_key() < u64::MAX),
    {
        self.observers.can_add()
    }

    /// Subscribes a downstream observer; returns its id.
    pub fn add_observer(&mut self) -> (id: u64)
        requires
            old(self).wf(),
            old(self).observers().next_key() < u64::MAX,
        ensures
            final(self).wf(),
            final(self).is_dirty() == old(self).is_dirty(),
            final(self).cached() == old(self).cached(),
            id == old(self).observers().next_key(),
            final(self).observers().keys() == old(self).observers().keys().push(id),
            final(self).observers().next_key() == old(self).observers().next_key() + 1,
    {
        self.observers.add()
    }
}

} // verus!
