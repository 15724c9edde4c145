//! Disposables: things that clean up on demand, and a store that owns them
//! and disposes them last in, first out.
//!
//! The store keeps, beside the things themselves, the order in which it has
//! disposed them: each thing is known by the number of things added before
//! it, and the store's view records those numbers in disposal order, every
//! thing as it was added, and every disposed thing as its `dispose` left it.
use vstd::prelude::*;

verus! {

/// Something that cleans up when told to.
pub trait Disposable {
    /// How many times the thing has been told to clean up.
    spec fn disposals(&self) -> nat;

    fn dispose(&mut self)
        ensures
            final(self).disposals() == old(self).disposals() + 1,
    ;
}

/// A closure that runs when it is disposed; it counts its runs.
pub struct DisposeFn<F: Fn()> {
    f: F,
    runs: Ghost<nat>,
}

impl<F: Fn()> DisposeFn<F> {
    /// The closure can always be called.
    #[verifier::type_invariant]
    spec fn callable(self) -> bool {
        call_requires(self.f, ())
    }

    /// Wraps a closure that can be called with no precondition.
    pub fn new(f: F) -> (d: DisposeFn<F>)
        requires
            call_requires(f, ()),
        ensures
            d.disposals() == 0,
    {
        DisposeFn { f, runs: Ghost(0) }
    }
}

impl<F: Fn()> Disposable for DisposeFn<F> {
    /// How many times the closure has run.
    closed spec fn disposals(&self) -> nat {
        self.runs@
    }

    /// Runs the closure once.
    fn dispose(&mut self) {
        proof { use_type_invariant(&*self); }
        (self.f)();
        self.runs = Ghost(self.runs@ + 1);
    }
}

/// The numbers of the live things among `ids`, the last one first.
pub open spec fn live_reversed(ids: Seq<Option<nat>>) -> Seq<nat>
    decreases ids.len(),
{
    if ids.len() == 0 {
        seq![]
    } else {
        let rest = live_reversed(ids.drop_last());
        match ids.last() {
            Some(k) => seq![k] + rest,
            None => rest,
        }
    }
}

/// What a store holds: a slot per thing added since it was last cleared
/// (the thing's number while it is live, none once it is disposed), whether
/// the store itself is disposed, the numbers of the things disposed so far
/// in the order they were disposed, how many things were ever added, each
/// thing ever added as it was added (by its number), and each disposed
/// thing as its `dispose` left it (by its number).
pub ghost struct StoreView<D> {
    pub slots: Seq<Option<nat>>,
    pub disposed: bool,
    pub log: Seq<nat>,
    pub added: nat,
    pub items: Seq<D>,
    pub finals: Map<nat, D>,
}

/// Every thing in the disposal order was disposed exactly once: as its
/// `dispose` left it, it had been told to clean up once more than when it
/// was added.
pub open spec fn disposed_once<D: Disposable>(v: StoreView<D>) -> bool {
    &&& v.items.len() == v.added
    &&& forall|a: int| 0 <= a < v.log.len() ==> #[trigger] v.finals.dom().contains(v.log[a])
        && v.finals[v.log[a]].disposals() == v.items[v.log[a] as int].disposals() + 1
    &&& forall|x: nat| #[trigger] v.finals.dom().contains(x) ==> v.log.contains(x)
}

/// Each thing is known by a number below `added`; no number is live in two
/// slots, disposed twice, or both live and disposed.
pub open spec fn once_each<D>(v: StoreView<D>) -> bool {
    &&& forall|i: int| 0 <= i < v.slots.len() && (#[trigger] v.slots[i]) is Some ==> v.slots[i]->0 < v.added
    &&& forall|i: int, j: int| 0 <= i < j < v.slots.len() && (#[trigger] v.slots[i]) is Some && (#[trigger] v.slots[j]) is Some
        ==> v.slots[i]->0 != v.slots[j]->0
    &&& forall|a: int| 0 <= a < v.log.len() ==> #[trigger] v.log[a] < v.added
    &&& v.log.no_duplicates()
    &&& forall|i: int, a: int| 0 <= i < v.slots.len() && 0 <= a < v.log.len() && (#[trigger] v.slots[i]) is Some
        ==> v.slots[i]->0 != #[trigger] v.log[a]
}

/// Returned by `DisposableStore::add`: disposes its thing ahead of the store.
pub struct DisposableHandle {
    idx: usize,
    attached: bool,
}

impl DisposableHandle {
    /// The slot the handle refers to, where the store was live when the
    /// thing was added.
    pub closed spec fn slot(&self) -> Option<nat> {
        if self.attached { Some(self.idx as nat) } else { None }
    }

    /// Disposes the handle's thing now, if it is still in its slot; the
    /// slot is left empty, so the store will not dispose it again.
    pub fn dispose<D: Disposable>(self, store: &mut DisposableStore<D>)
        requires
            old(store).wf(),
        ensures
            final(store).wf(),
            disposed_once(final(store)@),
            final(store)@.disposed == old(store)@.disposed,
            final(store)@.added == old(store)@.added,
            final(store)@.items == old(store)@.items,
            old(store)@.finals.submap_of(final(store)@.finals),
            match self.slot() {
                Some(i) => if i < old(store)@.slots.len() && old(store)@.slots[i as int] is Some {
                    final(store)@.slots == old(store)@.slots.update(i as int, None)
                        && final(store)@.log == old(store)@.log.push(old(store)@.slots[i as int]->0)
                } else {
                    final(store)@.slots == old(store)@.slots && final(store)@.log == old(store)@.log
                },
                None => final(store)@.slots == old(store)@.slots && final(store)@.log == old(store)@.log,
            },
    {
        if self.attached && self.idx < store.slots.len() {
            let i = self.idx;
            let mut slot: Option<D> = None;
            std::mem::swap(&mut slot, &mut store.slots[i]);
            match slot {
                Some(mut d) => {
                    let ghost k = store.ids@[i as int]->0;
                    proof { assert(store.slots@[i as int] is None); }
                    d.dispose();
                    store.ids = Ghost(store.ids@.update(i as int, None));
                    store.log = Ghost(store.log@.push(k));
                    proof { lemma_fresh_number(old(store)@, i as int, k); }
                    store.finals = Ghost(store.finals@.insert(k, d));
                    proof { store.lemma_wf_after_disposal(old(store)@, k); }
                },
                None => {},
            }
        }
    }
}

/// Owns disposables and disposes them in reverse order of addition.
pub struct DisposableStore<D> {
    slots: Vec<Option<D>>,
    is_disposed: bool,
    ids: Ghost<Seq<Option<nat>>>,
    log: Ghost<Seq<nat>>,
    added: Ghost<nat>,
    items: Ghost<Seq<D>>,
    finals: Ghost<Map<nat, D>>,
}

impl<D: Disposable> View for DisposableStore<D> {
    type V = StoreView<D>;

    closed spec fn view(&self) -> StoreView<D> {
        StoreView {
            slots: self.ids@,
            disposed: self.is_disposed,
            log: self.log@,
            added: self.added@,
            items: self.items@,
            finals: self.finals@,
        }
    }
}

/// A number live in a slot is not yet in the disposal order.
proof fn lemma_fresh_number<D>(v: StoreView<D>, i: int, k: nat)
    requires
        once_each(v),
        0 <= i < v.slots.len(),
        v.slots[i] == Some(k),
    ensures
        !v.log.contains(k),
{
    if v.log.contains(k) {
        let a = choose|a: int| 0 <= a < v.log.len() && v.log[a] == k;
        assert(v.slots[i]->0 != v.log[a]);
    }
}

impl<D: Disposable> DisposableStore<D> {
    pub closed spec fn wf(&self) -> bool {
        &&& self.ids@.len() == self.slots@.len()
        &&& forall|i: int| 0 <= i < self.slots@.len() ==> (#[trigger] self.slots@[i] is Some <==> self.ids@[i] is Some)
        &&& forall|i: int| 0 <= i < self.slots@.len() && (#[trigger] self.slots@[i]) is Some
            ==> self.slots@[i]->0 == self.items@[self.ids@[i]->0 as int]
        &&& once_each(self@)
        &&& disposed_once(self@)
    }

    /// After the thing numbered `k` was taken from its slot, disposed and
    /// logged, the store is well formed again.
    proof fn lemma_wf_after_disposal(&self, before: StoreView<D>, k: nat)
        requires
            disposed_once(before),
            self.items@ == before.items,
            self.added@ == before.added,
            self.log@ == before.log.push(k),
            !before.log.contains(k),
            k < before.added,
            self.finals@ == before.finals.insert(k, self.finals@[k]),
            self.finals@[k].disposals() == self.items@[k as int].disposals() + 1,
        ensures
            disposed_once(self@),
            before.finals.submap_of(self.finals@),
    {
        assert forall|a: int| 0 <= a < self.log@.len() implies #[trigger] self.finals@.dom().contains(self.log@[a])
            && self.finals@[self.log@[a]].disposals() == self.items@[self.log@[a] as int].disposals() + 1 by {
            if a < before.log.len() {
                assert(self.log@[a] == before.log[a]);
                assert(before.finals.dom().contains(before.log[a]));
                assert(before.log[a] != k);
            }
        }
        assert(!before.finals.dom().contains(k));
        assert forall|x: nat| #[trigger] self.finals@.dom().contains(x) implies self.log@.contains(x) by {
            if x == k {
                assert(self.log@[self.log@.len() - 1] == k);
            } else {
                assert(before.log.contains(x));
                let a = choose|a: int| 0 <= a < before.log.len() && before.log[a] == x;
                assert(self.log@[a] == x);
            }
        }
        assert forall|x: nat| #[trigger] before.finals.dom().contains(x) implies self.finals@.dom().contains(x)
            && before.finals[x] == self.finals@[x] by {
            assert(x != k);
        }
    }

    pub fn new() -> (s: DisposableStore<D>)
        ensures
            s.wf(),
            s@.slots == Seq::<Option<nat>>::empty(),
            !s@.disposed,
            s@.log == Seq::<nat>::empty(),
            s@.added == 0,
            s@.items == Seq::<D>::empty(),
            s@.finals == Map::<nat, D>::empty(),
    {
        DisposableStore {
            slots: Vec::new(),
            is_disposed: false,
            ids: Ghost(Seq::empty()),
            log: Ghost(Seq::empty()),
            added: Ghost(0),
            items: Ghost(Seq::empty()),
            finals: Ghost(Map::empty()),
        }
    }

    /// Adds a thing to the store and returns a handle to dispose it early.
    /// A store that is already disposed disposes the thing at once.
    pub fn add(&mut self, d: D) -> (h: DisposableHandle)
        requires
            old(self).wf(),
        ensures
            final(self).wf(),
            disposed_once(final(self)@),
            final(self)@.disposed == old(self)@.disposed,
            final(self)@.added == old(self)@.added + 1,
            final(self)@.items == old(self)@.items.push(d),
            old(self)@.finals.submap_of(final(self)@.finals),
            old(self)@.disposed ==> final(self)@.slots == old(self)@.slots
                && final(self)@.log == old(self)@.log.push(old(self)@.added)
                && h.slot() is None,
            !old(self)@.disposed ==> final(self)@.slots == old(self)@.slots.push(Some(old(self)@.added))
                && final(self)@.log == old(self)@.log
                && final(self)@.finals == old(self)@.finals
                && h.slot() == Some(old(self)@.slots.len()),
    {
        let ghost k = self.added@;
        let ghost before = self@;
        self.added = Ghost(self.added@ + 1);
        self.items = Ghost(self.items@.push(d));
        if self.is_disposed {
            let mut d = d;
            d.dispose();
            self.log = Ghost(self.log@.push(k));
            proof {
                if before.log.contains(k) {
                    let a = choose|a: int| 0 <= a < before.log.len() && before.log[a] == k;
                    assert(before.log[a] < before.added);
                }
                assert forall|i: int| 0 <= i < self.slots@.len() && (#[trigger] self.slots@[i]) is Some
                    implies self.slots@[i]->0 == self.items@[self.ids@[i]->0 as int] by {
                    assert(old(self).slots@[i] is Some);
                    assert(self.ids@[i]->0 < k);
                }
            }
            self.finals = Ghost(self.finals@.insert(k, d));
            proof {
                let before2 = StoreView { items: self.items@, added: self.added@, ..before };
                assert forall|a: int| 0 <= a < before2.log.len() implies #[trigger] before2.finals.dom().contains(before2.log[a])
                    && before2.finals[before2.log[a]].disposals() == before2.items[before2.log[a] as int].disposals() + 1 by {
                    assert(before.log[a] < k);
                    assert(before2.items[before2.log[a] as int] == before.items[before.log[a] as int]);
                }
                self.lemma_wf_after_disposal(before2, k);
            }
            return DisposableHandle { idx: 0, attached: false };
        }
        let idx = self.slots.len();
        self.slots.push(Some(d));
        self.ids = Ghost(self.ids@.push(Some(k)));
        proof {
            assert forall|i: int| 0 <= i < self.slots@.len() implies (#[trigger] self.slots@[i] is Some <==> self.ids@[i] is Some) by {
                if i < idx {
                    assert(old(self).slots@[i] is Some <==> old(self).ids@[i] is Some);
                }
            }
            assert forall|i: int| 0 <= i < self.slots@.len() && (#[trigger] self.slots@[i]) is Some
                implies self.slots@[i]->0 == self.items@[self.ids@[i]->0 as int] by {
                if i < idx {
                    assert(old(self).slots@[i] is Some);
                    assert(self.ids@[i]->0 < k);
                }
            }
            assert forall|a: int| 0 <= a < self.log@.len() implies #[trigger] self.finals@.dom().contains(self.log@[a])
                && self.finals@[self.log@[a]].disposals() == self.items@[self.log@[a] as int].disposals() + 1 by {
                assert(before.log[a] < k);
            }
        }
        DisposableHandle { idx, attached: true }
    }

    /// Disposes every live thing, the last added first, and empties the
    /// store; the store stays usable.
    pub fn clear(&mut self)
        requires
            old(self).wf(),
        ensures
            final(self).wf(),
            disposed_once(final(self)@),
            final(self)@.slots == Seq::<Option<nat>>::empty(),
            final(self)@.log == old(self)@.log + live_reversed(old(self)@.slots),
            final(self)@.disposed == old(self)@.disposed,
            final(self)@.added == old(self)@.added,
            final(self)@.items == old(self)@.items,
            old(self)@.finals.submap_of(final(self)@.finals),
    {
        let ghost target = self.log@ + live_reversed(self.ids@);
        while self.slots.len() > 0
            invariant
                self.wf(),
                self.log@ + live_reversed(self.ids@) == target,
                self.is_disposed == old(self).is_disposed,
                self.added@ == old(self).added@,
                self.items@ == old(self).items@,
                old(self)@.finals.submap_of(self.finals@),
            decreases self.slots@.len(),
        {
            let ghost ids = self.ids@;
            let ghost before = self@;
            let ghost n = self.slots@.len() as int;
            let slot = self.slots.pop().unwrap();
            self.ids = Ghost(ids.drop_last());
            match slot {
                Some(mut d) => {
                    proof { assert(ids.last() is Some); }
                    let ghost k = ids.last()->0;
                    proof {
                        assert(before.slots[n - 1] == Some(k));
                        lemma_fresh_number(before, n - 1, k);
                    }
                    d.dispose();
                    self.log = Ghost(self.log@.push(k));
                    self.finals = Ghost(self.finals@.insert(k, d));
                    proof {
                        self.lemma_wf_after_disposal(before, k);
                        assert(live_reversed(ids) == seq![k] + live_reversed(ids.drop_last()));
                        assert(self.log@ + live_reversed(self.ids@) =~= (self.log@.drop_last() + seq![k]) + live_reversed(ids.drop_last()));
                        assert(self.log@.drop_last() + live_reversed(ids) =~= (self.log@.drop_last() + seq![k]) + live_reversed(ids.drop_last()));
                    }
                },
                None => {
                    proof {
                        assert(ids.last() is None);
                        assert(self@.log == before.log && self@.finals == before.finals && self@.items == before.items);
                    }
                },
            }
            proof {
                assert forall|i: int| 0 <= i < self.slots@.len() implies (#[trigger] self.slots@[i] is Some <==> self.ids@[i] is Some) by {
                    assert(self.ids@[i] == ids[i]);
                }
                assert forall|i: int| 0 <= i < self.slots@.len() && (#[trigger] self.slots@[i]) is Some
                    implies self.slots@[i]->0 == self.items@[self.ids@[i]->0 as int] by {
                    assert(self.ids@[i] == ids[i]);
                    assert(before.slots[i] == ids[i]);
                }
                assert(once_each(self@));
                assert(disposed_once(self@));
                assert forall|x: nat| #[trigger] old(self)@.finals.dom().contains(x) implies self.finals@.dom().contains(x)
                    && old(self)@.finals[x] == self.finals@[x] by {
                    assert(before.finals.dom().contains(x));
                }
            }
        }
        proof { assert(live_reversed(self.ids@) =~= Seq::<nat>::empty()); }
        assert(self.log@ =~= target);
    }

    /// Disposes every live thing, last added first, and marks the store
    /// disposed; a store already disposed is left as it is.
    pub fn dispose(&mut self)
        requires
            old(self).wf(),
        ensures
            final(self).wf(),
            disposed_once(final(self)@),
            final(self)@.disposed,
            final(self)@.added == old(self)@.added,
            final(self)@.items == old(self)@.items,
            old(self)@.finals.submap_of(final(self)@.finals),
            old(self)@.disposed ==> final(self)@ == old(self)@,
            !old(self)@.disposed ==> final(self)@.slots == Seq::<Option<nat>>::empty()
                && final(self)@.log == old(self)@.log + live_reversed(old(self)@.slots),
    {
        if self.is_disposed {
            return;
        }
        self.is_disposed = true;
        proof {
            assert(self@.log == old(self)@.log && self@.slots == old(self)@.slots && self@.finals == old(self)@.finals);
            assert(once_each(self@));
            assert(disposed_once(self@));
        }
        self.clear();
    }

    pub fn is_disposed(&self) -> (r: bool)
        ensures
            r == self@.disposed,
    {
        self.is_disposed
    }
}


proof fn lemma_live_reversed_members(ids: Seq<Option<nat>>, x: nat)
    ensures
        live_reversed(ids).contains(x) ==> exists|i: int| 0 <= i < ids.len() && ids[i] == Some(x),
    decreases ids.len(),
{
    if ids.len() > 0 {
        let d = ids.drop_last();
        lemma_live_reversed_members(d, x);
        if live_reversed(ids).contains(x) {
            let rest = live_reversed(d);
            match ids.last() {
                Some(k) => {
                    if k != x {
                        let j = choose|j: int| 0 <= j < live_reversed(ids).len() && live_reversed(ids)[j] == x;
                        assert(live_reversed(ids) == seq![k] + rest);
                        assert(rest[j - 1] == x);
                        assert(rest.contains(x));
                        let i = choose|i: int| 0 <= i < d.len() && d[i] == Some(x);
                        assert(ids[i] == d[i]);
                    } else {
                        assert(ids[ids.len() - 1] == Some(x));
                    }
                },
                None => {
                    let i = choose|i: int| 0 <= i < d.len() && d[i] == Some(x);
                    assert(ids[i] == d[i]);
                },
            }
        }
    }
}

/// A store never disposes a thing twice: its disposal order has no repeats.
pub proof fn lemma_disposed_at_most_once<D: Disposable>(store: &DisposableStore<D>)
    requires
        store.wf(),
    ensures
        store@.log.no_duplicates(),
{
}

/// A thing disposed through its handle was not disposed before, and is not
/// disposed again when the store is cleared or disposed afterwards.
pub proof fn lemma_handle_dispose_then_clear<D>(v: StoreView<D>, i: int)
    requires
        once_each(v),
        0 <= i < v.slots.len(),
        v.slots[i] is Some,
    ensures
        !v.log.contains(v.slots[i]->0),
        !live_reversed(v.slots.update(i, None)).contains(v.slots[i]->0),
{
    let k = v.slots[i]->0;
    let after = v.slots.update(i, None);
    lemma_live_reversed_members(after, k);
    if live_reversed(after).contains(k) {
        let j = choose|j: int| 0 <= j < after.len() && after[j] == Some(k);
        assert(j != i);
        assert(v.slots[j] == after[j]);
        if j < i {
            assert(v.slots[j]->0 != v.slots[i]->0);
        } else {
            assert(v.slots[i]->0 != v.slots[j]->0);
        }
    }
    if v.log.contains(k) {
        let a = choose|a: int| 0 <= a < v.log.len() && v.log[a] == k;
        assert(v.slots[i]->0 != v.log[a]);
    }
}

} // verus!
