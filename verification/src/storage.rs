//! The state kept by the storage service (key/value stores per scope) and
//! the settings of the configuration service, with the decisions of both
//! services. Reading and writing the JSON files happens outside.
use vstd::prelude::*;
use crate::json::{entries_of, find_entry, find_key, json_get, key_segment_views, lemma_get_after_set, set_rel, JsonValue};
use crate::keyed::{distinct_keys, lemma_rows_dom, lemma_rows_value, rows_map};
use crate::pathorder::{char_order, compare_strings, lemma_lex_irreflexive, lemma_lex_total, lemma_lex_transitive, lex_lt, strict_total, Rel};
use crate::paths::{join_spec, sanitize_workspace_spec, UserDataPaths};
use crate::service_registry::{service_name, ServiceError, ServiceId};
use crate::text::{concat2, concat3, owned, push_str, split_at_char, split_char, str_eq, views};

verus! {

/// Key order: by characters, as `String`s compare.
pub open spec fn key_lt(a: Seq<char>, b: Seq<char>) -> bool {
    lex_lt(a, b, char_order())
}

proof fn lemma_key_order()
    ensures
        forall|a: Seq<char>| !#[trigger] key_lt(a, a),
        forall|a: Seq<char>, b: Seq<char>, c: Seq<char>| #[trigger] key_lt(a, b) && #[trigger] key_lt(b, c) ==> key_lt(a, c),
        forall|a: Seq<char>, b: Seq<char>| a != b ==> #[trigger] key_lt(a, b) || #[trigger] key_lt(b, a),
{
    assert(strict_total(char_order()));
    assert forall|a: Seq<char>| !#[trigger] key_lt(a, a) by {
        lemma_lex_irreflexive(a, char_order());
    }
    assert forall|a: Seq<char>, b: Seq<char>, c: Seq<char>| #[trigger] key_lt(a, b) && #[trigger] key_lt(b, c) implies key_lt(a, c) by {
        lemma_lex_transitive(a, b, c, char_order());
    }
    assert forall|a: Seq<char>, b: Seq<char>| a != b implies #[trigger] key_lt(a, b) || #[trigger] key_lt(b, a) by {
        lemma_lex_total(a, b, char_order());
    }
}

pub open spec fn entry_rows(e: Seq<(String, JsonValue)>) -> Seq<(Seq<char>, JsonValue)> {
    e.map_values(|x: (String, JsonValue)| (x.0@, x.1))
}

/// Keys strictly increasing.
pub open spec fn keys_sorted(r: Seq<(Seq<char>, JsonValue)>) -> bool {
    forall|a: int, b: int| 0 <= a < b < r.len() ==> key_lt(#[trigger] r[a].0, #[trigger] r[b].0)
}

proof fn lemma_sorted_distinct(r: Seq<(Seq<char>, JsonValue)>)
    requires
        keys_sorted(r),
    ensures
        distinct_keys(r),
{
    lemma_key_order();
    assert forall|i: int, j: int| 0 <= i < j < r.len() implies (#[trigger] r[i]).0 != (#[trigger] r[j]).0 by {
        assert(key_lt(r[i].0, r[j].0));
    }
}

/// For rows with distinct keys, the map is determined by which rows there
/// are.
proof fn lemma_rows_map_ext(a: Seq<(Seq<char>, JsonValue)>, b: Seq<(Seq<char>, JsonValue)>, m: Map<Seq<char>, JsonValue>)
    requires
        distinct_keys(a),
        forall|k: Seq<char>| #[trigger] m.contains_key(k) <==> exists|i: int| 0 <= i < a.len() && a[i].0 == k,
        forall|i: int| 0 <= i < a.len() ==> #[trigger] m.contains_key(a[i].0) && m[a[i].0] == a[i].1,
    ensures
        rows_map(a) == m,
{
    assert forall|k: Seq<char>| #[trigger] rows_map(a).contains_key(k) <==> m.contains_key(k) by {
        lemma_rows_dom(a, k);
    }
    assert forall|k: Seq<char>| #[trigger] rows_map(a).contains_key(k) implies rows_map(a)[k] == m[k] by {
        lemma_rows_dom(a, k);
        let i = choose|i: int| 0 <= i < a.len() && (#[trigger] a[i]).0 == k;
        lemma_rows_value(a, i);
    }
    assert(rows_map(a) =~= m);
}

/// A key/value store whose keys are kept in order, as a `BTreeMap` keeps
/// them.
pub struct StorageState {
    entries: Vec<(String, JsonValue)>,
}

impl View for StorageState {
    type V = Map<Seq<char>, JsonValue>;

    closed spec fn view(&self) -> Map<Seq<char>, JsonValue> {
        rows_map(entry_rows(self.entries@))
    }
}

impl StorageState {
    /// The keys are in order, each once.
    pub closed spec fn wf(&self) -> bool {
        keys_sorted(entry_rows(self.entries@))
    }

    /// The keys, in order.
    pub closed spec fn key_seq(&self) -> Seq<Seq<char>> {
        entry_rows(self.entries@).map_values(|r: (Seq<char>, JsonValue)| r.0)
    }

    /// An empty store.
    pub fn new() -> (s: StorageState)
        ensures
            s.wf(),
            s@ == Map::<Seq<char>, JsonValue>::empty(),
    {
        let s = StorageState { entries: Vec::new() };
        proof { assert(entry_rows(s.entries@) =~= Seq::<(Seq<char>, JsonValue)>::empty()); }
        s
    }

    /// Where `key` is, or where it would go.
    fn locate(&self, key: &String) -> (r: (usize, bool))
        requires
            self.wf(),
        ensures
            r.0 <= self.entries@.len(),
            forall|m: int| 0 <= m < r.0 ==> key_lt(#[trigger] entry_rows(self.entries@)[m].0, key@),
            r.1 ==> r.0 < self.entries@.len() && entry_rows(self.entries@)[r.0 as int].0 == key@,
            !r.1 && r.0 < self.entries@.len() ==> key_lt(key@, entry_rows(self.entries@)[r.0 as int].0),
    {
        let ghost rows = entry_rows(self.entries@);
        let mut k: usize = 0;
        while k < self.entries.len()
            invariant
                rows == entry_rows(self.entries@),
                k <= rows.len(),
                forall|m: int| 0 <= m < k ==> key_lt(#[trigger] rows[m].0, key@),
            decreases rows.len() - k,
        {
            let c = compare_strings(&self.entries[k].0, key);
            if c == Rel::Equal {
                return (k, true);
            }
            if c == Rel::Greater {
                return (k, false);
            }
            k = k + 1;
        }
        (k, false)
    }

    /// Stores `value` under `key`, replacing what was there.
    pub fn set(&mut self, key: String, value: JsonValue)
        requires
            old(self).wf(),
        ensures
            final(self).wf(),
            final(self)@ == old(self)@.insert(key@, value),
    {
        proof { lemma_key_order(); }
        let ghost rows = entry_rows(self.entries@);
        let ghost kv = key@;
        let ghost vv = value;
        let (k, found) = self.locate(&key);
        if found {
            self.entries.set(k, (key, value));
        } else {
            self.entries.insert(k, (key, value));
        }
        proof {
            let nr = entry_rows(self.entries@);
            if found {
                assert(nr =~= rows.update(k as int, (kv, vv)));
            } else {
                assert(nr =~= rows.insert(k as int, (kv, vv)));
            }
            assert forall|a: int, b: int| 0 <= a < b < nr.len() implies key_lt(#[trigger] nr[a].0, #[trigger] nr[b].0) by {
                if found {
                    if a == k {
                        assert(key_lt(rows[a].0, rows[b].0));
                    } else if b == k {
                        assert(key_lt(rows[a].0, rows[b].0));
                    } else {
                        assert(key_lt(rows[a].0, rows[b].0));
                    }
                } else {
                    if b < k {
                        assert(nr[a] == rows[a] && nr[b] == rows[b]);
                        assert(key_lt(rows[a].0, rows[b].0));
                    } else if b == k {
                        assert(nr[a] == rows[a]);
                    } else if a == k {
                        assert(nr[b] == rows[b - 1]);
                        if b - 1 > k {
                            assert(key_lt(rows[k as int].0, rows[b - 1].0));
                        }
                    } else if a < k {
                        assert(nr[a] == rows[a] && nr[b] == rows[b - 1]);
                        if b - 1 > k {
                            assert(key_lt(rows[k as int].0, rows[b - 1].0));
                        }
                        assert(key_lt(kv, rows[b - 1].0));
                    } else {
                        assert(nr[a] == rows[a - 1] && nr[b] == rows[b - 1]);
                        assert(key_lt(rows[a - 1].0, rows[b - 1].0));
                    }
                }
            }
            lemma_sorted_distinct(rows);
            lemma_sorted_distinct(nr);
            let m = rows_map(rows).insert(kv, vv);
            assert forall|q: Seq<char>| #[trigger] m.contains_key(q) <==> exists|i: int| 0 <= i < nr.len() && nr[i].0 == q by {
                lemma_rows_dom(rows, q);
                if m.contains_key(q) {
                    if q == kv {
                        assert(nr[k as int].0 == q);
                    } else {
                        let i = choose|i: int| 0 <= i < rows.len() && (#[trigger] rows[i]).0 == q;
                        if found {
                            assert(nr[i].0 == q);
                        } else {
                            let ni = if i < k { i } else { i + 1 };
                            assert(nr[ni].0 == q);
                        }
                    }
                }
                if exists|i: int| 0 <= i < nr.len() && nr[i].0 == q {
                    let i = choose|i: int| 0 <= i < nr.len() && nr[i].0 == q;
                    if q != kv {
                        if found {
                            assert(rows[i].0 == q);
                        } else {
                            let oi = if i < k { i } else { i - 1 };
                            assert(rows[oi].0 == q);
                        }
                    }
                }
            }
            assert forall|i: int| 0 <= i < nr.len() implies #[trigger] m.contains_key(nr[i].0) && m[nr[i].0] == nr[i].1 by {
                if nr[i].0 != kv {
                    let oi = if found || i < k { i } else { i - 1 };
                    assert(nr[i] == rows[oi]);
                    lemma_rows_value(rows, oi);
                } else {
                    if i != k {
                        assert(nr[k as int].0 == kv);
                    }
                }
            }
            lemma_rows_map_ext(nr, nr, m);
        }
    }

    /// Removes the entry at index `k`.
    fn remove_at(&mut self, k: usize) -> (v: JsonValue)
        requires
            old(self).wf(),
            k < old(self).entries@.len(),
        ensures
            final(self).wf(),
            final(self)@ == old(self)@.remove(entry_rows(old(self).entries@)[k as int].0),
            old(self)@.contains_key(entry_rows(old(self).entries@)[k as int].0),
            v == old(self)@[entry_rows(old(self).entries@)[k as int].0],
    {
        proof { lemma_key_order(); }
        let ghost rows = entry_rows(self.entries@);
        let ghost kv = rows[k as int].0;
        let (_, v) = self.entries.remove(k);
        proof {
            let nr = entry_rows(self.entries@);
            assert(nr =~= rows.remove(k as int));
            assert forall|a: int, b: int| 0 <= a < b < nr.len() implies key_lt(#[trigger] nr[a].0, #[trigger] nr[b].0) by {
                let oa = if a < k { a } else { a + 1 };
                let ob = if b < k { b } else { b + 1 };
                assert(nr[a] == rows[oa] && nr[b] == rows[ob]);
            }
            lemma_sorted_distinct(rows);
            crate::keyed::lemma_rows_remove(rows, k as int);
            lemma_rows_value(rows, k as int);
        }
        v
    }

    /// Removes the entry of `key`, if there is one.
    pub fn remove(&mut self, key: &String)
        requires
            old(self).wf(),
        ensures
            final(self).wf(),
            final(self)@ == old(self)@.remove(key@),
    {
        let (k, found) = self.locate(key);
        if found {
            let _ = self.remove_at(k);
        } else {
            proof {
                lemma_key_order();
                let rows = entry_rows(self.entries@);
                lemma_rows_dom(rows, key@);
                if self@.contains_key(key@) {
                    let i = choose|i: int| 0 <= i < rows.len() && (#[trigger] rows[i]).0 == key@;
                    if i < k {
                        assert(key_lt(rows[i].0, key@));
                    } else {
                        if i > k {
                            assert(key_lt(rows[k as int].0, rows[i].0));
                        }
                        assert(key_lt(key@, rows[i].0));
                    }
                }
                assert(self@.remove(key@) =~= self@);
            }
        }
    }

    /// The value of `key`, or `null` when there is none; the store is used
    /// up.
    pub fn take(self, key: &String) -> (v: JsonValue)
        requires
            self.wf(),
        ensures
            v == if self@.contains_key(key@) { self@[key@] } else { JsonValue::Null },
    {
        let mut me = self;
        let (k, found) = me.locate(key);
        if found {
            me.remove_at(k)
        } else {
            proof {
                lemma_key_order();
                let rows = entry_rows(me.entries@);
                lemma_rows_dom(rows, key@);
                if me@.contains_key(key@) {
                    let i = choose|i: int| 0 <= i < rows.len() && (#[trigger] rows[i]).0 == key@;
                    if i < k {
                        assert(key_lt(rows[i].0, key@));
                    } else {
                        if i > k {
                            assert(key_lt(rows[k as int].0, rows[i].0));
                        }
                        assert(key_lt(key@, rows[i].0));
                    }
                }
            }
            JsonValue::Null
        }
    }

    /// Whether `key` has a value.
    pub fn contains(&self, key: &String) -> (r: bool)
        requires
            self.wf(),
        ensures
            r == self@.contains_key(key@),
    {
        let (k, found) = self.locate(key);
        proof {
            lemma_key_order();
            let rows = entry_rows(self.entries@);
            lemma_rows_dom(rows, key@);
            lemma_sorted_distinct(rows);
            if found {
                lemma_rows_value(rows, k as int);
            } else if self@.contains_key(key@) {
                let i = choose|i: int| 0 <= i < rows.len() && (#[trigger] rows[i]).0 == key@;
                if i < k {
                    assert(key_lt(rows[i].0, key@));
                } else {
                    if i > k {
                        assert(key_lt(rows[k as int].0, rows[i].0));
                    }
                    assert(key_lt(key@, rows[i].0));
                }
            }
        }
        found
    }

    /// The keys, in order.
    pub fn keys(&self) -> (r: Vec<String>)
        requires
            self.wf(),
        ensures
            views(r@) == self.key_seq(),
            forall|a: int, b: int| 0 <= a < b < r@.len() ==> key_lt(#[trigger] r@[a]@, #[trigger] r@[b]@),
            forall|k: Seq<char>| #[trigger] self@.contains_key(k) <==> views(r@).contains(k),
    {
        let ghost rows = entry_rows(self.entries@);
        let mut out: Vec<String> = Vec::new();
        let mut i: usize = 0;
        while i < self.entries.len()
            invariant
                rows == entry_rows(self.entries@),
                i <= rows.len(),
                views(out@) == rows.take(i as int).map_values(|r: (Seq<char>, JsonValue)| r.0),
            decreases rows.len() - i,
        {
            let ghost before = out@;
            out.push(owned(self.entries[i].0.as_str()));
            proof {
                assert(views(out@) =~= views(before).push(rows[i as int].0));
                assert(rows.take(i + 1) =~= rows.take(i as int).push(rows[i as int]));
                assert(rows.take(i + 1).map_values(|r: (Seq<char>, JsonValue)| r.0)
                    =~= rows.take(i as int).map_values(|r: (Seq<char>, JsonValue)| r.0).push(rows[i as int].0));
            }
            i = i + 1;
        }
        proof {
            assert(rows.take(rows.len() as int) =~= rows);
            assert forall|a: int, b: int| 0 <= a < b < out@.len() implies key_lt(#[trigger] out@[a]@, #[trigger] out@[b]@) by {
                assert(out@[a]@ == views(out@)[a]);
                assert(out@[b]@ == views(out@)[b]);
            }
            assert forall|k: Seq<char>| #[trigger] self@.contains_key(k) <==> views(out@).contains(k) by {
                lemma_rows_dom(rows, k);
                if self@.contains_key(k) {
                    let i = choose|i: int| 0 <= i < rows.len() && (#[trigger] rows[i]).0 == k;
                    assert(views(out@)[i] == k);
                }
                if views(out@).contains(k) {
                    let i = choose|i: int| 0 <= i < views(out@).len() && views(out@)[i] == k;
                    assert(rows[i].0 == k);
                }
            }
        }
        out
    }


    /// Removes the entry of `key` and gives its value, or `null` when there
    /// is none.
    pub fn pop(&mut self, key: &String) -> (v: JsonValue)
        requires
            old(self).wf(),
        ensures
            final(self).wf(),
            final(self)@ == old(self)@.remove(key@),
            v == if old(self)@.contains_key(key@) { old(self)@[key@] } else { JsonValue::Null },
    {
        let (k, found) = self.locate(key);
        if found {
            self.remove_at(k)
        } else {
            proof {
                lemma_key_order();
                let rows = entry_rows(self.entries@);
                lemma_rows_dom(rows, key@);
                if self@.contains_key(key@) {
                    let i = choose|i: int| 0 <= i < rows.len() && (#[trigger] rows[i]).0 == key@;
                    if i < k {
                        assert(key_lt(rows[i].0, key@));
                    } else {
                        if i > k {
                            assert(key_lt(rows[k as int].0, rows[i].0));
                        }
                        assert(key_lt(key@, rows[i].0));
                    }
                }
                assert(self@.remove(key@) =~= self@);
            }
            JsonValue::Null
        }
    }

    /// A store of the given entries; of two entries with one key, the later
    /// wins.
    pub fn from_entries(entries: Vec<(String, JsonValue)>) -> (s: StorageState)
        ensures
            s.wf(),
            s@ == rows_map(entry_rows(entries@)),
    {
        let ghost all = entries@;
        let mut s = StorageState::new();
        let mut rest = entries;
        let ghost mut n: int = 0;
        proof { assert(entry_rows(all.take(0)) =~= Seq::<(Seq<char>, JsonValue)>::empty()); assert(all.skip(0) =~= all); }
        while rest.len() > 0
            invariant
                s.wf(),
                0 <= n <= all.len(),
                rest@ == all.skip(n),
                s@ == rows_map(entry_rows(all.take(n))),
            decreases rest@.len(),
        {
            let (k, v) = rest.remove(0);
            proof {
                assert(all.skip(n)[0] == all[n]);
                assert(all.skip(n).remove(0) =~= all.skip(n + 1));
                assert(all.take(n + 1) =~= all.take(n).push(all[n]));
                assert(entry_rows(all.take(n + 1)) =~= entry_rows(all.take(n)).push((k@, v)));
                assert(entry_rows(all.take(n + 1)).drop_last() =~= entry_rows(all.take(n)));
            }
            s.set(k, v);
            proof { n = n + 1; }
        }
        proof { assert(all.take(all.len() as int) =~= all); }
        s
    }

    /// The store as a JSON object, keys in order.
    pub fn into_object(self) -> (r: JsonValue)
        requires
            self.wf(),
        ensures
            r is Object,
            rows_map(entry_rows(r->Object_0@)) == self@,
            keys_sorted(entry_rows(r->Object_0@)),
    {
        JsonValue::Object(self.entries)
    }

    /// The values of several keys, as an object with each asked key once:
    /// its value, or `null` when it has none.
    pub fn get_many(self, keys: &Vec<String>) -> (r: JsonValue)
        requires
            self.wf(),
        ensures
            r is Object,
            forall|k: Seq<char>| #[trigger] rows_map(entry_rows(r->Object_0@)).contains_key(k) <==> views(keys@).contains(k),
            forall|k: Seq<char>| #[trigger] rows_map(entry_rows(r->Object_0@)).contains_key(k) ==>
                rows_map(entry_rows(r->Object_0@))[k] == if self@.contains_key(k) { self@[k] } else { JsonValue::Null },
    {
        let ghost orig = self@;
        let mut me = self;
        let mut out = StorageState::new();
        let mut i: usize = 0;
        while i < keys.len()
            invariant
                me.wf(),
                out.wf(),
                i <= keys@.len(),
                forall|k: Seq<char>| #[trigger] out@.contains_key(k) <==> views(keys@).take(i as int).contains(k),
                forall|k: Seq<char>| #[trigger] out@.contains_key(k) ==>
                    out@[k] == if orig.contains_key(k) { orig[k] } else { JsonValue::Null },
                forall|k: Seq<char>| #[trigger] me@.contains_key(k) <==> orig.contains_key(k) && !out@.contains_key(k),
                forall|k: Seq<char>| #[trigger] me@.contains_key(k) ==> me@[k] == orig[k],
            decreases keys@.len() - i,
        {
            let key = &keys[i];
            let ghost kv = key@;
            proof {
                assert(views(keys@).take(i + 1) =~= views(keys@).take(i as int).push(kv));
                assert forall|k: Seq<char>| views(keys@).take(i + 1).contains(k) <==> views(keys@).take(i as int).contains(k) || k == kv by {
                    let t = views(keys@).take(i as int);
                    if t.push(kv).contains(k) {
                        let j = choose|j: int| 0 <= j < t.len() + 1 && t.push(kv)[j] == k;
                        if j < t.len() { assert(t[j] == k); }
                    }
                    if t.contains(k) {
                        let j = choose|j: int| 0 <= j < t.len() && t[j] == k;
                        assert(t.push(kv)[j] == k);
                    }
                    if k == kv {
                        assert(t.push(kv)[t.len() as int] == k);
                    }
                }
            }
            if !out.contains(key) {
                let v = me.pop(key);
                out.set(owned(key.as_str()), v);
            }
            i = i + 1;
        }
        proof { assert(views(keys@).take(keys@.len() as int) =~= views(keys@)); }
        out.into_object()
    }
}

/// A stored value reads back as written, and a removed one reads as
/// `null`; other keys are left as they were.
pub proof fn lemma_storage_read_after_write(m: Map<Seq<char>, JsonValue>, k: Seq<char>, other: Seq<char>, v: JsonValue)
    requires
        k != other,
    ensures
        m.insert(k, v).contains_key(k) && m.insert(k, v)[k] == v,
        !m.remove(k).contains_key(k),
        m.insert(k, v).contains_key(other) == m.contains_key(other),
        m.remove(k).contains_key(other) == m.contains_key(other),
        m.contains_key(other) ==> m.insert(k, v)[other] == m[other] && m.remove(k)[other] == m[other],
{
}

/// A setting updated under a dotted key reads back as written through
/// that key, when no piece of the key is empty.
pub proof fn lemma_config_read_after_update(old: JsonValue, new: JsonValue, key: Seq<char>, x: JsonValue)
    requires
        set_rel(entries_of(old), new, key_segment_views(key), x),
        key_segment_views(key) == split_char(key, '.'),
    ensures
        json_get(new, split_char(key, '.')) == Some(x),
{
    lemma_get_after_set(entries_of(old), new, key_segment_views(key), x);
}

/// Where the storage service keeps a scope's state.
#[derive(Debug, Clone, Copy, PartialEq, Eq, Structural)]
pub enum StorageScope {
    Global,
    Application,
    Profile,
    Workspace,
}

/// The state file of a scope: the global state for every scope but the
/// workspace one, whose file is per workspace. A workspace scope without a
/// workspace is refused.
pub fn storage_resource(paths: &UserDataPaths, scope: Option<StorageScope>, workspace: Option<&str>) -> (r: Result<String, ServiceError>)
    ensures
        scope != Some(StorageScope::Workspace) ==> (r matches Ok(p)
            && p@ == join_spec(join_spec(paths@, "User"@), "globalState.json"@)),
        scope == Some(StorageScope::Workspace) && workspace is None ==> (r matches Err(e)
            && e.code@ == "storage.invalidArgument"@ && e.message@ == "workspace storage requires workspace"@),
        scope == Some(StorageScope::Workspace) && workspace is Some ==> (r matches Ok(p)
            && p@ == join_spec(
                join_spec(join_spec(join_spec(paths@, "User"@), "workspaceStorage"@), sanitize_workspace_spec(workspace->0@)),
                "state.json"@,
            )),
{
    match scope {
        Some(StorageScope::Workspace) => match workspace {
            Some(w) => Ok(paths.workspace_state_resource(w)),
            None => Err(ServiceError {
                code: "storage.invalidArgument",
                message: owned("workspace storage requires workspace"),
            }),
        },
        _ => Ok(paths.global_state_resource()),
    }
}

/// What reading a JSON state file gave.
pub enum JsonFileRead {
    /// There is no such file.
    NotFound,
    /// Reading failed with this error.
    Failed(String),
    /// The file is empty.
    Empty,
    /// The file holds this JSON value.
    Parsed(JsonValue),
    /// The file is not JSON; the parser's error.
    Invalid(String),
}

/// The entries of a JSON state file: none for a missing or empty file, the
/// object's entries for an object; a read failure, text that is not JSON
/// and JSON that is not an object are refused.
pub fn json_object_from_read(path: &str, read: JsonFileRead) -> (r: Result<Vec<(String, JsonValue)>, ServiceError>)
    ensures
        match read {
            JsonFileRead::NotFound | JsonFileRead::Empty => r matches Ok(e) && e@.len() == 0,
            JsonFileRead::Failed(t) => r matches Err(e) && e.code@ == "storage.readFailed"@
                && e.message@ == "failed to read "@ + path@ + ": "@ + t@,
            JsonFileRead::Invalid(t) => r matches Err(e) && e.code@ == "storage.invalidJson"@
                && e.message@ == "failed to parse "@ + path@ + ": "@ + t@,
            JsonFileRead::Parsed(JsonValue::Object(entries)) => r == Ok::<Vec<(String, JsonValue)>, ServiceError>(entries),
            JsonFileRead::Parsed(_) => r matches Err(e) && e.code@ == "storage.invalidJson"@
                && e.message@ == path@ + " must contain a JSON object"@,
        },
{
    match read {
        JsonFileRead::NotFound | JsonFileRead::Empty => Ok(Vec::new()),
        JsonFileRead::Failed(t) => {
            let mut message = concat3("failed to read ", path, ": ");
            push_str(&mut message, t.as_str());
            Err(ServiceError { code: "storage.readFailed", message })
        },
        JsonFileRead::Invalid(t) => {
            let mut message = concat3("failed to parse ", path, ": ");
            push_str(&mut message, t.as_str());
            Err(ServiceError { code: "storage.invalidJson", message })
        },
        JsonFileRead::Parsed(JsonValue::Object(entries)) => Ok(entries),
        JsonFileRead::Parsed(_) => Err(ServiceError {
            code: "storage.invalidJson",
            message: concat2(path, " must contain a JSON object"),
        }),
    }
}

/// The directory of a state file could not be created.
pub fn create_dir_error(dir: &str, error: &str) -> (e: ServiceError)
    ensures
        e.code@ == "storage.writeFailed"@,
        e.message@ == "failed to create "@ + dir@ + ": "@ + error@,
{
    let mut message = concat3("failed to create ", dir, ": ");
    push_str(&mut message, error);
    ServiceError { code: "storage.writeFailed", message }
}

/// A state file could not be written.
pub fn write_error(path: &str, error: &str) -> (e: ServiceError)
    ensures
        e.code@ == "storage.writeFailed"@,
        e.message@ == "failed to write "@ + path@ + ": "@ + error@,
{
    let mut message = concat3("failed to write ", path, ": ");
    push_str(&mut message, error);
    ServiceError { code: "storage.writeFailed", message }
}

/// A state could not be serialised.
pub fn serialization_error(error: &str) -> (e: ServiceError)
    ensures
        e.code@ == "storage.serializationFailed"@,
        e.message@ == error@,
{
    ServiceError { code: "storage.serializationFailed", message: owned(error) }
}

/// An argument that does not decode.
pub fn invalid_argument(error: &str) -> (e: ServiceError)
    ensures
        e.code@ == "service.invalidArgument"@,
        e.message@ == error@,
{
    ServiceError { code: "service.invalidArgument", message: owned(error) }
}

/// The value at the dotted key `key` of `value`, moved out of it.
pub fn take_path(value: JsonValue, key: &str) -> (r: Option<JsonValue>)
    ensures
        r == json_get(value, split_char(key@, '.')),
{
    let segs = split_at_char(key, '.');
    proof { assert(views(segs@).skip(0) =~= views(segs@)); }
    take_from(value, &segs, 0)
}

fn take_from(value: JsonValue, segs: &Vec<String>, idx: usize) -> (r: Option<JsonValue>)
    requires
        idx <= segs@.len(),
    ensures
        r == json_get(value, views(segs@).skip(idx as int)),
    decreases segs@.len() - idx,
{
    let ghost sv = views(segs@).skip(idx as int);
    if idx == segs.len() {
        return Some(value);
    }
    proof {
        assert(sv[0] == segs@[idx as int]@);
        assert(sv.drop_first() =~= views(segs@).skip(idx + 1));
    }
    match value {
        JsonValue::Object(entries) => {
            let mut entries = entries;
            match find_entry(&entries, segs[idx].as_str()) {
                Some(i) => {
                    let (_, child) = entries.remove(i);
                    take_from(child, segs, idx + 1)
                },
                None => None,
            }
        },
        _ => None,
    }
}

/// What the configuration service answers to a read: the value at the key
/// (`null` when there is none), or all settings when no key is given.
pub fn config_get_value(settings: JsonValue, key: Option<&str>) -> (r: JsonValue)
    ensures
        match key {
            Some(k) => r == match json_get(settings, split_char(k@, '.')) {
                Some(v) => v,
                None => JsonValue::Null,
            },
            None => r == settings,
        },
{
    match key {
        Some(k) => match take_path(settings, k) {
            Some(v) => v,
            None => JsonValue::Null,
        },
        None => settings,
    }
}

/// A command of the configuration service.
#[derive(Debug, Clone, Copy, PartialEq, Eq, Structural)]
pub enum ConfigCommand {
    Paths,
    All,
    Get,
    Update,
}

pub open spec fn parse_config_command(s: Seq<char>) -> Option<ConfigCommand> {
    if s == "paths"@ || s == "statePaths"@ || s == "getStatePaths"@ {
        Some(ConfigCommand::Paths)
    } else if s == "all"@ || s == "getAll"@ {
        Some(ConfigCommand::All)
    } else if s == "get"@ || s == "getValue"@ {
        Some(ConfigCommand::Get)
    } else if s == "update"@ || s == "updateValue"@ || s == "setValue"@ {
        Some(ConfigCommand::Update)
    } else {
        None
    }
}

impl ConfigCommand {
    pub fn parse(command: &str) -> (r: Result<ConfigCommand, ServiceError>)
        ensures
            match parse_config_command(command@) {
                Some(c) => r == Ok::<ConfigCommand, ServiceError>(c),
                None => r matches Err(e) && e.code@ == "service.unsupportedCommand"@
                    && e.message@ == service_name(ServiceId::Configuration) + " does not implement command: "@ + command@,
            },
    {
        if str_eq(command, "paths") || str_eq(command, "statePaths") || str_eq(command, "getStatePaths") {
            Ok(ConfigCommand::Paths)
        } else if str_eq(command, "all") || str_eq(command, "getAll") {
            Ok(ConfigCommand::All)
        } else if str_eq(command, "get") || str_eq(command, "getValue") {
            Ok(ConfigCommand::Get)
        } else if str_eq(command, "update") || str_eq(command, "updateValue") || str_eq(command, "setValue") {
            Ok(ConfigCommand::Update)
        } else {
            Err(ServiceError::unsupported(ServiceId::Configuration, command))
        }
    }
}

/// A command of the storage service.
#[derive(Debug, Clone, Copy, PartialEq, Eq, Structural)]
pub enum StorageCommand {
    Paths,
    Get,
    GetItems,
    SetItem,
    SetItems,
    Remove,
    RemoveItems,
    Clear,
    Keys,
}

pub open spec fn parse_storage_command(s: Seq<char>) -> Option<StorageCommand> {
    if s == "paths"@ || s == "statePaths"@ || s == "getStatePaths"@ {
        Some(StorageCommand::Paths)
    } else if s == "get"@ || s == "getItem"@ {
        Some(StorageCommand::Get)
    } else if s == "getItems"@ || s == "mget"@ {
        Some(StorageCommand::GetItems)
    } else if s == "set"@ || s == "setItem"@ || s == "store"@ {
        Some(StorageCommand::SetItem)
    } else if s == "setItems"@ || s == "mset"@ {
        Some(StorageCommand::SetItems)
    } else if s == "delete"@ || s == "remove"@ || s == "removeItem"@ {
        Some(StorageCommand::Remove)
    } else if s == "deleteItems"@ || s == "removeItems"@ || s == "mdelete"@ {
        Some(StorageCommand::RemoveItems)
    } else if s == "clear"@ || s == "clearScope"@ {
        Some(StorageCommand::Clear)
    } else if s == "keys"@ || s == "getKeys"@ {
        Some(StorageCommand::Keys)
    } else {
        None
    }
}

impl StorageCommand {
    pub fn parse(command: &str) -> (r: Result<StorageCommand, ServiceError>)
        ensures
            match parse_storage_command(command@) {
                Some(c) => r == Ok::<StorageCommand, ServiceError>(c),
                None => r matches Err(e) && e.code@ == "service.unsupportedCommand"@
                    && e.message@ == service_name(ServiceId::Storage) + " does not implement command: "@ + command@,
            },
    {
        if str_eq(command, "paths") || str_eq(command, "statePaths") || str_eq(command, "getStatePaths") {
            Ok(StorageCommand::Paths)
        } else if str_eq(command, "get") || str_eq(command, "getItem") {
            Ok(StorageCommand::Get)
        } else if str_eq(command, "getItems") || str_eq(command, "mget") {
            Ok(StorageCommand::GetItems)
        } else if str_eq(command, "set") || str_eq(command, "setItem") || str_eq(command, "store") {
            Ok(StorageCommand::SetItem)
        } else if str_eq(command, "setItems") || str_eq(command, "mset") {
            Ok(StorageCommand::SetItems)
        } else if str_eq(command, "delete") || str_eq(command, "remove") || str_eq(command, "removeItem") {
            Ok(StorageCommand::Remove)
        } else if str_eq(command, "deleteItems") || str_eq(command, "removeItems") || str_eq(command, "mdelete") {
            Ok(StorageCommand::RemoveItems)
        } else if str_eq(command, "clear") || str_eq(command, "clearScope") {
            Ok(StorageCommand::Clear)
        } else if str_eq(command, "keys") || str_eq(command, "getKeys") {
            Ok(StorageCommand::Keys)
        } else {
            Err(ServiceError::unsupported(ServiceId::Storage, command))
        }
    }
}

} // verus!
