//! A JSON document model and the dotted-key operations that the settings and
//! state stores perform on it.
use vstd::prelude::*;
use crate::service_registry::ServiceError;
use crate::text::{split_at_char, split_char, str_eq, views, owned};

verus! {

/// A JSON value. Numbers keep their textual form; objects keep their
/// entries in order, each key at most once.
#[derive(Debug, PartialEq)]
pub enum JsonValue {
    Null,
    Bool(bool),
    Number(String),
    String(String),
    Array(Vec<JsonValue>),
    Object(Vec<(String, JsonValue)>),
}

/// The entries of an object; any other value counts as an empty object.
pub open spec fn entries_of(v: JsonValue) -> Seq<(String, JsonValue)> {
    match v {
        JsonValue::Object(e) => e@,
        _ => Seq::empty(),
    }
}

/// Position of the first entry with key `k`.
pub open spec fn find_key(e: Seq<(String, JsonValue)>, k: Seq<char>) -> Option<int>
    decreases e.len(),
{
    if e.len() == 0 {
        None
    } else if e[0].0@ == k {
        Some(0)
    } else {
        match find_key(e.drop_first(), k) {
            Some(i) => Some(i + 1),
            None => None,
        }
    }
}

proof fn lemma_find_key_found(e: Seq<(String, JsonValue)>, k: Seq<char>, i: int)
    requires
        0 <= i < e.len(),
        e[i].0@ == k,
        forall|j: int| 0 <= j < i ==> #[trigger] e[j].0@ != k,
    ensures
        find_key(e, k) == Some(i),
    decreases i,
{
    if i > 0 {
        assert forall|j: int| 0 <= j < i - 1 implies #[trigger] e.drop_first()[j].0@ != k by {
            assert(e.drop_first()[j] == e[j + 1]);
        }
        lemma_find_key_found(e.drop_first(), k, i - 1);
    }
}

proof fn lemma_find_key_absent(e: Seq<(String, JsonValue)>, k: Seq<char>)
    requires
        forall|j: int| 0 <= j < e.len() ==> #[trigger] e[j].0@ != k,
    ensures
        find_key(e, k) is None,
    decreases e.len(),
{
    if e.len() > 0 {
        assert forall|j: int| 0 <= j < e.len() - 1 implies #[trigger] e.drop_first()[j].0@ != k by {
            assert(e.drop_first()[j] == e[j + 1]);
        }
        lemma_find_key_absent(e.drop_first(), k);
    }
}

proof fn lemma_find_key_bound(e: Seq<(String, JsonValue)>, k: Seq<char>)
    ensures
        find_key(e, k) matches Some(i) ==> 0 <= i < e.len() && e[i].0@ == k,
    decreases e.len(),
{
    if e.len() > 0 && e[0].0@ != k {
        lemma_find_key_bound(e.drop_first(), k);
    }
}

/// Finds the entry with key `key`.
pub(crate) fn find_entry(entries: &Vec<(String, JsonValue)>, key: &str) -> (r: Option<usize>)
    ensures
        match find_key(entries@, key@) {
            Some(i) => r matches Some(j) && j as int == i,
            None => r is None,
        },
        r matches Some(i) ==> i < entries@.len() && entries@[i as int].0@ == key@,
{
    let mut i: usize = 0;
    while i < entries.len()
        invariant
            i <= entries.len(),
            forall|j: int| 0 <= j < i ==> #[trigger] entries@[j].0@ != key@,
        decreases entries.len() - i,
    {
        if str_eq(entries[i].0.as_str(), key) {
            proof { lemma_find_key_found(entries@, key@, i as int); }
            return Some(i);
        }
        i = i + 1;
    }
    proof { lemma_find_key_absent(entries@, key@); }
    None
}

/// The value of the entry `k` of an object; `None` for a value that is not
/// an object or has no such entry.
pub open spec fn field_of(v: JsonValue, k: Seq<char>) -> Option<JsonValue> {
    match v {
        JsonValue::Object(e) => match find_key(e@, k) {
            Some(i) => Some(e@[i].1),
            None => None,
        },
        _ => None,
    }
}

/// The value of entry `key` of an object.
pub fn json_field<'a>(value: &'a JsonValue, key: &str) -> (r: Option<&'a JsonValue>)
    ensures
        match field_of(*value, key@) {
            Some(x) => r matches Some(y) && *y == x,
            None => r is None,
        },
{
    match value {
        JsonValue::Object(entries) => match find_entry(entries, key) {
            Some(i) => Some(&entries[i].1),
            None => None,
        },
        _ => None,
    }
}

/// The value found by following the keys `segs` from `v`.
pub open spec fn json_get(v: JsonValue, segs: Seq<Seq<char>>) -> Option<JsonValue>
    decreases segs.len(),
{
    if segs.len() == 0 {
        Some(v)
    } else {
        match v {
            JsonValue::Object(e) => match find_key(e@, segs[0]) {
                Some(i) => json_get(e@[i].1, segs.drop_first()),
                None => None,
            },
            _ => None,
        }
    }
}

/// The value at a dotted key (`a.b.c`); every piece of the key, empty ones
/// included, must name an entry of an object.
pub fn get_path<'a>(value: &'a JsonValue, key: &str) -> (r: Option<&'a JsonValue>)
    ensures
        match json_get(*value, split_char(key@, '.')) {
            Some(x) => r matches Some(y) && *y == x,
            None => r is None,
        },
{
    let segs = split_at_char(key, '.');
    let ghost sv = views(segs@);
    let mut current: &JsonValue = value;
    let mut i: usize = 0;
    proof { assert(sv.skip(0) =~= sv); }
    while i < segs.len()
        invariant
            i <= segs.len(),
            sv == views(segs@),
            sv == split_char(key@, '.'),
            json_get(*value, sv) == json_get(*current, sv.skip(i as int)),
        decreases segs.len() - i,
    {
        proof {
            assert(sv.len() == segs@.len());
            assert(sv.skip(i as int).len() > 0);
            assert(sv.skip(i as int).drop_first() =~= sv.skip(i + 1));
        }
        match current {
            JsonValue::Object(entries) => {
                match find_entry(entries, segs[i].as_str()) {
                    Some(k) => {
                        proof {
                            assert(sv.skip(i as int)[0] == segs@[i as int]@);
                            assert(find_key(entries@, sv.skip(i as int)[0]) == Some(k as int));
                            assert(entries_of(*current) == entries@);
                            assert(*current is Object);
                            assert(json_get(*current, sv.skip(i as int)) == json_get(
                                entries@[k as int].1,
                                sv.skip(i + 1),
                            ));
                        }
                        current = &entries[k].1;
                    },
                    None => {
                        proof { assert(sv.skip(i as int)[0] == segs@[i as int]@); }
                        return None;
                    },
                }
            },
            _ => {
                return None;
            },
        }
        i = i + 1;
    }
    Some(current)
}

/// `new` is the value written by setting `x` at keys `segs` into an object
/// with entries `old` (absent objects on the way are created; values that
/// are not objects are replaced by objects).
pub open spec fn set_rel(old: Seq<(String, JsonValue)>, new: JsonValue, segs: Seq<Seq<char>>, x: JsonValue) -> bool
    decreases segs.len(),
{
    segs.len() > 0 && match new {
        JsonValue::Object(ne) => {
            let ne = ne@;
            match find_key(old, segs[0]) {
                Some(i) => {
                    &&& ne.len() == old.len()
                    &&& forall|j: int| 0 <= j < ne.len() && j != i ==> ne[j] == old[j]
                    &&& ne[i].0 == old[i].0
                    &&& if segs.len() == 1 {
                        ne[i].1 == x
                    } else {
                        set_rel(entries_of(old[i].1), ne[i].1, segs.drop_first(), x)
                    }
                },
                None => {
                    &&& ne.len() == old.len() + 1
                    &&& ne.take(old.len() as int) == old
                    &&& ne.last().0@ == segs[0]
                    &&& if segs.len() == 1 {
                        ne.last().1 == x
                    } else {
                        set_rel(Seq::empty(), ne.last().1, segs.drop_first(), x)
                    }
                },
            }
        },
        _ => false,
    }
}

/// After a write, reading the same keys gives back the written value.
pub proof fn lemma_get_after_set(old: Seq<(String, JsonValue)>, new: JsonValue, segs: Seq<Seq<char>>, x: JsonValue)
    requires
        set_rel(old, new, segs, x),
    ensures
        json_get(new, segs) == Some(x),
    decreases segs.len(),
{
    let ne = entries_of(new);
    match find_key(old, segs[0]) {
        Some(i) => {
            lemma_find_key_bound(old, segs[0]);
            assert forall|j: int| 0 <= j < i implies #[trigger] ne[j].0@ != segs[0] by {
                lemma_find_key_before(old, segs[0], i, j);
                assert(ne[j] == old[j]);
            }
            lemma_find_key_found(ne, segs[0], i);
            assert(find_key(ne, segs[0]) == Some(i));
            if segs.len() > 1 {
                lemma_get_after_set(entries_of(old[i].1), ne[i].1, segs.drop_first(), x);
            } else {
                assert(segs.drop_first().len() == 0);
                assert(json_get(ne[i].1, segs.drop_first()) == Some(ne[i].1));
                assert(ne[i].1 == x);
            }
        },
        None => {
            let n = old.len() as int;
            assert forall|j: int| 0 <= j < n implies #[trigger] ne[j].0@ != segs[0] by {
                assert(ne[j] == ne.take(n)[j]);
                lemma_find_key_none(old, segs[0], j);
            }
            lemma_find_key_found(ne, segs[0], n);
            if segs.len() > 1 {
                lemma_get_after_set(Seq::empty(), ne.last().1, segs.drop_first(), x);
            } else {
                assert(segs.drop_first().len() == 0);
            }
        },
    }
}

proof fn lemma_find_key_before(e: Seq<(String, JsonValue)>, k: Seq<char>, i: int, j: int)
    requires
        find_key(e, k) == Some(i),
        0 <= j < i,
    ensures
        e[j].0@ != k,
    decreases e.len(),
{
    lemma_find_key_bound(e, k);
    if e[0].0@ == k {
        assert(find_key(e, k) == Some(0int));
    } else if j > 0 {
        assert(find_key(e.drop_first(), k) == Some(i - 1));
        lemma_find_key_before(e.drop_first(), k, i - 1, j - 1);
        assert(e[j] == e.drop_first()[j - 1]);
    }
}

proof fn lemma_find_key_none(e: Seq<(String, JsonValue)>, k: Seq<char>, j: int)
    requires
        find_key(e, k) is None,
        0 <= j < e.len(),
    ensures
        e[j].0@ != k,
    decreases e.len(),
{
    if j > 0 {
        lemma_find_key_none(e.drop_first(), k, j - 1);
    }
}

fn entries_of_value(v: JsonValue) -> (e: Vec<(String, JsonValue)>)
    ensures
        e@ == entries_of(v),
{
    match v {
        JsonValue::Object(e) => e,
        _ => Vec::new(),
    }
}

fn set_in(v: JsonValue, segs: &Vec<String>, idx: usize, x: JsonValue) -> (r: JsonValue)
    requires
        idx < segs.len(),
    ensures
        set_rel(entries_of(v), r, views(segs@).skip(idx as int), x),
    decreases segs.len() - idx,
{
    let ghost sv = views(segs@).skip(idx as int);
    proof { assert(sv.drop_first() =~= views(segs@).skip(idx + 1)); }
    let mut entries = entries_of_value(v);
    let ghost old_e = entries@;
    let last = idx + 1 == segs.len();
    proof { assert(sv[0] == segs@[idx as int]@); }
    match find_entry(&entries, segs[idx].as_str()) {
        Some(i) => {
            let (k, child) = entries.remove(i);
            let ghost child_g = child;
            let new_child = if last { x } else { set_in(child, segs, idx + 1, x) };
            let ghost nc = new_child;
            entries.insert(i, (k, new_child));
            proof {
                assert(entries@ =~= old_e.remove(i as int).insert(i as int, (k, nc)));
                assert forall|j: int| 0 <= j < entries@.len() && j != i implies entries@[j] == old_e[j] by {
                }
                assert(entries@[i as int] == (k, nc));
                assert(k == old_e[i as int].0);
                assert(child_g == old_e[i as int].1);
            }
            JsonValue::Object(entries)
        },
        None => {
            let new_child = if last { x } else { set_in(JsonValue::Object(Vec::new()), segs, idx + 1, x) };
            let key = segs[idx].clone();
            entries.push((key, new_child));
            proof { assert(entries@.take(old_e.len() as int) =~= old_e); }
            JsonValue::Object(entries)
        },
    }
}

/// The non-empty pieces of a dotted key, in order.
pub open spec fn nonempty_only(s: Seq<Seq<char>>) -> Seq<Seq<char>>
    decreases s.len(),
{
    if s.len() == 0 {
        s
    } else {
        let r = nonempty_only(s.drop_last());
        if s.last().len() > 0 { r.push(s.last()) } else { r }
    }
}

/// The keys a dotted configuration key names: its non-empty pieces.
pub open spec fn key_segment_views(key: Seq<char>) -> Seq<Seq<char>> {
    nonempty_only(split_char(key, '.'))
}

/// The non-empty pieces of a dotted key; refused with `config.invalidKey`
/// when there are none.
pub fn key_segments(key: &str) -> (r: Result<Vec<String>, ServiceError>)
    ensures
        key_segment_views(key@).len() > 0 ==> (r matches Ok(v) && views(v@) == key_segment_views(key@)),
        key_segment_views(key@).len() == 0 ==> (r matches Err(e) && e.code@ == "config.invalidKey"@
            && e.message@ == "configuration key is required"@),
{
    let parts = split_at_char(key, '.');
    let mut out: Vec<String> = Vec::new();
    let mut i: usize = 0;
    while i < parts.len()
        invariant
            i <= parts.len(),
            views(parts@) == split_char(key@, '.'),
            views(out@) == nonempty_only(views(parts@).take(i as int)),
        decreases parts.len() - i,
    {
        let part = parts[i].clone();
        proof {
            let t = views(parts@).take(i + 1);
            assert(t.drop_last() =~= views(parts@).take(i as int));
            assert(t.last() == part@);
        }
        if !part.as_str().is_empty() {
            proof { assert(views(out@.push(part)) =~= views(out@).push(part@)); }
            out.push(part);
        }
        i = i + 1;
    }
    proof { assert(views(parts@).take(parts@.len() as int) =~= views(parts@)); }
    if out.len() == 0 {
        Err(ServiceError { code: "config.invalidKey", message: owned("configuration key is required") })
    } else {
        Ok(out)
    }
}

/// Sets the value at a dotted key, creating objects along the way.
pub fn set_path(value: &mut JsonValue, key: &str, new_value: JsonValue) -> (r: Result<(), ServiceError>)
    ensures
        key_segment_views(key@).len() == 0 ==> (r is Err && *final(value) == *old(value)),
        key_segment_views(key@).len() > 0 ==> (r is Ok && set_rel(
            entries_of(*old(value)),
            *final(value),
            key_segment_views(key@),
            new_value,
        )),
{
    let segs = match key_segments(key) {
        Ok(s) => s,
        Err(e) => return Err(e),
    };
    let mut current = JsonValue::Null;
    std::mem::swap(&mut current, value);
    let updated = set_in(current, &segs, 0, new_value);
    proof { assert(views(segs@).skip(0) =~= views(segs@)); }
    *value = updated;
    Ok(())
}

/// `new` is what removing the entry at keys `segs` leaves of `old`; a path
/// that does not exist leaves the value as it was.
pub open spec fn remove_rel(old: JsonValue, new: JsonValue, segs: Seq<Seq<char>>) -> bool
    decreases segs.len(),
{
    if segs.len() == 0 {
        new == old
    } else {
        match old {
            JsonValue::Object(oe) => {
                let oe = oe@;
                match new {
                    JsonValue::Object(ne) => {
                        let ne = ne@;
                        match find_key(oe, segs[0]) {
                            Some(i) => if segs.len() == 1 {
                                ne == oe.remove(i)
                            } else {
                                &&& ne.len() == oe.len()
                                &&& forall|j: int| 0 <= j < ne.len() && j != i ==> ne[j] == oe[j]
                                &&& ne[i].0 == oe[i].0
                                &&& remove_rel(oe[i].1, ne[i].1, segs.drop_first())
                            },
                            None => ne == oe,
                        }
                    },
                    _ => false,
                }
            },
            _ => new == old,
        }
    }
}

fn remove_in(v: JsonValue, segs: &Vec<String>, idx: usize) -> (r: JsonValue)
    requires
        idx <= segs.len(),
    ensures
        remove_rel(v, r, views(segs@).skip(idx as int)),
    decreases segs.len() - idx,
{
    if idx == segs.len() {
        return v;
    }
    let ghost sv = views(segs@).skip(idx as int);
    proof { assert(sv.drop_first() =~= views(segs@).skip(idx + 1)); }
    match v {
        JsonValue::Object(mut entries) => {
            let ghost old_e = entries@;
            proof { assert(sv[0] == segs@[idx as int]@); }
            match find_entry(&entries, segs[idx].as_str()) {
                Some(i) => {
                    let (k, child) = entries.remove(i);
                    let ghost child_g = child;
                    if idx + 1 < segs.len() {
                        let new_child = remove_in(child, segs, idx + 1);
                        let ghost nc = new_child;
                        entries.insert(i, (k, new_child));
                        proof {
                            assert(entries@ =~= old_e.remove(i as int).insert(i as int, (k, nc)));
                            assert forall|j: int| 0 <= j < entries@.len() && j != i implies entries@[j] == old_e[j] by {
                            }
                            assert(k == old_e[i as int].0);
                            assert(child_g == old_e[i as int].1);
                        }
                    }
                    JsonValue::Object(entries)
                },
                None => JsonValue::Object(entries),
            }
        },
        other => other,
    }
}

/// Removes the entry at a dotted key (its non-empty pieces), if present.
pub fn remove_path(value: &mut JsonValue, key: &str)
    ensures
        remove_rel(*old(value), *final(value), key_segment_views(key@)),
{
    let segs = match key_segments(key) {
        Ok(s) => s,
        Err(_) => {
            proof { assert(key_segment_views(key@).len() == 0); }
            return;
        },
    };
    let mut current = JsonValue::Null;
    std::mem::swap(&mut current, value);
    let updated = remove_in(current, &segs, 0);
    proof { assert(views(segs@).skip(0) =~= views(segs@)); }
    *value = updated;
}

/// No two entries of an object share a key.
pub open spec fn keys_unique(e: Seq<(String, JsonValue)>) -> bool {
    forall|i: int, j: int| 0 <= i < e.len() && 0 <= j < e.len() && i != j ==> #[trigger] e[i].0@ != #[trigger] e[j].0@
}

/// Every object met while following `segs` from `v` has unique keys.
pub open spec fn unique_along(v: JsonValue, segs: Seq<Seq<char>>) -> bool
    decreases segs.len(),
{
    segs.len() == 0 || match v {
        JsonValue::Object(e) => keys_unique(e@) && match find_key(e@, segs[0]) {
            Some(i) => unique_along(e@[i].1, segs.drop_first()),
            None => true,
        },
        _ => true,
    }
}

/// After a removal, reading the removed keys finds nothing.
pub proof fn lemma_get_after_remove(old: JsonValue, new: JsonValue, segs: Seq<Seq<char>>)
    requires
        remove_rel(old, new, segs),
        segs.len() > 0,
        unique_along(old, segs),
    ensures
        json_get(new, segs) is None,
    decreases segs.len(),
{
    match old {
        JsonValue::Object(oe) => {
            let oe = oe@;
            let ne = entries_of(new);
            match find_key(oe, segs[0]) {
                Some(i) => {
                    lemma_find_key_bound(oe, segs[0]);
                    if segs.len() == 1 {
                        assert forall|j: int| 0 <= j < ne.len() implies #[trigger] ne[j].0@ != segs[0] by {
                            if j < i {
                                assert(ne[j] == oe[j]);
                            } else {
                                assert(ne[j] == oe[j + 1]);
                            }
                        }
                        lemma_find_key_absent(ne, segs[0]);
                    } else {
                        assert forall|j: int| 0 <= j < i implies #[trigger] ne[j].0@ != segs[0] by {
                            lemma_find_key_before(oe, segs[0], i, j);
                            assert(ne[j] == oe[j]);
                        }
                        lemma_find_key_found(ne, segs[0], i);
                        lemma_get_after_remove(oe[i].1, ne[i].1, segs.drop_first());
                    }
                },
                None => {
                    assert(ne == oe);
                },
            }
        },
        _ => {},
    }
}

} // verus!
