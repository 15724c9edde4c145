//! Facts about tables kept as sequences of key/value rows with distinct
//! keys, read as maps.
use vstd::prelude::*;

verus! {

/// The map a sequence of rows stands for; a later row wins over an earlier
/// one with the same key.
pub open spec fn rows_map<K, V>(s: Seq<(K, V)>) -> Map<K, V>
    decreases s.len(),
{
    if s.len() == 0 {
        Map::empty()
    } else {
        rows_map(s.drop_last()).insert(s.last().0, s.last().1)
    }
}

/// No two rows share a key.
pub open spec fn distinct_keys<K, V>(s: Seq<(K, V)>) -> bool {
    forall|i: int, j: int| 0 <= i < j < s.len() ==> (#[trigger] s[i]).0 != (#[trigger] s[j]).0
}

pub proof fn lemma_rows_dom<K, V>(s: Seq<(K, V)>, k: K)
    ensures
        rows_map(s).contains_key(k) <==> exists|i: int| 0 <= i < s.len() && (#[trigger] s[i]).0 == k,
    decreases s.len(),
{
    if s.len() > 0 {
        lemma_rows_dom(s.drop_last(), k);
        if rows_map(s).contains_key(k) && s.last().0 != k {
            let i = choose|i: int| 0 <= i < s.len() - 1 && (#[trigger] s.drop_last()[i]).0 == k;
            assert(s[i].0 == k);
        }
        if exists|i: int| 0 <= i < s.len() && (#[trigger] s[i]).0 == k {
            let i = choose|i: int| 0 <= i < s.len() && (#[trigger] s[i]).0 == k;
            if i < s.len() - 1 {
                assert(s.drop_last()[i].0 == k);
            }
        }
    }
}

pub proof fn lemma_rows_value<K, V>(s: Seq<(K, V)>, i: int)
    requires
        distinct_keys(s),
        0 <= i < s.len(),
    ensures
        rows_map(s).contains_key(s[i].0),
        rows_map(s)[s[i].0] == s[i].1,
    decreases s.len(),
{
    if i < s.len() - 1 {
        assert(s.drop_last()[i] == s[i]);
        lemma_rows_value(s.drop_last(), i);
        assert(s[i].0 != s[s.len() - 1].0);
    }
}

pub proof fn lemma_rows_remove<K, V>(s: Seq<(K, V)>, i: int)
    requires
        distinct_keys(s),
        0 <= i < s.len(),
    ensures
        rows_map(s.remove(i)) =~= rows_map(s).remove(s[i].0),
        distinct_keys(s.remove(i)),
    decreases s.len(),
{
    let k = s[i].0;
    if i == s.len() - 1 {
        assert(s.remove(i) =~= s.drop_last());
        assert(!rows_map(s.drop_last()).contains_key(k)) by {
            lemma_rows_dom(s.drop_last(), k);
            if rows_map(s.drop_last()).contains_key(k) {
                let j = choose|j: int| 0 <= j < s.drop_last().len() && (#[trigger] s.drop_last()[j]).0 == k;
                assert(s[j].0 == k);
            }
        }
    } else {
        let d = s.drop_last();
        assert(d[i] == s[i]);
        lemma_rows_remove(d, i);
        assert(s.remove(i).drop_last() =~= d.remove(i));
        assert(s.remove(i).last() == s.last());
        assert(s.last().0 != k);
    }
}

pub proof fn lemma_rows_push<K, V>(s: Seq<(K, V)>, r: (K, V))
    requires
        distinct_keys(s),
        !rows_map(s).contains_key(r.0),
    ensures
        distinct_keys(s.push(r)),
        rows_map(s.push(r)) == rows_map(s).insert(r.0, r.1),
{
    assert(s.push(r).drop_last() =~= s);
    assert forall|i: int, j: int| 0 <= i < j < s.push(r).len() implies (#[trigger] s.push(r)[i]).0 != (#[trigger] s.push(r)[j]).0 by {
        if j == s.len() {
            lemma_rows_dom(s, r.0);
            assert(s.push(r)[i] == s[i]);
        } else {
            assert(s.push(r)[i] == s[i]);
            assert(s.push(r)[j] == s[j]);
        }
    }
}

pub proof fn lemma_rows_update<K, V>(s: Seq<(K, V)>, i: int, v: V)
    requires
        distinct_keys(s),
        0 <= i < s.len(),
    ensures
        distinct_keys(s.update(i, (s[i].0, v))),
        rows_map(s.update(i, (s[i].0, v))) =~= rows_map(s).insert(s[i].0, v),
    decreases s.len(),
{
    let t = s.update(i, (s[i].0, v));
    assert forall|a: int, b: int| 0 <= a < b < t.len() implies (#[trigger] t[a]).0 != (#[trigger] t[b]).0 by {
        assert(t[a].0 == s[a].0);
        assert(t[b].0 == s[b].0);
    }
    if i == s.len() - 1 {
        assert(t.drop_last() =~= s.drop_last());
    } else {
        let d = s.drop_last();
        assert(d[i] == s[i]);
        lemma_rows_update(d, i, v);
        assert(t.drop_last() =~= d.update(i, (d[i].0, v)));
        assert(s.last().0 != s[i].0);
    }
}

pub proof fn lemma_rows_len<K, V>(s: Seq<(K, V)>)
    requires
        distinct_keys(s),
    ensures
        rows_map(s).dom().finite(),
        rows_map(s).dom().len() == s.len(),
    decreases s.len(),
{
    if s.len() > 0 {
        let d = s.drop_last();
        lemma_rows_len(d);
        lemma_rows_dom(d, s.last().0);
        if rows_map(d).contains_key(s.last().0) {
            let j = choose|j: int| 0 <= j < d.len() && (#[trigger] d[j]).0 == s.last().0;
            assert(s[j].0 == s[s.len() - 1].0);
        }
    }
}

} // verus!
