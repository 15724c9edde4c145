//! The order of POSIX paths: component by component, as `Path` compares
//! them, and sorting a list of paths into that order without repeats.
use vstd::prelude::*;
use crate::text::{chars_of, str_eq};
use crate::workbench::{comp_view, comps_view, components, path_components, CompSpec, PathComponent};

verus! {

/// Whether `lt` is a strict total order.
pub open spec fn strict_total<A>(lt: spec_fn(A, A) -> bool) -> bool {
    &&& forall|x: A| !#[trigger] lt(x, x)
    &&& forall|x: A, y: A, z: A| #[trigger] lt(x, y) && #[trigger] lt(y, z) ==> lt(x, z)
    &&& forall|x: A, y: A| x != y ==> #[trigger] lt(x, y) || #[trigger] lt(y, x)
}

/// Lexicographic order of sequences: the first difference decides, and a
/// proper prefix comes first.
pub open spec fn lex_lt<A>(a: Seq<A>, b: Seq<A>, lt: spec_fn(A, A) -> bool) -> bool
    decreases a.len(),
{
    if a.len() == 0 {
        b.len() > 0
    } else if b.len() == 0 {
        false
    } else if a[0] != b[0] {
        lt(a[0], b[0])
    } else {
        lex_lt(a.drop_first(), b.drop_first(), lt)
    }
}

pub proof fn lemma_lex_irreflexive<A>(a: Seq<A>, lt: spec_fn(A, A) -> bool)
    ensures
        !lex_lt(a, a, lt),
    decreases a.len(),
{
    if a.len() > 0 {
        lemma_lex_irreflexive(a.drop_first(), lt);
    }
}

pub proof fn lemma_lex_transitive<A>(a: Seq<A>, b: Seq<A>, c: Seq<A>, lt: spec_fn(A, A) -> bool)
    requires
        strict_total(lt),
        lex_lt(a, b, lt),
        lex_lt(b, c, lt),
    ensures
        lex_lt(a, c, lt),
    decreases a.len(),
{
    if a.len() > 0 && b.len() > 0 && c.len() > 0 {
        if a[0] == b[0] && b[0] == c[0] {
            lemma_lex_transitive(a.drop_first(), b.drop_first(), c.drop_first(), lt);
        } else if a[0] != b[0] && b[0] != c[0] {
            assert(lt(a[0], b[0]) && lt(b[0], c[0]));
            assert(lt(a[0], c[0]));
            if a[0] == c[0] {
                assert(!lt(a[0], a[0]));
            }
        }
    }
}

pub proof fn lemma_lex_total<A>(a: Seq<A>, b: Seq<A>, lt: spec_fn(A, A) -> bool)
    requires
        strict_total(lt),
        a != b,
    ensures
        lex_lt(a, b, lt) || lex_lt(b, a, lt),
    decreases a.len(),
{
    if a.len() == 0 {
        assert(b.len() > 0) by {
            if b.len() == 0 { assert(a =~= b); }
        }
    } else if b.len() > 0 {
        if a[0] == b[0] {
            if a.drop_first() == b.drop_first() {
                assert(a =~= seq![a[0]] + a.drop_first());
                assert(b =~= seq![b[0]] + b.drop_first());
            }
            lemma_lex_total(a.drop_first(), b.drop_first(), lt);
        } else {
            assert(lt(a[0], b[0]) || lt(b[0], a[0]));
        }
    }
}

pub proof fn lemma_lex_strict_total<A>(lt: spec_fn(A, A) -> bool)
    requires
        strict_total(lt),
    ensures
        strict_total(|a: Seq<A>, b: Seq<A>| lex_lt(a, b, lt)),
{
    let l = |a: Seq<A>, b: Seq<A>| lex_lt(a, b, lt);
    assert forall|x: Seq<A>| !#[trigger] l(x, x) by {
        lemma_lex_irreflexive(x, lt);
    }
    assert forall|x: Seq<A>, y: Seq<A>, z: Seq<A>| #[trigger] l(x, y) && #[trigger] l(y, z) implies l(x, z) by {
        lemma_lex_transitive(x, y, z, lt);
    }
    assert forall|x: Seq<A>, y: Seq<A>| x != y implies #[trigger] l(x, y) || #[trigger] l(y, x) by {
        lemma_lex_total(x, y, lt);
    }
}

/// Characters in code point order (that of their UTF-8 bytes).
pub open spec fn char_order() -> spec_fn(char, char) -> bool {
    |p: char, q: char| p < q
}

/// The order of components.
pub open spec fn comp_order() -> spec_fn(CompSpec, CompSpec) -> bool {
    |x: CompSpec, y: CompSpec| comp_lt(x, y)
}

pub open spec fn comp_rank(c: CompSpec) -> int {
    match c {
        CompSpec::Root => 0,
        CompSpec::Cur => 1,
        CompSpec::Parent => 2,
        CompSpec::Normal(_) => 3,
    }
}

/// The order of components: root, `.`, `..`, then names, by their
/// characters (the order of their UTF-8 bytes).
pub open spec fn comp_lt(a: CompSpec, b: CompSpec) -> bool {
    match (a, b) {
        (CompSpec::Normal(x), CompSpec::Normal(y)) => lex_lt(x, y, char_order()),
        _ => comp_rank(a) < comp_rank(b),
    }
}

pub proof fn lemma_comp_strict_total()
    ensures
        strict_total(|x: CompSpec, y: CompSpec| comp_lt(x, y)),
{
    let cl = char_order();
    assert(strict_total(cl));
    lemma_lex_strict_total(cl);
    let l = comp_order();
    assert forall|x: CompSpec| !#[trigger] l(x, x) by {
        if let CompSpec::Normal(s) = x {
            lemma_lex_irreflexive(s, cl);
        }
    }
    assert forall|x: CompSpec, y: CompSpec, z: CompSpec| #[trigger] l(x, y) && #[trigger] l(y, z) implies l(x, z) by {
        if let (CompSpec::Normal(a), CompSpec::Normal(b), CompSpec::Normal(c)) = (x, y, z) {
            lemma_lex_transitive(a, b, c, cl);
        }
    }
    assert forall|x: CompSpec, y: CompSpec| x != y implies #[trigger] l(x, y) || #[trigger] l(y, x) by {
        if let (CompSpec::Normal(a), CompSpec::Normal(b)) = (x, y) {
            lemma_lex_total(a, b, cl);
        }
    }
}

pub proof fn lemma_components_strict_total()
    ensures
        strict_total(|a: Seq<CompSpec>, b: Seq<CompSpec>| lex_lt(a, b, comp_order())),
{
    lemma_comp_strict_total();
    lemma_lex_strict_total(comp_order());
}

/// The result of comparing two values.
#[derive(Debug, Clone, Copy, PartialEq, Eq, Structural)]
pub enum Rel {
    Less,
    Equal,
    Greater,
}

/// Compares two strings by their characters.
pub fn compare_strings(a: &String, b: &String) -> (r: Rel)
    ensures
        r == Rel::Equal <==> a@ == b@,
        r == Rel::Less <==> lex_lt(a@, b@, char_order()),
        r == Rel::Greater <==> lex_lt(b@, a@, char_order()),
{
    let ghost cl = char_order();
    proof {
        assert(strict_total(cl));
        lemma_lex_strict_total(cl);
    }
    let x = chars_of(a.as_str());
    let y = chars_of(b.as_str());
    let mut i: usize = 0;
    while i < x.len() && i < y.len()
        invariant
            x@ == a@,
            y@ == b@,
            i <= x@.len(),
            i <= y@.len(),
            x@.take(i as int) == y@.take(i as int),
            cl == char_order(),
        decreases x@.len() - i,
    {
        if x[i] != y[i] {
            proof {
                lemma_lex_skip(x@, y@, i as int, cl);
                assert(x@.skip(i as int)[0] == x@[i as int]);
                assert(y@.skip(i as int)[0] == y@[i as int]);
                assert(x@ != y@);
            }
            if x[i] < y[i] {
                return Rel::Less;
            } else {
                return Rel::Greater;
            }
        }
        proof {
            assert(x@.take(i + 1) =~= x@.take(i as int).push(x@[i as int]));
            assert(y@.take(i + 1) =~= y@.take(i as int).push(y@[i as int]));
        }
        i = i + 1;
    }
    proof { lemma_lex_skip(x@, y@, i as int, cl); }
    if x.len() == y.len() {
        proof {
            assert(x@ =~= x@.take(i as int));
            assert(y@ =~= y@.take(i as int));
        }
        Rel::Equal
    } else if x.len() < y.len() {
        Rel::Less
    } else {
        Rel::Greater
    }
}

/// A common prefix does not change the order.
proof fn lemma_lex_skip<A>(a: Seq<A>, b: Seq<A>, i: int, lt: spec_fn(A, A) -> bool)
    requires
        0 <= i <= a.len(),
        i <= b.len(),
        a.take(i) == b.take(i),
    ensures
        lex_lt(a, b, lt) == lex_lt(a.skip(i), b.skip(i), lt),
        lex_lt(b, a, lt) == lex_lt(b.skip(i), a.skip(i), lt),
    decreases i,
{
    if i > 0 {
        assert(a[0] == a.take(i)[0]);
        assert(b[0] == b.take(i)[0]);
        assert(a.drop_first().take(i - 1) =~= a.take(i).drop_first());
        assert(b.drop_first().take(i - 1) =~= b.take(i).drop_first());
        lemma_lex_skip(a.drop_first(), b.drop_first(), i - 1, lt);
        assert(a.drop_first().skip(i - 1) =~= a.skip(i));
        assert(b.drop_first().skip(i - 1) =~= b.skip(i));
    } else {
        assert(a.skip(0) =~= a);
        assert(b.skip(0) =~= b);
    }
}

fn compare_comp(a: &PathComponent, b: &PathComponent) -> (r: Rel)
    ensures
        r == Rel::Equal <==> comp_view(*a) == comp_view(*b),
        r == Rel::Less <==> comp_lt(comp_view(*a), comp_view(*b)),
        r == Rel::Greater <==> comp_lt(comp_view(*b), comp_view(*a)),
{
    proof { lemma_comp_strict_total(); }
    match (a, b) {
        (PathComponent::Normal(x), PathComponent::Normal(y)) => compare_strings(x, y),
        _ => {
            let ra: u8 = match a {
                PathComponent::RootDir => 0,
                PathComponent::CurDir => 1,
                PathComponent::ParentDir => 2,
                PathComponent::Normal(_) => 3,
            };
            let rb: u8 = match b {
                PathComponent::RootDir => 0,
                PathComponent::CurDir => 1,
                PathComponent::ParentDir => 2,
                PathComponent::Normal(_) => 3,
            };
            if ra < rb {
                Rel::Less
            } else if ra > rb {
                Rel::Greater
            } else {
                Rel::Equal
            }
        },
    }
}

fn compare_comps(a: &Vec<PathComponent>, b: &Vec<PathComponent>) -> (r: Rel)
    ensures
        r == Rel::Equal <==> comps_view(a@) == comps_view(b@),
        r == Rel::Less <==> lex_lt(comps_view(a@), comps_view(b@), comp_order()),
        r == Rel::Greater <==> lex_lt(comps_view(b@), comps_view(a@), comp_order()),
{
    let ghost x = comps_view(a@);
    let ghost y = comps_view(b@);
    let ghost co = comp_order();
    proof {
        lemma_comp_strict_total();
        lemma_lex_strict_total(co);
    }
    let mut i: usize = 0;
    while i < a.len() && i < b.len()
        invariant
            x == comps_view(a@),
            y == comps_view(b@),
            co == comp_order(),
            i <= a@.len(),
            i <= b@.len(),
            x.take(i as int) == y.take(i as int),
        decreases a@.len() - i,
    {
        let c = compare_comp(&a[i], &b[i]);
        if c != Rel::Equal {
            proof {
                lemma_lex_skip(x, y, i as int, co);
                assert(x.skip(i as int)[0] == x[i as int]);
                assert(y.skip(i as int)[0] == y[i as int]);
                assert(x != y);
            }
            return c;
        }
        proof {
            assert(x.take(i + 1) =~= x.take(i as int).push(x[i as int]));
            assert(y.take(i + 1) =~= y.take(i as int).push(y[i as int]));
        }
        i = i + 1;
    }
    proof { lemma_lex_skip(x, y, i as int, co); }
    if a.len() == b.len() {
        proof {
            assert(x =~= x.take(i as int));
            assert(y =~= y.take(i as int));
        }
        Rel::Equal
    } else if a.len() < b.len() {
        Rel::Less
    } else {
        Rel::Greater
    }
}

/// The order of component sequences.
pub open spec fn comps_lt(a: Seq<CompSpec>, b: Seq<CompSpec>) -> bool {
    lex_lt(a, b, comp_order())
}

/// The class of a path: its components; paths of one class are equal as
/// `Path`s.
#[verifier::opaque]
pub open spec fn class_of(p: Seq<char>) -> Seq<CompSpec> {
    components(p)
}

/// Whether path `a` sorts before path `b`.
#[verifier::opaque]
pub open spec fn sorts_before(a: Seq<char>, b: Seq<char>) -> bool {
    comps_lt(class_of(a), class_of(b))
}

proof fn lemma_sorts_before_transitive(a: Seq<char>, b: Seq<char>, c: Seq<char>)
    requires
        sorts_before(a, b),
        sorts_before(b, c),
    ensures
        sorts_before(a, c),
{
    reveal(sorts_before);
    lemma_comps_transitive(class_of(a), class_of(b), class_of(c));
}

proof fn lemma_sorts_before_same_class(a: Seq<char>, b: Seq<char>)
    requires
        class_of(a) == class_of(b),
    ensures
        !sorts_before(a, b),
{
    reveal(sorts_before);
    lemma_comps_irreflexive(class_of(a));
}

/// Whether `paths[j]` is the first of `paths` of its class.
pub open spec fn first_of_class(paths: Seq<Seq<char>>, j: int) -> bool {
    forall|m: int| 0 <= m < j ==> class_of(#[trigger] paths[m]) != class_of(paths[j])
}

/// Some path of `paths` equal to `p` is the first of its class there.
pub open spec fn has_first_source(p: Seq<char>, paths: Seq<Seq<char>>) -> bool {
    exists|j: int| 0 <= j < paths.len() && #[trigger] paths[j] == p && first_of_class(paths, j)
}

/// Some path of `out` is of the class of `p`.
pub open spec fn has_class(out: Seq<Seq<char>>, p: Seq<char>) -> bool {
    exists|k: int| 0 <= k < out.len() && class_of(#[trigger] out[k]) == class_of(p)
}

/// `out` lists the paths of `paths` sorted by their components, each class
/// of equal paths once, by its first member.
pub open spec fn sorted_unique_of(out: Seq<Seq<char>>, paths: Seq<Seq<char>>) -> bool {
    &&& forall|a: int, b: int| 0 <= a < b < out.len() ==> sorts_before(#[trigger] out[a], #[trigger] out[b])
    &&& forall|k: int| 0 <= k < out.len() ==> has_first_source(#[trigger] out[k], paths)
    &&& forall|j: int| 0 <= j < paths.len() ==> has_class(out, #[trigger] paths[j])
}

/// A sorted, deduplicated list of paths names no path twice and names only
/// paths it was given.
pub proof fn lemma_sorted_unique_members(out: Seq<Seq<char>>, paths: Seq<Seq<char>>)
    requires
        sorted_unique_of(out, paths),
    ensures
        out.no_duplicates(),
        forall|k: int| 0 <= k < out.len() ==> paths.contains(#[trigger] out[k]),
{
    assert forall|a: int, b: int| 0 <= a < out.len() && 0 <= b < out.len() && a != b implies out[a] != out[b] by {
        if out[a] == out[b] {
            let (x, y) = if a < b { (a, b) } else { (b, a) };
            assert(sorts_before(out[x], out[y]));
            reveal(sorts_before);
            lemma_comps_irreflexive(class_of(out[x]));
        }
    }
    assert forall|k: int| 0 <= k < out.len() implies paths.contains(#[trigger] out[k]) by {
        assert(has_first_source(out[k], paths));
        let j = choose|j: int| 0 <= j < paths.len() && #[trigger] paths[j] == out[k] && first_of_class(paths, j);
    }
}

pub open spec fn string_views(v: Seq<String>) -> Seq<Seq<char>> {
    v.map_values(|s: String| s@)
}

pub proof fn lemma_comps_irreflexive(a: Seq<CompSpec>)
    ensures
        !comps_lt(a, a),
{
    lemma_lex_irreflexive(a, comp_order());
}

pub proof fn lemma_comps_transitive(a: Seq<CompSpec>, b: Seq<CompSpec>, c: Seq<CompSpec>)
    requires
        comps_lt(a, b),
        comps_lt(b, c),
    ensures
        comps_lt(a, c),
{
    lemma_comp_strict_total();
    lemma_lex_transitive(a, b, c, comp_order());
}

/// Adding a path of a new class at its place keeps the list sorted and
/// unique.
/// Adding a path of a new class at its place keeps the list sorted and
/// unique.
#[verifier::rlimit(60)]
proof fn lemma_insert_new_class(ov: Seq<Seq<char>>, pre: Seq<Seq<char>>, x: Seq<char>, k: int)
    requires
        sorted_unique_of(ov, pre),
        0 <= k <= ov.len(),
        forall|m: int| 0 <= m < k ==> sorts_before(#[trigger] ov[m], x),
        k < ov.len() ==> sorts_before(x, ov[k]),
    ensures
        sorted_unique_of(ov.insert(k, x), pre.push(x)),
{
    let nv = ov.insert(k, x);
    let nxt = pre.push(x);
    let i = pre.len() as int;
    assert forall|m: int| 0 <= m < pre.len() implies class_of(#[trigger] pre[m]) != class_of(x) by {
        assert(has_class(ov, pre[m]));
        let kk = choose|kk: int| 0 <= kk < ov.len() && class_of(#[trigger] ov[kk]) == class_of(pre[m]);
        if class_of(pre[m]) == class_of(x) {
            if kk < k {
                lemma_sorts_before_same_class(ov[kk], x);
            } else {
                if kk > k {
                    lemma_sorts_before_transitive(x, ov[k], ov[kk]);
                }
                lemma_sorts_before_same_class(x, ov[kk]);
            }
        }
    }
    assert(first_of_class(nxt, i)) by {
        assert forall|m: int| 0 <= m < i implies class_of(#[trigger] nxt[m]) != class_of(nxt[i]) by {
            assert(nxt[m] == pre[m]);
        }
    }
    assert forall|a: int, b: int| 0 <= a < b < nv.len() implies sorts_before(#[trigger] nv[a], #[trigger] nv[b]) by {
        if a < k && b < k {
            assert(nv[a] == ov[a] && nv[b] == ov[b]);
        } else if a < k && b == k {
            assert(nv[a] == ov[a]);
        } else if a < k && b > k {
            assert(nv[a] == ov[a] && nv[b] == ov[b - 1]);
            if b - 1 > k {
                lemma_sorts_before_transitive(x, ov[k], ov[b - 1]);
            }
            lemma_sorts_before_transitive(ov[a], x, ov[b - 1]);
        } else if a == k && b > k {
            assert(nv[b] == ov[b - 1]);
            if b - 1 > k {
                lemma_sorts_before_transitive(x, ov[k], ov[b - 1]);
            }
        } else {
            assert(nv[a] == ov[a - 1] && nv[b] == ov[b - 1]);
        }
    }
    assert forall|kk: int| 0 <= kk < nv.len() implies has_first_source(#[trigger] nv[kk], nxt) by {
        if kk == k {
            assert(nxt[i] == nv[kk]);
        } else {
            let ok = if kk < k { kk } else { kk - 1 };
            assert(nv[kk] == ov[ok]);
            assert(has_first_source(ov[ok], pre));
            let j = choose|j: int| 0 <= j < pre.len() && #[trigger] pre[j] == ov[ok] && first_of_class(pre, j);
            assert(nxt[j] == pre[j]);
            assert forall|m: int| 0 <= m < j implies class_of(#[trigger] nxt[m]) != class_of(nxt[j]) by {
                assert(nxt[m] == pre[m]);
            }
        }
    }
    assert forall|j: int| 0 <= j < nxt.len() implies has_class(nv, #[trigger] nxt[j]) by {
        if j < pre.len() {
            assert(nxt[j] == pre[j]);
            assert(has_class(ov, pre[j]));
            let ok = choose|ok: int| 0 <= ok < ov.len() && class_of(#[trigger] ov[ok]) == class_of(pre[j]);
            let kk = if ok < k { ok } else { ok + 1 };
            assert(nv[kk] == ov[ok]);
        } else {
            assert(nxt[j] == x);
            assert(nv[k] == x);
        }
    }
}

/// A path whose class is listed already leaves the list as it is.
#[verifier::rlimit(60)]
proof fn lemma_skip_known_class(ov: Seq<Seq<char>>, pre: Seq<Seq<char>>, x: Seq<char>, k: int)
    requires
        sorted_unique_of(ov, pre),
        0 <= k < ov.len(),
        class_of(ov[k]) == class_of(x),
    ensures
        sorted_unique_of(ov, pre.push(x)),
{
    let nxt = pre.push(x);
    assert forall|kk: int| 0 <= kk < ov.len() implies has_first_source(#[trigger] ov[kk], nxt) by {
        assert(has_first_source(ov[kk], pre));
        let j = choose|j: int| 0 <= j < pre.len() && #[trigger] pre[j] == ov[kk] && first_of_class(pre, j);
        assert(nxt[j] == pre[j]);
        assert forall|m: int| 0 <= m < j implies class_of(#[trigger] nxt[m]) != class_of(nxt[j]) by {
            assert(nxt[m] == pre[m]);
        }
    }
    assert forall|j: int| 0 <= j < nxt.len() implies has_class(ov, #[trigger] nxt[j]) by {
        if j < pre.len() {
            assert(nxt[j] == pre[j]);
            assert(has_class(ov, pre[j]));
        } else {
            assert(nxt[j] == x);
            assert(class_of(ov[k]) == class_of(nxt[j]));
        }
    }
}

/// Sorts paths by their components, keeping the first of each set of
/// equal paths, as sorting and deduplicating `PathBuf`s does.
#[verifier::spinoff_prover]
#[verifier::rlimit(40)]
pub fn sorted_unique_paths(paths: &Vec<String>) -> (out: Vec<String>)
    ensures
        sorted_unique_of(string_views(out@), string_views(paths@)),
{
    let ghost pv = string_views(paths@);
    let mut out: Vec<String> = Vec::new();
    let mut out_comps: Vec<Vec<PathComponent>> = Vec::new();
    let mut i: usize = 0;
    proof { assert(pv.take(0) =~= Seq::<Seq<char>>::empty()); }
    while i < paths.len()
        invariant
            pv == string_views(paths@),
            i <= paths@.len(),
            out@.len() == out_comps@.len(),
            forall|k: int| 0 <= k < out@.len() ==> comps_view(#[trigger] out_comps@[k]@) == class_of(out@[k]@),
            sorted_unique_of(string_views(out@), pv.take(i as int)),
        decreases paths@.len() - i,
    {
        let ghost ov = string_views(out@);
        let ghost pre = pv.take(i as int);
        let ghost x = pv[i as int];
        proof { assert(pv.take(i + 1) =~= pre.push(x)); }
        let c = path_components(paths[i].as_str());
        proof { reveal(class_of); }
        let mut k: usize = 0;
        let mut rel = Rel::Greater;
        while k < out_comps.len()
            invariant
                out@.len() == out_comps@.len(),
                ov == string_views(out@),
                k <= out_comps@.len(),
                comps_view(c@) == class_of(x),
                forall|m: int| 0 <= m < out@.len() ==> comps_view(#[trigger] out_comps@[m]@) == class_of(out@[m]@),
                forall|m: int| 0 <= m < k ==> sorts_before(#[trigger] ov[m], x),
            ensures
                k <= out_comps@.len(),
                forall|m: int| 0 <= m < k ==> sorts_before(#[trigger] ov[m], x),
                k < out_comps@.len() ==> rel != Rel::Less
                    && (rel == Rel::Equal <==> class_of(ov[k as int]) == class_of(x))
                    && (rel == Rel::Greater <==> sorts_before(x, ov[k as int])),
            decreases out_comps@.len() - k,
        {
            rel = compare_comps(&out_comps[k], &c);
            proof {
                assert(class_of(ov[k as int]) == comps_view(out_comps@[k as int]@));
                reveal(sorts_before);
            }
            if rel != Rel::Less {
                break;
            }
            k = k + 1;
        }
        if k < out_comps.len() && rel == Rel::Equal {
            proof { lemma_skip_known_class(ov, pre, x, k as int); }
        } else {
            let ghost oc_before = out_comps@;
            out.insert(k, owned_copy(&paths[i]));
            out_comps.insert(k, c);
            proof {
                assert(string_views(out@) =~= ov.insert(k as int, x));
                lemma_insert_new_class(ov, pre, x, k as int);
                assert forall|m: int| 0 <= m < out@.len() implies comps_view(#[trigger] out_comps@[m]@) == class_of(out@[m]@) by {
                    if m < k {
                        assert(out_comps@[m] == oc_before[m]);
                    } else if m > k {
                        assert(out_comps@[m] == oc_before[m - 1]);
                    }
                }
            }
        }
        i = i + 1;
    }
    proof { assert(pv.take(paths@.len() as int) =~= pv); }
    out
}

fn owned_copy(s: &String) -> (r: String)
    ensures
        r@ == s@,
{
    crate::text::owned(s.as_str())
}

} // verus!
