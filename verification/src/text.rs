//! Character and byte helpers shared by the string-processing modules.
use vstd::prelude::*;

verus! {

/// Appends one character to a string.
///
/// Trusted wrapper around `String::push`: the contract claims that the
/// string afterwards is the old one followed by `c`.
#[verifier::external_body]
pub(crate) fn push_char(s: &mut String, c: char)
    ensures
        final(s)@ == old(s)@.push(c),
{
    s.push(c);
}

/// The characters of a string slice, in order.
pub fn chars_of(s: &str) -> (out: Vec<char>)
    ensures
        out@ == s@,
{
    let mut out: Vec<char> = Vec::new();
    for c in it: s.chars()
        invariant
            out@ == it.seq().take(it.index() as int),
            it.seq() == s@,
    {
        out.push(c);
    }
    out
}

/// Builds a string from a sequence of characters.
pub fn string_from_chars(v: &Vec<char>) -> (out: String)
    ensures
        out@ == v@,
{
    let mut out = String::new();
    let mut i: usize = 0;
    while i < v.len()
        invariant
            i <= v.len(),
            out@ == v@.take(i as int),
        decreases v.len() - i,
    {
        push_char(&mut out, v[i]);
        proof { assert(v@.take(i as int + 1) == v@.take(i as int).push(v@[i as int])); }
        i = i + 1;
    }
    proof { assert(v@.take(v.len() as int) == v@); }
    out
}


/// Appends a string slice to a string.
///
/// Trusted wrapper around `String::push_str`: the contract claims that the
/// string afterwards is the old one followed by the characters of `t`.
#[verifier::external_body]
pub(crate) fn push_str(s: &mut String, t: &str)
    ensures
        final(s)@ == old(s)@ + t@,
{
    s.push_str(t);
}

/// An owned copy of a string slice.
pub fn owned(s: &str) -> (out: String)
    ensures
        out@ == s@,
{
    let mut out = String::new();
    push_str(&mut out, s);
    out
}

/// Concatenation of two string slices.
pub fn concat2(a: &str, b: &str) -> (out: String)
    ensures
        out@ == a@ + b@,
{
    let mut out = String::new();
    push_str(&mut out, a);
    push_str(&mut out, b);
    out
}

/// Concatenation of three string slices.
pub fn concat3(a: &str, b: &str, c: &str) -> (out: String)
    ensures
        out@ == a@ + b@ + c@,
{
    let mut out = concat2(a, b);
    push_str(&mut out, c);
    out
}

/// The text of what `String::from_utf8` reports for bytes that are not UTF-8.
pub uninterp spec fn from_utf8_error_text(bytes: Seq<u8>) -> Seq<char>;

/// Decodes UTF-8 bytes into a string.
///
/// Trusted wrapper around `String::from_utf8`, which std documents to fail
/// exactly when the bytes are not valid UTF-8. The contract claims that, and
/// that the error text is a function of the bytes alone.
#[verifier::external_body]
pub(crate) fn string_from_utf8(bytes: Vec<u8>) -> (res: Result<String, String>)
    ensures
        res is Ok <==> vstd::utf8::valid_utf8(bytes@),
        res matches Ok(s) ==> s@ == vstd::utf8::decode_utf8(bytes@),
        res matches Err(e) ==> e@ == from_utf8_error_text(bytes@),
{
    String::from_utf8(bytes).map_err(|error| error.to_string())
}

/// The UTF-8 bytes of a string slice.
pub fn bytes_of(s: &str) -> (out: Vec<u8>)
    ensures
        out@ == vstd::utf8::encode_utf8(s@),
{
    let b = s.as_bytes();
    let mut out: Vec<u8> = Vec::new();
    let mut i: usize = 0;
    while i < b.len()
        invariant
            i <= b@.len(),
            b@ == vstd::utf8::encode_utf8(s@),
            out@ == b@.take(i as int),
        decreases b.len() - i,
    {
        out.push(b[i]);
        proof { assert(b@.take(i as int + 1) == b@.take(i as int).push(b@[i as int])); }
        i = i + 1;
    }
    proof { assert(b@.take(b@.len() as int) == b@); }
    out
}

/// Whether two string slices hold the same characters.
pub fn str_eq(a: &str, b: &str) -> (r: bool)
    ensures
        r == (a@ == b@),
{
    let x = chars_of(a);
    let y = chars_of(b);
    if x.len() != y.len() {
        return false;
    }
    let mut i: usize = 0;
    while i < x.len()
        invariant
            x.len() == y.len(),
            i <= x.len(),
            x@ == a@,
            y@ == b@,
            forall|j: int| 0 <= j < i ==> x@[j] == y@[j],
        decreases x.len() - i,
    {
        if x[i] != y[i] {
            return false;
        }
        i = i + 1;
    }
    proof { assert(x@ =~= y@); }
    true
}

/// `s` begins with `p`.
pub open spec fn starts_with(s: Seq<char>, p: Seq<char>) -> bool {
    p.len() <= s.len() && s.take(p.len() as int) == p
}

/// `p` occurs somewhere in `s`.
pub open spec fn contains_seq<A>(s: Seq<A>, p: Seq<A>) -> bool {
    exists|i: int| 0 <= i && i + p.len() <= s.len() && #[trigger] s.subrange(i, i + p.len()) == p
}

/// Whether `s` begins with `p`.
pub fn starts_with_chars(s: &Vec<char>, p: &Vec<char>) -> (r: bool)
    ensures
        r == starts_with(s@, p@),
{
    if p.len() > s.len() {
        return false;
    }
    let mut i: usize = 0;
    while i < p.len()
        invariant
            p.len() <= s.len(),
            i <= p.len(),
            forall|j: int| 0 <= j < i ==> s@[j] == p@[j],
        decreases p.len() - i,
    {
        if s[i] != p[i] {
            proof { assert(s@.take(p.len() as int)[i as int] != p@[i as int]); }
            return false;
        }
        i = i + 1;
    }
    proof { assert(s@.take(p.len() as int) =~= p@); }
    true
}

/// Whether `p` occurs in `s` starting at position `at`.
pub fn occurs_at(s: &Vec<char>, p: &Vec<char>, at: usize) -> (r: bool)
    requires
        at <= s.len(),
    ensures
        r == (at + p.len() <= s.len() && s@.subrange(at as int, at + p.len()) == p@),
{
    if p.len() > s.len() - at {
        return false;
    }
    let mut i: usize = 0;
    while i < p.len()
        invariant
            at + p.len() <= s.len(),
            i <= p.len(),
            forall|j: int| 0 <= j < i ==> s@[at + j] == p@[j],
        decreases p.len() - i,
    {
        if s[at + i] != p[i] {
            proof { assert(s@.subrange(at as int, at + p.len())[i as int] != p@[i as int]); }
            return false;
        }
        i = i + 1;
    }
    proof { assert(s@.subrange(at as int, at + p.len()) =~= p@); }
    true
}

/// Whether `p` occurs anywhere in `s`.
pub fn contains_chars(s: &Vec<char>, p: &Vec<char>) -> (r: bool)
    ensures
        r == contains_seq(s@, p@),
{
    let mut at: usize = 0;
    while at < s.len()
        invariant
            at <= s.len(),
            forall|k: int| 0 <= k < at ==> !(k + p@.len() <= s@.len() && #[trigger] s@.subrange(k, k + p@.len()) == p@),
        decreases s.len() - at,
    {
        if occurs_at(s, p, at) {
            return true;
        }
        at = at + 1;
    }
    if occurs_at(s, p, at) {
        return true;
    }
    proof {
        assert forall|k: int| 0 <= k && k + p@.len() <= s@.len() implies #[trigger] s@.subrange(k, k + p@.len()) != p@ by {
            assert(k <= at);
        }
    }
    false
}


/// Index of the first `c` in `s`, or its length when there is none.
pub open spec fn index_of(s: Seq<char>, c: char) -> int
    decreases s.len(),
{
    if s.len() == 0 {
        0
    } else if s[0] == c {
        0
    } else {
        1 + index_of(s.drop_first(), c)
    }
}

pub proof fn lemma_index_of_bound(s: Seq<char>, c: char)
    ensures
        0 <= index_of(s, c) <= s.len(),
        index_of(s, c) < s.len() ==> s[index_of(s, c)] == c,
        forall|j: int| 0 <= j < index_of(s, c) ==> s[j] != c,
    decreases s.len(),
{
    if s.len() > 0 && s[0] != c {
        lemma_index_of_bound(s.drop_first(), c);
        assert forall|j: int| 0 <= j < index_of(s, c) implies s[j] != c by {
            if j > 0 {
                assert(s[j] == s.drop_first()[j - 1]);
            }
        }
    }
}

pub proof fn lemma_index_of(s: Seq<char>, c: char, i: int)
    requires
        0 <= i <= s.len(),
        forall|j: int| 0 <= j < i ==> #[trigger] s[j] != c,
        i == s.len() || s[i] == c,
    ensures
        index_of(s, c) == i,
    decreases i,
{
    if i > 0 {
        lemma_index_of(s.drop_first(), c, i - 1);
    }
}

/// The pieces of `s` between occurrences of `c` (what `str::split` yields).
pub open spec fn split_char(s: Seq<char>, c: char) -> Seq<Seq<char>>
    decreases s.len(),
{
    let i = index_of(s, c);
    if i >= s.len() {
        seq![s]
    } else {
        proof { lemma_index_of_bound(s, c); }
        seq![s.take(i)] + split_char(s.skip(i + 1), c)
    }
}

/// The views of a sequence of strings.
pub open spec fn views(v: Seq<String>) -> Seq<Seq<char>> {
    v.map_values(|x: String| x@)
}

/// Splits a string at every occurrence of `c`.
pub fn split_at_char(s: &str, c: char) -> (parts: Vec<String>)
    ensures
        views(parts@) == split_char(s@, c),
{
    let cs = chars_of(s);
    let mut parts: Vec<String> = Vec::new();
    let mut start: usize = 0;
    let mut i: usize = 0;
    proof {
        assert(cs@.skip(0) =~= cs@);
        assert(views(parts@) =~= Seq::<Seq<char>>::empty());
        assert(views(parts@) + split_char(cs@, c) =~= split_char(cs@, c));
    }
    while i < cs.len()
        invariant
            start <= i <= cs.len(),
            cs@ == s@,
            forall|j: int| start <= j < i ==> cs@[j] != c,
            split_char(cs@, c) == views(parts@) + split_char(cs@.skip(start as int), c),
        decreases cs.len() - i,
    {
        if cs[i] == c {
            let piece = crate::text::string_from_slice(&cs, start, i);
            proof {
                let t = cs@.skip(start as int);
                lemma_index_of(t, c, i - start);
                assert(t.take(i - start) =~= cs@.subrange(start as int, i as int));
                assert(t.skip(i - start + 1) =~= cs@.skip(i + 1));
                assert(views(parts@.push(piece)) =~= views(parts@).push(piece@));
                assert(split_char(t, c) == seq![t.take(i - start)] + split_char(t.skip(i - start + 1), c));
                assert(views(parts@) + split_char(t, c) =~= views(parts@.push(piece)) + split_char(cs@.skip(i + 1), c));
            }
            parts.push(piece);
            start = i + 1;
        }
        i = i + 1;
    }
    let last = crate::text::string_from_slice(&cs, start, cs.len());
    proof {
        let t = cs@.skip(start as int);
        lemma_index_of(t, c, t.len() as int);
        assert(last@ =~= t);
        assert(views(parts@.push(last)) =~= views(parts@).push(last@));
        assert(views(parts@) + seq![t] =~= views(parts@.push(last)));
    }
    parts.push(last);
    parts
}

/// A string made of `s[start..end]`.
pub fn string_from_slice(s: &Vec<char>, start: usize, end: usize) -> (out: String)
    requires
        start <= end <= s.len(),
    ensures
        out@ == s@.subrange(start as int, end as int),
{
    let mut out = String::new();
    let mut i = start;
    while i < end
        invariant
            start <= i <= end,
            end <= s.len(),
            out@ == s@.subrange(start as int, i as int),
        decreases end - i,
    {
        push_char(&mut out, s[i]);
        proof { assert(s@.subrange(start as int, i + 1) =~= s@.subrange(start as int, i as int).push(s@[i as int])); }
        i = i + 1;
    }
    out
}

} // verus!
