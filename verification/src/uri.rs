//! An immutable URI in the workbench's sense: scheme, authority, path,
//! query and fragment, with custom schemes such as `vscode-file` kept.
use vstd::prelude::*;
use crate::file_uri::trim_leading;
use crate::numfmt::{decimal, push_decimal};
use crate::text::{chars_of, concat2, index_of, lemma_index_of, lemma_index_of_bound, owned, push_char, push_str, string_from_slice};
use crate::workbench::ascii_lower_seq;

verus! {

/// A URI by its five components.
#[derive(Debug, Clone, PartialEq, Eq, Hash)]
pub struct VsUri {
    pub scheme: String,
    pub authority: String,
    pub path: String,
    pub query: String,
    pub fragment: String,
}

/// A URI's components: scheme, authority, path, query, fragment.
pub type UriParts = (Seq<char>, Seq<char>, Seq<char>, Seq<char>, Seq<char>);

impl View for VsUri {
    type V = UriParts;

    open spec fn view(&self) -> UriParts {
        (self.scheme@, self.authority@, self.path@, self.query@, self.fragment@)
    }
}

/// Why a URI could not be read.
#[derive(Debug, Clone, PartialEq, Eq)]
pub enum UriError {
    ParseError(String),
}

impl UriError {
    /// A message for people.
    pub fn message(&self) -> (m: String)
        ensures
            match self {
                UriError::ParseError(t) => m@ == "URI parse error: "@ + t@,
            },
    {
        match self {
            UriError::ParseError(t) => concat2("URI parse error: ", t.as_str()),
        }
    }
}

/// What a standard URL parser reads from a string: scheme, host, port,
/// path, query, fragment.
pub struct UrlParts {
    pub scheme: String,
    pub host: Option<String>,
    pub port: Option<u16>,
    pub path: String,
    pub query: Option<String>,
    pub fragment: Option<String>,
}

pub type UrlPartsView = (Seq<char>, Option<Seq<char>>, Option<u16>, Seq<char>, Option<Seq<char>>, Option<Seq<char>>);

pub open spec fn opt_view(o: Option<String>) -> Option<Seq<char>> {
    match o {
        Some(s) => Some(s@),
        None => None,
    }
}

impl View for UrlParts {
    type V = UrlPartsView;

    open spec fn view(&self) -> UrlPartsView {
        (self.scheme@, opt_view(self.host), self.port, self.path@, opt_view(self.query), opt_view(self.fragment))
    }
}

/// The parts the `url` crate reads from `input`, or `None` when it does not
/// parse it as an absolute URL.
pub uninterp spec fn url_parse(input: Seq<char>) -> Option<UrlPartsView>;

/// Parses a string as an absolute URL.
///
/// Trusted wrapper around `url::Url::parse` and the accessors `scheme`,
/// `host_str`, `port`, `path`, `query` and `fragment`: the contract claims
/// that what they give is a function of the input alone, named by
/// `url_parse`.
#[verifier::external_body]
fn parse_url(input: &str) -> (r: Option<UrlParts>)
    ensures
        match url_parse(input@) {
            Some(p) => r matches Some(got) && got@ == p,
            None => r is None,
        },
{
    match url::Url::parse(input) {
        Ok(url) => Some(UrlParts {
            scheme: url.scheme().to_owned(),
            host: url.host_str().map(|h| h.to_owned()),
            port: url.port(),
            path: url.path().to_owned(),
            query: url.query().map(|q| q.to_owned()),
            fragment: url.fragment().map(|f| f.to_owned()),
        }),
        Err(_) => None,
    }
}

/// Whether a character is alphabetic or numeric in Unicode's sense.
pub uninterp spec fn unicode_alphanumeric(c: char) -> bool;

/// Trusted wrapper around `char::is_alphanumeric`: the contract claims that
/// its answer is a function of the character, named by
/// `unicode_alphanumeric`.
#[verifier::external_body]
fn is_alphanumeric(c: char) -> (r: bool)
    ensures
        r == unicode_alphanumeric(c),
{
    c.is_alphanumeric()
}

/// The authority of parsed URL parts: the host, with `:port` when there is
/// a port; empty without a host.
pub open spec fn url_authority(p: UrlPartsView) -> Seq<char> {
    match p.1 {
        Some(h) => match p.2 {
            Some(port) => h + ":"@ + decimal(port as nat),
            None => h,
        },
        None => seq![],
    }
}

pub open spec fn or_empty(o: Option<Seq<char>>) -> Seq<char> {
    match o {
        Some(s) => s,
        None => seq![],
    }
}

/// The URI of parsed URL parts.
pub open spec fn from_url_spec(p: UrlPartsView) -> UriParts {
    (p.0, url_authority(p), p.3, or_empty(p.4), or_empty(p.5))
}

/// A character that may stand in a scheme read by hand.
pub open spec fn raw_scheme_char(c: char) -> bool {
    unicode_alphanumeric(c) || c == '+' || c == '-' || c == '.'
}

/// The scheme read by hand: what comes before the first `:`, lowered, when
/// it is not empty and made of scheme characters; else none.
pub open spec fn raw_scheme(s: Seq<char>) -> Option<Seq<char>> {
    let i = index_of(s, ':');
    if i < s.len() && i > 0 && (forall|j: int| 0 <= j < i ==> raw_scheme_char(#[trigger] s[j])) {
        Some(ascii_lower_seq(s.take(i)))
    } else {
        None
    }
}

/// `s` up to the first `c`, and what follows that `c` (empty without one).
pub open spec fn cut_at(s: Seq<char>, c: char) -> (Seq<char>, Seq<char>) {
    let i = index_of(s, c);
    if i < s.len() { (s.take(i), s.skip(i + 1)) } else { (s, seq![]) }
}

/// The authority and path of what precedes query and fragment: after `//`,
/// the authority runs to the next `/`; without `//` there is none.
pub open spec fn authority_path(rest: Seq<char>) -> (Seq<char>, Seq<char>) {
    if rest.len() >= 2 && rest[0] == '/' && rest[1] == '/' {
        let after = rest.skip(2);
        let i = index_of(after, '/');
        if i < after.len() { (after.take(i), after.skip(i)) } else { (after, seq![]) }
    } else {
        (seq![], rest)
    }
}

/// What is left after the scheme.
pub open spec fn after_scheme(s: Seq<char>) -> Seq<char> {
    match raw_scheme(s) {
        Some(_) => s.skip(index_of(s, ':') + 1),
        None => s,
    }
}

/// The scheme of a URI read by hand.
pub open spec fn raw_scheme_or_file(s: Seq<char>) -> Seq<char> {
    match raw_scheme(s) {
        Some(sc) => if sc.len() == 0 { "file"@ } else { sc },
        None => "file"@,
    }
}

/// A URI read by hand, as the workbench's URI regular expression reads it;
/// a URI without a scheme gets the `file` scheme.
pub open spec fn parse_raw_spec(s: Seq<char>) -> UriParts {
    let rest0 = after_scheme(s);
    let (rest1, fragment) = cut_at(rest0, '#');
    let (rest2, query) = cut_at(rest1, '?');
    let (authority, path) = authority_path(rest2);
    (raw_scheme_or_file(s), authority, path, query, fragment)
}

/// The URI a string denotes: as the `url` crate reads it when it can,
/// otherwise read by hand.
pub open spec fn parse_spec(s: Seq<char>) -> UriParts {
    match url_parse(s) {
        Some(p) => from_url_spec(p),
        None => parse_raw_spec(s),
    }
}

fn find_char(cs: &Vec<char>, from: usize, c: char) -> (i: usize)
    requires
        from <= cs@.len(),
    ensures
        i == from + index_of(cs@.skip(from as int), c),
        i <= cs@.len(),
{
    let mut i: usize = from;
    while i < cs.len()
        invariant
            from <= i <= cs@.len(),
            forall|j: int| from <= j < i ==> cs@[j] != c,
        decreases cs@.len() - i,
    {
        if cs[i] == c {
            proof {
                lemma_index_of(cs@.skip(from as int), c, i - from);
            }
            return i;
        }
        i = i + 1;
    }
    proof {
        lemma_index_of(cs@.skip(from as int), c, i - from);
    }
    i
}

/// The string of a URI.
pub open spec fn to_string_spec(u: UriParts) -> Seq<char> {
    (if u.0.len() > 0 { u.0 + seq![':'] } else { seq![] })
        + (if u.1.len() > 0 { seq!['/', '/'] + u.1 } else { seq![] })
        + u.2
        + (if u.3.len() > 0 { seq!['?'] + u.3 } else { seq![] })
        + (if u.4.len() > 0 { seq!['#'] + u.4 } else { seq![] })
}

proof fn lemma_trim_leading_at(s: Seq<char>, c: char, i: int)
    requires
        0 <= i <= s.len(),
        forall|j: int| 0 <= j < i ==> s[j] == c,
        i == s.len() || s[i] != c,
    ensures
        trim_leading(s, c) == s.skip(i),
    decreases i,
{
    if i > 0 {
        assert forall|j: int| 0 <= j < i - 1 implies s.drop_first()[j] == c by {
            assert(s.drop_first()[j] == s[j + 1]);
        }
        if i < s.len() {
            assert(s.drop_first()[i - 1] == s[i]);
        }
        lemma_trim_leading_at(s.drop_first(), c, i - 1);
        assert(s.drop_first().skip(i - 1) =~= s.skip(i));
    } else {
        assert(s.skip(0) =~= s);
    }
}

/// The `file:` URI of a file system path.
pub open spec fn from_file_path_spec(p: Seq<char>) -> UriParts {
    ("file"@, seq![], if p.len() > 0 && p[0] == '/' { p } else { seq!['/'] + p }, seq![], seq![])
}

/// The file system path of a URI.
pub open spec fn fs_path_spec(u: UriParts) -> Seq<char> {
    if u.1.len() > 0 {
        "//"@ + u.1 + "/"@ + trim_leading(u.2, '/')
    } else {
        u.2
    }
}

/// `c` does not occur in `s`.
pub open spec fn lacks(s: Seq<char>, c: char) -> bool {
    forall|j: int| 0 <= j < s.len() ==> #[trigger] s[j] != c
}

proof fn lemma_index_of_after(a: Seq<char>, b: Seq<char>, c: char)
    requires
        lacks(a, c),
    ensures
        index_of(a + b, c) == a.len() + index_of(b, c),
{
    lemma_index_of_bound(b, c);
    let i = a.len() + index_of(b, c);
    assert forall|j: int| 0 <= j < i implies #[trigger] (a + b)[j] != c by {
        if j >= a.len() {
            assert((a + b)[j] == b[j - a.len()]);
        }
    }
    if i < (a + b).len() {
        assert((a + b)[i] == b[index_of(b, c)]);
    }
    lemma_index_of(a + b, c, i);
}

/// What `cut_at` gives on text without `c`, followed by `c` and a tail (or
/// by nothing, when the tail is empty).
proof fn lemma_cut_at_marker(a: Seq<char>, c: char, tail: Seq<char>)
    requires
        lacks(a, c),
    ensures
        cut_at(a + (if tail.len() > 0 { seq![c] + tail } else { seq![] }), c) == (a, tail),
{
    let m = if tail.len() > 0 { seq![c] + tail } else { seq![] };
    lemma_index_of_after(a, m, c);
    if tail.len() > 0 {
        lemma_index_of(m, c, 0);
        assert((a + m).take(a.len() as int) =~= a);
        assert((a + m).skip(a.len() as int + 1) =~= tail);
    } else {
        lemma_index_of(m, c, 0);
        assert(a + m =~= a);
    }
}

/// The scheme read by hand from a scheme, `:` and a rest is that scheme,
/// and the rest is what follows it.
proof fn lemma_raw_scheme_prefix(sc: Seq<char>, r0: Seq<char>)
    requires
        sc.len() > 0,
        lacks(sc, ':'),
        forall|j: int| 0 <= j < sc.len() ==> raw_scheme_char(#[trigger] sc[j]),
        ascii_lower_seq(sc) == sc,
    ensures
        raw_scheme(sc + seq![':'] + r0) == Some(sc),
        raw_scheme_or_file(sc + seq![':'] + r0) == sc,
        after_scheme(sc + seq![':'] + r0) == r0,
{
    let s = sc + seq![':'] + r0;
    assert(s =~= sc + (seq![':'] + r0));
    lemma_index_of_after(sc, seq![':'] + r0, ':');
    lemma_index_of(seq![':'] + r0, ':', 0);
    let i = sc.len() as int;
    assert(s.take(i) =~= sc);
    assert forall|j: int| 0 <= j < i implies raw_scheme_char(#[trigger] s[j]) by {
        assert(s[j] == sc[j]);
    }
    assert(s.skip(i + 1) =~= r0);
}

/// After `//`, an authority without `/` and a path that is empty or starts
/// with `/` are read back as that authority and path; without `//`, a path
/// that does not start with `//` is read back as the path.
proof fn lemma_authority_path_back(a: Seq<char>, p: Seq<char>)
    requires
        lacks(a, '/'),
        a.len() > 0 ==> p.len() == 0 || p[0] == '/',
        a.len() == 0 ==> !(p.len() >= 2 && p[0] == '/' && p[1] == '/'),
    ensures
        authority_path((if a.len() > 0 { seq!['/', '/'] + a } else { seq![] }) + p) == (a, p),
{
    let b = if a.len() > 0 { seq!['/', '/'] + a } else { seq![] };
    if a.len() > 0 {
        let rest = b + p;
        assert(rest[0] == '/' && rest[1] == '/');
        assert(rest.skip(2) =~= a + p);
        lemma_index_of_after(a, p, '/');
        lemma_index_of(p, '/', 0);
        assert((a + p).take(a.len() as int) =~= a);
        assert((a + p).skip(a.len() as int) =~= p);
    } else {
        assert(b + p =~= p);
    }
}

proof fn lemma_lacks_concat(a: Seq<char>, b: Seq<char>, c: char)
    requires
        lacks(a, c),
        lacks(b, c),
    ensures
        lacks(a + b, c),
{
    assert forall|j: int| 0 <= j < (a + b).len() implies #[trigger] (a + b)[j] != c by {
        if j >= a.len() {
            assert((a + b)[j] == b[j - a.len()]);
        }
    }
}

proof fn lemma_lacks_marked(m: char, t: Seq<char>, c: char)
    requires
        m != c,
        lacks(t, c),
    ensures
        lacks(if t.len() > 0 { seq![m] + t } else { seq![] }, c),
{
    if t.len() > 0 {
        assert forall|j: int| 0 <= j < (seq![m] + t).len() implies #[trigger] (seq![m] + t)[j] != c by {
            if j > 0 {
                assert((seq![m] + t)[j] == t[j - 1]);
            }
        }
    }
}

/// Reading back the string of a URI by hand gives the URI again, when its
/// parts can be told apart in that string: a non-empty lower-case scheme of
/// scheme characters, an authority without `/`, `?` or `#`, a path without
/// `?` or `#` that starts with `/` (or is empty) after an authority and
/// does not start with `//` without one, and a query without `#`.
#[verifier::spinoff_prover]
pub proof fn lemma_parse_raw_to_string(u: UriParts)
    requires
        u.0.len() > 0,
        lacks(u.0, ':'),
        forall|j: int| 0 <= j < u.0.len() ==> raw_scheme_char(#[trigger] u.0[j]),
        ascii_lower_seq(u.0) == u.0,
        lacks(u.1, '/') && lacks(u.1, '?') && lacks(u.1, '#'),
        lacks(u.2, '?') && lacks(u.2, '#'),
        u.1.len() > 0 ==> u.2.len() == 0 || u.2[0] == '/',
        u.1.len() == 0 ==> !(u.2.len() >= 2 && u.2[0] == '/' && u.2[1] == '/'),
        lacks(u.3, '#'),
    ensures
        parse_raw_spec(to_string_spec(u)) == u,
{
    let b = if u.1.len() > 0 { seq!['/', '/'] + u.1 } else { seq![] };
    let qm = if u.3.len() > 0 { seq!['?'] + u.3 } else { seq![] };
    let fm = if u.4.len() > 0 { seq!['#'] + u.4 } else { seq![] };
    let bp = b + u.2;
    let r1 = bp + qm;
    let r0 = r1 + fm;
    assert(to_string_spec(u) =~= u.0 + seq![':'] + r0);
    lemma_raw_scheme_prefix(u.0, r0);
    lemma_lacks_marked('/', u.1, '?');
    lemma_lacks_marked('/', u.1, '#');
    assert(lacks(b, '?') && lacks(b, '#')) by {
        if u.1.len() > 0 {
            assert(seq!['/', '/'] + u.1 =~= seq!['/'] + (seq!['/'] + u.1));
            lemma_lacks_marked('/', seq!['/'] + u.1, '?');
            lemma_lacks_marked('/', seq!['/'] + u.1, '#');
        }
    }
    lemma_lacks_concat(b, u.2, '?');
    lemma_lacks_concat(b, u.2, '#');
    lemma_lacks_marked('?', u.3, '#');
    lemma_lacks_concat(bp, qm, '#');
    lemma_cut_at_marker(r1, '#', u.4);
    lemma_cut_at_marker(bp, '?', u.3);
    lemma_authority_path_back(u.1, u.2);
}

/// The run of `c` at the start of `s`: its length, and what is left after it.
proof fn lemma_leading_run(s: Seq<char>, c: char) -> (i: int)
    ensures
        0 <= i <= s.len(),
        forall|j: int| 0 <= j < i ==> s[j] == c,
        i == s.len() || s[i] != c,
        trim_leading(s, c) == s.skip(i),
    decreases s.len(),
{
    if s.len() > 0 && s[0] == c {
        let k = lemma_leading_run(s.drop_first(), c);
        assert forall|j: int| 0 <= j < k + 1 implies s[j] == c by {
            if j > 0 {
                assert(s[j] == s.drop_first()[j - 1]);
            }
        }
        if k + 1 < s.len() {
            assert(s[k + 1] == s.drop_first()[k]);
        }
        assert(s.drop_first().skip(k) =~= s.skip(k + 1));
        k + 1
    } else {
        assert(s.skip(0) =~= s);
        0
    }
}

/// The file system path of a URI with an authority is a UNC path: `//`,
/// the authority, `/`, then the path with all its leading slashes removed
/// and nothing else changed. Without an authority it is the path itself.
pub proof fn lemma_fs_path_unc(u: UriParts)
    ensures
        u.1.len() == 0 ==> fs_path_spec(u) == u.2,
        u.1.len() > 0 ==> {
            let r = fs_path_spec(u);
            let n = u.1.len() as int;
            &&& r.len() >= n + 3
            &&& r[0] == '/' && r[1] == '/'
            &&& r.subrange(2, n + 2) == u.1
            &&& r[n + 2] == '/'
            &&& exists|i: int| 0 <= i <= u.2.len()
                && (forall|j: int| 0 <= j < i ==> u.2[j] == '/')
                && (i == u.2.len() || u.2[i] != '/')
                && #[trigger] r.skip(n + 3) == u.2.skip(i)
        },
{
    if u.1.len() > 0 {
        let i = lemma_leading_run(u.2, '/');
        let r = fs_path_spec(u);
        let n = u.1.len() as int;
        let head = "//"@ + u.1 + "/"@;
        reveal_strlit("//");
        reveal_strlit("/");
        assert(r == head + u.2.skip(i));
        assert(r[0] == head[0] && r[1] == head[1] && r[n + 2] == head[n + 2]);
        assert(r.subrange(2, n + 2) =~= u.1);
        assert(r.skip(n + 3) =~= u.2.skip(i));
    }
}

/// The file system path of the `file:` URI of an absolute path is that
/// path; a relative one comes back with a leading `/`.
pub proof fn lemma_file_path_roundtrip(p: Seq<char>)
    ensures
        p.len() > 0 && p[0] == '/' ==> fs_path_spec(from_file_path_spec(p)) == p,
        !(p.len() > 0 && p[0] == '/') ==> fs_path_spec(from_file_path_spec(p)) == seq!['/'] + p,
{
}

proof fn lemma_index_of_take(t: Seq<char>, c: char, n: int)
    requires
        0 <= n <= t.len(),
    ensures
        index_of(t.take(n), c) == if index_of(t, c) < n { index_of(t, c) } else { n },
{
    lemma_index_of_bound(t, c);
    let a = if index_of(t, c) < n { index_of(t, c) } else { n };
    assert forall|j: int| 0 <= j < a implies #[trigger] t.take(n)[j] != c by {
        assert(t.take(n)[j] == t[j]);
    }
    lemma_index_of(t.take(n), c, a);
}

impl VsUri {
    /// A URI of the given components, taken as they are.
    pub fn new(scheme: String, authority: String, path: String, query: String, fragment: String) -> (u: VsUri)
        ensures
            u@ == (scheme@, authority@, path@, query@, fragment@),
    {
        VsUri { scheme, authority, path, query, fragment }
    }

    /// The URI of parsed URL parts.
    pub fn from_url_parts(parts: UrlParts) -> (u: VsUri)
        ensures
            u@ == from_url_spec(parts@),
    {
        let authority = match parts.host {
            Some(h) => match parts.port {
                Some(port) => {
                    let mut a = concat2(h.as_str(), ":");
                    push_decimal(&mut a, port as u64);
                    a
                },
                None => h,
            },
            None => String::new(),
        };
        VsUri {
            scheme: parts.scheme,
            authority,
            path: parts.path,
            query: match parts.query { Some(q) => q, None => String::new() },
            fragment: match parts.fragment { Some(f) => f, None => String::new() },
        }
    }

    /// Reads a URI by hand.
    pub fn parse_raw(input: &str) -> (u: VsUri)
        ensures
            u@ == parse_raw_spec(input@),
    {
        let cs = chars_of(input);
        let (scheme, start) = read_scheme(&cs);
        let (hash, fragment) = split_fragment(&cs, start);
        let (end2, query) = split_query(&cs, start, hash);
        let (authority, path) = split_authority(&cs, start, end2);
        VsUri { scheme, authority, path, query, fragment }
    }

    /// Reads a URI: as the `url` crate reads it when it can, otherwise by
    /// hand. Every string reads as some URI.
    pub fn parse(input: &str) -> (r: Result<VsUri, UriError>)
        ensures
            r matches Ok(u) && u@ == parse_spec(input@),
    {
        match parse_url(input) {
            Some(parts) => Ok(VsUri::from_url_parts(parts)),
            None => Ok(VsUri::parse_raw(input)),
        }
    }

    /// The `file:` URI of a file system path; a relative path gets a
    /// leading `/`.
    pub fn from_file_path(fspath: &str) -> (u: VsUri)
        ensures
            u@ == from_file_path_spec(fspath@),
    {
        let cs = chars_of(fspath);
        let path = if cs.len() > 0 && cs[0] == '/' {
            owned(fspath)
        } else {
            let mut p = owned("/");
            push_str(&mut p, fspath);
            proof { reveal_strlit("/"); }
            p
        };
        VsUri { scheme: owned("file"), authority: String::new(), path, query: String::new(), fragment: String::new() }
    }

    /// The file system path of the URI: `//<authority>/<path>` for a UNC
    /// path (the path's leading slashes dropped), else the path.
    pub fn fs_path(&self) -> (r: String)
        ensures
            r@ == fs_path_spec(self@),
    {
        if self.authority.as_str().is_empty() {
            owned(self.path.as_str())
        } else {
            let mut r = concat2("//", self.authority.as_str());
            push_char(&mut r, '/');
            let p = chars_of(self.path.as_str());
            let mut i: usize = 0;
            while i < p.len() && p[i] == '/'
                invariant
                    p@ == self.path@,
                    i <= p@.len(),
                    forall|j: int| 0 <= j < i ==> p@[j] == '/',
                decreases p@.len() - i,
            {
                i = i + 1;
            }
            let rest = string_from_slice(&p, i, p.len());
            proof {
                lemma_trim_leading_at(p@, '/', i as int);
                assert(p@.subrange(i as int, p@.len() as int) =~= p@.skip(i as int));
                reveal_strlit("/");
            }
            push_str(&mut r, rest.as_str());
            r
        }
    }

    /// A URI with some components replaced: `None` keeps a component, a
    /// value (empty included) replaces it.
    pub fn with(
        &self,
        scheme: Option<&str>,
        authority: Option<&str>,
        path: Option<&str>,
        query: Option<&str>,
        fragment: Option<&str>,
    ) -> (u: VsUri)
        ensures
            u@ == (
                match scheme { Some(x) => x@, None => self.scheme@ },
                match authority { Some(x) => x@, None => self.authority@ },
                match path { Some(x) => x@, None => self.path@ },
                match query { Some(x) => x@, None => self.query@ },
                match fragment { Some(x) => x@, None => self.fragment@ },
            ),
    {
        VsUri {
            scheme: owned(match scheme { Some(x) => x, None => self.scheme.as_str() }),
            authority: owned(match authority { Some(x) => x, None => self.authority.as_str() }),
            path: owned(match path { Some(x) => x, None => self.path.as_str() }),
            query: owned(match query { Some(x) => x, None => self.query.as_str() }),
            fragment: owned(match fragment { Some(x) => x, None => self.fragment.as_str() }),
        }
    }

    /// The URI as a string: `scheme:`, `//authority`, the path, `?query`
    /// and `#fragment`, each part only when its component is not empty
    /// (the path always).
    pub fn to_string_encoded(&self) -> (r: String)
        ensures
            r@ == to_string_spec(self@),
    {
        let mut out = String::new();
        if !self.scheme.as_str().is_empty() {
            push_str(&mut out, self.scheme.as_str());
            push_char(&mut out, ':');
            proof { assert(out@ =~= self.scheme@ + seq![':']); }
        }
        let ghost a = out@;
        if !self.authority.as_str().is_empty() {
            push_char(&mut out, '/');
            push_char(&mut out, '/');
            push_str(&mut out, self.authority.as_str());
            proof { assert(out@ =~= a + (seq!['/', '/'] + self.authority@)); }
        }
        let ghost b = out@;
        push_str(&mut out, self.path.as_str());
        let ghost c = out@;
        if !self.query.as_str().is_empty() {
            push_char(&mut out, '?');
            push_str(&mut out, self.query.as_str());
            proof { assert(out@ =~= c + (seq!['?'] + self.query@)); }
        }
        let ghost d = out@;
        if !self.fragment.as_str().is_empty() {
            push_char(&mut out, '#');
            push_str(&mut out, self.fragment.as_str());
            proof { assert(out@ =~= d + (seq!['#'] + self.fragment@)); }
        }
        proof {
            let u = self@;
            let p1 = if u.0.len() > 0 { u.0 + seq![':'] } else { seq![] };
            let p2 = if u.1.len() > 0 { seq!['/', '/'] + u.1 } else { seq![] };
            let p4 = if u.3.len() > 0 { seq!['?'] + u.3 } else { seq![] };
            let p5 = if u.4.len() > 0 { seq!['#'] + u.4 } else { seq![] };
            assert(a =~= p1);
            assert(b =~= p1 + p2);
            assert(c =~= p1 + p2 + u.2);
            assert(out@ =~= to_string_spec(self@));
        }
        out
    }

    /// The URI as a string (what `Display` gives).
    pub fn to_string(&self) -> (r: String)
        ensures
            r@ == to_string_spec(self@),
    {
        self.to_string_encoded()
    }
}

fn read_scheme(cs: &Vec<char>) -> (r: (String, usize))
    ensures
        r.0@ == raw_scheme_or_file(cs@),
        r.1 <= cs@.len(),
        cs@.skip(r.1 as int) == after_scheme(cs@),
{
    let ghost s = cs@;
    let colon = find_char(cs, 0, ':');
    proof {
        assert(s.skip(0) =~= s);
        lemma_index_of_bound(s, ':');
    }
    let mut scheme_ok = colon < cs.len() && colon > 0;
    let mut k: usize = 0;
    while scheme_ok && k < colon
        invariant
            cs@ == s,
            colon == index_of(s, ':'),
            colon <= s.len(),
            k <= colon,
            scheme_ok ==> forall|j: int| 0 <= j < k ==> raw_scheme_char(#[trigger] s[j]),
            scheme_ok ==> colon < s.len() && colon > 0,
            !scheme_ok ==> raw_scheme(s) is None,
        decreases colon - k + (if scheme_ok { 1int } else { 0int }),
    {
        let c = cs[k];
        if !(is_alphanumeric(c) || c == '+' || c == '-' || c == '.') {
            proof { assert(!raw_scheme_char(s[k as int])); }
            scheme_ok = false;
        } else {
            k = k + 1;
        }
    }
    if scheme_ok {
        let raw = string_from_slice(cs, 0, colon);
        let lower = crate::workbench::ascii_lowercase(raw.as_str());
        proof {
            assert(s.subrange(0, colon as int) =~= s.take(colon as int));
            assert(raw_scheme(s) == Some(ascii_lower_seq(s.take(colon as int))));
        }
        (crate::text::string_from_chars(&lower), colon + 1)
    } else {
        proof { assert(s.skip(0) =~= s); }
        (owned("file"), 0)
    }
}

fn split_fragment(cs: &Vec<char>, start: usize) -> (r: (usize, String))
    requires
        start <= cs@.len(),
    ensures
        start <= r.0 <= cs@.len(),
        cs@.subrange(start as int, r.0 as int) == cut_at(cs@.skip(start as int), '#').0,
        r.1@ == cut_at(cs@.skip(start as int), '#').1,
{
    let ghost rest0 = cs@.skip(start as int);
    let hash = find_char(cs, start, '#');
    proof { lemma_index_of_bound(rest0, '#'); }
    let fragment = if hash < cs.len() { string_from_slice(cs, hash + 1, cs.len()) } else { String::new() };
    proof {
        if hash < cs.len() {
            assert(cs@.subrange(hash + 1, cs@.len() as int) =~= rest0.skip(index_of(rest0, '#') + 1));
            assert(cs@.subrange(start as int, hash as int) =~= rest0.take(index_of(rest0, '#')));
        } else {
            assert(cs@.subrange(start as int, hash as int) =~= rest0);
        }
    }
    (hash, fragment)
}

fn split_query(cs: &Vec<char>, start: usize, hash: usize) -> (r: (usize, String))
    requires
        start <= hash <= cs@.len(),
    ensures
        start <= r.0 <= hash,
        cs@.subrange(start as int, r.0 as int) == cut_at(cs@.subrange(start as int, hash as int), '?').0,
        r.1@ == cut_at(cs@.subrange(start as int, hash as int), '?').1,
{
    let ghost rest0 = cs@.skip(start as int);
    let ghost rest1 = cs@.subrange(start as int, hash as int);
    let qmark = find_char(cs, start, '?');
    proof {
        assert(rest1 =~= rest0.take(hash - start));
        lemma_index_of_take(rest0, '?', hash - start);
        lemma_index_of_bound(rest1, '?');
    }
    let end2 = if qmark < hash { qmark } else { hash };
    let query = if qmark < hash { string_from_slice(cs, qmark + 1, hash) } else { String::new() };
    proof {
        if qmark < hash {
            assert(cs@.subrange(qmark + 1, hash as int) =~= rest1.skip(index_of(rest1, '?') + 1));
            assert(cs@.subrange(start as int, end2 as int) =~= rest1.take(index_of(rest1, '?')));
        } else {
            assert(cs@.subrange(start as int, end2 as int) =~= rest1);
        }
    }
    (end2, query)
}

fn split_authority(cs: &Vec<char>, start: usize, end2: usize) -> (r: (String, String))
    requires
        start <= end2 <= cs@.len(),
    ensures
        (r.0@, r.1@) == authority_path(cs@.subrange(start as int, end2 as int)),
{
    let ghost rest2 = cs@.subrange(start as int, end2 as int);
    if end2 - start >= 2 && cs[start] == '/' && cs[start + 1] == '/' {
        let slash = find_char(cs, start + 2, '/');
        let ghost after = rest2.skip(2);
        proof {
            assert(after =~= cs@.skip(start + 2).take(end2 - start - 2));
            lemma_index_of_take(cs@.skip(start + 2), '/', end2 - start - 2);
            lemma_index_of_bound(after, '/');
        }
        if slash < end2 {
            let a = string_from_slice(cs, start + 2, slash);
            let p = string_from_slice(cs, slash, end2);
            proof {
                assert(a@ =~= after.take(index_of(after, '/')));
                assert(p@ =~= after.skip(index_of(after, '/')));
            }
            (a, p)
        } else {
            let a = string_from_slice(cs, start + 2, end2);
            proof { assert(a@ =~= after); }
            (a, String::new())
        }
    } else {
        let p = string_from_slice(cs, start, end2);
        proof { assert(p@ =~= rest2); }
        (String::new(), p)
    }
}

} // verus!
