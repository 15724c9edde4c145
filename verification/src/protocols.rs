//! Validation of requests to the `vscode-file` and `vscode-webview` custom
//! protocols, and the content security policy of their answers.
use vstd::prelude::*;
use crate::text::{chars_of, concat3, contains_chars, contains_seq, owned, push_str, split_at_char, split_char, str_eq, views};
use crate::workbench::{ascii_lower_seq, ascii_lowercase};

verus! {

pub const VSCODE_FILE_SCHEME: &'static str = "vscode-file";
pub const VSCODE_WEBVIEW_SCHEME: &'static str = "vscode-webview";
pub const PLACEHOLDER_BODY: &'static str = "VS Code Atomic custom protocol placeholder";

/// Why a custom protocol request is refused.
#[derive(Debug, Clone, Copy, PartialEq, Eq, Structural)]
pub enum ProtocolValidationError {
    InvalidScheme,
    InvalidAuthority,
    InvalidPath,
    InvalidNonce,
}

/// The parts of a request URI that the protocols look at.
#[derive(Debug, Clone, PartialEq, Eq)]
pub struct RequestUri {
    pub scheme: Option<String>,
    pub host: Option<String>,
    pub path: String,
    pub query: Option<String>,
}

/// Equal up to the case of ASCII letters.
pub open spec fn eq_ignore_ascii_case(a: Seq<char>, b: Seq<char>) -> bool {
    ascii_lower_seq(a) == ascii_lower_seq(b)
}

fn eq_ignore_case(a: &str, b: &str) -> (r: bool)
    ensures
        r == eq_ignore_ascii_case(a@, b@),
{
    let la = ascii_lowercase(a);
    let lb = ascii_lowercase(b);
    let sa = crate::text::string_from_chars(&la);
    let sb = crate::text::string_from_chars(&lb);
    str_eq(sa.as_str(), sb.as_str())
}

pub open spec fn opt_view(o: Option<String>) -> Option<Seq<char>> {
    match o {
        Some(s) => Some(s@),
        None => None,
    }
}

/// The scheme is the expected one, in any case.
pub open spec fn scheme_ok(scheme: Option<Seq<char>>, expected: Seq<char>) -> bool {
    match scheme {
        Some(s) => eq_ignore_ascii_case(s, expected),
        None => false,
    }
}

fn validate_scheme(uri: &RequestUri, expected: &str) -> (r: Result<(), ProtocolValidationError>)
    ensures
        scheme_ok(opt_view(uri.scheme), expected@) ==> r is Ok,
        !scheme_ok(opt_view(uri.scheme), expected@) ==> r == Err::<(), ProtocolValidationError>(ProtocolValidationError::InvalidScheme),
{
    match &uri.scheme {
        Some(s) => if eq_ignore_case(s.as_str(), expected) { Ok(()) } else { Err(ProtocolValidationError::InvalidScheme) },
        None => Err(ProtocolValidationError::InvalidScheme),
    }
}

/// A `vscode-file` request may name no host, an empty one, or the
/// `vscode-file` host.
pub open spec fn file_authority_ok(host: Option<Seq<char>>) -> bool {
    match host {
        None => true,
        Some(h) => h.len() == 0 || h == "vscode-file"@,
    }
}

pub open spec fn is_dns_label_char(c: char) -> bool {
    ('a' <= c <= 'z') || ('A' <= c <= 'Z') || ('0' <= c <= '9') || c == '-'
}

fn is_dns_label_ch(c: char) -> (r: bool)
    ensures
        r == is_dns_label_char(c),
{
    ('a' <= c && c <= 'z') || ('A' <= c && c <= 'Z') || ('0' <= c && c <= '9') || c == '-'
}

/// A host label: not empty, letters, digits and `-` only.
pub open spec fn dns_label_ok(label: Seq<char>) -> bool {
    label.len() > 0 && forall|i: int| 0 <= i < label.len() ==> is_dns_label_char(#[trigger] label[i])
}

/// A `vscode-webview` request needs an isolated origin: a host that is not
/// local, made of DNS labels.
pub open spec fn webview_authority_ok(host: Option<Seq<char>>) -> bool {
    match host {
        None => false,
        Some(h) => !(h.len() == 0 || eq_ignore_ascii_case(h, "localhost"@) || eq_ignore_ascii_case(h, "127.0.0.1"@)
            || eq_ignore_ascii_case(h, "[::1]"@))
            && forall|i: int| 0 <= i < split_char(h, '.').len() ==> dns_label_ok(#[trigger] split_char(h, '.')[i]),
    }
}

fn label_ok(label: &str) -> (r: bool)
    ensures
        r == dns_label_ok(label@),
{
    let cs = chars_of(label);
    if cs.len() == 0 {
        return false;
    }
    let mut i: usize = 0;
    while i < cs.len()
        invariant
            cs@ == label@,
            i <= cs@.len(),
            forall|j: int| 0 <= j < i ==> is_dns_label_char(#[trigger] label@[j]),
        decreases cs@.len() - i,
    {
        if !is_dns_label_ch(cs[i]) {
            return false;
        }
        i = i + 1;
    }
    true
}

fn validate_webview_authority(uri: &RequestUri) -> (r: Result<(), ProtocolValidationError>)
    ensures
        webview_authority_ok(opt_view(uri.host)) ==> r is Ok,
        !webview_authority_ok(opt_view(uri.host)) ==> r == Err::<(), ProtocolValidationError>(ProtocolValidationError::InvalidAuthority),
{
    let host = match &uri.host {
        Some(h) => h,
        None => return Err(ProtocolValidationError::InvalidAuthority),
    };
    if host.as_str().is_empty() || eq_ignore_case(host.as_str(), "localhost") || eq_ignore_case(host.as_str(), "127.0.0.1")
        || eq_ignore_case(host.as_str(), "[::1]") {
        return Err(ProtocolValidationError::InvalidAuthority);
    }
    let labels = split_at_char(host.as_str(), '.');
    let ghost lv = views(labels@);
    let mut i: usize = 0;
    while i < labels.len()
        invariant
            lv == views(labels@),
            lv == split_char(host@, '.'),
            opt_view(uri.host) == Some(host@),
            i <= lv.len(),
            forall|j: int| 0 <= j < i ==> dns_label_ok(#[trigger] lv[j]),
        decreases lv.len() - i,
    {
        if !label_ok(labels[i].as_str()) {
            proof { assert(!dns_label_ok(split_char(host@, '.')[i as int])); }
            return Err(ProtocolValidationError::InvalidAuthority);
        }
        i = i + 1;
    }
    Ok(())
}

/// A path that cannot leave its root: absolute, without backslashes, NUL
/// characters, encoded dots, slashes or backslashes, and without `.` or
/// `..` segments.
pub open spec fn strict_path_ok(p: Seq<char>) -> bool {
    &&& p.len() > 0 && p[0] == '/'
    &&& !p.contains('\\') && !p.contains('\0')
    &&& !contains_seq(ascii_lower_seq(p), "%2e"@) && !contains_seq(ascii_lower_seq(p), "%2f"@)
        && !contains_seq(ascii_lower_seq(p), "%5c"@)
    &&& forall|i: int| 0 <= i < split_char(p, '/').len() ==> #[trigger] split_char(p, '/')[i] != ".."@
        && split_char(p, '/')[i] != "."@
}

fn has_char(cs: &Vec<char>, c: char) -> (r: bool)
    ensures
        r == cs@.contains(c),
{
    let mut i: usize = 0;
    while i < cs.len()
        invariant
            i <= cs@.len(),
            forall|j: int| 0 <= j < i ==> cs@[j] != c,
        decreases cs@.len() - i,
    {
        if cs[i] == c {
            return true;
        }
        i = i + 1;
    }
    false
}

pub fn validate_strict_path(path: &str) -> (r: Result<(), ProtocolValidationError>)
    ensures
        strict_path_ok(path@) ==> r is Ok,
        !strict_path_ok(path@) ==> r == Err::<(), ProtocolValidationError>(ProtocolValidationError::InvalidPath),
{
    let cs = chars_of(path);
    if cs.len() == 0 || cs[0] != '/' || has_char(&cs, '\\') || has_char(&cs, '\0') {
        return Err(ProtocolValidationError::InvalidPath);
    }
    let lower = ascii_lowercase(path);
    let e = chars_of("%2e");
    let f = chars_of("%2f");
    let b = chars_of("%5c");
    if contains_chars(&lower, &e) || contains_chars(&lower, &f) || contains_chars(&lower, &b) {
        return Err(ProtocolValidationError::InvalidPath);
    }
    let segs = split_at_char(path, '/');
    let ghost sv = views(segs@);
    let mut i: usize = 0;
    while i < segs.len()
        invariant
            sv == views(segs@),
            sv == split_char(path@, '/'),
            i <= sv.len(),
            forall|j: int| 0 <= j < i ==> #[trigger] sv[j] != ".."@ && sv[j] != "."@,
        decreases sv.len() - i,
    {
        if str_eq(segs[i].as_str(), "..") || str_eq(segs[i].as_str(), ".") {
            proof { assert(split_char(path@, '/')[i as int] == ".."@ || split_char(path@, '/')[i as int] == "."@); }
            return Err(ProtocolValidationError::InvalidPath);
        }
        i = i + 1;
    }
    Ok(())
}

pub open spec fn is_nonce_char(c: char) -> bool {
    ('a' <= c <= 'z') || ('A' <= c <= 'Z') || ('0' <= c <= '9') || c == '_' || c == '-'
}

/// A nonce: at least 16 characters, letters, digits, `_` and `-` only.
pub open spec fn nonce_ok(n: Seq<char>) -> bool {
    n.len() >= 16 && forall|i: int| 0 <= i < n.len() ==> is_nonce_char(#[trigger] n[i])
}

/// The name of a query pair: what comes before its first `=`.
pub open spec fn pair_name(p: Seq<char>) -> Seq<char> {
    p.take(crate::text::index_of(p, '='))
}

/// The value of a query pair: what comes after its first `=`, empty when
/// there is none.
pub open spec fn pair_value(p: Seq<char>) -> Seq<char> {
    let i = crate::text::index_of(p, '=');
    if i < p.len() { p.skip(i + 1) } else { seq![] }
}

/// The nonce of a query: the value of its first `nonce` pair, if that is a
/// valid nonce.
pub open spec fn nonce_of_pairs(pairs: Seq<Seq<char>>) -> Option<Seq<char>>
    decreases pairs.len(),
{
    if pairs.len() == 0 {
        None
    } else if pair_name(pairs[0]) == "nonce"@ {
        if nonce_ok(pair_value(pairs[0])) { Some(pair_value(pairs[0])) } else { None }
    } else {
        nonce_of_pairs(pairs.drop_first())
    }
}

pub open spec fn nonce_of_query(query: Option<Seq<char>>) -> Option<Seq<char>> {
    match query {
        Some(q) => nonce_of_pairs(split_char(q, '&')),
        None => None,
    }
}

/// A nonce that a webview request is accepted with is a valid nonce: at
/// least 16 characters from the nonce alphabet.
pub proof fn lemma_accepted_nonce_valid(pairs: Seq<Seq<char>>)
    ensures
        nonce_of_pairs(pairs) matches Some(n) ==> nonce_ok(n),
    decreases pairs.len(),
{
    if pairs.len() > 0 && pair_name(pairs[0]) != "nonce"@ {
        lemma_accepted_nonce_valid(pairs.drop_first());
    }
}

fn first_eq(cs: &Vec<char>) -> (i: usize)
    ensures
        i == crate::text::index_of(cs@, '='),
        i <= cs@.len(),
{
    let mut i: usize = 0;
    while i < cs.len()
        invariant
            i <= cs@.len(),
            forall|j: int| 0 <= j < i ==> #[trigger] cs@[j] != '=',
        decreases cs@.len() - i,
    {
        if cs[i] == '=' {
            proof { crate::text::lemma_index_of(cs@, '=', i as int); }
            return i;
        }
        i = i + 1;
    }
    proof { crate::text::lemma_index_of(cs@, '=', i as int); }
    i
}

fn nonce_chars_ok(cs: &Vec<char>, start: usize) -> (r: bool)
    requires
        start <= cs@.len(),
    ensures
        r == nonce_ok(cs@.skip(start as int)),
{
    if cs.len() - start < 16 {
        return false;
    }
    let mut i: usize = start;
    while i < cs.len()
        invariant
            start <= i <= cs@.len(),
            forall|j: int| start <= j < i ==> is_nonce_char(#[trigger] cs@[j]),
        decreases cs@.len() - i,
    {
        let c = cs[i];
        if !(('a' <= c && c <= 'z') || ('A' <= c && c <= 'Z') || ('0' <= c && c <= '9') || c == '_' || c == '-') {
            proof { assert(cs@.skip(start as int)[i - start] == c); }
            return false;
        }
        i = i + 1;
    }
    proof {
        assert forall|j: int| 0 <= j < cs@.skip(start as int).len() implies is_nonce_char(#[trigger] cs@.skip(start as int)[j]) by {
            assert(cs@.skip(start as int)[j] == cs@[start + j]);
        }
    }
    true
}

/// The nonce of a webview request's query: the value of its first `nonce`
/// pair, which must be a valid nonce.
pub fn validate_nonce(query: Option<&str>) -> (r: Result<String, ProtocolValidationError>)
    ensures
        match nonce_of_query(match query { Some(q) => Some(q@), None => None }) {
            Some(n) => r matches Ok(got) && got@ == n,
            None => r == Err::<String, ProtocolValidationError>(ProtocolValidationError::InvalidNonce),
        },
{
    let q = match query {
        Some(q) => q,
        None => return Err(ProtocolValidationError::InvalidNonce),
    };
    let pairs = split_at_char(q, '&');
    let ghost pv = views(pairs@);
    let mut i: usize = 0;
    proof { assert(pv.skip(0) =~= pv); }
    while i < pairs.len()
        invariant
            pv == views(pairs@),
            pv == split_char(q@, '&'),
            query == Some(q),
            i <= pv.len(),
            nonce_of_pairs(pv) == nonce_of_pairs(pv.skip(i as int)),
        decreases pv.len() - i,
    {
        let cs = chars_of(pairs[i].as_str());
        let eq = first_eq(&cs);
        let name = crate::text::string_from_slice(&cs, 0, eq);
        let ghost p = pv[i as int];
        proof {
            assert(p == pairs@[i as int]@);
            assert(cs@ == p);
            assert(pv.skip(i as int)[0] == p);
            assert(pv.skip(i as int).drop_first() =~= pv.skip(i + 1));
            assert(name@ =~= pair_name(p));
        }
        if str_eq(name.as_str(), "nonce") {
            let start = if eq < cs.len() { eq + 1 } else { cs.len() };
            proof {
                if eq < cs@.len() {
                    assert(cs@.skip(start as int) =~= pair_value(p));
                } else {
                    assert(cs@.skip(start as int) =~= pair_value(p));
                }
            }
            proof {
                assert(name@ == "nonce"@);
                assert(pair_name(pv.skip(i as int)[0]) == "nonce"@);
            }
            if nonce_chars_ok(&cs, start) {
                let out = crate::text::string_from_slice(&cs, start, cs.len());
                proof {
                    assert(cs@.subrange(start as int, cs@.len() as int) =~= cs@.skip(start as int));
                    assert(nonce_of_pairs(pv.skip(i as int)) == Some(pair_value(p)));
                }
                return Ok(out);
            }
            proof { assert(nonce_of_pairs(pv.skip(i as int)) is None); }
            return Err(ProtocolValidationError::InvalidNonce);
        }
        i = i + 1;
    }
    Err(ProtocolValidationError::InvalidNonce)
}

/// Checks a `vscode-file` request: its scheme, its authority, its path.
pub fn validate_vscode_file_uri(uri: &RequestUri) -> (r: Result<(), ProtocolValidationError>)
    ensures
        !scheme_ok(opt_view(uri.scheme), VSCODE_FILE_SCHEME@) ==> r == Err::<(), ProtocolValidationError>(ProtocolValidationError::InvalidScheme),
        scheme_ok(opt_view(uri.scheme), VSCODE_FILE_SCHEME@) && !file_authority_ok(opt_view(uri.host))
            ==> r == Err::<(), ProtocolValidationError>(ProtocolValidationError::InvalidAuthority),
        scheme_ok(opt_view(uri.scheme), VSCODE_FILE_SCHEME@) && file_authority_ok(opt_view(uri.host))
            && !strict_path_ok(uri.path@) ==> r == Err::<(), ProtocolValidationError>(ProtocolValidationError::InvalidPath),
        scheme_ok(opt_view(uri.scheme), VSCODE_FILE_SCHEME@) && file_authority_ok(opt_view(uri.host))
            && strict_path_ok(uri.path@) ==> r is Ok,
{
    match validate_scheme(uri, VSCODE_FILE_SCHEME) {
        Err(e) => return Err(e),
        Ok(()) => {},
    }
    let authority_ok = match &uri.host {
        None => true,
        Some(h) => h.as_str().is_empty() || str_eq(h.as_str(), "vscode-file"),
    };
    if !authority_ok {
        return Err(ProtocolValidationError::InvalidAuthority);
    }
    validate_strict_path(uri.path.as_str())
}

/// Checks a `vscode-webview` request and gives its nonce: its scheme, its
/// authority (an isolated origin), its path and its nonce.
pub fn validate_vscode_webview_uri(uri: &RequestUri) -> (r: Result<String, ProtocolValidationError>)
    ensures
        !scheme_ok(opt_view(uri.scheme), VSCODE_WEBVIEW_SCHEME@) ==> r == Err::<String, ProtocolValidationError>(ProtocolValidationError::InvalidScheme),
        scheme_ok(opt_view(uri.scheme), VSCODE_WEBVIEW_SCHEME@) && !webview_authority_ok(opt_view(uri.host))
            ==> r == Err::<String, ProtocolValidationError>(ProtocolValidationError::InvalidAuthority),
        scheme_ok(opt_view(uri.scheme), VSCODE_WEBVIEW_SCHEME@) && webview_authority_ok(opt_view(uri.host))
            && !strict_path_ok(uri.path@) ==> r == Err::<String, ProtocolValidationError>(ProtocolValidationError::InvalidPath),
        scheme_ok(opt_view(uri.scheme), VSCODE_WEBVIEW_SCHEME@) && webview_authority_ok(opt_view(uri.host))
            && strict_path_ok(uri.path@) ==> match nonce_of_query(opt_view(uri.query)) {
                Some(n) => r matches Ok(got) && got@ == n,
                None => r == Err::<String, ProtocolValidationError>(ProtocolValidationError::InvalidNonce),
            },
{
    match validate_scheme(uri, VSCODE_WEBVIEW_SCHEME) {
        Err(e) => return Err(e),
        Ok(()) => {},
    }
    match validate_webview_authority(uri) {
        Err(e) => return Err(e),
        Ok(()) => {},
    }
    match validate_strict_path(uri.path.as_str()) {
        Err(e) => return Err(e),
        Ok(()) => {},
    }
    match &uri.query {
        Some(q) => validate_nonce(Some(q.as_str())),
        None => validate_nonce(None),
    }
}

/// The content security policy of a protocol answer: with a nonce, scripts
/// and styles of that nonce are allowed; without, nothing is.
pub fn content_security_policy(nonce: Option<&str>) -> (r: String)
    ensures
        match nonce {
            Some(n) => r@ == "default-src 'none'; script-src 'nonce-"@ + n@ + "'; style-src 'nonce-"@ + n@
                + "'; img-src 'none'; connect-src 'none'; frame-ancestors 'none'; base-uri 'none'"@,
            None => r@ == "default-src 'none'; frame-ancestors 'none'; base-uri 'none'"@,
        },
{
    match nonce {
        Some(n) => {
            let mut r = concat3("default-src 'none'; script-src 'nonce-", n, "'; style-src 'nonce-");
            push_str(&mut r, n);
            push_str(&mut r, "'; img-src 'none'; connect-src 'none'; frame-ancestors 'none'; base-uri 'none'");
            r
        },
        None => owned("default-src 'none'; frame-ancestors 'none'; base-uri 'none'"),
    }
}

/// The status a protocol answers with: not found for an accepted request
/// (nothing is served yet), forbidden for a refused one.
pub fn placeholder_status(accepted: bool) -> (status: u16)
    ensures
        status == if accepted { 404u16 } else { 403u16 },
{
    if accepted { 404 } else { 403 }
}

} // verus!
