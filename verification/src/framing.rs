//! How messages are framed on a byte stream: a JSON message on a line of
//! its own, or a body behind a `Content-Length` header as the language
//! server protocol frames it.
use vstd::prelude::*;
use crate::numfmt::{decimal, to_decimal};
use crate::observability::{is_white, is_white_char};
use crate::text::{bytes_of, chars_of, concat3, string_from_utf8};

verus! {

/// Frames JSON messages one per line.
#[derive(Debug, Clone, Copy)]
pub struct JsonRpcSerializer;

impl JsonRpcSerializer {
    pub fn new() -> (s: JsonRpcSerializer) {
        JsonRpcSerializer
    }

    /// A message already encoded as JSON, ended by a newline.
    pub fn frame(&self, encoded: Vec<u8>) -> (r: Vec<u8>)
        ensures
            r@ == encoded@.push(10u8),
    {
        let mut v = encoded;
        v.push(10u8);
        v
    }
}

/// The header in front of a body of `n` bytes.
pub open spec fn content_length_header(n: nat) -> Seq<char> {
    "Content-Length: "@ + decimal(n) + "\r\n\r\n"@
}

/// A body behind its `Content-Length` header.
pub fn content_length_frame(body: &[u8]) -> (r: Vec<u8>)
    ensures
        r@ == vstd::utf8::encode_utf8(content_length_header(body@.len())) + body@,
{
    let n = to_decimal(body.len() as u64);
    let header = concat3("Content-Length: ", n.as_str(), "\r\n\r\n");
    let mut out = bytes_of(header.as_str());
    let ghost head = out@;
    let mut i: usize = 0;
    while i < body.len()
        invariant
            i <= body@.len(),
            out@ == head + body@.take(i as int),
        decreases body@.len() - i,
    {
        out.push(body[i]);
        proof { assert(body@.take(i as int + 1) =~= body@.take(i as int).push(body@[i as int])); }
        i = i + 1;
    }
    proof { assert(body@.take(body@.len() as int) =~= body@); }
    out
}

/// Why a framed message could not be read.
#[derive(Debug, Clone, Copy, PartialEq, Eq, Structural)]
pub enum FrameError {
    /// The input ended before the blank line that closes the headers.
    EofInHeaders,
    /// A header line is not UTF-8.
    InvalidUtf8,
    /// No header gave the length of the body.
    MissingContentLength,
    /// The input ended before the whole body.
    EofInBody,
}

/// Where the line that starts at `start` ends: just past its line feed, or
/// at the end of the input.
pub open spec fn line_end(s: Seq<u8>, start: int) -> int
    decreases s.len() - start,
{
    if start < 0 || start >= s.len() {
        s.len() as int
    } else if s[start] == 10u8 {
        start + 1
    } else {
        line_end(s, start + 1)
    }
}

pub proof fn lemma_line_end(s: Seq<u8>, start: int)
    requires
        0 <= start < s.len(),
    ensures
        start < line_end(s, start) <= s.len(),
    decreases s.len() - start,
{
    if s[start] != 10u8 {
        if start + 1 < s.len() {
            lemma_line_end(s, start + 1);
        } else {
            assert(line_end(s, start + 1) == s.len());
        }
    }
}

/// How many line-break characters (CR or LF) end `t`.
pub open spec fn trail_line_break(t: Seq<char>) -> int
    decreases t.len(),
{
    if t.len() > 0 && (t.last() == '\r' || t.last() == '\n') {
        1 + trail_line_break(t.drop_last())
    } else {
        0
    }
}

/// How many whitespace characters start `t`.
pub open spec fn lead_white(t: Seq<char>) -> int
    decreases t.len(),
{
    if t.len() > 0 && is_white(t[0]) {
        1 + lead_white(t.drop_first())
    } else {
        0
    }
}

/// How many whitespace characters end `t`.
pub open spec fn trail_white(t: Seq<char>) -> int
    decreases t.len(),
{
    if t.len() > 0 && is_white(t.last()) {
        1 + trail_white(t.drop_last())
    } else {
        0
    }
}

/// A line without the line break that ends it.
pub open spec fn trim_line_break(t: Seq<char>) -> Seq<char> {
    t.take(t.len() - trail_line_break(t))
}

/// Text without the whitespace around it.
pub open spec fn trim_white(t: Seq<char>) -> Seq<char> {
    let u = t.skip(lead_white(t));
    u.take(u.len() - trail_white(u))
}

pub open spec fn is_digit(c: char) -> bool {
    '0' <= c <= '9'
}

/// The number that decimal digits spell.
pub open spec fn digits_value(s: Seq<char>) -> nat
    decreases s.len(),
{
    if s.len() == 0 {
        0
    } else {
        digits_value(s.drop_last()) * 10 + ((s.last() as int - '0' as int) as nat)
    }
}

/// A number's text without its leading `+`, if it has one.
pub open spec fn unsigned_part(s: Seq<char>) -> Seq<char> {
    if s.len() > 0 && s[0] == '+' { s.drop_first() } else { s }
}

pub open spec fn all_digits(d: Seq<char>) -> bool {
    forall|i: int| 0 <= i < d.len() ==> is_digit(#[trigger] d[i])
}

/// The `usize` a text spells the way `str::parse` reads it: an optional
/// `+` and at least one decimal digit, within range.
pub open spec fn parse_usize_spec(s: Seq<char>) -> Option<nat> {
    let d = unsigned_part(s);
    if d.len() > 0 && all_digits(d) && digits_value(d) <= usize::MAX {
        Some(digits_value(d))
    } else {
        None
    }
}

/// The content length after a header line: a `Content-Length: ` line sets
/// it to the number after the prefix, or to none where that is not one;
/// any other header leaves it as it was.
pub open spec fn header_value(line: Seq<char>, current: Option<nat>) -> Option<nat> {
    if line.len() >= 16 && line.take(16) == "Content-Length: "@ {
        parse_usize_spec(trim_white(line.skip(16)))
    } else {
        current
    }
}

/// Reads the header lines from `pos` on: the content length they give and
/// where the body starts, just past the first empty line.
pub open spec fn scan_headers(s: Seq<u8>, pos: int, length: Option<nat>) -> Result<(Option<nat>, int), FrameError>
    decreases s.len() - pos,
{
    if pos < 0 || pos >= s.len() {
        Err(FrameError::EofInHeaders)
    } else {
        let end = line_end(s, pos);
        let raw = s.subrange(pos, end);
        if !vstd::utf8::valid_utf8(raw) {
            Err(FrameError::InvalidUtf8)
        } else {
            let line = trim_line_break(vstd::utf8::decode_utf8(raw));
            if line.len() == 0 {
                Ok((length, end))
            } else {
                proof { lemma_line_end(s, pos); }
                scan_headers(s, end, header_value(line, length))
            }
        }
    }
}

/// The first message framed with `Content-Length` at the front of `s`: its
/// body and how many bytes the whole frame took.
pub open spec fn read_content_length_spec(s: Seq<u8>) -> Result<(Seq<u8>, int), FrameError> {
    match scan_headers(s, 0, None) {
        Err(e) => Err(e),
        Ok((length, start)) => match length {
            None => Err(FrameError::MissingContentLength),
            Some(n) => if start + n <= s.len() {
                Ok((s.subrange(start, start + n), start + n))
            } else {
                Err(FrameError::EofInBody)
            },
        },
    }
}

proof fn lemma_trail_line_break(t: Seq<char>, k: int)
    requires
        0 <= k <= t.len(),
        forall|j: int| t.len() - k <= j < t.len() ==> (#[trigger] t[j] == '\r' || t[j] == '\n'),
        k == t.len() || !(t[t.len() - k - 1] == '\r' || t[t.len() - k - 1] == '\n'),
    ensures
        trail_line_break(t) == k,
    decreases k,
{
    if k > 0 {
        let d = t.drop_last();
        assert forall|j: int| d.len() - (k - 1) <= j < d.len() implies (#[trigger] d[j] == '\r' || d[j] == '\n') by {
            assert(d[j] == t[j]);
        }
        if k - 1 < d.len() {
            assert(d[d.len() - (k - 1) - 1] == t[t.len() - k - 1]);
        }
        lemma_trail_line_break(d, k - 1);
    }
}

proof fn lemma_lead_white(t: Seq<char>, k: int)
    requires
        0 <= k <= t.len(),
        forall|j: int| 0 <= j < k ==> is_white(#[trigger] t[j]),
        k == t.len() || !is_white(t[k]),
    ensures
        lead_white(t) == k,
    decreases k,
{
    if k > 0 {
        let d = t.drop_first();
        assert forall|j: int| 0 <= j < k - 1 implies is_white(#[trigger] d[j]) by {
            assert(d[j] == t[j + 1]);
        }
        lemma_lead_white(d, k - 1);
    }
}

proof fn lemma_trail_white(t: Seq<char>, k: int)
    requires
        0 <= k <= t.len(),
        forall|j: int| t.len() - k <= j < t.len() ==> is_white(#[trigger] t[j]),
        k == t.len() || !is_white(t[t.len() - k - 1]),
    ensures
        trail_white(t) == k,
    decreases k,
{
    if k > 0 {
        let d = t.drop_last();
        assert forall|j: int| d.len() - (k - 1) <= j < d.len() implies is_white(#[trigger] d[j]) by {
            assert(d[j] == t[j]);
        }
        if k - 1 < d.len() {
            assert(d[d.len() - (k - 1) - 1] == t[t.len() - k - 1]);
        }
        lemma_trail_white(d, k - 1);
    }
}

proof fn lemma_digits_monotone(d: Seq<char>, k: int)
    requires
        0 <= k <= d.len(),
    ensures
        digits_value(d.take(k)) <= digits_value(d),
    decreases d.len(),
{
    if k < d.len() {
        assert(d.drop_last().take(k) =~= d.take(k));
        lemma_digits_monotone(d.drop_last(), k);
    } else {
        assert(d.take(k) =~= d);
    }
}

/// Where the line that starts at `start` ends.
fn find_line_end(s: &[u8], start: usize) -> (e: usize)
    requires
        start < s@.len(),
    ensures
        e as int == line_end(s@, start as int),
        start < e <= s@.len(),
{
    let mut i: usize = start;
    while i < s.len() && s[i] != 10u8
        invariant
            start <= i <= s@.len(),
            line_end(s@, start as int) == line_end(s@, i as int),
        decreases s@.len() - i,
    {
        i = i + 1;
    }
    if i < s.len() {
        i + 1
    } else {
        i
    }
}

/// The bytes of `s` from `a` up to `b`.
fn byte_range(s: &[u8], a: usize, b: usize) -> (r: Vec<u8>)
    requires
        a <= b <= s@.len(),
    ensures
        r@ == s@.subrange(a as int, b as int),
{
    let mut out: Vec<u8> = Vec::new();
    let mut i: usize = a;
    while i < b
        invariant
            a <= i <= b,
            b <= s@.len(),
            out@ == s@.subrange(a as int, i as int),
        decreases b - i,
    {
        out.push(s[i]);
        proof { assert(s@.subrange(a as int, i + 1) =~= s@.subrange(a as int, i as int).push(s@[i as int])); }
        i = i + 1;
    }
    out
}

/// The number spelled by `c[a..b]`, read as `str::parse` reads a `usize`.
fn parse_usize_range(c: &Vec<char>, a: usize, b: usize) -> (r: Option<usize>)
    requires
        a <= b <= c@.len(),
    ensures
        match parse_usize_spec(c@.subrange(a as int, b as int)) {
            Some(n) => r == Some(n as usize),
            None => r is None,
        },
{
    let ghost s = c@.subrange(a as int, b as int);
    let mut i: usize = a;
    if i < b && c[i] == '+' {
        i = i + 1;
    }
    let ghost d = c@.subrange(i as int, b as int);
    proof {
        if s.len() > 0 && s[0] == '+' {
            assert(d =~= s.drop_first());
        } else {
            assert(d =~= s);
        }
    }
    if i == b {
        return None;
    }
    let start = i;
    let mut value: usize = 0;
    while i < b
        invariant
            a <= start <= i <= b,
            b <= c@.len(),
            d == c@.subrange(start as int, b as int),
            s == c@.subrange(a as int, b as int),
            d == unsigned_part(s),
            d.len() > 0,
            forall|j: int| 0 <= j < i - start ==> is_digit(#[trigger] d[j]),
            value as nat == digits_value(d.take(i - start)),
        decreases b - i,
    {
        let ch = c[i];
        if !('0' <= ch && ch <= '9') {
            proof {
                assert(!is_digit(d[i - start]));
                assert(!all_digits(d));
                assert(parse_usize_spec(s) is None);
            }
            return None;
        }
        let dv: usize = (ch as u32 - '0' as u32) as usize;
        proof {
            assert(d.take(i - start + 1).drop_last() =~= d.take(i - start));
            assert(d.take(i - start + 1).last() == ch);
        }
        if value > (usize::MAX - dv) / 10 {
            proof {
                let m = (usize::MAX - dv) as int;
                assert(value * 10 + dv > usize::MAX) by (nonlinear_arith)
                    requires
                        value > m / 10,
                        m == usize::MAX - dv,
                        0 <= dv <= 9,
                        m >= 0;
                lemma_digits_monotone(d, i - start + 1);
            }
            return None;
        }
        proof {
            let m = (usize::MAX - dv) as int;
            assert(value * 10 + dv <= usize::MAX) by (nonlinear_arith)
                requires
                    value <= m / 10,
                    m == usize::MAX - dv,
                    m >= 0;
        }
        value = value * 10 + dv;
        i = i + 1;
    }
    proof { assert(d.take(i - start) =~= d); }
    Some(value)
}

/// The content length after the header `c[0..len]` (see `header_value`).
fn header_value_of(c: &Vec<char>, len: usize, current: Option<usize>) -> (r: Option<usize>)
    requires
        len <= c@.len(),
    ensures
        match header_value(c@.take(len as int), match current { Some(n) => Some(n as nat), None => None }) {
            Some(n) => r == Some(n as usize),
            None => r is None,
        },
{
    let ghost line = c@.take(len as int);
    let prefix = chars_of("Content-Length: ");
    proof { reveal_strlit("Content-Length: "); }
    if len < 16 {
        return current;
    }
    let mut k: usize = 0;
    while k < 16
        invariant
            k <= 16,
            16 <= len <= c@.len(),
            prefix@ == "Content-Length: "@,
            prefix@.len() == 16,
            line == c@.take(len as int),
            forall|j: int| 0 <= j < k ==> line[j] == prefix@[j],
        decreases 16 - k,
    {
        if c[k] != prefix[k] {
            proof { assert(line.take(16)[k as int] != "Content-Length: "@[k as int]); }
            return current;
        }
        k = k + 1;
    }
    proof { assert(line.take(16) =~= "Content-Length: "@); }
    let mut a: usize = 16;
    while a < len && is_white_char(c[a])
        invariant
            16 <= a <= len,
            len <= c@.len(),
            forall|j: int| 16 <= j < a ==> is_white(#[trigger] c@[j]),
        decreases len - a,
    {
        a = a + 1;
    }
    let mut b: usize = len;
    while b > a && is_white_char(c[b - 1])
        invariant
            a <= b <= len,
            len <= c@.len(),
            forall|j: int| b <= j < len ==> is_white(#[trigger] c@[j]),
        decreases b - a,
    {
        b = b - 1;
    }
    proof {
        let rest = line.skip(16);
        assert forall|j: int| 0 <= j < a - 16 implies is_white(#[trigger] rest[j]) by {
            assert(rest[j] == c@[j + 16]);
        }
        if a < len {
            assert(rest[a - 16] == c@[a as int]);
        }
        lemma_lead_white(rest, a - 16);
        let u = rest.skip(a - 16);
        assert(u =~= c@.subrange(a as int, len as int));
        assert forall|j: int| u.len() - (len - b) <= j < u.len() implies is_white(#[trigger] u[j]) by {
            assert(u[j] == c@[j + a]);
        }
        if b > a {
            assert(u[u.len() - (len - b) - 1] == c@[b - 1]);
        }
        lemma_trail_white(u, (len - b) as int);
        assert(trim_white(rest) =~= c@.subrange(a as int, b as int));
    }
    parse_usize_range(c, a, b)
}

/// Reads the first `Content-Length` frame at the front of `input`: its
/// body and how many bytes the frame took (see `read_content_length_spec`).
pub fn read_content_length(input: &[u8]) -> (r: Result<(Vec<u8>, usize), FrameError>)
    ensures
        match r {
            Ok((body, used)) => read_content_length_spec(input@) == Ok::<(Seq<u8>, int), FrameError>((body@, used as int)),
            Err(e) => read_content_length_spec(input@) == Err::<(Seq<u8>, int), FrameError>(e),
        },
{
    let mut pos: usize = 0;
    let mut length: Option<usize> = None;
    let mut start: usize = 0;
    let mut done = false;
    while !done
        invariant
            pos <= input@.len(),
            start <= input@.len(),
            done ==> scan_headers(input@, 0, None) == Ok::<(Option<nat>, int), FrameError>(
                (match length { Some(n) => Some(n as nat), None => None }, start as int)),
            !done ==> scan_headers(input@, 0, None) == scan_headers(input@, pos as int,
                match length { Some(n) => Some(n as nat), None => None }),
        decreases input@.len() - pos, if done { 0int } else { 1int },
    {
        if pos >= input.len() {
            return Err(FrameError::EofInHeaders);
        }
        let end = find_line_end(input, pos);
        let raw = byte_range(input, pos, end);
        match string_from_utf8(raw) {
            Err(_) => {
                return Err(FrameError::InvalidUtf8);
            },
            Ok(text) => {
                let c = chars_of(text.as_str());
                let ghost t = c@;
                let mut k: usize = c.len();
                while k > 0 && (c[k - 1] == '\r' || c[k - 1] == '\n')
                    invariant
                        k <= c@.len(),
                        forall|j: int| k <= j < c@.len() ==> (#[trigger] c@[j] == '\r' || c@[j] == '\n'),
                    decreases k,
                {
                    k = k - 1;
                }
                proof {
                    lemma_trail_line_break(t, (t.len() - k) as int);
                    assert(trim_line_break(t) =~= t.take(k as int));
                }
                if k == 0 {
                    start = end;
                    done = true;
                } else {
                    length = header_value_of(&c, k, length);
                    pos = end;
                }
            },
        }
    }
    match length {
        None => Err(FrameError::MissingContentLength),
        Some(n) => {
            if n <= input.len() - start {
                let body = byte_range(input, start, start + n);
                Ok((body, start + n))
            } else {
                Err(FrameError::EofInBody)
            }
        },
    }
}


proof fn lemma_encode_concat(a: Seq<char>, b: Seq<char>)
    ensures
        vstd::utf8::encode_utf8(a + b) == vstd::utf8::encode_utf8(a) + vstd::utf8::encode_utf8(b),
    decreases a.len(),
{
    if a.len() > 0 {
        assert((a + b).drop_first() =~= a.drop_first() + b);
        assert((a + b)[0] == a[0]);
        lemma_encode_concat(a.drop_first(), b);
        assert(vstd::utf8::encode_utf8(a + b) =~= vstd::utf8::encode_utf8(a) + vstd::utf8::encode_utf8(b));
    } else {
        assert(a + b =~= b);
        assert(vstd::utf8::encode_utf8(a) =~= Seq::<u8>::empty());
        assert(vstd::utf8::encode_utf8(a) + vstd::utf8::encode_utf8(b) =~= vstd::utf8::encode_utf8(b));
    }
}

/// Characters below 128 encode as one byte each, their own code.
proof fn lemma_encode_ascii(a: Seq<char>)
    requires
        forall|i: int| 0 <= i < a.len() ==> (#[trigger] a[i] as u32) < 128,
    ensures
        vstd::utf8::encode_utf8(a).len() == a.len(),
        forall|i: int| 0 <= i < a.len() ==> (#[trigger] vstd::utf8::encode_utf8(a)[i]) as u32 == a[i] as u32,
    decreases a.len(),
{
    if a.len() > 0 {
        let d = a.drop_first();
        assert forall|i: int| 0 <= i < d.len() implies (#[trigger] d[i] as u32) < 128 by {
            assert(d[i] == a[i + 1]);
        }
        lemma_encode_ascii(d);
        let c = a[0] as u32;
        assert(c < 128);
        assert((c & 0x7F) == c) by (bit_vector)
            requires
                c < 128;
        assert(vstd::utf8::encode_scalar(c) == seq![(c & 0x7F) as u8]);
        assert forall|i: int| 0 <= i < a.len() implies (#[trigger] vstd::utf8::encode_utf8(a)[i]) as u32 == a[i] as u32 by {
            if i > 0 {
                assert(d[i - 1] == a[i]);
                assert(vstd::utf8::encode_utf8(a)[i] == vstd::utf8::encode_utf8(d)[i - 1]);
            }
        }
    }
}

proof fn lemma_line_end_at(s: Seq<u8>, start: int, e: int)
    requires
        0 <= start <= e < s.len(),
        forall|j: int| start <= j < e ==> #[trigger] s[j] != 10u8,
        s[e] == 10u8,
    ensures
        line_end(s, start) == e + 1,
    decreases e - start,
{
    if start < e {
        lemma_line_end_at(s, start + 1, e);
    }
}

/// The decimal text of a number is all digits and spells that number back.
#[verifier::spinoff_prover]
proof fn lemma_decimal_reads_back(n: nat)
    ensures
        all_digits(decimal(n)),
        digits_value(decimal(n)) == n,
    decreases n,
{
    let d = decimal(n);
    let last = crate::numfmt::digit_char(n % 10);
    assert(last as u32 == 48 + n % 10);
    assert(last as int == 48 + n % 10);
    assert('0' as int == 48);
    if n < 10 {
        assert(d.drop_last() =~= Seq::<char>::empty());
        assert(d.last() == last);
        assert(digits_value(d.drop_last()) == 0);
        assert(digits_value(d) == (last as int - '0' as int) as nat);
    } else {
        lemma_decimal_reads_back(n / 10);
        assert(d.drop_last() =~= decimal(n / 10));
        assert(d.last() == last);
        assert(digits_value(d) == digits_value(decimal(n / 10)) * 10 + n % 10);
        assert((n / 10) * 10 + n % 10 == n);
        assert forall|i: int| 0 <= i < d.len() implies is_digit(#[trigger] d[i]) by {
            if i < d.len() - 1 {
                assert(d[i] == decimal(n / 10)[i]);
            }
        }
    }
}

/// A frame that `content_length_frame` writes reads back, whatever follows
/// it, as the same body, the whole frame taken.
#[verifier::spinoff_prover]
#[verifier::rlimit(80)]
pub proof fn lemma_content_length_round_trip(body: Seq<u8>, rest: Seq<u8>)
    requires
        body.len() <= usize::MAX,
    ensures
        read_content_length_spec(vstd::utf8::encode_utf8(content_length_header(body.len())) + body + rest)
            == Ok::<(Seq<u8>, int), FrameError>(
                (body, (vstd::utf8::encode_utf8(content_length_header(body.len())).len() + body.len()) as int)),
{
    let n = body.len();
    reveal_strlit("Content-Length: ");
    reveal_strlit("\r\n\r\n");
    reveal_strlit("\r\n");
    let digits = decimal(n);
    lemma_decimal_reads_back(n);
    crate::numfmt::lemma_decimal_nonempty(n);
    let h = "Content-Length: "@ + digits;
    let l1 = h + "\r\n"@;
    let l2 = "\r\n"@;
    assert(content_length_header(n) =~= l1 + l2);
    assert forall|i: int| 0 <= i < l1.len() implies (#[trigger] l1[i] as u32) < 128 by {
        if 16 <= i < h.len() {
            assert(l1[i] == digits[i - 16]);
            assert(is_digit(digits[i - 16]));
        }
    }
    assert forall|i: int| 0 <= i < l2.len() implies (#[trigger] l2[i] as u32) < 128 by {}
    lemma_encode_ascii(l1);
    lemma_encode_ascii(l2);
    lemma_encode_concat(l1, l2);
    let e1 = vstd::utf8::encode_utf8(l1);
    let e2 = vstd::utf8::encode_utf8(l2);
    let frame = vstd::utf8::encode_utf8(content_length_header(n));
    let s = frame + body + rest;
    assert(frame == e1 + e2);
    let k = e1.len() as int;
    assert(k == h.len() + 2);
    // The first line ends at the line feed that closes the header line.
    assert forall|j: int| 0 <= j < k - 1 implies #[trigger] s[j] != 10u8 by {
        assert(s[j] == e1[j]);
        assert(e1[j] as u32 == l1[j] as u32);
        if 16 <= j < h.len() {
            assert(l1[j] == digits[j - 16]);
            assert(is_digit(digits[j - 16]));
        }
    }
    assert(s[k - 1] == e1[k - 1]);
    assert(e1[k - 1] as u32 == l1[k - 1] as u32);
    lemma_line_end_at(s, 0, k - 1);
    assert(s.subrange(0, k) =~= e1);
    assert(vstd::utf8::valid_utf8(e1)) by { vstd::utf8::encode_utf8_valid_utf8(l1); }
    assert(vstd::utf8::decode_utf8(e1) == l1) by { vstd::utf8::encode_utf8_decode_utf8(l1); }
    // Without its line break, the first line is the header proper.
    assert(!(l1[l1.len() - 3] == '\r' || l1[l1.len() - 3] == '\n')) by {
        assert(l1[l1.len() - 3] == digits[digits.len() - 1]);
        assert(is_digit(digits[digits.len() - 1]));
    }
    lemma_trail_line_break(l1, 2);
    assert(trim_line_break(l1) =~= h);
    assert(h.take(16) =~= "Content-Length: "@);
    assert(h.skip(16) =~= digits);
    assert(!is_white(digits[0])) by { assert(is_digit(digits[0])); }
    lemma_lead_white(digits, 0);
    assert(digits.skip(0) =~= digits);
    assert(!is_white(digits[digits.len() - 1])) by { assert(is_digit(digits[digits.len() - 1])); }
    lemma_trail_white(digits, 0);
    assert(trim_white(digits) =~= digits);
    assert(unsigned_part(digits) == digits) by { assert(is_digit(digits[0])); }
    assert(header_value(h, None) == Some(n));
    // The second line is empty: the headers end there.
    assert(s[k] == e2[0]);
    assert(s[k + 1] == e2[1]);
    assert(e2[0] as u32 == l2[0] as u32);
    assert(e2[1] as u32 == l2[1] as u32);
    lemma_line_end_at(s, k, k + 1);
    assert(s.subrange(k, k + 2) =~= e2);
    assert(vstd::utf8::valid_utf8(e2)) by { vstd::utf8::encode_utf8_valid_utf8(l2); }
    assert(vstd::utf8::decode_utf8(e2) == l2) by { vstd::utf8::encode_utf8_decode_utf8(l2); }
    lemma_trail_line_break(l2, 2);
    assert(trim_line_break(l2).len() == 0);
    assert(scan_headers(s, k, Some(n)) == Ok::<(Option<nat>, int), FrameError>((Some(n), k + 2)));
    assert(scan_headers(s, 0, None) == scan_headers(s, k, Some(n)));
    assert(frame.len() == k + 2);
    assert(s.subrange(k + 2, k + 2 + n) =~= body);
}

/// A transport made of a read half and a write half.
#[derive(Debug)]
pub struct SplitTransport<R, W> {
    pub read: R,
    pub write: W,
}

impl<R, W> SplitTransport<R, W> {
    /// The two halves.
    pub fn split(self) -> (r: (R, W))
        ensures
            r.0 == self.read,
            r.1 == self.write,
    {
        (self.read, self.write)
    }
}

} // verus!
