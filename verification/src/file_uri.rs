//! Conversion between `file:` URIs and file system paths, with the percent
//! encoding the workbench expects.
use vstd::prelude::*;
use vstd::utf8::{decode_utf8, encode_utf8, valid_utf8};
use crate::contracts::UriDto;
use crate::service_registry::ServiceError;
use crate::text::{bytes_of, chars_of, concat2, concat3, push_char, push_str, string_from_utf8, from_utf8_error_text, owned};

verus! {

broadcast use vstd::utf8::group_utf8_lib;

/// Bytes that stand for themselves in the path of a file URI.
pub open spec fn is_path_byte(b: u8) -> bool {
    (65 <= b <= 90) || (97 <= b <= 122) || (48 <= b <= 57) || b == 47 || b == 45 || b == 46
        || b == 95 || b == 126 || b == 58
}

/// Bytes that stand for themselves in a trash info `Path=` value.
pub open spec fn is_component_byte(b: u8) -> bool {
    (65 <= b <= 90) || (97 <= b <= 122) || (48 <= b <= 57) || b == 47 || b == 45 || b == 46
        || b == 95 || b == 126
}

/// The upper-case hexadecimal digit of a value below sixteen, as a byte.
pub open spec fn upper_hex(n: int) -> u8 {
    if n < 10 { (48 + n) as u8 } else { (55 + n) as u8 }
}

/// The encoding of one byte: itself, or `%` and two upper-case hex digits.
pub open spec fn encode_byte(b: u8, keep: spec_fn(u8) -> bool) -> Seq<u8> {
    if keep(b) {
        seq![b]
    } else {
        seq![37u8, upper_hex(b as int / 16), upper_hex(b as int % 16)]
    }
}

/// Percent encoding of a byte sequence, keeping the bytes that `keep` accepts.
pub open spec fn pct_encode(bs: Seq<u8>, keep: spec_fn(u8) -> bool) -> Seq<u8>
    decreases bs.len(),
{
    if bs.len() == 0 {
        seq![]
    } else {
        encode_byte(bs[0], keep) + pct_encode(bs.drop_first(), keep)
    }
}

/// The value of a hexadecimal digit byte, either case.
pub open spec fn hex_digit_value(b: u8) -> Option<u8> {
    if 48 <= b <= 57 {
        Some((b - 48) as u8)
    } else if 97 <= b <= 102 {
        Some((b - 97 + 10) as u8)
    } else if 65 <= b <= 70 {
        Some((b - 65 + 10) as u8)
    } else {
        None
    }
}

/// Percent decoding: `%` must be followed by two hex digits; other bytes
/// stand for themselves. `None` when an escape is malformed.
pub open spec fn pct_decode(bs: Seq<u8>) -> Option<Seq<u8>>
    decreases bs.len(),
{
    if bs.len() == 0 {
        Some(seq![])
    } else if bs[0] == 37u8 {
        if bs.len() < 3 {
            None
        } else {
            match (hex_digit_value(bs[1]), hex_digit_value(bs[2])) {
                (Some(h), Some(l)) => match pct_decode(bs.skip(3)) {
                    Some(rest) => Some(seq![(h * 16 + l) as u8] + rest),
                    None => None,
                },
                _ => None,
            }
        }
    } else {
        match pct_decode(bs.drop_first()) {
            Some(rest) => Some(seq![bs[0]] + rest),
            None => None,
        }
    }
}

/// ASCII bytes read as characters.
pub open spec fn ascii_chars(bs: Seq<u8>) -> Seq<char> {
    bs.map_values(|b: u8| b as char)
}

proof fn lemma_pct_encode_append(a: Seq<u8>, b: u8, keep: spec_fn(u8) -> bool)
    ensures
        pct_encode(a.push(b), keep) == pct_encode(a, keep) + encode_byte(b, keep),
    decreases a.len(),
{
    if a.len() == 0 {
        assert(a.push(b).drop_first() =~= Seq::<u8>::empty());
        assert(pct_encode(Seq::<u8>::empty(), keep) == Seq::<u8>::empty());
        assert(a.push(b)[0] == b);
        assert(pct_encode(a.push(b), keep) =~= encode_byte(b, keep));
        assert(pct_encode(a, keep) == Seq::<u8>::empty());
    } else {
        assert(a.push(b).drop_first() =~= a.drop_first().push(b));
        lemma_pct_encode_append(a.drop_first(), b, keep);
        assert(pct_encode(a.push(b), keep) =~= pct_encode(a, keep) + encode_byte(b, keep));
    }
}

proof fn lemma_upper_hex(n: int)
    requires
        0 <= n < 16,
    ensures
        hex_digit_value(upper_hex(n)) == Some(n as u8),
        upper_hex(n) < 128,
        upper_hex(n) != 37u8,
{
}

proof fn lemma_encode_byte_decodes(b: u8, keep: spec_fn(u8) -> bool, rest: Seq<u8>)
    requires
        forall|x: u8| #[trigger] keep(x) ==> x != 37u8,
        pct_decode(rest) is Some,
    ensures
        pct_decode(encode_byte(b, keep) + rest) == Some(seq![b] + pct_decode(rest).unwrap()),
{
    let e = encode_byte(b, keep) + rest;
    if keep(b) {
        assert(e.drop_first() =~= rest);
    } else {
        lemma_upper_hex(b as int / 16);
        lemma_upper_hex(b as int % 16);
        assert(e.skip(3) =~= rest);
        assert((b as int / 16) * 16 + b as int % 16 == b as int);
    }
}

/// Decoding undoes encoding, whenever the kept bytes exclude `%`.
pub proof fn lemma_pct_roundtrip(bs: Seq<u8>, keep: spec_fn(u8) -> bool)
    requires
        forall|x: u8| #[trigger] keep(x) ==> x != 37u8,
    ensures
        pct_decode(pct_encode(bs, keep)) == Some(bs),
    decreases bs.len(),
{
    if bs.len() == 0 {
    } else {
        lemma_pct_roundtrip(bs.drop_first(), keep);
        lemma_encode_byte_decodes(bs[0], keep, pct_encode(bs.drop_first(), keep));
        assert(seq![bs[0]] + bs.drop_first() =~= bs);
    }
}

proof fn lemma_pct_encode_ascii(bs: Seq<u8>, keep: spec_fn(u8) -> bool)
    requires
        forall|x: u8| #[trigger] keep(x) ==> x < 128,
    ensures
        forall|i: int| 0 <= i < pct_encode(bs, keep).len() ==> #[trigger] pct_encode(bs, keep)[i] < 128,
    decreases bs.len(),
{
    if bs.len() > 0 {
        lemma_pct_encode_ascii(bs.drop_first(), keep);
        lemma_upper_hex(bs[0] as int / 16);
        lemma_upper_hex(bs[0] as int % 16);
        let e = encode_byte(bs[0], keep);
        let r = pct_encode(bs.drop_first(), keep);
        assert forall|i: int| 0 <= i < (e + r).len() implies #[trigger] (e + r)[i] < 128 by {
            if i < e.len() {
            } else {
                assert((e + r)[i] == r[i - e.len()]);
            }
        }
    }
}

/// UTF-8 encoding of ASCII characters gives back their bytes.
proof fn lemma_ascii_chars_bytes(bs: Seq<u8>)
    requires
        forall|i: int| 0 <= i < bs.len() ==> #[trigger] bs[i] < 128,
    ensures
        encode_utf8(ascii_chars(bs)) == bs,
{
    let cs = ascii_chars(bs);
    assert(vstd::utf8::is_ascii_chars(cs)) by {
        assert forall|i: int| 0 <= i < cs.len() implies '\0' <= #[trigger] cs[i] <= '\u{7f}' by {
            assert(bs[i] < 128);
        }
    }
    vstd::utf8::is_ascii_chars_encode_utf8(cs);
    assert(encode_utf8(cs) =~= bs);
}

/// The URI path encoding of a path's UTF-8 bytes.
pub open spec fn uri_path_encoding(bs: Seq<u8>) -> Seq<char> {
    ascii_chars(pct_encode(bs, |b: u8| is_path_byte(b)))
}

/// The trash info encoding of a path's UTF-8 bytes.
pub open spec fn component_encoding(bs: Seq<u8>) -> Seq<char> {
    ascii_chars(pct_encode(bs, |b: u8| is_component_byte(b)))
}

fn hex_char(n: u8) -> (c: char)
    requires
        n < 16,
    ensures
        c as u8 == upper_hex(n as int),
        c as u32 == upper_hex(n as int) as u32,
{
    if n < 10 {
        (48 + n) as char
    } else {
        (55 + n) as char
    }
}

/// Whether a byte stands for itself in a file URI path.
pub fn is_file_uri_path_byte(byte: u8) -> (r: bool)
    ensures
        r == is_path_byte(byte),
{
    (65 <= byte && byte <= 90) || (97 <= byte && byte <= 122) || (48 <= byte && byte <= 57)
        || byte == 47 || byte == 45 || byte == 46 || byte == 95 || byte == 126 || byte == 58
}

fn is_uri_component_byte(byte: u8) -> (r: bool)
    ensures
        r == is_component_byte(byte),
{
    (65 <= byte && byte <= 90) || (97 <= byte && byte <= 122) || (48 <= byte && byte <= 57)
        || byte == 47 || byte == 45 || byte == 46 || byte == 95 || byte == 126
}

fn push_encoded_byte(out: &mut String, byte: u8, keep: bool)
    ensures
        final(out)@ == old(out)@ + ascii_chars(if keep { seq![byte] } else {
            seq![37u8, upper_hex(byte as int / 16), upper_hex(byte as int % 16)]
        }),
{
    if keep {
        push_char(out, byte as char);
        proof { assert(ascii_chars(seq![byte]) =~= seq![byte as char]); }
    } else {
        let hi = hex_char(byte / 16);
        let lo = hex_char(byte % 16);
        push_char(out, '%');
        push_char(out, hi);
        push_char(out, lo);
        proof {
            let e = seq![37u8, upper_hex(byte as int / 16), upper_hex(byte as int % 16)];
            assert(ascii_chars(e) =~= seq!['%', hi, lo]) by {
                lemma_upper_hex(byte as int / 16);
                lemma_upper_hex(byte as int % 16);
            }
        }
    }
}

/// Percent encodes the bytes of a path for use in a file URI.
pub fn percent_encode_path_bytes(bytes: &[u8]) -> (encoded: String)
    ensures
        encoded@ == uri_path_encoding(bytes@),
{
    let ghost keep = |b: u8| is_path_byte(b);
    let mut encoded = String::new();
    let mut i: usize = 0;
    while i < bytes.len()
        invariant
            i <= bytes.len(),
            keep == (|b: u8| is_path_byte(b)),
            encoded@ == ascii_chars(pct_encode(bytes@.take(i as int), keep)),
        decreases bytes.len() - i,
    {
        let byte = bytes[i];
        push_encoded_byte(&mut encoded, byte, is_file_uri_path_byte(byte));
        proof {
            assert(bytes@.take(i as int + 1) =~= bytes@.take(i as int).push(byte));
            lemma_pct_encode_append(bytes@.take(i as int), byte, keep);
            assert(ascii_chars(pct_encode(bytes@.take(i as int + 1), keep)) =~= ascii_chars(
                pct_encode(bytes@.take(i as int), keep),
            ) + ascii_chars(encode_byte(byte, keep)));
        }
        i = i + 1;
    }
    proof { assert(bytes@.take(bytes@.len() as int) =~= bytes@); }
    encoded
}

/// Percent encodes the UTF-8 bytes of a string for use in a file URI path.
pub fn percent_encode_path_str(value: &str) -> (encoded: String)
    ensures
        encoded@ == uri_path_encoding(encode_utf8(value@)),
{
    let bytes = bytes_of(value);
    percent_encode_path_bytes(bytes.as_slice())
}

/// Percent encodes a path for the `Path=` line of a trash info file.
pub fn percent_encode_uri_component(bytes: &[u8]) -> (encoded: String)
    ensures
        encoded@ == component_encoding(bytes@),
{
    let ghost keep = |b: u8| is_component_byte(b);
    let mut encoded = String::new();
    let mut i: usize = 0;
    while i < bytes.len()
        invariant
            i <= bytes.len(),
            keep == (|b: u8| is_component_byte(b)),
            encoded@ == ascii_chars(pct_encode(bytes@.take(i as int), keep)),
        decreases bytes.len() - i,
    {
        let byte = bytes[i];
        push_encoded_byte(&mut encoded, byte, is_uri_component_byte(byte));
        proof {
            assert(bytes@.take(i as int + 1) =~= bytes@.take(i as int).push(byte));
            lemma_pct_encode_append(bytes@.take(i as int), byte, keep);
            assert(ascii_chars(pct_encode(bytes@.take(i as int + 1), keep)) =~= ascii_chars(
                pct_encode(bytes@.take(i as int), keep),
            ) + ascii_chars(encode_byte(byte, keep)));
        }
        i = i + 1;
    }
    proof { assert(bytes@.take(bytes@.len() as int) =~= bytes@); }
    encoded
}

/// The contents of the `.trashinfo` file written beside a trashed path.
pub fn trash_info_contents(path: &str) -> (contents: String)
    ensures
        contents@ == "[Trash Info]\nPath="@ + component_encoding(encode_utf8(path@))
            + "\nDeletionDate=1970-01-01T00:00:00\n"@,
{
    let bytes = bytes_of(path);
    let encoded = percent_encode_uri_component(bytes.as_slice());
    concat3("[Trash Info]\nPath=", encoded.as_str(), "\nDeletionDate=1970-01-01T00:00:00\n")
}

/// The value of a hexadecimal digit.
pub fn hex_value(byte: u8) -> (r: Option<u8>)
    ensures
        r == hex_digit_value(byte),
{
    if 48 <= byte && byte <= 57 {
        Some(byte - 48)
    } else if 97 <= byte && byte <= 102 {
        Some(byte - 97 + 10)
    } else if 65 <= byte && byte <= 70 {
        Some(byte - 65 + 10)
    } else {
        None
    }
}

/// A file service error with the given code and message.
pub fn file_error(code: &'static str, message: String) -> (e: ServiceError)
    ensures
        e.code == code,
        e.message == message,
{
    ServiceError { code, message }
}

/// The error for a malformed percent escape.
pub fn invalid_percent_escape(label: &str, value: &str) -> (e: ServiceError)
    ensures
        e.code@ == "fs.invalidUri"@,
        e.message@ == label@ + " contains invalid percent escape: "@ + value@,
{
    file_error("fs.invalidUri", concat3(label, " contains invalid percent escape: ", value))
}

proof fn lemma_decode_step_plain(bs: Seq<u8>, i: int)
    requires
        0 <= i < bs.len(),
        bs[i] != 37u8,
    ensures
        pct_decode(bs.skip(i)) == match pct_decode(bs.skip(i + 1)) {
            Some(rest) => Some(seq![bs[i]] + rest),
            None => None::<Seq<u8>>,
        },
{
    assert(bs.skip(i).drop_first() =~= bs.skip(i + 1));
}

proof fn lemma_decode_step_escape(bs: Seq<u8>, i: int, h: u8, l: u8)
    requires
        0 <= i,
        i + 2 < bs.len(),
        bs[i] == 37u8,
        hex_digit_value(bs[i + 1]) == Some(h),
        hex_digit_value(bs[i + 2]) == Some(l),
    ensures
        pct_decode(bs.skip(i)) == match pct_decode(bs.skip(i + 3)) {
            Some(rest) => Some(seq![(h * 16 + l) as u8] + rest),
            None => None::<Seq<u8>>,
        },
{
    assert(bs.skip(i).skip(3) =~= bs.skip(i + 3));
}

/// Percent decodes a string into bytes; `None` for a malformed escape.
pub fn percent_decode_bytes(value: &str) -> (r: Option<Vec<u8>>)
    ensures
        match pct_decode(encode_utf8(value@)) {
            Some(bs) => r matches Some(v) && v@ == bs,
            None => r is None,
        },
{
    let bytes = bytes_of(value);
    let ghost bs = bytes@;
    let mut decoded: Vec<u8> = Vec::new();
    let mut index: usize = 0;
    proof {
        assert(bs.skip(0) =~= bs);
        match pct_decode(bs) {
            Some(r) => { assert(decoded@ + r =~= r); },
            None => {},
        }
    }
    while index < bytes.len()
        invariant
            bs == bytes@,
            bs == encode_utf8(value@),
            index <= bytes.len(),
            pct_decode(bs) == match pct_decode(bs.skip(index as int)) {
                Some(rest) => Some(decoded@ + rest),
                None => None::<Seq<u8>>,
            },
        decreases bytes.len() - index,
    {
        if bytes[index] == 37u8 {
            if bytes.len() - index < 3 {
                proof {
                    assert(bs.skip(index as int).len() < 3);
                    assert(bs.skip(index as int)[0] == 37u8);
                    assert(pct_decode(bs.skip(index as int)) is None);
                }
                return None;
            }
            let high = hex_value(bytes[index + 1]);
            let low = hex_value(bytes[index + 2]);
            match (high, low) {
                (Some(h), Some(l)) => {
                    proof {
                        lemma_decode_step_escape(bs, index as int, h, l);
                        match pct_decode(bs.skip(index as int + 3)) {
                            Some(rest) => {
                                assert(decoded@.push((h * 16 + l) as u8) + rest =~= decoded@ + (seq![(h * 16 + l) as u8] + rest));
                            },
                            None => {},
                        }
                    }
                    decoded.push(h * 16 + l);
                    index = index + 3;
                },
                _ => {
                    proof {
                        assert(bs.skip(index as int)[0] == 37u8);
                        assert(bs.skip(index as int)[1] == bs[index as int + 1]);
                        assert(bs.skip(index as int)[2] == bs[index as int + 2]);
                        assert(pct_decode(bs.skip(index as int)) is None);
                    }
                    return None;
                },
            }
        } else {
            proof {
                lemma_decode_step_plain(bs, index as int);
                match pct_decode(bs.skip(index as int + 1)) {
                    Some(rest) => {
                        assert(decoded@.push(bs[index as int]) + rest =~= decoded@ + (seq![bs[index as int]] + rest));
                    },
                    None => {},
                }
            }
            decoded.push(bytes[index]);
            index = index + 1;
        }
    }
    proof {
        assert(bs.skip(index as int) =~= Seq::<u8>::empty());
        assert(decoded@ + Seq::<u8>::empty() =~= decoded@);
    }
    Some(decoded)
}

/// What percent decoding a string into UTF-8 text gives.
pub open spec fn percent_decode_result(value: Seq<char>) -> Option<Seq<char>> {
    match pct_decode(encode_utf8(value)) {
        Some(bs) => if valid_utf8(bs) { Some(decode_utf8(bs)) } else { None },
        None => None,
    }
}

/// Percent decodes a string and reads the bytes as UTF-8. Fails with
/// `fs.invalidUri` on a malformed escape or on bytes that are not UTF-8.
pub fn percent_decode_utf8(value: &str, label: &str) -> (r: Result<String, ServiceError>)
    ensures
        match percent_decode_result(value@) {
            Some(text) => r matches Ok(s) && s@ == text,
            None => r matches Err(e) && e.code@ == "fs.invalidUri"@,
        },
        pct_decode(encode_utf8(value@)) is None ==> (r matches Err(e)
            && e.message@ == label@ + " contains invalid percent escape: "@ + value@),
        pct_decode(encode_utf8(value@)) matches Some(bs) ==> (!valid_utf8(bs) ==> (r matches Err(e)
            && e.message@ == label@ + " is not valid UTF-8 after percent decoding: "@ + from_utf8_error_text(bs))),
{
    match percent_decode_bytes(value) {
        None => Err(invalid_percent_escape(label, value)),
        Some(bytes) => match string_from_utf8(bytes) {
            Ok(text) => Ok(text),
            Err(error) => Err(file_error(
                "fs.invalidUri",
                concat3(label, " is not valid UTF-8 after percent decoding: ", error.as_str()),
            )),
        },
    }
}


/// The components of a URI, as mathematical strings.
pub struct UriView {
    pub scheme: Seq<char>,
    pub authority: Option<Seq<char>>,
    pub path: Seq<char>,
    pub query: Option<Seq<char>>,
    pub fragment: Option<Seq<char>>,
}

pub open spec fn opt_view(o: Option<String>) -> Option<Seq<char>> {
    match o {
        Some(s) => Some(s@),
        None => None,
    }
}

impl View for UriDto {
    type V = UriView;

    open spec fn view(&self) -> UriView {
        UriView {
            scheme: self.scheme@,
            authority: opt_view(self.authority),
            path: self.path@,
            query: opt_view(self.query),
            fragment: opt_view(self.fragment),
        }
    }
}

/// A POSIX path is absolute when it starts at the root.
pub open spec fn is_absolute_posix(p: Seq<char>) -> bool {
    p.len() > 0 && p[0] == '/'
}

/// The authority is absent or empty.
pub open spec fn no_authority(a: Option<Seq<char>>) -> bool {
    match a {
        Some(x) => x.len() == 0,
        None => true,
    }
}

/// The POSIX path a file URI denotes, if it denotes one.
pub open spec fn posix_uri_path(u: UriView) -> Option<Seq<char>> {
    if u.scheme != "file"@ || u.path.len() == 0 || !no_authority(u.authority) {
        None
    } else {
        match percent_decode_result(u.path) {
            Some(p) => if is_absolute_posix(p) { Some(p) } else { None },
            None => None,
        }
    }
}

/// The file URI of an absolute POSIX path.
pub open spec fn posix_path_uri(p: Seq<char>) -> UriView {
    UriView {
        scheme: "file"@,
        authority: None,
        path: uri_path_encoding(encode_utf8(p)),
        query: None,
        fragment: None,
    }
}

fn is_absolute_path(path: &str) -> (r: bool)
    ensures
        r == is_absolute_posix(path@),
{
    let cs = chars_of(path);
    cs.len() > 0 && cs[0] == '/'
}

/// The file system path of a `file:` URI (POSIX). Any other scheme, an
/// empty path, a non-empty authority, a malformed escape or a relative
/// decoded path is refused with `fs.invalidUri`.
pub fn file_uri_to_path(resource: &UriDto) -> (r: Result<String, ServiceError>)
    ensures
        match posix_uri_path(resource@) {
            Some(p) => r matches Ok(s) && s@ == p,
            None => r matches Err(e) && e.code@ == "fs.invalidUri"@,
        },
        resource@.scheme != "file"@ ==> (r matches Err(e) && e.message@
            == "unsupported URI scheme for file service: "@ + resource@.scheme),
{
    proof { reveal_strlit("file"); }
    if !crate::text::str_eq(resource.scheme.as_str(), "file") {
        return Err(file_error(
            "fs.invalidUri",
            concat2("unsupported URI scheme for file service: ", resource.scheme.as_str()),
        ));
    }
    if resource.path.as_str().is_empty() {
        return Err(file_error("fs.invalidUri", owned("file URI path is empty")));
    }
    file_uri_to_platform_path(resource)
}

/// Same as [`file_uri_to_path`].
pub fn path_from_uri(resource: &UriDto) -> (r: Result<String, ServiceError>)
    ensures
        match posix_uri_path(resource@) {
            Some(p) => r matches Ok(s) && s@ == p,
            None => r matches Err(e) && e.code@ == "fs.invalidUri"@,
        },
{
    file_uri_to_path(resource)
}

fn file_uri_to_platform_path(resource: &UriDto) -> (r: Result<String, ServiceError>)
    requires
        resource@.scheme == "file"@,
        resource@.path.len() > 0,
    ensures
        match posix_uri_path(resource@) {
            Some(p) => r matches Ok(s) && s@ == p,
            None => r matches Err(e) && e.code@ == "fs.invalidUri"@,
        },
{
    match &resource.authority {
        Some(authority) => {
            if !authority.as_str().is_empty() {
                proof { assert(authority@.len() > 0); }
                return Err(file_error("fs.invalidUri", owned("file URI authority is not supported")));
            }
        },
        None => {},
    }
    let decoded = percent_decode_utf8(resource.path.as_str(), "file URI path");
    match decoded {
        Err(e) => Err(e),
        Ok(path) => {
            if !is_absolute_path(path.as_str()) {
                return Err(file_error(
                    "fs.invalidUri",
                    concat2("file URI path must be absolute: ", resource.path.as_str()),
                ));
            }
            Ok(path)
        },
    }
}

/// The `file:` URI of an absolute POSIX path, with the path percent encoded;
/// a relative path is refused with `fs.invalidUri`.
pub fn path_to_file_uri(path: &str) -> (r: Result<UriDto, ServiceError>)
    ensures
        is_absolute_posix(path@) ==> (r matches Ok(u) && u@ == posix_path_uri(path@)),
        !is_absolute_posix(path@) ==> (r matches Err(e) && e.code@ == "fs.invalidUri"@
            && e.message@ == "file path must be absolute: "@ + path@),
{
    path_to_platform_file_uri(path)
}

fn path_to_platform_file_uri(path: &str) -> (r: Result<UriDto, ServiceError>)
    ensures
        is_absolute_posix(path@) ==> (r matches Ok(u) && u@ == posix_path_uri(path@)),
        !is_absolute_posix(path@) ==> (r matches Err(e) && e.code@ == "fs.invalidUri"@
            && e.message@ == "file path must be absolute: "@ + path@),
{
    if !is_absolute_path(path) {
        return Err(file_error("fs.invalidUri", concat2("file path must be absolute: ", path)));
    }
    let encoded = percent_encode_path_str(path);
    proof { reveal_strlit("file"); }
    Ok(UriDto {
        scheme: owned("file"),
        authority: None,
        path: encoded,
        query: None,
        fragment: None,
    })
}

/// The UTF-8 text of a URI path encoding is the encoded bytes themselves, and
/// percent decoding them gives those bytes back.
proof fn lemma_uri_path_encoding_decodes(bs: Seq<u8>)
    ensures
        encode_utf8(uri_path_encoding(bs)) == pct_encode(bs, |b: u8| is_path_byte(b)),
        pct_decode(encode_utf8(uri_path_encoding(bs))) == Some(bs),
{
    let keep = |b: u8| is_path_byte(b);
    let enc = pct_encode(bs, keep);
    lemma_pct_encode_ascii(bs, keep);
    lemma_ascii_chars_bytes(enc);
    lemma_pct_roundtrip(bs, keep);
}

/// Percent decoding undoes the URI path encoding of any text: decoding the
/// encoding of its UTF-8 bytes gives the same text back.
pub proof fn lemma_percent_text_roundtrip(t: Seq<char>)
    ensures
        percent_decode_result(uri_path_encoding(encode_utf8(t))) == Some(t),
{
    lemma_uri_path_encoding_decodes(encode_utf8(t));
    vstd::utf8::encode_utf8_valid_utf8(t);
    vstd::utf8::encode_utf8_decode_utf8(t);
}

/// A file URI whose path is the canonical encoding of some bytes, and which
/// denotes a path, is the URI of that path again: path and scheme are kept,
/// an empty authority, a query and a fragment are dropped.
pub proof fn lemma_uri_path_uri_roundtrip(u: UriView, bs: Seq<u8>)
    requires
        u.path == uri_path_encoding(bs),
        posix_uri_path(u) is Some,
    ensures
        encode_utf8(posix_uri_path(u).unwrap()) == bs,
        posix_path_uri(posix_uri_path(u).unwrap()) == (UriView {
            scheme: u.scheme,
            authority: None,
            path: u.path,
            query: None,
            fragment: None,
        }),
{
    let p = posix_uri_path(u).unwrap();
    lemma_uri_path_encoding_decodes(bs);
    assert(percent_decode_result(u.path) == Some(p));
    assert(valid_utf8(bs) && p == decode_utf8(bs));
    vstd::utf8::decode_utf8_encode_utf8(bs);
}

/// A file URI built from an absolute path denotes that path again.
pub proof fn lemma_path_uri_roundtrip(p: Seq<char>)
    requires
        is_absolute_posix(p),
    ensures
        posix_uri_path(posix_path_uri(p)) == Some(p),
{
    let keep = |b: u8| is_path_byte(b);
    let bs = encode_utf8(p);
    let enc = pct_encode(bs, keep);
    lemma_percent_text_roundtrip(p);
    lemma_uri_path_encoding_decodes(bs);
    assert(bs.len() > 0) by {
        assert(p =~= seq![p[0]] + p.drop_first());
        vstd::utf8::encode_utf8_first_scalar(p);
    }
    assert(enc.len() > 0) by {
        assert(enc == encode_byte(bs[0], keep) + pct_encode(bs.drop_first(), keep));
    }
}


/// `s` with every `from` replaced by `to`.
pub open spec fn replace_char(s: Seq<char>, from: char, to: char) -> Seq<char> {
    s.map_values(|c: char| if c == from { to } else { c })
}

/// `s` without its leading `c` characters.
pub open spec fn trim_leading(s: Seq<char>, c: char) -> Seq<char>
    decreases s.len(),
{
    if s.len() > 0 && s[0] == c {
        trim_leading(s.drop_first(), c)
    } else {
        s
    }
}

pub open spec fn is_ascii_alpha(c: char) -> bool {
    ('a' <= c <= 'z') || ('A' <= c <= 'Z')
}

pub open spec fn ascii_upper(c: char) -> char {
    if 'a' <= c <= 'z' { ((c as u32) - 32) as char } else { c }
}

pub open spec fn ascii_lower(c: char) -> char {
    if 'A' <= c <= 'Z' { ((c as u32) + 32) as char } else { c }
}

/// The Windows path a file URI denotes, if it denotes one: a UNC path when
/// the URI has an authority, a drive path otherwise.
pub open spec fn windows_uri_path(u: UriView) -> Option<Seq<char>> {
    match percent_decode_result(u.path) {
        None => None,
        Some(d) => {
            let authority = match u.authority { Some(a) => a, None => Seq::<char>::empty() };
            if authority.len() > 0 {
                let tail = trim_leading(d, '/');
                if d.len() == 0 || d[0] != '/' || tail.len() == 0 {
                    None
                } else {
                    Some("\\\\"@ + authority + "\\"@ + replace_char(tail, '/', '\\'))
                }
            } else if d.len() >= 4 && d[0] == '/' && is_ascii_alpha(d[1]) && d[2] == ':' && d[3] == '/' {
                Some(seq![ascii_upper(d[1]), ':'] + replace_char(d.skip(3), '/', '\\'))
            } else {
                None
            }
        },
    }
}

fn replace_chars(s: &Vec<char>, start: usize, from: char, to: char, out: &mut String)
    requires
        start <= s.len(),
    ensures
        final(out)@ == old(out)@ + replace_char(s@.skip(start as int), from, to),
{
    let ghost base = out@;
    let mut i = start;
    while i < s.len()
        invariant
            start <= i <= s.len(),
            out@ == base + replace_char(s@.subrange(start as int, i as int), from, to),
        decreases s.len() - i,
    {
        let c = s[i];
        push_char(out, if c == from { to } else { c });
        proof {
            assert(s@.subrange(start as int, i + 1) =~= s@.subrange(start as int, i as int).push(c));
            assert(replace_char(s@.subrange(start as int, i + 1), from, to) =~= replace_char(
                s@.subrange(start as int, i as int), from, to).push(if c == from { to } else { c }));
        }
        i = i + 1;
    }
    proof { assert(s@.subrange(start as int, s@.len() as int) =~= s@.skip(start as int)); }
}

proof fn lemma_trim_leading_skip(s: Seq<char>, c: char, i: int)
    requires
        0 <= i <= s.len(),
        forall|j: int| 0 <= j < i ==> s[j] == c,
        i == s.len() || s[i] != c,
    ensures
        trim_leading(s, c) == s.skip(i),
    decreases i,
{
    if i == 0 {
        assert(s.skip(0) =~= s);
    } else {
        lemma_trim_leading_skip(s.drop_first(), c, i - 1);
        assert(s.drop_first().skip(i - 1) =~= s.skip(i));
    }
}

fn is_alpha_char(c: char) -> (r: bool)
    ensures
        r == is_ascii_alpha(c),
{
    ('a' <= c && c <= 'z') || ('A' <= c && c <= 'Z')
}

fn upper_char(c: char) -> (r: char)
    ensures
        r == ascii_upper(c),
{
    if 'a' <= c && c <= 'z' {
        let b = (c as u8) - 32;
        proof { assert(b as u32 == (c as u32) - 32); }
        b as char
    } else {
        c
    }
}

fn lower_char(c: char) -> (r: char)
    ensures
        r == ascii_lower(c),
{
    if 'A' <= c && c <= 'Z' {
        let b = (c as u8) + 32;
        proof { assert(b as u32 == (c as u32) + 32); }
        b as char
    } else {
        c
    }
}

/// The Windows path of a `file:` URI: `\\server\share\...` when the URI has
/// an authority, `C:\...` otherwise. Malformed input is refused with
/// `fs.invalidUri`.
pub fn windows_file_uri_to_path_string(resource: &UriDto) -> (r: Result<String, ServiceError>)
    ensures
        match windows_uri_path(resource@) {
            Some(p) => r matches Ok(s) && s@ == p,
            None => r matches Err(e) && e.code@ == "fs.invalidUri"@,
        },
{
    let decoded = match percent_decode_utf8(resource.path.as_str(), "file URI path") {
        Ok(d) => d,
        Err(e) => return Err(e),
    };
    let d = chars_of(decoded.as_str());
    let authority_empty = match &resource.authority {
        Some(a) => a.as_str().is_empty(),
        None => true,
    };
    if !authority_empty {
        let authority = match &resource.authority {
            Some(a) => a,
            None => { proof { assert(false); } return Err(file_error("fs.invalidUri", String::new())); },
        };
        if d.len() == 0 || d[0] != '/' {
            return Err(file_error(
                "fs.invalidUri",
                concat2("UNC file URI path must be absolute: ", resource.path.as_str()),
            ));
        }
        let mut start: usize = 0;
        while start < d.len() && d[start] == '/'
            invariant
                start <= d.len(),
                forall|j: int| 0 <= j < start ==> d@[j] == '/',
            decreases d.len() - start,
        {
            start = start + 1;
        }
        proof { lemma_trim_leading_skip(d@, '/', start as int); }
        if start == d.len() {
            return Err(file_error(
                "fs.invalidUri",
                concat2("UNC file URI path must include a share: ", resource.path.as_str()),
            ));
        }
        let mut out = owned("\\\\");
        push_str(&mut out, authority.as_str());
        push_char(&mut out, '\\');
        replace_chars(&d, start, '/', '\\', &mut out);
        proof {
            reveal_strlit("\\\\");
            reveal_strlit("\\");
            assert(out@ =~= "\\\\"@ + authority@ + "\\"@ + replace_char(d@.skip(start as int), '/', '\\'));
        }
        return Ok(out);
    }
    if d.len() < 4 || d[0] != '/' || !is_alpha_char(d[1]) || d[2] != ':' || d[3] != '/' {
        return Err(file_error(
            "fs.invalidUri",
            concat2("Windows file URI path must include an absolute drive path: ", resource.path.as_str()),
        ));
    }
    let mut out = String::new();
    push_char(&mut out, upper_char(d[1]));
    push_char(&mut out, ':');
    replace_chars(&d, 3, '/', '\\', &mut out);
    proof { assert(out@ =~= seq![ascii_upper(d@[1]), ':'] + replace_char(d@.skip(3), '/', '\\')); }
    Ok(out)
}

/// A separator of Windows path components.
pub open spec fn is_win_sep(c: char) -> bool {
    c == '\\' || c == '/'
}

/// Index of the first separator in `s`, or its length when there is none.
pub open spec fn first_sep(s: Seq<char>) -> int
    decreases s.len(),
{
    if s.len() == 0 {
        0
    } else if is_win_sep(s[0]) {
        0
    } else {
        1 + first_sep(s.drop_first())
    }
}

proof fn lemma_first_sep(s: Seq<char>, i: int)
    requires
        0 <= i <= s.len(),
        forall|j: int| 0 <= j < i ==> !is_win_sep(#[trigger] s[j]),
        i == s.len() || is_win_sep(s[i]),
    ensures
        first_sep(s) == i,
    decreases i,
{
    if i > 0 {
        lemma_first_sep(s.drop_first(), i - 1);
    }
}

proof fn lemma_first_sep_bound(s: Seq<char>)
    ensures
        0 <= first_sep(s) <= s.len(),
    decreases s.len(),
{
    if s.len() > 0 && !is_win_sep(s[0]) {
        lemma_first_sep_bound(s.drop_first());
    }
}

/// The three parts `splitn(3, separator)` yields: the first two components
/// and the remainder (empty when absent).
pub open spec fn split3(s: Seq<char>) -> (Seq<char>, Seq<char>, Seq<char>) {
    let i = first_sep(s);
    if i >= s.len() {
        (s, Seq::<char>::empty(), Seq::<char>::empty())
    } else {
        let r = s.skip(i + 1);
        let k = first_sep(r);
        if k >= r.len() {
            (s.take(i), r, Seq::<char>::empty())
        } else {
            (s.take(i), r.take(k), r.skip(k + 1))
        }
    }
}

/// The file URI of a Windows path, if it is an absolute drive or UNC path.
pub open spec fn windows_path_uri(p: Seq<char>) -> Option<UriView> {
    if p.len() >= 2 && p[0] == '\\' && p[1] == '\\' {
        let (server, share, rest) = split3(p.skip(2));
        if server.len() == 0 || share.len() == 0 {
            None
        } else {
            let uri_path = if rest.len() == 0 {
                seq!['/'] + share
            } else {
                seq!['/'] + share + seq!['/'] + replace_char(rest, '\\', '/')
            };
            Some(UriView {
                scheme: "file"@,
                authority: Some(server),
                path: uri_path_encoding(encode_utf8(uri_path)),
                query: None,
                fragment: None,
            })
        }
    } else if p.len() >= 3 && is_ascii_alpha(p[0]) && p[1] == ':' && is_win_sep(p[2]) {
        Some(UriView {
            scheme: "file"@,
            authority: None,
            path: uri_path_encoding(
                encode_utf8(seq!['/', ascii_lower(p[0]), ':'] + replace_char(p.skip(2), '\\', '/')),
            ),
            query: None,
            fragment: None,
        })
    } else {
        None
    }
}

fn find_sep(s: &Vec<char>, from: usize) -> (i: usize)
    requires
        from <= s.len(),
    ensures
        from <= i <= s.len(),
        i - from == first_sep(s@.skip(from as int)),
{
    let mut i = from;
    while i < s.len() && !(s[i] == '\\' || s[i] == '/')
        invariant
            from <= i <= s.len(),
            forall|j: int| from <= j < i ==> !is_win_sep(#[trigger] s@[j]),
        decreases s.len() - i,
    {
        i = i + 1;
    }
    proof {
        let t = s@.skip(from as int);
        assert forall|j: int| 0 <= j < i - from implies !is_win_sep(#[trigger] t[j]) by {
            assert(t[j] == s@[from + j]);
        }
        lemma_first_sep(t, i - from);
    }
    i
}

fn string_from_range(s: &Vec<char>, start: usize, end: usize) -> (out: String)
    requires
        start <= end <= s.len(),
    ensures
        out@ == s@.subrange(start as int, end as int),
{
    let mut out = String::new();
    let mut i = start;
    while i < end
        invariant
            start <= i <= end,
            end <= s.len(),
            out@ == s@.subrange(start as int, i as int),
        decreases end - i,
    {
        push_char(&mut out, s[i]);
        proof { assert(s@.subrange(start as int, i + 1) =~= s@.subrange(start as int, i as int).push(s@[i as int])); }
        i = i + 1;
    }
    out
}

/// The file URI of a Windows path: UNC paths keep the server as authority,
/// drive paths get a lower-case drive letter. Anything else is refused with
/// `fs.invalidUri`.
pub fn windows_path_str_to_file_uri(path_str: &str, display_path: &str) -> (r: Result<UriDto, ServiceError>)
    ensures
        match windows_path_uri(path_str@) {
            Some(u) => r matches Ok(x) && x@ == u,
            None => r matches Err(e) && e.code@ == "fs.invalidUri"@,
        },
{
    let p = chars_of(path_str);
    proof { reveal_strlit("file"); }
    if p.len() >= 2 && p[0] == '\\' && p[1] == '\\' {
        let ghost t = p@.skip(2);
        let i = find_sep(&p, 2);
        proof { lemma_first_sep_bound(t); }
        let server = string_from_range(&p, 2, i);
        let mut share_start = i;
        let mut share_end = i;
        let mut rest_start = p.len();
        if i < p.len() {
            share_start = i + 1;
            share_end = find_sep(&p, i + 1);
            proof {
                assert(t.skip(i - 2 + 1) =~= p@.skip(i + 1));
                lemma_first_sep_bound(p@.skip(i + 1));
            }
            if share_end < p.len() {
                rest_start = share_end + 1;
            } else {
                rest_start = p.len();
            }
        }
        proof {
            assert(server@ =~= t.take(i - 2));
        }
        if i == 2 || share_end == share_start {
            return Err(file_error(
                "fs.invalidUri",
                concat2("UNC file path must include server and share: ", display_path),
            ));
        }
        let share = string_from_range(&p, share_start, share_end);
        let mut uri_path = String::new();
        push_char(&mut uri_path, '/');
        push_str(&mut uri_path, share.as_str());
        if rest_start < p.len() {
            push_char(&mut uri_path, '/');
            replace_chars(&p, rest_start, '\\', '/', &mut uri_path);
        }
        proof {
            let r = t.skip(i - 2 + 1);
            assert(r =~= p@.skip(i + 1));
            assert(share@ =~= r.take(share_end - share_start));
            if share_end < p.len() {
                assert(r.skip(share_end - share_start + 1) =~= p@.skip(rest_start as int));
            } else {
                assert(r.take(share_end - share_start) =~= r);
            }
            let parts = split3(t);
            assert(parts.0 == server@);
            assert(parts.1 == share@);
            assert(parts.2 =~= p@.skip(rest_start as int));
            if rest_start < p.len() {
                assert(uri_path@ =~= seq!['/'] + share@ + seq!['/'] + replace_char(parts.2, '\\', '/'));
            } else {
                assert(uri_path@ =~= seq!['/'] + share@);
            }
        }
        let encoded = percent_encode_path_str(uri_path.as_str());
        return Ok(UriDto { scheme: owned("file"), authority: Some(server), path: encoded, query: None, fragment: None });
    }
    if p.len() < 3 || !is_alpha_char(p[0]) || p[1] != ':' || !(p[2] == '\\' || p[2] == '/') {
        return Err(file_error(
            "fs.invalidUri",
            concat2("Windows file path must be absolute: ", display_path),
        ));
    }
    let mut uri_path = String::new();
    push_char(&mut uri_path, '/');
    push_char(&mut uri_path, lower_char(p[0]));
    push_char(&mut uri_path, ':');
    replace_chars(&p, 2, '\\', '/', &mut uri_path);
    proof {
        assert(uri_path@ =~= seq!['/', ascii_lower(p@[0]), ':'] + replace_char(p@.skip(2), '\\', '/'));
    }
    let encoded = percent_encode_path_str(uri_path.as_str());
    Ok(UriDto { scheme: owned("file"), authority: None, path: encoded, query: None, fragment: None })
}

} // verus!
