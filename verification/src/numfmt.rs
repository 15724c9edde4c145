//! Decimal and hexadecimal rendering of integers.
use vstd::prelude::*;
use crate::text::push_char;

verus! {

/// The decimal digit for a value below ten.
pub open spec fn digit_char(d: nat) -> char {
    ((48 + d) as u32) as char
}

/// The decimal representation of `n`, without leading zeros.
pub open spec fn decimal(n: nat) -> Seq<char>
    decreases n,
{
    if n < 10 {
        seq![digit_char(n)]
    } else {
        decimal(n / 10).push(digit_char(n % 10))
    }
}

proof fn lemma_digit_char_injective(a: nat, b: nat)
    requires
        a < 10,
        b < 10,
        digit_char(a) == digit_char(b),
    ensures
        a == b,
{
    assert(digit_char(a) as u32 == 48 + a);
    assert(digit_char(b) as u32 == 48 + b);
}

/// A decimal representation has at least one digit.
pub proof fn lemma_decimal_nonempty(n: nat)
    ensures
        decimal(n).len() >= 1,
{
    lemma_decimal_len(n);
}

proof fn lemma_decimal_len(n: nat)
    ensures
        decimal(n).len() >= 1,
        n >= 10 ==> decimal(n).len() >= 2,
    decreases n,
{
    if n >= 10 {
        lemma_decimal_len(n / 10);
    }
}

/// Different numbers have different decimal representations.
pub proof fn lemma_decimal_injective(a: nat, b: nat)
    requires
        decimal(a) == decimal(b),
    ensures
        a == b,
    decreases a,
{
    lemma_decimal_len(a);
    lemma_decimal_len(b);
    if a < 10 && b < 10 {
        assert(decimal(a)[0] == digit_char(a));
        assert(decimal(b)[0] == digit_char(b));
        lemma_digit_char_injective(a, b);
    } else if a >= 10 && b >= 10 {
        assert(decimal(a).last() == digit_char(a % 10));
        assert(decimal(b).last() == digit_char(b % 10));
        lemma_digit_char_injective(a % 10, b % 10);
        assert(decimal(a / 10) =~= decimal(a).drop_last());
        assert(decimal(b / 10) =~= decimal(b).drop_last());
        lemma_decimal_injective(a / 10, b / 10);
    }
}

/// The lower-case hexadecimal digit for a value below sixteen.
pub open spec fn lower_hex_char(d: nat) -> char {
    if d < 10 { ((48 + d) as u32) as char } else { ((87 + d) as u32) as char }
}

/// The last `width` lower-case hexadecimal digits of `n`, zero padded.
pub open spec fn hex_fixed(n: nat, width: nat) -> Seq<char>
    decreases width,
{
    if width == 0 {
        seq![]
    } else {
        hex_fixed(n / 16, (width - 1) as nat).push(lower_hex_char(n % 16))
    }
}

/// Sixteen to the power `width`: the numbers that `width` hexadecimal
/// digits tell apart.
pub open spec fn hex_bound(width: nat) -> nat
    decreases width,
{
    if width == 0 { 1 } else { 16 * hex_bound((width - 1) as nat) }
}

pub proof fn lemma_hex_fixed_len(n: nat, width: nat)
    ensures
        hex_fixed(n, width).len() == width,
    decreases width,
{
    if width > 0 {
        lemma_hex_fixed_len(n / 16, (width - 1) as nat);
    }
}

proof fn lemma_lower_hex_char_injective(a: nat, b: nat)
    requires
        a < 16,
        b < 16,
        lower_hex_char(a) == lower_hex_char(b),
    ensures
        a == b,
{
    if a < 10 {
        assert(lower_hex_char(a) as u32 == 48 + a);
    } else {
        assert(lower_hex_char(a) as u32 == 87 + a);
    }
    if b < 10 {
        assert(lower_hex_char(b) as u32 == 48 + b);
    } else {
        assert(lower_hex_char(b) as u32 == 87 + b);
    }
}

/// Numbers below `16^width` have different `width`-digit hexadecimal
/// representations.
pub proof fn lemma_hex_fixed_injective(a: nat, b: nat, width: nat)
    requires
        a < hex_bound(width),
        b < hex_bound(width),
        hex_fixed(a, width) == hex_fixed(b, width),
    ensures
        a == b,
    decreases width,
{
    if width > 0 {
        let w = (width - 1) as nat;
        lemma_hex_fixed_len(a / 16, w);
        lemma_hex_fixed_len(b / 16, w);
        assert(hex_fixed(a, width).last() == lower_hex_char(a % 16));
        assert(hex_fixed(b, width).last() == lower_hex_char(b % 16));
        lemma_lower_hex_char_injective(a % 16, b % 16);
        assert(hex_fixed(a / 16, w) =~= hex_fixed(a, width).drop_last());
        assert(hex_fixed(b / 16, w) =~= hex_fixed(b, width).drop_last());
        lemma_hex_fixed_injective(a / 16, b / 16, w);
    }
}

fn digit(d: u64) -> (c: char)
    requires
        d < 10,
    ensures
        c == digit_char(d as nat),
{
    let b = (48 + d) as u8;
    proof { assert(b as u32 == (48 + d) as u32); }
    b as char
}

fn lower_hex_digit(d: u64) -> (c: char)
    requires
        d < 16,
    ensures
        c == lower_hex_char(d as nat),
{
    if d < 10 {
        let b = (48 + d) as u8;
        proof { assert(b as u32 == (48 + d) as u32); }
        b as char
    } else {
        let b = (87 + d) as u8;
        proof { assert(b as u32 == (87 + d) as u32); }
        b as char
    }
}

/// Appends the decimal representation of `n`.
pub fn push_decimal(out: &mut String, n: u64)
    ensures
        final(out)@ == old(out)@ + decimal(n as nat),
    decreases n,
{
    if n >= 10 {
        push_decimal(out, n / 10);
    }
    push_char(out, digit(n % 10));
    proof {
        if n < 10 {
            assert(n % 10 == n);
        }
    }
}

/// The decimal representation of `n`.
pub fn to_decimal(n: u64) -> (s: String)
    ensures
        s@ == decimal(n as nat),
{
    let mut s = String::new();
    push_decimal(&mut s, n);
    s
}

/// Appends the last `width` lower-case hexadecimal digits of `n`.
pub fn push_hex_fixed(out: &mut String, n: u64, width: u64)
    ensures
        final(out)@ == old(out)@ + hex_fixed(n as nat, width as nat),
    decreases width,
{
    if width == 0 {
        return;
    }
    push_hex_fixed(out, n / 16, width - 1);
    push_char(out, lower_hex_digit(n % 16));
}

} // verus!
