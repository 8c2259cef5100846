//! Decimal and hexadecimal numerals.

use vstd::prelude::*;
use crate::text::{is_ascii_digit, is_digit, slice};

verus! {

/// Numeric value of a decimal digit character.
pub open spec fn digit_val(c: char) -> nat {
    (c as int - '0' as int) as nat
}

/// Value of a sequence of decimal digits (most significant first).
pub open spec fn digits_val(s: Seq<char>) -> nat
    decreases s.len(),
{
    if s.len() == 0 {
        0
    } else {
        digits_val(s.drop_last()) * 10 + digit_val(s.last())
    }
}

pub open spec fn all_digits(s: Seq<char>) -> bool {
    forall|i: int| 0 <= i < s.len() ==> is_digit(#[trigger] s[i])
}

/// The digits of an unsigned integer literal: one optional `+`, then at
/// least one decimal digit and nothing else.
pub open spec fn unsigned_digits(s: Seq<char>) -> Option<Seq<char>> {
    let d = if s.len() > 0 && s[0] == '+' { s.drop_first() } else { s };
    if d.len() > 0 && all_digits(d) { Some(d) } else { None }
}

/// What `str::parse::<usize>` accepts, and the value it gives.
pub open spec fn parse_usize_spec(s: Seq<char>) -> Option<usize> {
    match unsigned_digits(s) {
        Some(d) => if digits_val(d) <= usize::MAX { Some(digits_val(d) as usize) } else { None },
        None => None,
    }
}

/// What `str::parse::<u64>` accepts, and the value it gives.
pub open spec fn parse_u64_spec(s: Seq<char>) -> Option<u64> {
    match unsigned_digits(s) {
        Some(d) => if digits_val(d) <= u64::MAX { Some(digits_val(d) as u64) } else { None },
        None => None,
    }
}

/// What `str::parse::<u32>` accepts, and the value it gives.
pub open spec fn parse_u32_spec(s: Seq<char>) -> Option<u32> {
    match unsigned_digits(s) {
        Some(d) => if digits_val(d) <= u32::MAX { Some(digits_val(d) as u32) } else { None },
        None => None,
    }
}

pub open spec fn digit_char(d: nat) -> char {
    (d + '0' as nat) as char
}

/// Decimal representation of `n` (as `format!("{}", n)` writes it).
pub open spec fn decimal(n: nat) -> Seq<char>
    decreases n,
{
    if n < 10 {
        seq![digit_char(n)]
    } else {
        decimal(n / 10).push(digit_char(n % 10))
    }
}

pub open spec fn hex_char(d: nat) -> char {
    if d < 10 { (d + '0' as nat) as char } else { (d - 10 + 'a' as nat) as char }
}

/// The `w` lowest hexadecimal digits of `n`, zero-padded, lower case.
pub open spec fn hex_fixed(n: nat, w: nat) -> Seq<char>
    decreases w,
{
    if w == 0 {
        seq![]
    } else {
        hex_fixed(n / 16, (w - 1) as nat).push(hex_char(n % 16))
    }
}

/// A lowercase hexadecimal digit.
pub open spec fn is_lower_hex(c: char) -> bool {
    ('0' <= c && c <= '9') || ('a' <= c && c <= 'f')
}

pub proof fn lemma_hex_fixed_shape(n: nat, w: nat)
    ensures
        hex_fixed(n, w).len() == w,
        forall|i: int| 0 <= i < w ==> is_lower_hex(#[trigger] hex_fixed(n, w)[i]),
    decreases w,
{
    if w > 0 {
        lemma_hex_fixed_shape(n / 16, (w - 1) as nat);
        let d = n % 16;
        let c = hex_char(d);
        assert(is_lower_hex(c)) by {
            if d < 10 {
                assert((d + '0' as nat) as char == c);
                assert(c as u32 == d + 48);
            } else {
                assert(c as u32 == d - 10 + 97);
            }
        }
        let prev = hex_fixed(n / 16, (w - 1) as nat);
        assert forall|i: int| 0 <= i < w implies is_lower_hex(#[trigger] hex_fixed(n, w)[i]) by {
            if i < w - 1 {
                assert(hex_fixed(n, w)[i] == prev[i]);
            }
        }
    }
}

/// Values are capped at `cap`: the saturated value of a digit string.
pub open spec fn min_nat(a: nat, b: nat) -> nat {
    if a <= b { a } else { b }
}

pub proof fn lemma_digits_val_push(s: Seq<char>, c: char)
    ensures
        digits_val(s.push(c)) == digits_val(s) * 10 + digit_val(c),
{
    assert(s.push(c).drop_last() =~= s);
}

/// Value of the digit string `s` (all digits), saturated at `cap`.
pub fn digits_value_capped(s: &Vec<char>, cap: u128) -> (r: u128)
    requires
        all_digits(s@),
        cap <= u128::MAX / 16,
    ensures
        r == min_nat(digits_val(s@), cap as nat),
{
    let mut acc: u128 = 0;
    let mut i: usize = 0;
    while i < s.len()
        invariant
            i <= s.len(),
            all_digits(s@),
            cap <= u128::MAX / 16,
            acc == min_nat(digits_val(s@.take(i as int)), cap as nat),
        decreases s.len() - i,
    {
        let c = s[i];
        assert(is_digit(s@[i as int]));
        let d = (c as u32 - '0' as u32) as u128;
        proof {
            lemma_digits_val_push(s@.take(i as int), c);
            assert(s@.take(i as int).push(c) =~= s@.take(i + 1));
        }
        if acc >= cap {
            acc = cap;
        } else {
            let next = acc * 10 + d;
            acc = if next > cap { cap } else { next };
        }
        i += 1;
    }
    assert(s@.take(s.len() as int) =~= s@);
    acc
}

pub fn all_digits_v(s: &Vec<char>) -> (r: bool)
    ensures
        r == all_digits(s@),
{
    let mut i: usize = 0;
    while i < s.len()
        invariant
            i <= s.len(),
            forall|j: int| 0 <= j < i ==> is_digit(#[trigger] s@[j]),
        decreases s.len() - i,
    {
        if !is_ascii_digit(s[i]) {
            return false;
        }
        i += 1;
    }
    true
}

/// `str::parse::<u64>` on a character sequence.
pub fn parse_u64(s: &Vec<char>) -> (r: Option<u64>)
    ensures
        r == parse_u64_spec(s@),
{
    let d = if s.len() > 0 && s[0] == '+' { slice(s, 1, s.len()) } else { slice(s, 0, s.len()) };
    assert(s.len() > 0 && s@[0] == '+' ==> d@ =~= s@.drop_first());
    assert(!(s.len() > 0 && s@[0] == '+') ==> d@ =~= s@);
    if d.len() == 0 || !all_digits_v(&d) {
        return None;
    }
    let cap: u128 = 0x1_0000_0000_0000_0000;
    let v = digits_value_capped(&d, cap);
    if v > u64::MAX as u128 {
        None
    } else {
        Some(v as u64)
    }
}

/// `str::parse::<usize>` on a character sequence.
pub fn parse_usize(s: &Vec<char>) -> (r: Option<usize>)
    ensures
        r == parse_usize_spec(s@),
{
    match parse_u64(s) {
        Some(v) => {
            if v as u128 > usize::MAX as u128 {
                None
            } else {
                Some(v as usize)
            }
        },
        None => {
            None
        },
    }
}

/// `str::parse::<u32>` on a character sequence.
pub fn parse_u32(s: &Vec<char>) -> (r: Option<u32>)
    ensures
        r == parse_u32_spec(s@),
{
    match parse_u64(s) {
        Some(v) => if v > u32::MAX as u64 { None } else { Some(v as u32) },
        None => None,
    }
}

/// Decimal digits of `n`.
pub fn fmt_u128(n: u128) -> (r: Vec<char>)
    ensures
        r@ == decimal(n as nat),
    decreases n,
{
    if n < 10 {
        let mut v: Vec<char> = Vec::new();
        let c = ((n as u32) + ('0' as u32)) as u8 as char;
        v.push(c);
        assert(v@ =~= seq![digit_char(n as nat)]);
        v
    } else {
        let mut v = fmt_u128(n / 10);
        let c = (((n % 10) as u32) + ('0' as u32)) as u8 as char;
        v.push(c);
        v
    }
}

/// Decimal digits of `n`.
pub fn fmt_usize(n: usize) -> (r: Vec<char>)
    ensures
        r@ == decimal(n as nat),
{
    fmt_u128(n as u128)
}

/// Decimal digits of `n`.
pub fn fmt_u64(n: u64) -> (r: Vec<char>)
    ensures
        r@ == decimal(n as nat),
{
    fmt_u128(n as u128)
}

/// `w` lowest hexadecimal digits of `n`.
pub fn fmt_hex_fixed(n: u64, w: usize) -> (r: Vec<char>)
    ensures
        r@ == hex_fixed(n as nat, w as nat),
    decreases w,
{
    if w == 0 {
        Vec::new()
    } else {
        let mut v = fmt_hex_fixed(n / 16, w - 1);
        let d = n % 16;
        let c = if d < 10 { ((d as u32) + ('0' as u32)) as u8 as char } else { ((d as u32) - 10 + ('a' as u32)) as u8 as char };
        v.push(c);
        v
    }
}

} // verus!
