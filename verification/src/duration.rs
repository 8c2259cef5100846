//! Durations with nanosecond resolution, and their decimal notation.

use vstd::prelude::*;
use crate::num::{all_digits, all_digits_v, digits_val, digits_value_capped, min_nat};
use crate::text::{find_char, find_char_v, slice};

verus! {

/// Largest duration: `u64::MAX` seconds and 999_999_999 nanoseconds.
pub const MAX_NANOS: u128 = 18_446_744_073_709_551_615_999_999_999u128;

/// A span of time, counted in nanoseconds.
#[derive(Clone, Copy, Debug, PartialEq, Eq, Structural, PartialOrd, Ord, Hash)]
pub struct Duration {
    nanos: u128,
}

impl Duration {
    /// Length of the span in nanoseconds.
    pub closed spec fn ns(self) -> nat {
        self.nanos as nat
    }

    pub fn zero() -> (d: Duration)
        ensures
            d.ns() == 0,
    {
        Duration { nanos: 0 }
    }

    pub fn from_nanos(n: u64) -> (d: Duration)
        ensures
            d.ns() == n,
    {
        Duration { nanos: n as u128 }
    }

    pub fn from_micros(n: u64) -> (d: Duration)
        ensures
            d.ns() == n * 1000,
    {
        Duration { nanos: n as u128 * 1000 }
    }

    pub fn from_millis(n: u64) -> (d: Duration)
        ensures
            d.ns() == n * 1_000_000,
    {
        Duration { nanos: n as u128 * 1_000_000 }
    }

    pub fn from_secs(n: u64) -> (d: Duration)
        ensures
            d.ns() == n * 1_000_000_000,
    {
        Duration { nanos: n as u128 * 1_000_000_000 }
    }

    /// Duration of `n` nanoseconds, capped at the largest duration.
    pub fn from_nanos_u128(n: u128) -> (d: Duration)
        ensures
            d.ns() == min_nat(n as nat, MAX_NANOS as nat),
    {
        Duration { nanos: if n > MAX_NANOS { MAX_NANOS } else { n } }
    }

    pub fn as_nanos(&self) -> (r: u128)
        ensures
            r == self.ns(),
    {
        self.nanos
    }

    pub fn as_millis(&self) -> (r: u128)
        ensures
            r == self.ns() / 1_000_000,
    {
        self.nanos / 1_000_000
    }

    pub fn as_micros(&self) -> (r: u128)
        ensures
            r == self.ns() / 1_000,
    {
        self.nanos / 1_000
    }

    /// Whole seconds (at most `u64::MAX`).
    pub fn as_secs(&self) -> (r: u64)
        ensures
            r == min_nat(self.ns() / 1_000_000_000, u64::MAX as nat),
    {
        let s = self.nanos / 1_000_000_000;
        if s > u64::MAX as u128 {
            u64::MAX
        } else {
            s as u64
        }
    }

    /// Sum of two durations, capped at the largest duration.
    pub fn saturating_add(self, other: Duration) -> (d: Duration)
        ensures
            d.ns() == min_nat(self.ns() + other.ns(), MAX_NANOS as nat),
    {
        if self.nanos > MAX_NANOS || other.nanos > MAX_NANOS - self.nanos {
            Duration { nanos: MAX_NANOS }
        } else {
            Duration { nanos: self.nanos + other.nanos }
        }
    }

    /// Ordering of durations by length.
    pub fn lt(&self, other: &Duration) -> (r: bool)
        ensures
            r == (self.ns() < other.ns()),
    {
        self.nanos < other.nanos
    }

    pub fn is_zero(&self) -> (r: bool)
        ensures
            r == (self.ns() == 0),
    {
        self.nanos == 0
    }
}

/// Sign, integer digits and fraction digits of a decimal number
/// `[+-]digits[.digits]` (at least one digit in all).
pub open spec fn decimal_parts(s: Seq<char>) -> Option<(bool, Seq<char>, Seq<char>)> {
    let neg = s.len() > 0 && s[0] == '-';
    let body = if s.len() > 0 && (s[0] == '+' || s[0] == '-') { s.drop_first() } else { s };
    match find_char(body, '.') {
        None => if body.len() > 0 && all_digits(body) { Some((neg, body, seq![])) } else { None },
        Some(i) => {
            let ip = body.take(i);
            let fp = body.skip(i + 1);
            if all_digits(ip) && all_digits(fp) && ip.len() + fp.len() > 0 {
                Some((neg, ip, fp))
            } else {
                None
            }
        },
    }
}

/// The first `m` fraction digits, padded with zeros.
pub open spec fn frac_prefix(fp: Seq<char>, m: nat) -> Seq<char> {
    Seq::new(m, |k: int| if k < fp.len() { fp[k] } else { '0' })
}

/// Nanoseconds denoted by the decimal `s` read in a unit of `unit`
/// nanoseconds, where one unit of the `m`-th fraction digit is `per`
/// nanoseconds: negative values give zero, large ones the largest duration,
/// digits past the `m`-th are dropped.
pub open spec fn decimal_nanos(s: Seq<char>, unit: nat, m: nat, per: nat) -> Option<nat> {
    match decimal_parts(s) {
        None => None,
        Some((neg, ip, fp)) => if neg {
            Some(0)
        } else {
            Some(min_nat(digits_val(ip) * unit + digits_val(frac_prefix(fp, m)) * per, MAX_NANOS as nat))
        },
    }
}

pub open spec fn pow10(m: nat) -> nat
    decreases m,
{
    if m == 0 { 1 } else { 10 * pow10((m - 1) as nat) }
}

proof fn lemma_digits_val_bound(s: Seq<char>)
    requires
        all_digits(s),
    ensures
        digits_val(s) < pow10(s.len()),
    decreases s.len(),
{
    if s.len() > 0 {
        lemma_digits_val_bound(s.drop_last());
        assert(all_digits(s.drop_last())) by {
            assert forall|i: int| 0 <= i < s.drop_last().len() implies crate::text::is_digit(
                #[trigger] s.drop_last()[i],
            ) by {
                assert(s.drop_last()[i] == s[i]);
            }
        }
        assert(crate::text::is_digit(s[s.len() - 1]));
    }
}

/// Sign, whole digits and fraction digits of a decimal number.
pub fn decimal_parts_v(s: &Vec<char>) -> (r: Option<(bool, Vec<char>, Vec<char>)>)
    ensures
        match r {
            Some((neg, ip, fp)) => decimal_parts(s@) == Some((neg, ip@, fp@)),
            None => decimal_parts(s@) is None,
        },
{
    let neg = s.len() > 0 && s[0] == '-';
    let body = if s.len() > 0 && (s[0] == '+' || s[0] == '-') {
        slice(s, 1, s.len())
    } else {
        slice(s, 0, s.len())
    };
    assert(s.len() > 0 && (s@[0] == '+' || s@[0] == '-') ==> body@ =~= s@.drop_first());
    assert(!(s.len() > 0 && (s@[0] == '+' || s@[0] == '-')) ==> body@ =~= s@);
    match find_char_v(&body, '.') {
        None => {
            if body.len() == 0 || !all_digits_v(&body) {
                return None;
            }
            Some((neg, body, Vec::new()))
        },
        Some(i) => {
            let ip = slice(&body, 0, i);
            let fp = slice(&body, i + 1, body.len());
            assert(ip@ =~= body@.take(i as int));
            assert(fp@ =~= body@.skip(i + 1));
            if !all_digits_v(&ip) || !all_digits_v(&fp) || ip.len() + fp.len() == 0 {
                return None;
            }
            Some((neg, ip, fp))
        },
    }
}

/// Value of the first `m` fraction digits (zero padded).
pub fn frac_value_v(fp: &Vec<char>, m: usize) -> (fv: u128)
    requires
        all_digits(fp@),
        m <= 9,
    ensures
        fv == digits_val(frac_prefix(fp@, m as nat)),
        fv < pow10(m as nat),
        fv < 1_000_000_000,
{
    let mut fv: u128 = 0;
    let mut k: usize = 0;
    let ghost fpre = frac_prefix(fp@, m as nat);
    assert(all_digits(fpre));
    while k < m
        invariant
            k <= m <= 9,
            all_digits(fp@),
            fpre == frac_prefix(fp@, m as nat),
            all_digits(fpre),
            fv == digits_val(fpre.take(k as int)),
            fv < pow10(k as nat),
        decreases m - k,
    {
        let c = if k < fp.len() { fp[k] } else { '0' };
        assert(c == fpre[k as int]);
        assert(crate::text::is_digit(fpre[k as int]));
        proof {
            crate::num::lemma_digits_val_push(fpre.take(k as int), c);
            assert(fpre.take(k as int).push(c) =~= fpre.take(k + 1));
            assert(pow10((k + 1) as nat) == 10 * pow10(k as nat));
            assert(pow10(k as nat) <= 100_000_000) by {
                reveal_with_fuel(pow10, 10);
            }
        }
        fv = fv * 10 + (c as u32 - '0' as u32) as u128;
        k += 1;
    }
    assert(fpre.take(m as int) =~= fpre);
    assert(pow10(m as nat) <= 1_000_000_000) by {
        reveal_with_fuel(pow10, 10);
    }
    fv
}

/// Parses a decimal number of units (see `decimal_nanos`) into a duration.
pub fn parse_decimal_duration(s: &Vec<char>, unit: u128, m: usize, per: u128) -> (r: Option<Duration>)
    requires
        1_000_000 <= unit <= 60_000_000_000,
        m <= 9,
        per <= 60,
    ensures
        match r {
            Some(d) => decimal_nanos(s@, unit as nat, m as nat, per as nat) == Some(d.ns()),
            None => decimal_nanos(s@, unit as nat, m as nat, per as nat) is None,
        },
{
    let (neg, ip, fp) = match decimal_parts_v(s) {
        Some(p) => p,
        None => {
            return None;
        },
    };
    if neg {
        return Some(Duration::zero());
    }
    let fv = frac_value_v(&fp, m);
    let cap: u128 = 0x8_0000_0000_0000_0000_0000;  // 2^75
    let iv = digits_value_capped(&ip, cap);
    proof {
        let ipv = digits_val(ip@);
        if ipv >= cap {
            assert(iv == cap);
            assert(cap as nat * unit as nat >= MAX_NANOS) by (nonlinear_arith)
                requires cap == 0x8_0000_0000_0000_0000_0000u128, unit >= 1_000_000;
            assert(ipv * unit >= cap as nat * unit as nat) by (nonlinear_arith)
                requires ipv >= cap;
        }
        assert(iv <= cap);
        assert(iv * unit <= 0x8_0000_0000_0000_0000_0000 * 60_000_000_000) by (nonlinear_arith)
            requires iv <= 0x8_0000_0000_0000_0000_0000u128, unit <= 60_000_000_000u128;
        assert(fv * per <= 1_000_000_000 * 60) by (nonlinear_arith)
            requires fv < 1_000_000_000, per <= 60;
    }
    let total = iv * unit + fv * per;
    Some(Duration::from_nanos_u128(total))
}

/// Seconds as a decimal number (`"1.5"`), as a duration.
pub fn parse_secs(s: &Vec<char>) -> (r: Option<Duration>)
    ensures
        match r {
            Some(d) => decimal_nanos(s@, 1_000_000_000, 9, 1) == Some(d.ns()),
            None => decimal_nanos(s@, 1_000_000_000, 9, 1) is None,
        },
{
    parse_decimal_duration(s, 1_000_000_000, 9, 1)
}

/// Milliseconds as a decimal number (`"12.5"`), as a duration.
pub fn parse_millis(s: &Vec<char>) -> (r: Option<Duration>)
    ensures
        match r {
            Some(d) => decimal_nanos(s@, 1_000_000, 6, 1) == Some(d.ns()),
            None => decimal_nanos(s@, 1_000_000, 6, 1) is None,
        },
{
    parse_decimal_duration(s, 1_000_000, 6, 1)
}

} // verus!
