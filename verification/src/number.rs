//! Decimal integers: the grammar that `FromStr` accepts for Rust's integer
//! types, and decimal rendering as `Display` writes it.

use vstd::prelude::*;
use crate::text::push_char;

verus! {

pub open spec fn is_digit(c: char) -> bool {
    '0' <= c && c <= '9'
}

pub open spec fn digit_value(c: char) -> int {
    (c as int) - ('0' as int)
}

pub open spec fn all_digits(s: Seq<char>) -> bool {
    forall|i: int| 0 <= i < s.len() ==> is_digit(#[trigger] s[i])
}

/// The value of a run of decimal digits (most significant first).
pub open spec fn digits_value(s: Seq<char>) -> int
    decreases s.len(),
{
    if s.len() == 0 {
        0
    } else {
        digits_value(s.drop_last()) * 10 + digit_value(s.last())
    }
}

/// What `FromStr` gives for an unsigned integer type whose largest value is
/// `max`: an optional `+`, then one or more ASCII digits, within range.
pub open spec fn parse_unsigned(s: Seq<char>, max: int) -> Option<int> {
    let body = if s.len() > 0 && s[0] == '+' {
        s.drop_first()
    } else {
        s
    };
    if body.len() > 0 && all_digits(body) && digits_value(body) <= max {
        Some(digits_value(body))
    } else {
        None
    }
}

/// What `FromStr` gives for a signed integer type with range `min..=max`: an
/// optional `+` or `-`, then one or more ASCII digits, within range.
pub open spec fn parse_signed(s: Seq<char>, min: int, max: int) -> Option<int> {
    let neg = s.len() > 0 && s[0] == '-';
    let body = if s.len() > 0 && (s[0] == '+' || s[0] == '-') {
        s.drop_first()
    } else {
        s
    };
    if body.len() > 0 && all_digits(body) {
        let v = if neg {
            -digits_value(body)
        } else {
            digits_value(body)
        };
        if min <= v <= max {
            Some(v)
        } else {
            None
        }
    } else {
        None
    }
}

pub open spec fn parse_u32(s: Seq<char>) -> Option<int> {
    parse_unsigned(s, u32::MAX as int)
}

pub open spec fn parse_i32(s: Seq<char>) -> Option<int> {
    parse_signed(s, i32::MIN as int, i32::MAX as int)
}

pub open spec fn parse_i64(s: Seq<char>) -> Option<int> {
    parse_signed(s, i64::MIN as int, i64::MAX as int)
}

pub proof fn lemma_digits_value_nonneg(s: Seq<char>)
    requires
        all_digits(s),
    ensures
        digits_value(s) >= 0,
    decreases s.len(),
{
    if s.len() > 0 {
        assert(is_digit(s[s.len() - 1]));
        lemma_digits_value_nonneg(s.drop_last());
    }
}

/// A longer run of digits is worth at least as much as its prefix.
pub proof fn lemma_digits_value_monotone(s: Seq<char>, i: int, j: int)
    requires
        all_digits(s),
        0 <= i <= j <= s.len(),
    ensures
        digits_value(s.take(i)) <= digits_value(s.take(j)),
    decreases j - i,
{
    if i < j {
        lemma_digits_value_monotone(s, i, j - 1);
        let t = s.take(j);
        assert(t.drop_last() =~= s.take(j - 1));
        assert(is_digit(s[j - 1]));
        assert(all_digits(s.take(j - 1)));
        lemma_digits_value_nonneg(s.take(j - 1));
    }
}

pub open spec fn pow10(n: nat) -> int
    decreases n,
{
    if n == 0 {
        1
    } else {
        10 * pow10((n - 1) as nat)
    }
}

/// A run of `n` digits is worth less than `10^n`.
pub proof fn lemma_digits_value_bound(s: Seq<char>)
    requires
        all_digits(s),
    ensures
        0 <= digits_value(s) < pow10(s.len()),
    decreases s.len(),
{
    if s.len() > 0 {
        assert(is_digit(s[s.len() - 1]));
        assert(all_digits(s.drop_last()));
        lemma_digits_value_bound(s.drop_last());
        let v = digits_value(s.drop_last());
        let p = pow10(s.drop_last().len());
        assert(v * 10 + digit_value(s.last()) < 10 * p) by (nonlinear_arith)
            requires
                0 <= v < p,
                0 <= digit_value(s.last()) <= 9,
        {
        }
    }
}

pub proof fn lemma_pow10_positive(n: nat)
    ensures
        pow10(n) >= 1,
    decreases n,
{
    if n > 0 {
        lemma_pow10_positive((n - 1) as nat);
    }
}

pub proof fn lemma_pow10_monotone(a: nat, b: nat)
    requires
        a <= b,
    ensures
        1 <= pow10(a) <= pow10(b),
    decreases b,
{
    lemma_pow10_positive(a);
    if a < b {
        lemma_pow10_monotone(a, (b - 1) as nat);
    }
}

/// A parsed signed number is smaller in magnitude than `10^len`.
pub proof fn lemma_parse_signed_bound(s: Seq<char>, min: int, max: int)
    requires
        parse_signed(s, min, max) is Some,
    ensures
        -pow10(s.len()) < parse_signed(s, min, max)->0 < pow10(s.len()),
{
    let body = if s.len() > 0 && (s[0] == '+' || s[0] == '-') {
        s.drop_first()
    } else {
        s
    };
    lemma_digits_value_bound(body);
    lemma_pow10_monotone(body.len(), s.len());
}

pub fn is_digit_exec(c: char) -> (r: bool)
    ensures
        r == is_digit(c),
{
    '0' <= c && c <= '9'
}

/// The value of `v[start..end]` when it is a non-empty run of digits worth at
/// most `limit`; `None` otherwise.
pub fn digits_at_most(v: &Vec<char>, start: usize, end: usize, limit: u64) -> (r: Option<u64>)
    requires
        start <= end <= v.len(),
    ensures
        ({
            let s = v@.subrange(start as int, end as int);
            match r {
                Some(x) => s.len() > 0 && all_digits(s) && digits_value(s) == x && x <= limit,
                None => !(s.len() > 0 && all_digits(s) && digits_value(s) <= limit),
            }
        }),
{
    let ghost s = v@.subrange(start as int, end as int);
    if start == end {
        return None;
    }
    let mut acc: u64 = 0;
    let mut i = start;
    while i < end
        invariant
            start <= i <= end <= v.len(),
            s == v@.subrange(start as int, end as int),
            all_digits(s.take(i - start)),
            acc == digits_value(s.take(i - start)),
            acc <= limit,
        decreases end - i,
    {
        let c = v[i];
        if !is_digit_exec(c) {
            assert(s[i - start] == c);
            return None;
        }
        let d = (c as u32 - '0' as u32) as u64;
        proof {
            let t = s.take(i - start + 1);
            assert(t.drop_last() =~= s.take(i - start));
            assert(t.last() == c);
        }
        let next: u128 = acc as u128 * 10 + d as u128;
        if next > limit as u128 {
            proof {
                let k = (i - start + 1) as int;
                assert(s.take(k).drop_last() =~= s.take(k - 1));
                assert(all_digits(s.take(k)));
                if all_digits(s) {
                    lemma_digits_value_monotone(s, k, s.len() as int);
                    assert(s.take(s.len() as int) =~= s);
                }
            }
            return None;
        }
        acc = next as u64;
        i = i + 1;
    }
    assert(s.take(end - start) =~= s);
    Some(acc)
}

/// `FromStr` for an unsigned type with largest value `max` on `v[start..end]`.
pub fn parse_unsigned_at(v: &Vec<char>, start: usize, end: usize, max: u64) -> (r: Option<u64>)
    requires
        start <= end <= v.len(),
    ensures
        match r {
            Some(x) => parse_unsigned(v@.subrange(start as int, end as int), max as int) == Some(
                x as int,
            ),
            None => parse_unsigned(v@.subrange(start as int, end as int), max as int) is None,
        },
{
    let ghost s = v@.subrange(start as int, end as int);
    if start < end && v[start] == '+' {
        assert(v@.subrange(start + 1, end as int) =~= s.drop_first());
        digits_at_most(v, start + 1, end, max)
    } else {
        digits_at_most(v, start, end, max)
    }
}

/// `u32::from_str` on `v[start..end]`.
pub fn parse_u32_at(v: &Vec<char>, start: usize, end: usize) -> (r: Option<u32>)
    requires
        start <= end <= v.len(),
    ensures
        match r {
            Some(x) => parse_u32(v@.subrange(start as int, end as int)) == Some(x as int),
            None => parse_u32(v@.subrange(start as int, end as int)) is None,
        },
{
    match parse_unsigned_at(v, start, end, u32::MAX as u64) {
        Some(x) => Some(x as u32),
        None => None,
    }
}

/// `FromStr` for a signed type with range `min..=max` on `v[start..end]`.
pub fn parse_signed_at(v: &Vec<char>, start: usize, end: usize, min: i64, max: i64) -> (r: Option<
    i64,
>)
    requires
        start <= end <= v.len(),
        min <= 0 <= max,
    ensures
        match r {
            Some(x) => parse_signed(v@.subrange(start as int, end as int), min as int, max as int)
                == Some(x as int),
            None => parse_signed(v@.subrange(start as int, end as int), min as int, max as int) is None,
        },
{
    let ghost s = v@.subrange(start as int, end as int);
    let neg = start < end && v[start] == '-';
    let signed = start < end && (v[start] == '+' || v[start] == '-');
    let from = if signed {
        start + 1
    } else {
        start
    };
    assert(signed ==> v@.subrange(from as int, end as int) =~= s.drop_first());
    assert(!signed ==> v@.subrange(from as int, end as int) =~= s);
    let limit: u64 = if neg {
        (0i128 - min as i128) as u64
    } else {
        max as u64
    };
    match digits_at_most(v, from, end, limit) {
        Some(m) => {
            if neg {
                let x = (0i128 - m as i128) as i64;
                Some(x)
            } else {
                Some(m as i64)
            }
        },
        None => None,
    }
}

pub open spec fn digit_char(d: int) -> char {
    (d + 48) as char
}

/// Decimal digits of `n`, as `Display` writes an unsigned integer.
pub open spec fn decimal(n: nat) -> Seq<char>
    decreases n,
{
    if n < 10 {
        seq![digit_char(n as int)]
    } else {
        decimal(n / 10).push(digit_char((n % 10) as int))
    }
}

/// `Display` for a signed integer.
pub open spec fn decimal_int(i: int) -> Seq<char> {
    if i < 0 {
        seq!['-'] + decimal((-i) as nat)
    } else {
        decimal(i as nat)
    }
}

fn digit_char_exec(d: u64) -> (c: char)
    requires
        d < 10,
    ensures
        c == digit_char(d as int),
{
    ((d as u8) + 48u8) as char
}

/// Appends the decimal digits of `n`.
pub fn push_decimal(s: &mut String, n: u64)
    ensures
        final(s)@ == old(s)@ + decimal(n as nat),
    decreases n,
{
    if n >= 10 {
        push_decimal(s, n / 10);
    }
    push_char(s, digit_char_exec(n % 10));
    proof {
        if n >= 10 {
            assert(old(s)@ + decimal((n / 10) as nat) + seq![digit_char((n % 10) as int)]
                =~= old(s)@ + decimal(n as nat));
        } else {
            assert(old(s)@.push(digit_char(n as int)) =~= old(s)@ + decimal(n as nat));
        }
    }
}

/// Appends a signed integer as `Display` writes it.
pub fn push_decimal_int(s: &mut String, i: i64)
    ensures
        final(s)@ == old(s)@ + decimal_int(i as int),
{
    if i < 0 {
        push_char(s, '-');
        let m = (0i128 - i as i128) as u64;
        push_decimal(s, m);
        assert(old(s)@.push('-') + decimal(m as nat) =~= old(s)@ + (seq!['-'] + decimal(
            m as nat,
        )));
    } else {
        push_decimal(s, i as u64);
    }
}

} // verus!
