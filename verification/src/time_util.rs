//! ISO 8601 timestamps and "time until" text.

use vstd::prelude::*;
use crate::number::{
    decimal, decimal_int, is_digit, is_digit_exec, lemma_parse_signed_bound, parse_i32, parse_i64,
    parse_signed_at, pow10, push_decimal, push_decimal_int,
};
use std::time::{Duration, SystemTime};
use crate::text::{
    chars_of, is_white_space, lemma_leading_count, lemma_trailing_count, leading_count, trim,
    trim_bounds, white_space,
};

verus! {

/// Rust's `/` on integers: the quotient rounded toward zero.
pub open spec fn trunc_div(a: int, b: int) -> int {
    if a >= 0 {
        a / b
    } else {
        -((-a) / b)
    }
}

/// Days from 1970-01-01 to the proleptic Gregorian date `y-m-d`, by Howard
/// Hinnant's `days_from_civil` (the year starts in March; `/ 400` is floor
/// division, the month's day offset is Rust's truncating division).
pub open spec fn days_from_civil_spec(y: int, m: int, d: int) -> int {
    let y = if m <= 2 {
        y - 1
    } else {
        y
    };
    let era = y / 400;
    let yoe = y - era * 400;
    let mp = if m > 2 {
        m - 3
    } else {
        m + 9
    };
    let doy = trunc_div(153 * mp + 2, 5) + d - 1;
    let doe = yoe * 365 + yoe / 4 - yoe / 100 + doy;
    era * 146097 + doe - 719468
}

/// The shifted year that the computation divides by 400.
pub open spec fn march_year(y: int, m: int) -> int {
    if m <= 2 {
        y - 1
    } else {
        y
    }
}

/// Days since 1970-01-01 for the date `y-m-d`.
pub fn days_from_civil(y: i32, m: i32, d: i32) -> (r: i64)
    requires
        march_year(y as int, m as int) >= i32::MIN + 399,
    ensures
        r == days_from_civil_spec(y as int, m as int, d as int),
{
    let yy: i64 = if m <= 2 {
        y as i64 - 1
    } else {
        y as i64
    };
    let era: i64 = if yy >= 0 {
        yy / 400
    } else {
        -((399 - yy) / 400)
    };
    proof {
        if yy < 0 {
            let q = (yy as int) / 400;
            let r = (yy as int) % 400;
            vstd::arithmetic::div_mod::lemma_fundamental_div_mod(yy as int, 400);
            vstd::arithmetic::div_mod::lemma_fundamental_div_mod_converse(
                399 - yy,
                400,
                -q,
                399 - r,
            );
        }
    }
    let yoe = yy - era * 400;
    let mp: i64 = if m > 2 {
        m as i64 - 3
    } else {
        m as i64 + 9
    };
    let n = 153 * mp + 2;
    let q = if n >= 0 {
        n / 5
    } else {
        -((-n) / 5)
    };
    let doy = q + d as i64 - 1;
    proof {
        vstd::arithmetic::div_mod::lemma_fundamental_div_mod(yy as int, 400);
    }
    let doe = yoe * 365 + yoe / 4 - yoe / 100 + doy;
    era * 146097 + doe - 719468
}

/// Length of an optional fraction `.ddd` at the start of `rest`.
pub open spec fn fraction_len(rest: Seq<char>) -> nat {
    if rest.len() > 0 && rest[0] == '.' {
        1 + leading_count(rest.drop_first(), digit_pred())
    } else {
        0
    }
}

pub open spec fn digit_pred() -> spec_fn(char) -> bool {
    |c: char| is_digit(c)
}

pub open spec fn colon_free() -> spec_fn(char) -> bool {
    |c: char| c != ':'
}

/// The offset in seconds that a zone suffix (`""`, `"Z"`, `"+hh:mm"`,
/// `"-hhmm"`, `"+hh"`) stands for. Hours parse as `i64::from_str` on the first
/// two characters once colons are dropped, minutes on the next two (0 when
/// they are missing or do not parse).
pub open spec fn spec_parse_tz(tz: Seq<char>) -> Option<int> {
    if tz.len() == 0 || tz == seq!['Z'] {
        Some(0)
    } else if tz[0] != '+' && tz[0] != '-' {
        None
    } else {
        let sign: int = if tz[0] == '+' {
            1
        } else {
            -1
        };
        let body = tz.drop_first().filter(colon_free());
        if body.len() < 2 {
            None
        } else {
            match parse_i64(body.take(2)) {
                None => None,
                Some(h) => {
                    let m = if body.len() >= 4 {
                        match parse_i64(body.subrange(2, 4)) {
                            Some(m) => m,
                            None => 0,
                        }
                    } else {
                        0
                    };
                    Some(sign * (h * 3600 + m * 60))
                },
            }
        }
    }
}

pub open spec fn is_ascii_char(c: char) -> bool {
    (c as u32) < 128
}

/// Unix seconds for `YYYY-MM-DDThh:mm:ss[.fff][zone]` after trimming white
/// space. The date and time fields are read at fixed positions with
/// `FromStr` (`i32` for the date, `i64` for the time); the characters between
/// them must be ASCII but are not otherwise checked.
pub open spec fn spec_parse_iso8601(s: Seq<char>) -> Option<int> {
    let t = trim(s);
    if t.len() < 19 {
        None
    } else if !(is_ascii_char(t[4]) && is_ascii_char(t[7]) && is_ascii_char(t[10])
        && is_ascii_char(t[13]) && is_ascii_char(t[16])) {
        None
    } else {
        match (
            parse_i32(t.subrange(0, 4)),
            parse_i32(t.subrange(5, 7)),
            parse_i32(t.subrange(8, 10)),
            parse_i64(t.subrange(11, 13)),
            parse_i64(t.subrange(14, 16)),
            parse_i64(t.subrange(17, 19)),
        ) {
            (Some(y), Some(mo), Some(d), Some(h), Some(mi), Some(se)) => {
                let rest = t.skip(19);
                let tz = rest.skip(fraction_len(rest) as int);
                match spec_parse_tz(tz) {
                    None => None,
                    Some(off) => Some(
                        days_from_civil_spec(y, mo, d) * 86400 + h * 3600 + mi * 60 + se - off,
                    ),
                }
            },
            _ => None,
        }
    }
}

/// The zone offset of `v[start..end]`.
pub fn parse_tz_at(v: &Vec<char>, start: usize, end: usize) -> (r: Option<i64>)
    requires
        start <= end <= v.len(),
    ensures
        match r {
            Some(x) => spec_parse_tz(v@.subrange(start as int, end as int)) == Some(x as int)
                && -400000 < x < 400000,
            None => spec_parse_tz(v@.subrange(start as int, end as int)) is None,
        },
{
    let ghost tz = v@.subrange(start as int, end as int);
    if start == end {
        return Some(0);
    }
    if end - start == 1 && v[start] == 'Z' {
        assert(tz =~= seq!['Z']);
        return Some(0);
    }
    assert(tz != seq!['Z']) by {
        if end - start == 1 {
            assert(tz[0] == v@[start as int]);
        } else {
            assert(tz.len() != 1);
        }
    }
    let c0 = v[start];
    if c0 != '+' && c0 != '-' {
        return None;
    }
    let sign: i64 = if c0 == '+' {
        1
    } else {
        -1
    };
    let mut body: Vec<char> = Vec::new();
    let mut i = start + 1;
    let ghost rest = tz.drop_first();
    assert(rest =~= v@.subrange(start + 1, end as int));
    while i < end
        invariant
            start + 1 <= i <= end <= v.len(),
            rest == v@.subrange(start + 1, end as int),
            body@ == rest.take(i - start - 1).filter(colon_free()),
        decreases end - i,
    {
        proof {
            reveal_with_fuel(Seq::<_>::filter, 1);
            let k = i - start;
            assert(rest.take(k).drop_last() =~= rest.take(k - 1));
            assert(rest.take(k).last() == v@[i as int]);
        }
        if v[i] != ':' {
            body.push(v[i]);
        }
        i = i + 1;
    }
    assert(rest.take(end - start - 1) =~= rest);
    if body.len() < 2 {
        return None;
    }
    let h = match parse_signed_at(&body, 0, 2, i64::MIN, i64::MAX) {
        Some(h) => h,
        None => {
            assert(body@.subrange(0, 2) =~= body@.take(2));
            return None;
        },
    };
    assert(body@.subrange(0, 2) =~= body@.take(2));
    proof {
        lemma_parse_signed_bound(body@.take(2), i64::MIN as int, i64::MAX as int);
        reveal_with_fuel(pow10, 3);
    }
    let m: i64 = if body.len() >= 4 {
        match parse_signed_at(&body, 2, 4, i64::MIN, i64::MAX) {
            Some(m) => {
                proof {
                    lemma_parse_signed_bound(
                        body@.subrange(2, 4),
                        i64::MIN as int,
                        i64::MAX as int,
                    );
                }
                m
            },
            None => 0,
        }
    } else {
        0
    };
    Some(sign * (h * 3600 + m * 60))
}

/// The offset in seconds of a zone suffix such as `"Z"` or `"+09:00"`.
pub fn parse_tz(tz: &str) -> (r: Option<i64>)
    ensures
        match r {
            Some(x) => spec_parse_tz(tz@) == Some(x as int),
            None => spec_parse_tz(tz@) is None,
        },
{
    let v = chars_of(tz);
    assert(v@.subrange(0, v.len() as int) =~= v@);
    parse_tz_at(&v, 0, v.len())
}

pub fn is_ascii_char_exec(c: char) -> (r: bool)
    ensures
        r == is_ascii_char(c),
{
    (c as u32) < 128
}

proof fn lemma_days_bound(y: int, m: int, d: int)
    requires
        -10000 < y < 10000,
        -100 < m < 100,
        -100 < d < 100,
    ensures
        -10_000_000 < days_from_civil_spec(y, m, d) < 10_000_000,
{
    let yy = march_year(y, m);
    vstd::arithmetic::div_mod::lemma_fundamental_div_mod(yy, 400);
    let era = yy / 400;
    let yoe = yy - era * 400;
    assert(-26 <= era <= 25);
    let mp = if m > 2 {
        m - 3
    } else {
        m + 9
    };
    assert(-91 <= mp <= 96);
    let n = 153 * mp + 2;
    vstd::arithmetic::div_mod::lemma_fundamental_div_mod(-n, 5);
    vstd::arithmetic::div_mod::lemma_fundamental_div_mod(n, 5);
    vstd::arithmetic::div_mod::lemma_fundamental_div_mod(yoe, 4);
    vstd::arithmetic::div_mod::lemma_fundamental_div_mod(yoe, 100);
    assert(-3000 <= trunc_div(n, 5) <= 3000);
    assert(0 <= yoe / 4 <= 100);
    assert(0 <= yoe / 100 <= 4);
}

/// End of an optional fraction `.ddd` that starts at `v[start]`.
fn skip_fraction(v: &Vec<char>, start: usize, end: usize) -> (idx: usize)
    requires
        start <= end <= v.len(),
    ensures
        start <= idx <= end,
        idx - start == fraction_len(v@.subrange(start as int, end as int)),
{
    let ghost rest = v@.subrange(start as int, end as int);
    let mut idx = start;
    if idx < end && v[idx] == '.' {
        idx = idx + 1;
        let ghost ds = rest.drop_first();
        while idx < end && is_digit_exec(v[idx])
            invariant
                start + 1 <= idx <= end <= v.len(),
                rest == v@.subrange(start as int, end as int),
                ds == rest.drop_first(),
                forall|j: int| 0 <= j < idx - start - 1 ==> digit_pred()(#[trigger] ds[j]),
            decreases end - idx,
        {
            assert(ds[idx - start - 1] == v@[idx as int]);
            idx = idx + 1;
        }
        proof {
            if idx < end {
                assert(ds[idx - start - 1] == v@[idx as int]);
            }
            lemma_leading_count(ds, digit_pred(), idx - start - 1);
        }
    }
    idx
}

/// Parses `YYYY-MM-DDThh:mm:ss[.fff][zone]` into Unix seconds.
pub fn parse_iso8601(s: &str) -> (r: Option<i64>)
    ensures
        match r {
            Some(x) => spec_parse_iso8601(s@) == Some(x as int),
            None => spec_parse_iso8601(s@) is None,
        },
{
    let v = chars_of(s);
    let (a, b) = trim_bounds(&v);
    let ghost t = trim(s@);
    assert(t == v@.subrange(a as int, b as int));
    if b - a < 19 {
        return None;
    }
    if !(is_ascii_char_exec(v[a + 4]) && is_ascii_char_exec(v[a + 7]) && is_ascii_char_exec(
        v[a + 10],
    ) && is_ascii_char_exec(v[a + 13]) && is_ascii_char_exec(v[a + 16])) {
        assert(t[4] == v@[a + 4] && t[7] == v@[a + 7] && t[10] == v@[a + 10] && t[13] == v@[a
            + 13] && t[16] == v@[a + 16]);
        return None;
    }
    assert(t[4] == v@[a + 4] && t[7] == v@[a + 7] && t[10] == v@[a + 10] && t[13] == v@[a + 13]
        && t[16] == v@[a + 16]);
    assert(v@.subrange(a as int, a + 4) =~= t.subrange(0, 4));
    assert(v@.subrange(a + 5, a + 7) =~= t.subrange(5, 7));
    assert(v@.subrange(a + 8, a + 10) =~= t.subrange(8, 10));
    assert(v@.subrange(a + 11, a + 13) =~= t.subrange(11, 13));
    assert(v@.subrange(a + 14, a + 16) =~= t.subrange(14, 16));
    assert(v@.subrange(a + 17, a + 19) =~= t.subrange(17, 19));
    let y = parse_signed_at(&v, a, a + 4, i32::MIN as i64, i32::MAX as i64);
    let mo = parse_signed_at(&v, a + 5, a + 7, i32::MIN as i64, i32::MAX as i64);
    let d = parse_signed_at(&v, a + 8, a + 10, i32::MIN as i64, i32::MAX as i64);
    let h = parse_signed_at(&v, a + 11, a + 13, i64::MIN, i64::MAX);
    let mi = parse_signed_at(&v, a + 14, a + 16, i64::MIN, i64::MAX);
    let se = parse_signed_at(&v, a + 17, a + 19, i64::MIN, i64::MAX);
    match (y, mo, d, h, mi, se) {
        (Some(y), Some(mo), Some(d), Some(h), Some(mi), Some(se)) => {
            proof {
                lemma_parse_signed_bound(t.subrange(0, 4), i32::MIN as int, i32::MAX as int);
                lemma_parse_signed_bound(t.subrange(5, 7), i32::MIN as int, i32::MAX as int);
                lemma_parse_signed_bound(t.subrange(8, 10), i32::MIN as int, i32::MAX as int);
                lemma_parse_signed_bound(t.subrange(11, 13), i64::MIN as int, i64::MAX as int);
                lemma_parse_signed_bound(t.subrange(14, 16), i64::MIN as int, i64::MAX as int);
                lemma_parse_signed_bound(t.subrange(17, 19), i64::MIN as int, i64::MAX as int);
                reveal_with_fuel(pow10, 5);
            }
            let ghost rest = t.skip(19);
            assert(rest =~= v@.subrange(a + 19, b as int));
            let idx = skip_fraction(&v, a + 19, b);
            assert(v@.subrange(idx as int, b as int) =~= rest.skip(fraction_len(rest) as int));
            match parse_tz_at(&v, idx, b) {
                None => None,
                Some(off) => {
                    proof {
                        lemma_days_bound(y as int, mo as int, d as int);
                    }
                    let days = days_from_civil(y as i32, mo as i32, d as i32);
                    Some(days * 86400 + h * 3600 + mi * 60 + se - off)
                },
            }
        },
        _ => None,
    }
}

/// The compact text for a span of `secs` seconds: `"Xd Yh"` from a day up,
/// `"Xh Ym"` from an hour up, else `"Xm"` in whole minutes (`"0m"` under a
/// minute).
pub open spec fn duration_text(secs: int) -> Seq<char> {
    if secs >= 86400 {
        decimal((secs / 86400) as nat) + "d "@ + decimal(((secs % 86400) / 3600) as nat) + "h"@
    } else if secs >= 3600 {
        decimal((secs / 3600) as nat) + "h "@ + decimal(((secs % 3600) / 60) as nat) + "m"@
    } else {
        decimal_int(trunc_div(secs, 60)) + "m"@
    }
}

/// Renders a span of seconds as [`duration_text`] describes.
pub fn format_duration(secs: i64) -> (r: String)
    ensures
        r@ == duration_text(secs as int),
{
    let mut s = String::new();
    if secs >= 86400 {
        push_decimal(&mut s, (secs / 86400) as u64);
        s.append("d ");
        push_decimal(&mut s, ((secs % 86400) / 3600) as u64);
        s.append("h");
    } else if secs >= 3600 {
        push_decimal(&mut s, (secs / 3600) as u64);
        s.append("h ");
        push_decimal(&mut s, ((secs % 3600) / 60) as u64);
        s.append("m");
    } else {
        let minutes: i64 = if secs >= 0 {
            secs / 60
        } else {
            (0i128 - ((0i128 - secs as i128) / 60)) as i64
        };
        push_decimal_int(&mut s, minutes);
        s.append("m");
    }
    assert(s@ =~= duration_text(secs as int));
    s
}

/// The text for the span from `now` until the moment `iso` names; `None` when
/// `iso` does not parse or the moment is not after `now`.
pub open spec fn spec_time_until(iso: Seq<char>, now: int) -> Option<Seq<char>> {
    match spec_parse_iso8601(iso) {
        None => None,
        Some(t) => if t - now <= 0 {
            None
        } else {
            Some(duration_text(t - now))
        },
    }
}

/// "Time until" `iso`, seen from the Unix second `now`.
pub fn time_until_at(iso: &str, now: i64) -> (r: Option<String>)
    requires
        spec_parse_iso8601(iso@) matches Some(t) ==> i64::MIN <= t - now <= i64::MAX,
    ensures
        match r {
            Some(x) => spec_time_until(iso@, now as int) == Some(x@),
            None => spec_time_until(iso@, now as int) is None,
        },
{
    match parse_iso8601(iso) {
        None => None,
        Some(target) => {
            let diff = target - now;
            if diff <= 0 {
                None
            } else {
                Some(format_duration(diff))
            }
        },
    }
}

/// The standard library's wall-clock time, carried through opaquely.
#[verifier::external_type_specification]
#[verifier::external_body]
pub struct ExSystemTime(std::time::SystemTime);

/// `SystemTime::now`. The clock's reading is not promised anything.
#[verifier::external_body]
fn system_time_now() -> SystemTime {
    SystemTime::now()
}

/// `SystemTime::duration_since(UNIX_EPOCH)`, `None` for a time before the
/// epoch. Nothing is promised of the span.
#[verifier::external_body]
fn since_unix_epoch(t: &SystemTime) -> Option<Duration> {
    t.duration_since(std::time::UNIX_EPOCH).ok()
}

/// `Duration::as_secs`. Nothing is promised of the count.
#[verifier::external_body]
fn whole_seconds(d: &Duration) -> u64 {
    d.as_secs()
}

/// "Time until" `iso` for a clock reading: `since_epoch` is the whole
/// seconds since the Unix epoch, `None` when the clock reads before it.
/// `None` also when `iso` does not parse, the moment is not ahead, or the
/// reading or the span does not fit in `i64`.
pub open spec fn spec_time_until_from_clock(iso: Seq<char>, since_epoch: Option<u64>) -> Option<
    Seq<char>,
> {
    match since_epoch {
        None => None,
        Some(s) => if s > i64::MAX {
            None
        } else {
            match spec_parse_iso8601(iso) {
                None => None,
                Some(t) => if t - s < i64::MIN || t - s > i64::MAX {
                    None
                } else {
                    spec_time_until(iso, s as int)
                },
            }
        },
    }
}

/// "Time until" `iso` for the clock reading `since_epoch` (whole seconds
/// since the Unix epoch, `None` for a clock before it).
pub fn time_until_from_clock(iso: &str, since_epoch: Option<u64>) -> (r: Option<String>)
    ensures
        match r {
            Some(x) => spec_time_until_from_clock(iso@, since_epoch) == Some(x@),
            None => spec_time_until_from_clock(iso@, since_epoch) is None,
        },
{
    let secs = match since_epoch {
        None => return None,
        Some(s) => s,
    };
    if secs > i64::MAX as u64 {
        return None;
    }
    let target = match parse_iso8601(iso) {
        None => return None,
        Some(t) => t,
    };
    let now = secs as i64;
    let diff: i128 = target as i128 - now as i128;
    if diff > i64::MAX as i128 || diff < i64::MIN as i128 {
        return None;
    }
    time_until_at(iso, now)
}

/// "Time until" `iso` from the current wall-clock second: `"Xd Yh"`,
/// `"Xh Ym"` or `"Xm"`; `None` when `iso` does not parse, the moment
/// has passed, or the clock reads before the Unix epoch. The result is
/// [`time_until_from_clock`]'s for the clock's reading; which reading that
/// is, nothing here can state.
pub fn time_until(iso: &str) -> (r: Option<String>)
    ensures
        exists|since_epoch: Option<u64>|
            match r {
                Some(x) => spec_time_until_from_clock(iso@, since_epoch) == Some(x@),
                None => spec_time_until_from_clock(iso@, since_epoch) is None,
            },
        spec_parse_iso8601(iso@) is None ==> r is None,
{
    let clock = system_time_now();
    let reading = match since_unix_epoch(&clock) {
        None => None,
        Some(d) => Some(whole_seconds(&d)),
    };
    time_until_from_clock(iso, reading)
}

/// Leap years of the proleptic Gregorian calendar.
pub open spec fn is_leap(y: int) -> bool {
    y % 4 == 0 && (y % 100 != 0 || y % 400 == 0)
}

/// Days in month `m` (1 to 12) of year `y`.
pub open spec fn month_len(y: int, m: int) -> int {
    if m == 2 {
        if is_leap(y) {
            29
        } else {
            28
        }
    } else if m == 4 || m == 6 || m == 9 || m == 11 {
        30
    } else {
        31
    }
}

/// The calendar date after `y-m-d`.
pub open spec fn next_date(y: int, m: int, d: int) -> (int, int, int) {
    if d < month_len(y, m) {
        (y, m, d + 1)
    } else if m < 12 {
        (y, m + 1, 1)
    } else {
        (y + 1, 1, 1)
    }
}

/// Day numbers count from the Unix epoch: 1970-01-01 is day 0.
pub proof fn lemma_epoch_is_day_zero()
    ensures
        days_from_civil_spec(1970, 1, 1) == 0,
{
    assert(1969int / 400 == 4);
    assert(369int / 4 == 92);
    assert(369int / 100 == 3);
    assert(trunc_div(153int * 10 + 2, 5) == 306);
}

/// The day after the last of February is March 1st: the year's length and
/// the leap day line up with the 400-year cycle.
proof fn lemma_february_to_march(y: int, d: int)
    requires
        d == month_len(y, 2),
    ensures
        days_from_civil_spec(y, 3, 1) == days_from_civil_spec(y, 2, d) + 1,
{
    let yy = y - 1;
    vstd::arithmetic::div_mod::lemma_fundamental_div_mod(yy, 400);
    let q = yy / 400;
    let r = yy % 400;
    assert(trunc_div(153int * 11 + 2, 5) == 337);
    assert(trunc_div(153int * 0 + 2, 5) == 0);
    vstd::arithmetic::div_mod::lemma_fundamental_div_mod(r, 4);
    vstd::arithmetic::div_mod::lemma_fundamental_div_mod(r, 100);
    vstd::arithmetic::div_mod::lemma_fundamental_div_mod(r + 1, 4);
    vstd::arithmetic::div_mod::lemma_fundamental_div_mod(r + 1, 100);
    if r < 399 {
        vstd::arithmetic::div_mod::lemma_fundamental_div_mod_converse(y, 400, q, r + 1);
        vstd::arithmetic::div_mod::lemma_fundamental_div_mod_converse(
            y,
            4,
            100 * q + (r + 1) / 4,
            (r + 1) % 4,
        );
        vstd::arithmetic::div_mod::lemma_fundamental_div_mod_converse(
            y,
            100,
            4 * q + (r + 1) / 100,
            (r + 1) % 100,
        );
        assert((r + 1) / 4 - r / 4 == (if (r + 1) % 4 == 0 {
            1int
        } else {
            0
        }));
        assert((r + 1) / 100 - r / 100 == (if (r + 1) % 100 == 0 {
            1int
        } else {
            0
        }));
    } else {
        vstd::arithmetic::div_mod::lemma_fundamental_div_mod_converse(y, 400, q + 1, 0);
        vstd::arithmetic::div_mod::lemma_fundamental_div_mod_converse(y, 4, 100 * (q + 1), 0);
        vstd::arithmetic::div_mod::lemma_fundamental_div_mod_converse(y, 100, 4 * (q + 1), 0);
        assert(399int / 4 == 99);
        assert(399int / 100 == 3);
    }
}

/// Consecutive calendar dates have consecutive day numbers.
pub proof fn lemma_next_day(y: int, m: int, d: int)
    requires
        1 <= m <= 12,
        1 <= d <= month_len(y, m),
    ensures
        days_from_civil_spec(next_date(y, m, d).0, next_date(y, m, d).1, next_date(y, m, d).2)
            == days_from_civil_spec(y, m, d) + 1,
{
    if d < month_len(y, m) {
    } else if m == 2 {
        lemma_february_to_march(y, d);
    } else if m < 12 {
        assert(trunc_div(153int * 10 + 2, 5) == 306);
        assert(trunc_div(153int * 11 + 2, 5) == 337);
        assert(trunc_div(153int * 0 + 2, 5) == 0);
        assert(trunc_div(153int * 1 + 2, 5) == 31);
        assert(trunc_div(153int * 2 + 2, 5) == 61);
        assert(trunc_div(153int * 3 + 2, 5) == 92);
        assert(trunc_div(153int * 4 + 2, 5) == 122);
        assert(trunc_div(153int * 5 + 2, 5) == 153);
        assert(trunc_div(153int * 6 + 2, 5) == 184);
        assert(trunc_div(153int * 7 + 2, 5) == 214);
        assert(trunc_div(153int * 8 + 2, 5) == 245);
        assert(trunc_div(153int * 9 + 2, 5) == 275);
    } else {
        assert(trunc_div(153int * 9 + 2, 5) == 275);
        assert(trunc_div(153int * 10 + 2, 5) == 306);
    }
}

/// Text that neither starts nor ends with white space is its own trim.
pub proof fn lemma_trim_plain(s: Seq<char>)
    requires
        s.len() > 0,
        !is_white_space(s[0]),
        !is_white_space(s.last()),
    ensures
        trim(s) == s,
{
    lemma_leading_count(s, white_space(), 0);
    assert(s.skip(0) =~= s);
    lemma_trailing_count(s, white_space(), 0);
    assert(s.take(s.len() as int) =~= s);
}

proof fn lemma_base_fields(b: Seq<char>, z: Seq<char>)
    requires
        b.len() == 19,
    ensures
        (b + z).subrange(0, 4) == b.subrange(0, 4),
        (b + z).subrange(5, 7) == b.subrange(5, 7),
        (b + z).subrange(8, 10) == b.subrange(8, 10),
        (b + z).subrange(11, 13) == b.subrange(11, 13),
        (b + z).subrange(14, 16) == b.subrange(14, 16),
        (b + z).subrange(17, 19) == b.subrange(17, 19),
        (b + z)[4] == b[4] && (b + z)[7] == b[7] && (b + z)[10] == b[10] && (b + z)[13] == b[13]
            && (b + z)[16] == b[16],
        (b + z).skip(19) == z,
{
    assert((b + z).subrange(0, 4) =~= b.subrange(0, 4));
    assert((b + z).subrange(5, 7) =~= b.subrange(5, 7));
    assert((b + z).subrange(8, 10) =~= b.subrange(8, 10));
    assert((b + z).subrange(11, 13) =~= b.subrange(11, 13));
    assert((b + z).subrange(14, 16) =~= b.subrange(14, 16));
    assert((b + z).subrange(17, 19) =~= b.subrange(17, 19));
    assert((b + z).skip(19) =~= z);
}

/// A zone suffix shifts the moment by its offset: for a 19-character date
/// and time `b` and a zone `z` (not a fraction), `b + z` names the moment
/// `b` names in UTC, less the zone's offset.
pub proof fn lemma_zone_shifts(b: Seq<char>, z: Seq<char>)
    requires
        b.len() == 19,
        !is_white_space(b[0]),
        !is_white_space(b[18]),
        z.len() == 0 || (!is_white_space(z.last()) && z[0] != '.'),
    ensures
        spec_parse_iso8601(b + z) == match (spec_parse_iso8601(b), spec_parse_tz(z)) {
            (Some(t), Some(off)) => Some(t - off),
            _ => None::<int>,
        },
{
    lemma_trim_plain(b);
    assert((b + z)[0] == b[0]);
    if z.len() == 0 {
        assert(b + z =~= b);
    } else {
        assert((b + z).last() == z.last());
    }
    lemma_trim_plain(b + z);
    lemma_base_fields(b, z);
    lemma_base_fields(b, Seq::empty());
    assert(b + Seq::<char>::empty() =~= b);
    assert(fraction_len(Seq::<char>::empty()) == 0);
    assert(Seq::<char>::empty().skip(0) =~= Seq::<char>::empty());
    assert(spec_parse_tz(Seq::<char>::empty()) == Some(0int));
    assert(fraction_len(z) == 0);
    assert(z.skip(0) =~= z);
}

/// Fractional seconds are ignored: `b + "." + digits + z` names the same
/// moment as `b + z`.
pub proof fn lemma_fraction_ignored(b: Seq<char>, ds: Seq<char>, z: Seq<char>)
    requires
        b.len() == 19,
        !is_white_space(b[0]),
        !is_white_space(b[18]),
        forall|i: int| 0 <= i < ds.len() ==> is_digit(#[trigger] ds[i]),
        z.len() == 0 || (!is_white_space(z.last()) && z[0] != '.' && !is_digit(z[0])),
    ensures
        spec_parse_iso8601(b + (seq!['.'] + ds + z)) == spec_parse_iso8601(b + z),
{
    let f = seq!['.'] + ds + z;
    lemma_trim_plain(b);
    assert((b + f)[0] == b[0]);
    assert((b + f).last() == f.last());
    if z.len() == 0 {
        assert(b + z =~= b);
        if ds.len() == 0 {
            assert(f.last() == '.');
        } else {
            assert(f.last() == ds.last());
            assert(is_digit(ds[ds.len() - 1]));
        }
    } else {
        assert((b + z).last() == z.last());
        assert(f.last() == z.last());
    }
    lemma_trim_plain(b + f);
    lemma_trim_plain(b + z);
    lemma_base_fields(b, f);
    lemma_base_fields(b, z);
    assert(f.drop_first() =~= ds + z);
    assert forall|j: int| 0 <= j < ds.len() implies digit_pred()(#[trigger] (ds + z)[j]) by {
        assert((ds + z)[j] == ds[j]);
    }
    if z.len() > 0 {
        assert((ds + z)[ds.len() as int] == z[0]);
    }
    lemma_leading_count(ds + z, digit_pred(), ds.len() as int);
    assert(fraction_len(f) == 1 + ds.len());
    assert(f.skip(1 + ds.len() as int) =~= z);
    assert(fraction_len(z) == 0);
    assert(z.skip(0) =~= z);
}


} // verus!
