//! Laws of timestamp reading: where the fields stand and how the calendar
//! moves the moment.

use vstd::prelude::*;
use crate::number::{decimal, decimal_int, all_digits, digit_value, digits_value, is_digit, parse_i32, parse_i64};
use crate::text::is_white_space;
use crate::time_util::{
    colon_free, days_from_civil_spec, duration_text, fraction_len, spec_parse_tz, lemma_epoch_is_day_zero, lemma_next_day, lemma_trim_plain,
    month_len, next_date, spec_parse_iso8601,
};

verus! {

/// The ASCII digit for `k` (0 to 9).
pub open spec fn digit_char(k: int) -> char {
    if k == 0 {
        '0'
    } else if k == 1 {
        '1'
    } else if k == 2 {
        '2'
    } else if k == 3 {
        '3'
    } else if k == 4 {
        '4'
    } else if k == 5 {
        '5'
    } else if k == 6 {
        '6'
    } else if k == 7 {
        '7'
    } else if k == 8 {
        '8'
    } else {
        '9'
    }
}

/// `n` (0 to 99) written with two digits.
pub open spec fn two_digits(n: int) -> Seq<char> {
    seq![digit_char(n / 10), digit_char(n % 10)]
}

/// `n` (0 to 9999) written with four digits.
pub open spec fn four_digits(n: int) -> Seq<char> {
    seq![digit_char(n / 1000), digit_char((n / 100) % 10), digit_char((n / 10) % 10), digit_char(n % 10)]
}

/// The UTC timestamp `YYYY-MM-DDThh:mm:ssZ` for the given fields (each
/// written with its number of digits).
pub open spec fn utc_stamp(y: int, mo: int, d: int, h: int, mi: int, se: int) -> Seq<char> {
    seq![
        digit_char(y / 1000), digit_char((y / 100) % 10), digit_char((y / 10) % 10), digit_char(y % 10),
        '-', digit_char(mo / 10), digit_char(mo % 10),
        '-', digit_char(d / 10), digit_char(d % 10),
        'T', digit_char(h / 10), digit_char(h % 10),
        ':', digit_char(mi / 10), digit_char(mi % 10),
        ':', digit_char(se / 10), digit_char(se % 10),
        'Z',
    ]
}

proof fn lemma_digit_char(k: int)
    requires
        0 <= k < 10,
    ensures
        is_digit(digit_char(k)),
        digit_value(digit_char(k)) == k,
        !is_white_space(digit_char(k)),
{
}

proof fn lemma_two_digits(n: int)
    requires
        0 <= n < 100,
    ensures
        parse_i32(two_digits(n)) == Some(n),
        parse_i64(two_digits(n)) == Some(n),
{
    let s = two_digits(n);
    lemma_digit_char(n / 10);
    lemma_digit_char(n % 10);
    assert(all_digits(s));
    assert(s.drop_last() =~= seq![digit_char(n / 10)]);
    assert(seq![digit_char(n / 10)].drop_last() =~= Seq::<char>::empty());
    reveal_with_fuel(digits_value, 3);
    assert(digits_value(s) == n);
}

proof fn lemma_four_digits(n: int)
    requires
        0 <= n < 10000,
    ensures
        parse_i32(four_digits(n)) == Some(n),
{
    let s = four_digits(n);
    lemma_digit_char(n / 1000);
    lemma_digit_char((n / 100) % 10);
    lemma_digit_char((n / 10) % 10);
    lemma_digit_char(n % 10);
    assert(all_digits(s));
    let s3 = s.drop_last();
    let s2 = s3.drop_last();
    let s1 = s2.drop_last();
    assert(s1 =~= seq![digit_char(n / 1000)]);
    assert(s1.drop_last() =~= Seq::<char>::empty());
    reveal_with_fuel(digits_value, 2);
    assert(digits_value(s1) == n / 1000);
    assert(digits_value(s2) == n / 100);
    assert(digits_value(s3) == n / 10);
    assert(digits_value(s) == n);
}

/// The date and time fields of a timestamp are read where they stand: the
/// year from its first four characters, the month from the two after the
/// first dash, the day from the two after the second, then hour, minute and
/// second. A UTC timestamp names the moment that many days, hours, minutes
/// and seconds after the epoch.
pub proof fn lemma_utc_stamp(y: int, mo: int, d: int, h: int, mi: int, se: int)
    requires
        0 <= y < 10000,
        0 <= mo < 100,
        0 <= d < 100,
        0 <= h < 100,
        0 <= mi < 100,
        0 <= se < 100,
    ensures
        spec_parse_iso8601(utc_stamp(y, mo, d, h, mi, se)) == Some(
            days_from_civil_spec(y, mo, d) * 86400 + h * 3600 + mi * 60 + se,
        ),
{
    let t = utc_stamp(y, mo, d, h, mi, se);
    lemma_digit_char(y / 1000);
    assert(t.len() == 20);
    assert(t[0] == digit_char(y / 1000));
    assert(t[19] == 'Z');
    lemma_trim_plain(t);
    assert(t.subrange(0, 4) =~= four_digits(y));
    assert(t.subrange(5, 7) =~= two_digits(mo));
    assert(t.subrange(8, 10) =~= two_digits(d));
    assert(t.subrange(11, 13) =~= two_digits(h));
    assert(t.subrange(14, 16) =~= two_digits(mi));
    assert(t.subrange(17, 19) =~= two_digits(se));
    assert(t[4] == '-' && t[7] == '-' && t[10] == 'T' && t[13] == ':' && t[16] == ':');
    lemma_four_digits(y);
    lemma_two_digits(mo);
    lemma_two_digits(d);
    lemma_two_digits(h);
    lemma_two_digits(mi);
    lemma_two_digits(se);
    let rest = t.skip(19);
    assert(rest =~= seq!['Z']);
    assert(fraction_len(rest) == 0);
    assert(rest.skip(0) =~= seq!['Z']);
}

/// The day after a date names the moment one day later: moving the day
/// field on by one (or to the first of the next month or year at its end)
/// moves the timestamp 86400 seconds on.
pub proof fn lemma_next_day_stamp(y: int, mo: int, d: int, h: int, mi: int, se: int)
    requires
        0 <= y < 9999,
        1 <= mo <= 12,
        1 <= d <= month_len(y, mo),
        0 <= h < 100,
        0 <= mi < 100,
        0 <= se < 100,
    ensures
        ({
            let (y2, mo2, d2) = next_date(y, mo, d);
            spec_parse_iso8601(utc_stamp(y2, mo2, d2, h, mi, se)) matches Some(b)
                && spec_parse_iso8601(utc_stamp(y, mo, d, h, mi, se)) matches Some(a) && b == a
                + 86400
        }),
{
    let (y2, mo2, d2) = next_date(y, mo, d);
    lemma_utc_stamp(y, mo, d, h, mi, se);
    lemma_utc_stamp(y2, mo2, d2, h, mi, se);
    lemma_next_day(y, mo, d);
}

/// The epoch itself: `1970-01-01T00:00:00Z` is second 0.
pub proof fn lemma_epoch_stamp()
    ensures
        spec_parse_iso8601(utc_stamp(1970, 1, 1, 0, 0, 0)) == Some(0int),
{
    lemma_utc_stamp(1970, 1, 1, 0, 0, 0);
    lemma_epoch_is_day_zero();
}


/// A zone suffix `+hh:mm` is that many hours and minutes ahead of UTC, so it
/// stands for `hh * 3600 + mm * 60` seconds; `-hh:mm` for the negative.
pub proof fn lemma_zone_offset(hh: int, mm: int)
    requires
        0 <= hh < 100,
        0 <= mm < 100,
    ensures
        spec_parse_tz(seq!['+'] + two_digits(hh) + seq![':'] + two_digits(mm)) == Some(
            hh * 3600 + mm * 60,
        ),
        spec_parse_tz(seq!['-'] + two_digits(hh) + seq![':'] + two_digits(mm)) == Some(
            -(hh * 3600 + mm * 60),
        ),
{
    lemma_two_digits(hh);
    lemma_two_digits(mm);
    lemma_digit_char(hh / 10);
    lemma_digit_char(hh % 10);
    lemma_digit_char(mm / 10);
    lemma_digit_char(mm % 10);
    let body = two_digits(hh) + seq![':'] + two_digits(mm);
    let kept = two_digits(hh) + two_digits(mm);
    assert(body.filter(colon_free()) =~= kept) by {
        reveal_with_fuel(Seq::<_>::filter, 6);
        assert(body =~= seq![digit_char(hh / 10), digit_char(hh % 10), ':', digit_char(mm / 10), digit_char(mm % 10)]);
        assert(body.drop_last() =~= seq![digit_char(hh / 10), digit_char(hh % 10), ':', digit_char(mm / 10)]);
        assert(body.drop_last().drop_last() =~= seq![digit_char(hh / 10), digit_char(hh % 10), ':']);
        assert(body.drop_last().drop_last().drop_last() =~= seq![digit_char(hh / 10), digit_char(hh % 10)]);
        assert(body.drop_last().drop_last().drop_last().drop_last() =~= seq![digit_char(hh / 10)]);
        assert(body.drop_last().drop_last().drop_last().drop_last().drop_last() =~= Seq::<char>::empty());
    }
    assert(kept.take(2) =~= two_digits(hh));
    assert(kept.subrange(2, 4) =~= two_digits(mm));
    let plus = seq!['+'] + body;
    let minus = seq!['-'] + body;
    assert(plus.drop_first() =~= body);
    assert(minus.drop_first() =~= body);
    assert(plus != seq!['Z']) by {
        assert(plus.len() == 6);
    }
    assert(minus != seq!['Z']) by {
        assert(minus.len() == 6);
    }
    assert(seq!['+'] + two_digits(hh) + seq![':'] + two_digits(mm) =~= plus);
    assert(seq!['-'] + two_digits(hh) + seq![':'] + two_digits(mm) =~= minus);
    assert(minus[0] == '-');
    let x = hh * 3600 + mm * 60;
    assert(-1 * x == -x) by (nonlinear_arith);
}


/// A span of `days` days, `hours` hours, `mins` minutes and `secs` seconds
/// (each below its next unit) reads as its two largest units: `"Dd Hh"`
/// from a day up, `"Hh Mm"` from an hour up, else `"Mm"`; seconds never show.
pub proof fn lemma_duration_units(days: int, hours: int, mins: int, secs: int)
    requires
        days >= 0,
        0 <= hours < 24,
        0 <= mins < 60,
        0 <= secs < 60,
    ensures
        ({
            let total = days * 86400 + hours * 3600 + mins * 60 + secs;
            &&& days >= 1 ==> duration_text(total) == decimal(days as nat) + "d "@ + decimal(
                hours as nat,
            ) + "h"@
            &&& days == 0 && hours >= 1 ==> duration_text(total) == decimal(hours as nat) + "h "@
                + decimal(mins as nat) + "m"@
            &&& days == 0 && hours == 0 ==> duration_text(total) == decimal_int(mins) + "m"@
        }),
{
    let total = days * 86400 + hours * 3600 + mins * 60 + secs;
    let r = hours * 3600 + mins * 60 + secs;
    vstd::arithmetic::div_mod::lemma_fundamental_div_mod_converse(total, 86400, days, r);
    vstd::arithmetic::div_mod::lemma_fundamental_div_mod_converse(r, 3600, hours, mins * 60 + secs);
    vstd::arithmetic::div_mod::lemma_fundamental_div_mod_converse(mins * 60 + secs, 60, mins, secs);
    if days == 0 && hours >= 1 {
        vstd::arithmetic::div_mod::lemma_fundamental_div_mod_converse(total, 3600, hours, mins * 60 + secs);
    }
    if days == 0 && hours == 0 {
        vstd::arithmetic::div_mod::lemma_fundamental_div_mod_converse(total, 60, mins, secs);
    }
}

} // verus!
