//! UTC calendar arithmetic for report timestamps: seconds since the Unix
//! epoch to `YYYY-MM-DDTHH:MM:SSZ` (proleptic Gregorian, no leap
//! seconds).

use vstd::prelude::*;
use vstd::arithmetic::div_mod::lemma_fundamental_div_mod;
use vstd::arithmetic::div_mod::lemma_fundamental_div_mod_converse;
use crate::text::{decimal, decimal_chars, push_char, push_zero_padded, zero_pad};

verus! {

/// Gregorian leap year.
pub open spec fn is_leap(y: int) -> bool {
    y % 4 == 0 && (y % 100 != 0 || y % 400 == 0)
}

/// 1 in a leap year, else 0.
pub open spec fn leap_days(y: int) -> int {
    if is_leap(y) {
        1
    } else {
        0
    }
}

/// Number of days in month `m` (1-based) of year `y`.
pub open spec fn days_in_month(y: int, m: int) -> int {
    if m == 2 {
        28 + leap_days(y)
    } else if m == 4 || m == 6 || m == 9 || m == 11 {
        30
    } else {
        31
    }
}

/// `(y, m, d)` names a day of the calendar.
pub open spec fn valid_date(y: int, m: int, d: int) -> bool {
    1 <= m <= 12 && 1 <= d <= days_in_month(y, m)
}

/// The leap-year count `x/4 - x/100 + x/400` (floor division): the leap
/// years in `1..=x` for positive `x`; differences of it count leap years
/// in any range.
pub open spec fn leaps_through(x: int) -> int {
    x / 4 - x / 100 + x / 400
}

/// Days from 1970-01-01 to January 1st of year `y`.
pub open spec fn days_before_year(y: int) -> int {
    365 * (y - 1970) + leaps_through(y - 1) - leaps_through(1969)
}

/// Days from January 1st of `y` to the first of month `m`.
pub open spec fn days_before_month(y: int, m: int) -> int {
    let common: int = if m == 1 {
        0
    } else if m == 2 {
        31
    } else if m == 3 {
        59
    } else if m == 4 {
        90
    } else if m == 5 {
        120
    } else if m == 6 {
        151
    } else if m == 7 {
        181
    } else if m == 8 {
        212
    } else if m == 9 {
        243
    } else if m == 10 {
        273
    } else if m == 11 {
        304
    } else {
        334
    };
    common + if m > 2 {
        leap_days(y)
    } else {
        0
    }
}

/// Days from 1970-01-01 to the date `(y, m, d)`; negative before it.
pub open spec fn days_from_civil(y: int, m: int, d: int) -> int {
    days_before_year(y) + days_before_month(y, m) + d - 1
}

/// The year as `{:04}` renders a signed integer: zero-padded to four
/// characters, the sign counting as one of them.
pub open spec fn year_text(y: int) -> Seq<char> {
    if y >= 0 {
        zero_pad(decimal(y as nat), 4)
    } else {
        seq!['-'] + zero_pad(decimal((-y) as nat), 3)
    }
}

/// A two-digit zero-padded field (`{:02}`).
pub open spec fn two_digits(n: int) -> Seq<char> {
    zero_pad(decimal(n as nat), 2)
}

/// `YYYY-MM-DDTHH:MM:SSZ` for the date `(y, m, d)` and the second of the
/// day `sod`.
pub open spec fn iso_text(y: int, m: int, d: int, sod: int) -> Seq<char> {
    year_text(y) + seq!['-'] + two_digits(m) + seq!['-'] + two_digits(d) + seq!['T'] + two_digits(
        sod / 3600,
    ) + seq![':'] + two_digits((sod % 3600) / 60) + seq![':'] + two_digits(sod % 60) + seq!['Z']
}

// ----------------------------------------------------------------------
// Lemmas
// ----------------------------------------------------------------------

/// Each year adds 365 days, and one more when it is a leap year.
pub proof fn lemma_year_step(y: int)
    ensures
        days_before_year(y + 1) == days_before_year(y) + 365 + leap_days(y),
{
    let x = y - 1;
    lemma_fundamental_div_mod(x, 4);
    lemma_fundamental_div_mod(x, 100);
    lemma_fundamental_div_mod(x, 400);
    lemma_fundamental_div_mod(y, 4);
    lemma_fundamental_div_mod(y, 100);
    lemma_fundamental_div_mod(y, 400);
    assert(y / 4 - x / 4 == (if y % 4 == 0 { 1int } else { 0int }));
    assert(y / 100 - x / 100 == (if y % 100 == 0 { 1int } else { 0int }));
    assert(y / 400 - x / 400 == (if y % 400 == 0 { 1int } else { 0int }));
    assert(y % 400 == 0 ==> y % 100 == 0 && y % 4 == 0) by {
        if y % 400 == 0 {
            lemma_fundamental_div_mod_converse(y, 100, 4 * (y / 400), 0);
            lemma_fundamental_div_mod_converse(y, 4, 100 * (y / 400), 0);
        }
    }
    assert(y % 100 == 0 ==> y % 4 == 0) by {
        if y % 100 == 0 {
            lemma_fundamental_div_mod_converse(y, 4, 25 * (y / 100), 0);
        }
    }
}

/// The z-index (days since 0000-03-01) of March 1st of year `y`.
pub open spec fn march_start(y: int) -> int {
    days_before_year(y) + 59 + leap_days(y) + 719468
}

/// A March-to-February year is 365 days long, or 366 when the February
/// it ends with has a 29th.
pub proof fn lemma_march_step(y: int)
    ensures
        march_start(y + 1) == march_start(y) + 365 + leap_days(y + 1),
{
    lemma_year_step(y);
}

/// Every 400-year era starts on March 1st of a multiple of 400, at a
/// multiple of 146097 days.
pub proof fn lemma_era_start(e: int)
    ensures
        march_start(400 * e) == 146097 * e,
{
    let y = 400 * e;
    lemma_fundamental_div_mod_converse(y - 1, 4, 100 * e - 1, 3);
    lemma_fundamental_div_mod_converse(y - 1, 100, 4 * e - 1, 99);
    lemma_fundamental_div_mod_converse(y - 1, 400, e - 1, 399);
    lemma_fundamental_div_mod_converse(y, 4, 100 * e, 0);
    lemma_fundamental_div_mod_converse(y, 100, 4 * e, 0);
    lemma_fundamental_div_mod_converse(y, 400, e, 0);
    assert(leaps_through(1969) == 477);
    assert(leaps_through(y - 1) == 97 * e - 1);
    assert(is_leap(y));
}

/// Leap years repeat every 400 years.
pub proof fn lemma_leap_periodic(e: int, j: int)
    ensures
        leap_days(400 * e + j) == leap_days(j),
{
    let y = 400 * e + j;
    lemma_fundamental_div_mod(j, 4);
    lemma_fundamental_div_mod(j, 100);
    lemma_fundamental_div_mod(j, 400);
    lemma_fundamental_div_mod_converse(y, 4, 100 * e + j / 4, j % 4);
    lemma_fundamental_div_mod_converse(y, 100, 4 * e + j / 100, j % 100);
    lemma_fundamental_div_mod_converse(y, 400, e + j / 400, j % 400);
}

/// Valid dates of one year fall between its first day and the next
/// year's.
proof fn lemma_date_in_year(y: int, m: int, d: int)
    requires
        valid_date(y, m, d),
    ensures
        days_before_year(y) <= days_from_civil(y, m, d) < days_before_year(y + 1),
{
    lemma_year_step(y);
}

/// Valid dates of one month fall between its first day and the next
/// month's.
proof fn lemma_date_in_month(y: int, m: int, d: int, m2: int, d2: int)
    requires
        valid_date(y, m, d),
        valid_date(y, m2, d2),
        m < m2,
    ensures
        days_from_civil(y, m, d) < days_from_civil(y, m2, d2),
{
}

/// Distinct valid dates fall on distinct days, so a day count names at
/// most one date.
pub proof fn lemma_days_from_civil_injective(y1: int, m1: int, d1: int, y2: int, m2: int, d2: int)
    requires
        valid_date(y1, m1, d1),
        valid_date(y2, m2, d2),
        days_from_civil(y1, m1, d1) == days_from_civil(y2, m2, d2),
    ensures
        y1 == y2 && m1 == m2 && d1 == d2,
{
    lemma_date_in_year(y1, m1, d1);
    lemma_date_in_year(y2, m2, d2);
    if y1 < y2 {
        lemma_years_ordered(y1 + 1, y2);
    } else if y2 < y1 {
        lemma_years_ordered(y2 + 1, y1);
    }
    if m1 < m2 {
        lemma_date_in_month(y1, m1, d1, m2, d2);
    } else if m2 < m1 {
        lemma_date_in_month(y1, m2, d2, m1, d1);
    }
}

/// Later years start later.
proof fn lemma_years_ordered(a: int, b: int)
    requires
        a <= b,
    ensures
        days_before_year(a) <= days_before_year(b),
    decreases b - a,
{
    if a < b {
        lemma_years_ordered(a, b - 1);
        lemma_year_step(b - 1);
    }
}

// ----------------------------------------------------------------------
// Executable conversion
// ----------------------------------------------------------------------

/// Floor division and remainder of a signed value by a positive divisor.
fn floor_div_mod(x: i64, d: u64) -> (res: (i64, u64))
    requires
        0 < d <= 1_000_000,
    ensures
        x as int == res.0 as int * d as int + res.1 as int,
        res.1 < d,
        res.0 as int == x as int / d as int,
        res.1 as int == x as int % d as int,
{
    if x >= 0 {
        let ux = x as u64;
        let q = ux / d;
        let r = ux % d;
        proof {
            lemma_fundamental_div_mod(ux as int, d as int);
            assert(q as int * d as int <= ux as int) by (nonlinear_arith)
                requires
                    ux as int == d as int * q as int + r as int,
                    r >= 0,
            ;
            assert(q <= ux) by (nonlinear_arith)
                requires
                    q as int * d as int <= ux as int,
                    d >= 1,
                    q >= 0,
            ;
        }
        let qi = q as i64;
        proof {
            lemma_fundamental_div_mod_converse(x as int, d as int, qi as int, r as int);
        }
        (qi, r)
    } else {
        let n: u64 = (-(x + 1)) as u64;
        let q = n / d;
        let r = n % d;
        proof {
            lemma_fundamental_div_mod(n as int, d as int);
            assert(q as int * d as int <= n as int) by (nonlinear_arith)
                requires
                    n as int == d as int * q as int + r as int,
                    r >= 0,
            ;
            assert(q <= n) by (nonlinear_arith)
                requires
                    q as int * d as int <= n as int,
                    d >= 1,
                    q >= 0,
            ;
        }
        let qi: i64 = -(q as i64) - 1;
        let ri: u64 = d - 1 - r;
        proof {
            assert(x as int == qi as int * d as int + ri as int) by (nonlinear_arith)
                requires
                    n as int == d as int * q as int + r as int,
                    n as int == -(x as int + 1),
                    qi as int == -(q as int) - 1,
                    ri as int == d as int - 1 - r as int,
            ;
            lemma_fundamental_div_mod_converse(x as int, d as int, qi as int, ri as int);
        }
        (qi, ri)
    }
}

/// Whether `n` (in `1..=400`) is a leap year.
fn leap_u64(n: u64) -> (b: bool)
    ensures
        b == is_leap(n as int),
{
    n % 4 == 0 && (n % 100 != 0 || n % 400 == 0)
}

/// Days into the March-based year at which month `mp` (0 = March,
/// 11 = February) starts.
pub open spec fn march_offset(mp: int) -> int {
    if mp == 0 {
        0
    } else if mp == 1 {
        31
    } else if mp == 2 {
        61
    } else if mp == 3 {
        92
    } else if mp == 4 {
        122
    } else if mp == 5 {
        153
    } else if mp == 6 {
        184
    } else if mp == 7 {
        214
    } else if mp == 8 {
        245
    } else if mp == 9 {
        275
    } else if mp == 10 {
        306
    } else {
        337
    }
}

/// [`march_offset`] for an executable month index.
fn offset_of(mp: u64) -> (o: u64)
    requires
        mp < 12,
    ensures
        o == march_offset(mp as int),
{
    if mp == 0 {
        0
    } else if mp == 1 {
        31
    } else if mp == 2 {
        61
    } else if mp == 3 {
        92
    } else if mp == 4 {
        122
    } else if mp == 5 {
        153
    } else if mp == 6 {
        184
    } else if mp == 7 {
        214
    } else if mp == 8 {
        245
    } else if mp == 9 {
        275
    } else if mp == 10 {
        306
    } else {
        337
    }
}

/// The March-based month holding day `rem` of its year.
fn march_month(rem: u64) -> (mp: u64)
    requires
        rem < 366,
    ensures
        mp < 12,
        march_offset(mp as int) <= rem,
        mp < 11 ==> rem < march_offset(mp + 1),
{
    if rem < 31 {
        0
    } else if rem < 61 {
        1
    } else if rem < 92 {
        2
    } else if rem < 122 {
        3
    } else if rem < 153 {
        4
    } else if rem < 184 {
        5
    } else if rem < 214 {
        6
    } else if rem < 245 {
        7
    } else if rem < 275 {
        8
    } else if rem < 306 {
        9
    } else if rem < 337 {
        10
    } else {
        11
    }
}

/// Appends a `{:02}` field.
fn push_two_digits(s: &mut String, n: u64)
    ensures
        final(s)@ == old(s)@ + two_digits(n as int),
{
    let d = decimal_chars(n);
    push_zero_padded(s, d.as_slice(), 2);
}

/// The year as `{:04}` renders it.
fn push_year(s: &mut String, y: i64)
    requires
        y > i64::MIN,
    ensures
        final(s)@ == old(s)@ + year_text(y as int),
{
    if y >= 0 {
        let d = decimal_chars(y as u64);
        push_zero_padded(s, d.as_slice(), 4);
    } else {
        push_char(s, '-');
        let d = decimal_chars((-y) as u64);
        push_zero_padded(s, d.as_slice(), 3);
        assert(s@ =~= old(s)@ + year_text(y as int));
    }
}

/// Finds the March-based year of an era holding day `doe` of the era:
/// its index `k` and the day `rem` within it.
fn march_year_in_era(doe: u64, Ghost(e): Ghost<int>) -> (r: (u64, u64))
    requires
        doe < 146097,
        march_start(400 * e) == 146097 * e,
        march_start(400 * (e + 1)) == 146097 * (e + 1),
    ensures
        r.0 < 400,
        march_start(400 * e + r.0) + r.1 == 146097 * e + doe,
        r.1 < 365 + leap_days(400 * e + r.0 + 1),
{
    let mut k: u64 = 0;
    let mut rem: u64 = doe;
    loop
        invariant
            0 <= k < 400,
            doe < 146097,
            march_start(400 * (e + 1)) == 146097 * (e + 1),
            march_start(400 * e + k) + rem as int == 146097 * e + doe,
        ensures
            k < 400,
            march_start(400 * e + k) + rem as int == 146097 * e + doe,
            rem < 365 + leap_days(400 * e + k + 1),
        decreases rem,
    {
        let len: u64 = if leap_u64(k + 1) {
            366
        } else {
            365
        };
        proof {
            lemma_march_step(400 * e + k);
            lemma_leap_periodic(e, k + 1);
            assert(400 * e + k + 1 == 400 * e + (k + 1));
        }
        if rem < len {
            break;
        }
        rem = rem - len;
        k = k + 1;
        proof {
            if k == 400 {
                assert(400 * e + 400 == 400 * (e + 1));
                assert(false);
            }
        }
    }
    (k, rem)
}

/// The calendar date `days` days after 1970-01-01.
fn civil_from_days(days: i64) -> (ymd: (i64, u64, u64))
    requires
        -0x4_0000_0000_0000 < days < 0x4_0000_0000_0000,
    ensures
        valid_date(ymd.0 as int, ymd.1 as int, ymd.2 as int),
        days_from_civil(ymd.0 as int, ymd.1 as int, ymd.2 as int) == days as int,
        -0x4_0000_0000_0000 < ymd.0 < 0x4_0000_0000_0000,
{
    let z: i64 = days + 719468;
    let (era, doe) = floor_div_mod(z, 146097);
    let ghost e = era as int;
    proof {
        lemma_era_start(e);
        lemma_era_start(e + 1);
    }
    let (k, rem) = march_year_in_era(doe, Ghost(e));
    let ghost yy = 400 * e + k;
    let mp = march_month(rem);
    let day: u64 = rem - offset_of(mp) + 1;
    let month: u64 = if mp < 10 {
        mp + 3
    } else {
        mp - 9
    };
    let year: i64 = era * 400 + k as i64 + if mp >= 10 {
        1
    } else {
        0
    };
    proof {
        lemma_year_step(yy);
        assert(400 * e + k + 1 == yy + 1);
    }
    (year, month, day)
}

/// Converts seconds since the Unix epoch to `YYYY-MM-DDTHH:MM:SSZ`: the
/// calendar date that lies `secs / 86400` (floor) days after 1970-01-01,
/// and the time of day of `secs % 86400`.
pub fn epoch_to_iso8601(secs: i64) -> (s: String)
    ensures
        exists|y: int, m: int, d: int|
            valid_date(y, m, d) && days_from_civil(y, m, d) == secs as int / 86400 && s@
                == iso_text(y, m, d, secs as int % 86400),
{
    let (days, sod) = floor_div_mod(secs, 86400);
    let (year, month, day) = civil_from_days(days);
    let mut s = String::new();
    push_year(&mut s, year);
    push_char(&mut s, '-');
    push_two_digits(&mut s, month);
    push_char(&mut s, '-');
    push_two_digits(&mut s, day);
    push_char(&mut s, 'T');
    push_two_digits(&mut s, sod / 3600);
    push_char(&mut s, ':');
    push_two_digits(&mut s, (sod % 3600) / 60);
    push_char(&mut s, ':');
    push_two_digits(&mut s, sod % 60);
    push_char(&mut s, 'Z');
    proof {
        assert(s@ =~= iso_text(year as int, month as int, day as int, sod as int));
    }
    s
}

} // verus!
