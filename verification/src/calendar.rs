//! Proleptic Gregorian calendar dates and the daemon's RFC 3339 timestamps.
use vstd::prelude::*;

use crate::decimal::{dec, pad_zeros, push_padded};
use crate::text::push_char;

verus! {

/// Whether `y` is a leap year.
pub open spec fn is_leap(y: int) -> bool {
    y % 4 == 0 && (y % 100 != 0 || y % 400 == 0)
}

/// Days in year `y`.
pub open spec fn year_len(y: int) -> int {
    if is_leap(y) {
        366
    } else {
        365
    }
}

/// Days in month `m` (1..=12) of year `y`.
pub open spec fn month_len(y: int, m: int) -> int {
    if m == 2 {
        if is_leap(y) {
            29
        } else {
            28
        }
    } else if m == 4 || m == 6 || m == 9 || m == 11 {
        30
    } else {
        31
    }
}

/// `ceil(a / b)` for `b > 0`.
pub open spec fn ceil_div(a: int, b: int) -> int {
    (a + b - 1) / b
}

/// Days from 0000-01-01 to January 1st of year `y` (negative before it).
pub open spec fn year_start(y: int) -> int {
    365 * y + ceil_div(y, 4) - ceil_div(y, 100) + ceil_div(y, 400)
}

/// Days of year `y` before the first of month `m`.
pub open spec fn days_before_month(y: int, m: int) -> int
    decreases m,
{
    if m <= 1 {
        0
    } else {
        days_before_month(y, m - 1) + month_len(y, m - 1)
    }
}

/// Days from 0000-01-01 to 1970-01-01.
pub const EPOCH_OFFSET_DAYS: i64 = 719_528;

/// A real calendar date.
pub open spec fn valid_date(y: int, m: int, d: int) -> bool {
    1 <= m <= 12 && 1 <= d <= month_len(y, m)
}

/// Days from 1970-01-01 to the date `y-m-d`.
pub open spec fn days_since_epoch(y: int, m: int, d: int) -> int {
    year_start(y) + days_before_month(y, m) + d - 1 - EPOCH_OFFSET_DAYS
}

/// Days in a 400-year cycle.
pub const CYCLE_DAYS: i64 = 146_097;

/// Cycles added before dividing, so that every accepted day count is
/// divided as a non-negative number.
pub const CYCLE_BIAS: i64 = 5_368_710;

/// Day count of the earliest date handled, -2147483600-03-01.
pub const MIN_CIVIL_DAYS: i64 = -784_352_998_241;

/// Day count of the latest date handled, 2147483647-12-31.
pub const MAX_CIVIL_DAYS: i64 = 784_351_576_776;

/// Day counts of the dates handled: those whose year fits an `i32` and
/// whose 400-year cycle, counted from March, fits one too.
pub open spec fn days_in_range(days: i64) -> bool {
    MIN_CIVIL_DAYS <= days <= MAX_CIVIL_DAYS
}

/// The bounds of the handled range are the dates they are named after.
pub proof fn lemma_civil_day_bounds()
    ensures
        days_since_epoch(-2147483600, 3, 1) == MIN_CIVIL_DAYS,
        days_since_epoch(2147483647, 12, 31) == MAX_CIVIL_DAYS,
{
    reveal_with_fuel(days_before_month, 13);
}

proof fn lemma_year_step(y: int)
    ensures
        year_start(y + 1) == year_start(y) + year_len(y),
{
    assert(ceil_div(y + 1, 4) == ceil_div(y, 4) + (if y % 4 == 0 {
        1int
    } else {
        0
    })) by (nonlinear_arith);
    assert(ceil_div(y + 1, 100) == ceil_div(y, 100) + (if y % 100 == 0 {
        1int
    } else {
        0
    })) by (nonlinear_arith);
    assert(ceil_div(y + 1, 400) == ceil_div(y, 400) + (if y % 400 == 0 {
        1int
    } else {
        0
    })) by (nonlinear_arith);
    assert(y % 400 == 0 ==> y % 100 == 0 && y % 4 == 0) by (nonlinear_arith);
    assert(y % 100 == 0 ==> y % 4 == 0) by (nonlinear_arith);
}

proof fn lemma_cycle_shift(e: int, y: int)
    ensures
        year_start(400 * e + y) == CYCLE_DAYS * e + year_start(y),
        is_leap(400 * e + y) == is_leap(y),
{
    assert(ceil_div(400 * e + y, 4) == 100 * e + ceil_div(y, 4)) by (nonlinear_arith);
    assert(ceil_div(400 * e + y, 100) == 4 * e + ceil_div(y, 100)) by (nonlinear_arith);
    assert(ceil_div(400 * e + y, 400) == e + ceil_div(y, 400)) by (nonlinear_arith);
    assert((400 * e + y) % 4 == y % 4) by (nonlinear_arith);
    assert((400 * e + y) % 100 == y % 100) by (nonlinear_arith);
    assert((400 * e + y) % 400 == y % 400) by (nonlinear_arith);
}

proof fn lemma_month_step(y: int, m: int)
    requires
        1 <= m,
    ensures
        days_before_month(y, m + 1) == days_before_month(y, m) + month_len(y, m),
{
}

proof fn lemma_month_same_leap(a: int, b: int, m: int)
    requires
        is_leap(a) == is_leap(b),
    ensures
        days_before_month(a, m) == days_before_month(b, m),
        month_len(a, m) == month_len(b, m),
    decreases m,
{
    if m > 1 {
        lemma_month_same_leap(a, b, m - 1);
    }
}

proof fn lemma_months_total(y: int)
    ensures
        days_before_month(y, 13) == year_len(y),
{
    reveal_with_fuel(days_before_month, 13);
}

fn year_len_exec(y: u64) -> (n: u64)
    ensures
        n == year_len(y as int),
{
    if y % 4 == 0 && (y % 100 != 0 || y % 400 == 0) {
        366
    } else {
        365
    }
}

fn month_len_exec(y: u64, m: u64) -> (n: u64)
    requires
        1 <= m <= 12,
    ensures
        n == month_len(y as int, m as int),
{
    if m == 2 {
        if y % 4 == 0 && (y % 100 != 0 || y % 400 == 0) {
            29
        } else {
            28
        }
    } else if m == 4 || m == 6 || m == 9 || m == 11 {
        30
    } else {
        31
    }
}

/// The calendar date `(year, month, day)` that lies `days` days after
/// 1970-01-01 (before it when negative).
pub fn days_to_ymd(days: i64) -> (r: (i32, u32, u32))
    requires
        days_in_range(days),
    ensures
        valid_date(r.0 as int, r.1 as int, r.2 as int),
        days_since_epoch(r.0 as int, r.1 as int, r.2 as int) == days,
{
    let t: i64 = days + EPOCH_OFFSET_DAYS + CYCLE_BIAS * CYCLE_DAYS;
    let tu: u64 = t as u64;
    let cycles: u64 = tu / (CYCLE_DAYS as u64);
    let mut rem: u64 = tu % (CYCLE_DAYS as u64);
    let ghost rem0 = rem as int;
    proof {
        assert(year_start(0) == 0);
        assert(year_start(400) == CYCLE_DAYS);
    }
    let mut y: u64 = 0;
    while rem >= year_len_exec(y)
        invariant
            y < 400,
            year_start(y as int) + rem == rem0,
            0 <= rem0 < CYCLE_DAYS,
            year_start(400) == CYCLE_DAYS,
        decreases rem,
    {
        proof {
            lemma_year_step(y as int);
            if y + 1 >= 400 {
                lemma_year_start_mono(400, y + 1);
            }
        }
        rem = rem - year_len_exec(y);
        y = y + 1;
    }
    let mut m: u64 = 1;
    proof {
        lemma_months_total(y as int);
    }
    while rem >= month_len_exec(y, m)
        invariant
            1 <= m <= 12,
            days_before_month(y as int, m as int) + rem < year_len(y as int),
            days_before_month(y as int, 13) == year_len(y as int),
            year_start(y as int) + days_before_month(y as int, m as int) + rem == rem0,
        decreases 12 - m,
    {
        proof {
            lemma_month_step(y as int, m as int);
            if m == 12 {
                assert(days_before_month(y as int, 13) == days_before_month(y as int, 12)
                    + month_len(y as int, 12));
                assert(false);
            }
        }
        rem = rem - month_len_exec(y, m);
        m = m + 1;
    }
    let ghost e = cycles as int - CYCLE_BIAS;
    proof {
        lemma_cycle_shift(e, y as int);
        assert(tu as int == CYCLE_DAYS * cycles + rem0) by (nonlinear_arith)
            requires
                cycles == tu as int / (CYCLE_DAYS as int),
                rem0 == tu as int % (CYCLE_DAYS as int),
        ;
        assert(-CYCLE_BIAS <= e < CYCLE_BIAS) by (nonlinear_arith)
            requires
                cycles == tu as int / (CYCLE_DAYS as int),
                0 <= tu < 2 * CYCLE_BIAS * CYCLE_DAYS,
                e == cycles - CYCLE_BIAS,
        ;
        lemma_month_same_leap(400 * e + y, y as int, m as int);
    }
    let year: i64 = 400 * (cycles as i64 - CYCLE_BIAS) + y as i64;
    proof {
        assert(year == 400 * e + y);
        assert(rem < month_len(y as int, m as int));
        assert(valid_date(year as int, m as int, rem + 1));
        assert(year_start(year as int) == CYCLE_DAYS * e + year_start(y as int));
        assert(days_since_epoch(year as int, m as int, rem + 1) == CYCLE_DAYS * e + rem0
            - EPOCH_OFFSET_DAYS);
        assert(CYCLE_DAYS * e + rem0 - EPOCH_OFFSET_DAYS == days) by (nonlinear_arith)
            requires
                tu as int == CYCLE_DAYS * cycles + rem0,
                e == cycles - CYCLE_BIAS,
                tu as int == days + EPOCH_OFFSET_DAYS + CYCLE_BIAS * CYCLE_DAYS,
        ;
        lemma_year_in_range(year as int, m as int, rem + 1, days);
    }
    (year as i32, m as u32, (rem + 1) as u32)
}

proof fn lemma_year_in_range(y: int, m: int, d: int, days: i64)
    requires
        valid_date(y, m, d),
        days_since_epoch(y, m, d) == days,
        days_in_range(days),
    ensures
        i32::MIN <= y <= i32::MAX,
{
    lemma_within_year(y, m, d);
    if y > i32::MAX {
        lemma_year_start_mono(0x8000_0000, y);
        assert(year_start(0x8000_0000) - EPOCH_OFFSET_DAYS == MAX_CIVIL_DAYS + 1);
    }
    if y < -2147483600 {
        lemma_year_step(y);
        lemma_year_start_mono(y + 1, -2147483600);
        assert(year_start(-2147483600) - EPOCH_OFFSET_DAYS < MIN_CIVIL_DAYS);
    }
}

/// `YYYY-MM-DDThh:mm:ssZ` for the time `secs` seconds after the epoch.
pub open spec fn iso8601_text(secs: nat) -> Seq<char> {
    let days = secs / 86_400;
    let today = secs % 86_400;
    let ymd = civil_from_days(days as int);
    pad_zeros(dec(ymd.0 as nat), 4) + seq!['-'] + pad_zeros(dec(ymd.1 as nat), 2) + seq!['-']
        + pad_zeros(dec(ymd.2 as nat), 2) + seq!['T'] + pad_zeros(dec(today / 3600), 2) + seq![':']
        + pad_zeros(dec((today % 3600) / 60), 2) + seq![':'] + pad_zeros(dec(today % 60), 2)
        + seq!['Z']
}

/// The date that lies `days` days after the epoch.
pub open spec fn civil_from_days(days: int) -> (int, int, int) {
    choose|ymd: (int, int, int)|
        valid_date(ymd.0, ymd.1, ymd.2) && days_since_epoch(ymd.0, ymd.1, ymd.2) == days
}

/// Two dates with the same day count are the same date.
pub proof fn lemma_date_unique(a: (int, int, int), b: (int, int, int))
    requires
        valid_date(a.0, a.1, a.2),
        valid_date(b.0, b.1, b.2),
        days_since_epoch(a.0, a.1, a.2) == days_since_epoch(b.0, b.1, b.2),
    ensures
        a == b,
{
    lemma_within_year(a.0, a.1, a.2);
    lemma_within_year(b.0, b.1, b.2);
    if a.0 < b.0 {
        lemma_year_start_mono(a.0 + 1, b.0);
        lemma_year_step(a.0);
        assert(false);
    } else if b.0 < a.0 {
        lemma_year_start_mono(b.0 + 1, a.0);
        lemma_year_step(b.0);
        assert(false);
    }
    if a.1 < b.1 {
        lemma_month_mono(a.0, a.1 + 1, b.1);
        lemma_month_step(a.0, a.1);
        assert(false);
    } else if b.1 < a.1 {
        lemma_month_mono(a.0, b.1 + 1, a.1);
        lemma_month_step(a.0, b.1);
        assert(false);
    }
}

proof fn lemma_within_year(y: int, m: int, d: int)
    requires
        valid_date(y, m, d),
    ensures
        0 <= days_before_month(y, m) + d - 1 < year_len(y),
{
    lemma_months_total(y);
    lemma_month_mono(y, m + 1, 13);
    lemma_month_step(y, m);
    lemma_month_nonneg(y, m);
}

proof fn lemma_month_nonneg(y: int, m: int)
    ensures
        days_before_month(y, m) >= 0,
    decreases m,
{
    if m > 1 {
        lemma_month_nonneg(y, m - 1);
    }
}

proof fn lemma_month_mono(y: int, a: int, b: int)
    requires
        1 <= a <= b,
    ensures
        days_before_month(y, a) <= days_before_month(y, b),
    decreases b - a,
{
    if a < b {
        lemma_month_mono(y, a, b - 1);
    }
}

proof fn lemma_year_start_mono(a: int, b: int)
    requires
        a <= b,
    ensures
        year_start(a) <= year_start(b),
    decreases b - a,
{
    if a < b {
        lemma_year_start_mono(a, b - 1);
        lemma_year_step(b - 1);
    }
}

/// The RFC 3339 UTC timestamp (`YYYY-MM-DDThh:mm:ssZ`) of the time `secs`
/// seconds after the epoch.
pub fn system_time_to_iso8601(secs: u64) -> (s: String)
    requires
        secs / 86_400 <= MAX_CIVIL_DAYS,
    ensures
        s@ == iso8601_text(secs as nat),
{
    let days = secs / 86_400;
    let today = secs % 86_400;
    let hh = today / 3600;
    let mm = (today % 3600) / 60;
    let ss = today % 60;
    let ymd = days_to_ymd(days as i64);
    proof {
        let c = civil_from_days(days as int);
        let r = (ymd.0 as int, ymd.1 as int, ymd.2 as int);
        assert(valid_date(r.0, r.1, r.2) && days_since_epoch(r.0, r.1, r.2) == days as int);
        lemma_date_unique(c, r);
        assert(ymd.0 >= 1970) by {
            if ymd.0 < 1970 {
                lemma_year_start_mono(ymd.0 as int + 1, 1970);
                lemma_year_step(ymd.0 as int);
                lemma_within_year(r.0, r.1, r.2);
                assert(year_start(1970) == EPOCH_OFFSET_DAYS);
            }
        }
    }
    let mut out = String::new();
    push_padded(&mut out, ymd.0 as u64, 4);
    push_char(&mut out, '-');
    push_padded(&mut out, ymd.1 as u64, 2);
    push_char(&mut out, '-');
    push_padded(&mut out, ymd.2 as u64, 2);
    push_char(&mut out, 'T');
    push_padded(&mut out, hh, 2);
    push_char(&mut out, ':');
    push_padded(&mut out, mm, 2);
    push_char(&mut out, ':');
    push_padded(&mut out, ss, 2);
    push_char(&mut out, 'Z');
    proof {
        assert(out@ =~= iso8601_text(secs as nat));
    }
    out
}

} // verus!
