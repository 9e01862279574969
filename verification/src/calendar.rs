//! The proleptic Gregorian calendar, with days counted from 1970-01-01.
//!
//! A date is defined by what it means: the number of days before its year,
//! before its month within that year, and before its day within that month.
//! Turning a day count into a date walks whole 400-year cycles at once (each
//! holds the same 146097 days), then single years, then months.
use vstd::prelude::*;

verus! {

pub open spec fn is_leap(y: int) -> bool {
    y % 4 == 0 && (y % 100 != 0 || y % 400 == 0)
}

pub open spec fn year_length(y: int) -> int {
    if is_leap(y) {
        366
    } else {
        365
    }
}

/// Days in month `m` (1 to 12) of year `y`.
pub open spec fn month_length(y: int, m: int) -> int {
    if m == 2 {
        if is_leap(y) {
            29
        } else {
            28
        }
    } else if m == 4 || m == 6 || m == 9 || m == 11 {
        30
    } else {
        31
    }
}

/// Days from 1970-01-01 to the first of January of `y`; negative before 1970.
pub open spec fn days_before_year(y: int) -> int
    decreases (if y >= 1970 {
        y - 1970
    } else {
        1970 - y
    }),
{
    if y > 1970 {
        days_before_year(y - 1) + year_length(y - 1)
    } else if y < 1970 {
        days_before_year(y + 1) - year_length(y)
    } else {
        0
    }
}

/// Days from the first of January of `y` to the first of month `m`.
pub open spec fn days_before_month(y: int, m: int) -> int
    decreases m,
{
    if m <= 1 {
        0
    } else {
        days_before_month(y, m - 1) + month_length(y, m - 1)
    }
}

/// Whether (`y`, `m`, `d`) names a day of the calendar.
pub open spec fn is_date(y: int, m: int, d: int) -> bool {
    1 <= m <= 12 && 1 <= d <= month_length(y, m)
}

/// The day count of a date: days since 1970-01-01.
pub open spec fn day_number(y: int, m: int, d: int) -> int {
    days_before_year(y) + days_before_month(y, m) + d - 1
}

/// The date (year, month, day) whose day count is `days`.
pub open spec fn civil_from_days(days: int) -> (int, int, int) {
    choose|t: (int, int, int)| is_date(t.0, t.1, t.2) && day_number(t.0, t.1, t.2) == days
}

/// Leap days before the end of year `x`, counted from year 0.
spec fn leaps_through(x: int) -> int {
    x / 4 - x / 100 + x / 400
}

proof fn lemma_year_step(y: int)
    ensures
        days_before_year(y + 1) == days_before_year(y) + year_length(y),
{
    if y < 1970 {
        assert(days_before_year(y) == days_before_year(y + 1) - year_length(y));
    }
}

proof fn lemma_div_step(x: int, k: int)
    requires
        k > 0,
    ensures
        (x + 1) / k == x / k + (if (x + 1) % k == 0 {
            1int
        } else {
            0int
        }),
{
    vstd::arithmetic::div_mod::lemma_fundamental_div_mod(x, k);
    vstd::arithmetic::div_mod::lemma_fundamental_div_mod(x + 1, k);
    if (x % k) + 1 < k {
        vstd::arithmetic::div_mod::lemma_fundamental_div_mod_converse(x + 1, k, x / k, x % k + 1);
    } else {
        let q = x / k;
        assert((q + 1) * k == k * q + k) by (nonlinear_arith);
        vstd::arithmetic::div_mod::lemma_fundamental_div_mod_converse(x + 1, k, x / k + 1, 0);
    }
}

proof fn lemma_leaps_step(x: int)
    ensures
        leaps_through(x + 1) == leaps_through(x) + (if is_leap(x + 1) {
            1int
        } else {
            0int
        }),
{
    let y = x + 1;
    lemma_div_step(x, 4);
    lemma_div_step(x, 100);
    lemma_div_step(x, 400);
    if y % 400 == 0 {
        vstd::arithmetic::div_mod::lemma_fundamental_div_mod(y, 400);
        vstd::arithmetic::div_mod::lemma_fundamental_div_mod_converse(y, 100, 4 * (y / 400), 0);
    }
    if y % 100 == 0 {
        vstd::arithmetic::div_mod::lemma_fundamental_div_mod(y, 100);
        vstd::arithmetic::div_mod::lemma_fundamental_div_mod_converse(y, 4, 25 * (y / 100), 0);
    }
}

/// The count of days before a year in closed form.
proof fn lemma_days_before_year(y: int)
    ensures
        days_before_year(y) == 365 * (y - 1970) + leaps_through(y - 1) - leaps_through(1969),
    decreases (if y >= 1970 {
        y - 1970
    } else {
        1970 - y
    }),
{
    if y > 1970 {
        lemma_days_before_year(y - 1);
        lemma_leaps_step(y - 2);
    } else if y < 1970 {
        lemma_days_before_year(y + 1);
        lemma_leaps_step(y - 1);
    }
}

/// Every 400 years hold the same number of days.
pub proof fn lemma_cycles(q: int)
    ensures
        days_before_year(1970 + 400 * q) == 146097 * q,
{
    lemma_days_before_year(1970 + 400 * q);
    let x = 1969 + 400 * q;
    vstd::arithmetic::div_mod::lemma_fundamental_div_mod_converse(x, 4, 492 + 100 * q, 1);
    vstd::arithmetic::div_mod::lemma_fundamental_div_mod_converse(x, 100, 19 + 4 * q, 69);
    vstd::arithmetic::div_mod::lemma_fundamental_div_mod_converse(x, 400, 4 + q, 369);
}

/// Days before a year grow with the year, by at least 365 a year.
proof fn lemma_years_grow(a: int, b: int)
    requires
        a <= b,
    ensures
        days_before_year(b) - days_before_year(a) >= 365 * (b - a),
    decreases b - a,
{
    if a < b {
        lemma_years_grow(a, b - 1);
        lemma_year_step(b - 1);
    }
}

proof fn lemma_months_grow(y: int, a: int, b: int)
    requires
        1 <= a <= b,
    ensures
        days_before_month(y, b) >= days_before_month(y, a) + (b - a) * 28,
    decreases b - a,
{
    if a < b {
        lemma_months_grow(y, a, b - 1);
    }
}

/// The months of a year add up to the year.
proof fn lemma_year_of_months(y: int)
    ensures
        days_before_month(y, 13) == year_length(y),
{
    reveal_with_fuel(days_before_month, 13);
}

/// A date's day count lies within its year, and within its month.
proof fn lemma_date_bounds(y: int, m: int, d: int)
    requires
        is_date(y, m, d),
    ensures
        days_before_year(y) <= day_number(y, m, d) < days_before_year(y + 1),
        days_before_month(y, m) <= day_number(y, m, d) - days_before_year(y) < days_before_month(y, m + 1),
{
    lemma_year_step(y);
    lemma_year_of_months(y);
    lemma_months_grow(y, m + 1, 13);
    lemma_months_grow(y, 1, m);
}

/// No two dates share a day count.
pub proof fn lemma_one_date_per_day(a: (int, int, int), b: (int, int, int))
    requires
        is_date(a.0, a.1, a.2),
        is_date(b.0, b.1, b.2),
        day_number(a.0, a.1, a.2) == day_number(b.0, b.1, b.2),
    ensures
        a == b,
{
    lemma_date_bounds(a.0, a.1, a.2);
    lemma_date_bounds(b.0, b.1, b.2);
    if a.0 < b.0 {
        lemma_years_grow(a.0 + 1, b.0);
    } else if b.0 < a.0 {
        lemma_years_grow(b.0 + 1, a.0);
    }
    assert(a.0 == b.0);
    if a.1 < b.1 {
        lemma_months_grow(a.0, a.1 + 1, b.1);
    } else if b.1 < a.1 {
        lemma_months_grow(a.0, b.1 + 1, a.1);
    }
}

/// A date that has the day count `days` is the one `civil_from_days` names.
pub proof fn lemma_civil_from_days(days: int, t: (int, int, int))
    requires
        is_date(t.0, t.1, t.2),
        day_number(t.0, t.1, t.2) == days,
    ensures
        civil_from_days(days) == t,
{
    let c = civil_from_days(days);
    lemma_one_date_per_day(c, t);
}

/// Whether the year `1970 + k` is a leap year.
fn leap_after_epoch(k: u64) -> (r: bool)
    requires
        k <= 400,
    ensures
        r == is_leap(1970 + k),
{
    let y: u64 = 1970 + k;
    y % 4 == 0 && (y % 100 != 0 || y % 400 == 0)
}

/// Days in the year `1970 + k`.
fn year_days_after_epoch(k: u64) -> (r: i64)
    requires
        k <= 400,
    ensures
        r == year_length(1970 + k),
{
    if leap_after_epoch(k) {
        366
    } else {
        365
    }
}

/// Floor division and remainder for a positive divisor.
pub fn div_euclid(a: i64, b: i64) -> (r: (i64, i64))
    requires
        b > 0,
    ensures
        r.0 == a / b,
        r.1 == a % b,
        0 <= r.1 < b,
{
    if a >= 0 {
        let q = ((a as u64) / (b as u64)) as i64;
        let m = ((a as u64) % (b as u64)) as i64;
        proof {
            vstd::arithmetic::div_mod::lemma_fundamental_div_mod(a as int, b as int);
        }
        (q, m)
    } else {
        let n = (-(a + 1)) as u64;
        let q0 = n / (b as u64);
        let r0 = n % (b as u64);
        proof {
            vstd::arithmetic::div_mod::lemma_fundamental_div_mod(n as int, b as int);
            assert(q0 * b <= n) by (nonlinear_arith)
                requires
                    n == q0 * b + r0,
                    r0 >= 0,
            ;
        }
        let q = -(q0 as i64) - 1;
        let m = b - 1 - (r0 as i64);
        proof {
            assert(a == q * b + m) by (nonlinear_arith)
                requires
                    n == q0 * b + r0,
                    n == -(a + 1),
                    q == -q0 - 1,
                    m == b - 1 - r0,
            ;
            vstd::arithmetic::div_mod::lemma_fundamental_div_mod_converse(
                a as int,
                b as int,
                q as int,
                m as int,
            );
        }
        (q, m)
    }
}

/// Days since the Unix epoch to (year, month, day).
pub fn civil(days: i64) -> (r: (i64, u64, u64))
    requires
        -200_000_000_000_000 < days < 200_000_000_000_000,
    ensures
        is_date(r.0 as int, r.1 as int, r.2 as int),
        day_number(r.0 as int, r.1 as int, r.2 as int) == days,
        (r.0 as int, r.1 as int, r.2 as int) == civil_from_days(days as int),
        -1_000_000_000_000 < r.0 < 1_000_000_000_000,
        1 <= r.1 <= 12,
        1 <= r.2 <= 31,
{
    let (q, rest) = div_euclid(days, 146097);
    assert(-2_000_000_000 < q < 2_000_000_000) by (nonlinear_arith)
        requires
            q == days / 146097,
            -200_000_000_000_000 < days < 200_000_000_000_000,
    ;
    let y0: i64 = 1970 + 400 * q;
    proof {
        lemma_cycles(q as int);
        vstd::arithmetic::div_mod::lemma_fundamental_div_mod(days as int, 146097);
        lemma_cycles(q as int + 1);
        assert(1970 + 400 * (q + 1) == y0 + 400);
    }
    // Whole years.
    let mut k: u64 = 0;
    let mut left: i64 = rest;
    while left >= year_days_after_epoch(k)
        invariant
            0 <= k <= 400,
            0 <= left,
            y0 == 1970 + 400 * q,
            days == days_before_year(y0 + k) + left,
            days < days_before_year(y0 + 400),
            days_before_year(y0 as int) == 146097 * q,
            days_before_year(y0 + 400) == 146097 * q + 146097,
            -2_000_000_000 < q < 2_000_000_000,
        decreases left,
    {
        proof {
            lemma_years_grow(y0 + k, y0 + 400);
            lemma_shift_leap(1970 + k as int, q as int);
            lemma_year_step(y0 + k);
        }
        left = left - year_days_after_epoch(k);
        k = k + 1;
    }
    let y: i64 = y0 + (k as i64);
    proof {
        assert(is_leap(y as int) == is_leap(1970 + k)) by {
            lemma_shift_leap(1970 + k as int, q as int);
        }
        lemma_year_step(y as int);
        lemma_year_of_months(y as int);
    }
    let leap = leap_after_epoch(k);
    // Whole months.
    let mut m: u64 = 1;
    while left >= month_days(leap, m)
        invariant
            1 <= m <= 12,
            0 <= left,
            leap == is_leap(y as int),
            days == days_before_year(y as int) + days_before_month(y as int, m as int) + left,
            left < days_before_month(y as int, 13) - days_before_month(y as int, m as int),
        decreases 12 - m,
    {
        left = left - month_days(leap, m);
        m = m + 1;
    }
    let d = (left + 1) as u64;
    let r = (y, m, d);
    proof {
        lemma_civil_from_days(days as int, (y as int, m as int, d as int));
    }
    r
}

/// Days in month `m` of a year that is or is not a leap year.
fn month_days(leap: bool, m: u64) -> (r: i64)
    requires
        1 <= m <= 12,
    ensures
        forall|y: int| is_leap(y) == leap ==> r == month_length(y, m as int),
{
    if m == 2 {
        if leap {
            29
        } else {
            28
        }
    } else if m == 4 || m == 6 || m == 9 || m == 11 {
        30
    } else {
        31
    }
}

/// Whole 400-year cycles do not change whether a year is a leap year.
proof fn lemma_shift_leap(y: int, q: int)
    ensures
        is_leap(y + 400 * q) == is_leap(y),
{
    vstd::arithmetic::div_mod::lemma_fundamental_div_mod(y, 400);
    vstd::arithmetic::div_mod::lemma_fundamental_div_mod_converse(y + 400 * q, 400, y / 400 + q, y % 400);
    vstd::arithmetic::div_mod::lemma_fundamental_div_mod(y, 4);
    vstd::arithmetic::div_mod::lemma_fundamental_div_mod_converse(y + 400 * q, 4, y / 4 + 100 * q, y % 4);
    vstd::arithmetic::div_mod::lemma_fundamental_div_mod(y, 100);
    vstd::arithmetic::div_mod::lemma_fundamental_div_mod_converse(y + 400 * q, 100, y / 100 + 4 * q, y % 100);
}


/// Whether date `a` comes before date `b`: by year, then month, then day.
pub open spec fn date_before(a: (int, int, int), b: (int, int, int)) -> bool {
    a.0 < b.0 || (a.0 == b.0 && (a.1 < b.1 || (a.1 == b.1 && a.2 < b.2)))
}

proof fn lemma_earlier_date_fewer_days(a: (int, int, int), b: (int, int, int))
    requires
        is_date(a.0, a.1, a.2),
        is_date(b.0, b.1, b.2),
        date_before(a, b),
    ensures
        day_number(a.0, a.1, a.2) < day_number(b.0, b.1, b.2),
{
    lemma_date_bounds(a.0, a.1, a.2);
    lemma_date_bounds(b.0, b.1, b.2);
    if a.0 < b.0 {
        lemma_years_grow(a.0 + 1, b.0);
    } else if a.1 < b.1 {
        lemma_months_grow(a.0, a.1 + 1, b.1);
    }
}

/// Day counts and dates run in the same order: a day counted later falls on
/// a later date.
pub proof fn lemma_later_days_later_dates(x: int, y: int)
    requires
        x < y,
    ensures
        date_before(civil_from_days(x), civil_from_days(y)),
{
    let a = civil_from_days(x);
    let b = civil_from_days(y);
    lemma_civil_exists(x);
    lemma_civil_exists(y);
    if !date_before(a, b) {
        if a == b {
        } else {
            lemma_earlier_date_fewer_days(b, a);
        }
    }
}

/// Every day count has its date.
pub proof fn lemma_civil_exists(days: int)
    ensures
        is_date(civil_from_days(days).0, civil_from_days(days).1, civil_from_days(days).2),
        day_number(civil_from_days(days).0, civil_from_days(days).1, civil_from_days(days).2) == days,
{
    let t = lemma_date_of(days);
    lemma_civil_from_days(days, t);
}

/// A date with the day count `days`, found by counting days from 1970-01-01.
proof fn lemma_date_of(days: int) -> (t: (int, int, int))
    ensures
        is_date(t.0, t.1, t.2),
        day_number(t.0, t.1, t.2) == days,
    decreases (if days >= 0 {
        days
    } else {
        -days
    }),
{
    if days == 0 {
        (1970, 1, 1)
    } else if days > 0 {
        let (y, m, d) = lemma_date_of(days - 1);
        lemma_year_step(y);
        lemma_year_of_months(y);
        if d < month_length(y, m) {
            (y, m, d + 1)
        } else if m < 12 {
            (y, m + 1, 1)
        } else {
            (y + 1, 1, 1)
        }
    } else {
        let (y, m, d) = lemma_date_of(days + 1);
        lemma_year_step(y - 1);
        lemma_year_of_months(y - 1);
        if d > 1 {
            (y, m, d - 1)
        } else if m > 1 {
            (y, m - 1, month_length(y, m - 1))
        } else {
            (y - 1, 12, 31)
        }
    }
}


/// Day counts from 1970-01-01 up to the last day of 9999 fall in the years
/// 1970 to 9999.
pub proof fn lemma_four_digit_years(days: int)
    requires
        0 <= days <= 2932896,
    ensures
        1970 <= civil_from_days(days).0 <= 9999,
{
    let t = civil_from_days(days);
    lemma_civil_exists(days);
    lemma_date_bounds(t.0, t.1, t.2);
    if t.0 < 1970 {
        lemma_years_grow(t.0 + 1, 1970);
    }
    if t.0 > 9999 {
        lemma_years_grow(10000, t.0);
        lemma_days_before_year(10000);
    }
}

} // verus!
