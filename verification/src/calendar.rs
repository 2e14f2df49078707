//! The proleptic Gregorian calendar: which date a day number falls on,
//! counting days from 1 January of year 0.
use vstd::prelude::*;

verus! {

/// Leap years: every fourth year, but not a century unless it is a fourth
/// century.
pub open spec fn is_leap_year(y: int) -> bool {
    y % 4 == 0 && (y % 100 != 0 || y % 400 == 0)
}

pub open spec fn year_length(y: int) -> int {
    if is_leap_year(y) {
        366
    } else {
        365
    }
}

pub open spec fn month_length(y: int, m: int) -> int {
    if m == 2 {
        if is_leap_year(y) {
            29
        } else {
            28
        }
    } else if m == 4 || m == 6 || m == 9 || m == 11 {
        30
    } else {
        31
    }
}

/// Month and day of the month of the day `n` days into year `y`, counting
/// months from `m`.
pub open spec fn month_day(y: int, m: int, n: int) -> (int, int)
    decreases 12 - m,
{
    if m >= 12 || n < month_length(y, m) {
        (m, n + 1)
    } else {
        month_day(y, m + 1, n - month_length(y, m))
    }
}

/// Year, month and day of the day `n` days after 1 January of year `y`.
pub open spec fn date_after(y: int, n: int) -> (int, int, int)
    decreases n,
{
    if n < year_length(y) {
        let md = month_day(y, 1, n);
        (y, md.0, md.1)
    } else {
        date_after(y + 1, n - year_length(y))
    }
}

/// The number of days in the `k` years from year `y` on.
pub open spec fn years_days(y: int, k: int) -> int
    decreases k,
{
    if k <= 0 {
        0
    } else {
        year_length(y) + years_days(y + 1, k - 1)
    }
}

/// Year, month and day of day number `n`, day 0 being 1 January of year 0.
pub open spec fn date_of(n: int) -> (int, int, int) {
    date_after(0, n)
}

/// The weekday of day number `n`, Sunday being 0 (1 January of year 0 was
/// a Saturday).
pub open spec fn weekday_of(n: int) -> int {
    (n + 6) % 7
}

proof fn lemma_years_days_nonneg(y: int, k: int)
    ensures
        years_days(y, k) >= 0,
    decreases k,
{
    if k > 0 {
        lemma_years_days_nonneg(y + 1, k - 1);
    }
}

/// Passing whole years: the date `n` days after year `y` began is the date
/// that many days fewer after year `y + k` began.
proof fn lemma_skip_years(y: int, k: int, n: int)
    requires
        k >= 0,
        n >= years_days(y, k),
    ensures
        date_after(y, n) == date_after(y + k, n - years_days(y, k)),
    decreases k,
{
    if k > 0 {
        lemma_years_days_nonneg(y + 1, k - 1);
        assert(n >= year_length(y));
        lemma_skip_years(y + 1, k - 1, n - year_length(y));
    }
}

proof fn lemma_years_days_split(y: int, a: int, b: int)
    requires
        a >= 0,
        b >= 0,
    ensures
        years_days(y, a + b) == years_days(y, a) + years_days(y + a, b),
    decreases a,
{
    if a > 0 {
        lemma_years_days_split(y + 1, a - 1, b);
        assert(a + b - 1 == (a - 1) + b);
    }
}

/// Days in the years before year `k`, counted from year 0: 365 each, and
/// one more for each leap year among them.
pub open spec fn days_before_year(k: int) -> int {
    365 * k + (k + 3) / 4 - (k + 99) / 100 + (k + 399) / 400
}

proof fn lemma_days_before_year(k: int)
    requires
        k >= 0,
    ensures
        years_days(0, k) == days_before_year(k),
    decreases k,
{
    if k > 0 {
        let j = k - 1;
        lemma_days_before_year(j);
        lemma_years_days_split(0, j, 1);
        assert(j + 1 == k);
        assert(years_days(j, 1) == year_length(j) + years_days(j + 1, 0));
        assert((j + 4) / 4 - (j + 3) / 4 == if j % 4 == 0 { 1int } else { 0 });
        assert((j + 100) / 100 - (j + 99) / 100 == if j % 100 == 0 { 1int } else { 0 });
        assert((j + 400) / 400 - (j + 399) / 400 == if j % 400 == 0 { 1int } else { 0 });
    }
}

/// The first `e` eras of four hundred years hold `146097 * e` days.
proof fn lemma_eras_days(e: int)
    requires
        e >= 0,
    ensures
        years_days(0, 400 * e) == 146097 * e,
{
    lemma_days_before_year(400 * e);
    assert((400 * e + 3) / 4 == 100 * e);
    assert((400 * e + 99) / 100 == 4 * e);
    assert((400 * e + 399) / 400 == e);
}

fn is_leap(y: u64) -> (res: bool)
    ensures
        res == is_leap_year(y as int),
{
    y % 4 == 0 && (y % 100 != 0 || y % 400 == 0)
}

fn year_days(y: u64) -> (res: u64)
    ensures
        res == year_length(y as int),
{
    if is_leap(y) {
        366
    } else {
        365
    }
}

fn month_days(y: u64, m: u64) -> (res: u64)
    ensures
        res == month_length(y as int, m as int),
{
    if m == 2 {
        if is_leap(y) {
            29
        } else {
            28
        }
    } else if m == 4 || m == 6 || m == 9 || m == 11 {
        30
    } else {
        31
    }
}

/// Year, month and day of day number `n`, day 0 being 1 January of year 0.
pub fn date_of_day(n: u64) -> (res: (u64, u64, u64))
    ensures
        (res.0 as int, res.1 as int, res.2 as int) == date_of(n as int),
{
    let era: u64 = n / 146097;
    let mut rem: u64 = n % 146097;
    let mut y: u64 = era * 400;
    proof {
        lemma_eras_days(era as int);
        lemma_skip_years(0, 400 * era as int, n as int);
    }
    while rem >= year_days(y)
        invariant
            date_of(n as int) == date_after(y as int, rem as int),
            y <= 400 * era + 146097 - rem,
            rem < 146097,
            era <= u64::MAX / 146097,
        decreases rem,
    {
        let len = year_days(y);
        rem = rem - len;
        y = y + 1;
    }
    assert(rem < year_length(y as int));
    let mut m: u64 = 1;
    while m < 12 && rem >= month_days(y, m)
        invariant
            1 <= m <= 12,
            date_of(n as int) == (y as int, month_day(y as int, m as int, rem as int).0,
                month_day(y as int, m as int, rem as int).1),
            rem < 366,
        decreases 12 - m,
    {
        let len = month_days(y, m);
        rem = rem - len;
        m = m + 1;
    }
    (y, m, rem + 1)
}

} // verus!
