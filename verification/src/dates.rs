//! Calendar dates in the proleptic Gregorian calendar, and the day
//! arithmetic the scheduler is built on.
//!
//! A `Date` is a plain year/month/day triple. Its mathematical model is
//! `spec_day_number`: the number of days since the calendar day before
//! 0001-01-01, so that 0001-01-01 has day number 0. All scheduling
//! arithmetic (days until a review is due, shifting a date by whole days)
//! is specified as arithmetic on day numbers, which makes month and year
//! rollover exact by construction.
use vstd::arithmetic::div_mod::{
    lemma_fundamental_div_mod, lemma_fundamental_div_mod_converse,
    lemma_div_is_ordered_by_denominator,
};
use vstd::prelude::*;

verus! {

/// A calendar date. Supported years run from 1 to 9999, so that dates
/// always print with four-digit years.
#[derive(Clone, Copy, Debug, PartialEq, Eq, Structural)]
pub struct Date {
    pub year: u16,
    pub month: u8,
    pub day: u8,
}

/// A year is a leap year iff it is divisible by 4 but not by 100,
/// or divisible by 400.
pub open spec fn spec_is_leap_year(y: int) -> bool {
    (y % 4 == 0 && y % 100 != 0) || y % 400 == 0
}

/// The number of days of month `m` (1-based) of year `y`.
pub open spec fn spec_days_in_month(y: int, m: int) -> int {
    if m == 2 {
        if spec_is_leap_year(y) {
            29
        } else {
            28
        }
    } else if m == 4 || m == 6 || m == 9 || m == 11 {
        30
    } else {
        31
    }
}

/// The number of days in all years before year `y` (for `y >= 1`):
/// 365 per year plus one per leap year.
pub open spec fn spec_days_before_year(y: int) -> int {
    365 * (y - 1) + (y - 1) / 4 - (y - 1) / 100 + (y - 1) / 400
}

/// The number of days of year `y` that lie before month `m` (1-based).
pub open spec fn spec_days_before_month(y: int, m: int) -> int
    decreases m,
{
    if m <= 1 {
        0
    } else {
        spec_days_before_month(y, m - 1) + spec_days_in_month(y, m - 1)
    }
}

/// The largest supported date.
pub open spec fn spec_max_date() -> Date {
    Date { year: 9999, month: 12, day: 31 }
}

impl Date {
    /// A real calendar date within the supported year range.
    pub open spec fn valid(self) -> bool {
        &&& 1 <= self.year <= 9999
        &&& 1 <= self.month <= 12
        &&& 1 <= self.day <= spec_days_in_month(self.year as int, self.month as int)
    }

    /// The number of days from 0001-01-01 to this date; 0001-01-01 is day 0.
    pub open spec fn spec_day_number(self) -> int {
        spec_days_before_year(self.year as int) + spec_days_before_month(
            self.year as int,
            self.month as int,
        ) + self.day - 1
    }
}

/// The day number of the largest supported date, 9999-12-31.
pub open spec fn spec_max_day_number() -> int {
    spec_max_date().spec_day_number()
}

pub fn is_leap_year(y: u16) -> (r: bool)
    ensures
        r == spec_is_leap_year(y as int),
{
    (y % 4 == 0 && y % 100 != 0) || y % 400 == 0
}

pub fn days_in_month(y: u16, m: u8) -> (r: u8)
    requires
        1 <= m <= 12,
    ensures
        r == spec_days_in_month(y as int, m as int),
{
    if m == 2 {
        if is_leap_year(y) {
            29
        } else {
            28
        }
    } else if m == 4 || m == 6 || m == 9 || m == 11 {
        30
    } else {
        31
    }
}

/// Incrementing the year by one adds 365 or 366 days to the prefix count,
/// according to whether the year that ends is a leap year.
proof fn lemma_days_before_year_step(y: int)
    requires
        1 <= y,
    ensures
        spec_days_before_year(y + 1) == spec_days_before_year(y) + 365 + if spec_is_leap_year(
            y,
        ) {
            1int
        } else {
            0int
        },
{
    lemma_div_step(y, 4);
    lemma_div_step(y, 100);
    lemma_div_step(y, 400);
    lemma_multiple_of_400_is_multiple_of_100(y);
    lemma_multiple_of_100_is_multiple_of_4(y);
}

/// Stepping the dividend by one raises a (nonnegative) quotient exactly
/// when the new dividend is a multiple of the divisor.
proof fn lemma_div_step(y: int, k: int)
    requires
        1 <= y,
        2 <= k,
    ensures
        y % k == 0 ==> y / k == (y - 1) / k + 1,
        y % k != 0 ==> y / k == (y - 1) / k,
{
    lemma_fundamental_div_mod(y, k);
    if y % k == 0 {
        assert((y / k - 1) * k + (k - 1) == k * (y / k) - 1) by (nonlinear_arith);
        lemma_fundamental_div_mod_converse(y - 1, k, y / k - 1, k - 1);
    } else {
        assert((y / k) * k + (y % k - 1) == k * (y / k) + y % k - 1) by (nonlinear_arith);
        lemma_fundamental_div_mod_converse(y - 1, k, y / k, y % k - 1);
    }
}

proof fn lemma_multiple_of_400_is_multiple_of_100(y: int)
    ensures
        y % 400 == 0 ==> y % 100 == 0,
{
    if y % 400 == 0 {
        lemma_fundamental_div_mod(y, 400);
        lemma_fundamental_div_mod_converse(y, 100, 4 * (y / 400), 0);
    }
}

proof fn lemma_multiple_of_100_is_multiple_of_4(y: int)
    ensures
        y % 100 == 0 ==> y % 4 == 0,
{
    if y % 100 == 0 {
        lemma_fundamental_div_mod(y, 100);
        lemma_fundamental_div_mod_converse(y, 4, 25 * (y / 100), 0);
    }
}

/// The months of year `y` together hold 365 or 366 days, according to
/// whether `y` is a leap year.
proof fn lemma_days_in_year(y: int)
    ensures
        spec_days_before_month(y, 13) == 365 + if spec_is_leap_year(y) {
            1int
        } else {
            0int
        },
{
    reveal_with_fuel(spec_days_before_month, 14);
}

/// Month prefix counts grow with the month.
proof fn lemma_days_before_month_mono(y: int, m1: int, m2: int)
    requires
        m1 <= m2,
    ensures
        spec_days_before_month(y, m1) <= spec_days_before_month(y, m2),
    decreases m2 - m1,
{
    if m1 < m2 {
        lemma_days_before_month_mono(y, m1, m2 - 1);
    }
}

proof fn lemma_days_before_month_nonneg(y: int, m: int)
    ensures
        spec_days_before_month(y, m) >= 0,
    decreases m,
{
    if m > 1 {
        lemma_days_before_month_nonneg(y, m - 1);
    }
}

/// Year prefix counts grow with the year.
proof fn lemma_days_before_year_mono(y1: int, y2: int)
    requires
        1 <= y1 <= y2,
    ensures
        spec_days_before_year(y1) <= spec_days_before_year(y2),
    decreases y2 - y1,
{
    if y1 < y2 {
        lemma_days_before_year_mono(y1, y2 - 1);
        lemma_days_before_year_step(y2 - 1);
    }
}

/// Every valid date has a day number between 0 and the day number of
/// 9999-12-31.
pub proof fn lemma_day_number_in_range(d: Date)
    requires
        d.valid(),
    ensures
        0 <= d.spec_day_number() <= spec_max_day_number(),
{
    let y = d.year as int;
    let m = d.month as int;
    lemma_div_is_ordered_by_denominator(y - 1, 4, 100);
    lemma_days_before_month_nonneg(y, m);
    assert(spec_days_before_year(y) >= 0);
    // Upper bound: pad the date out to the end of its year, then pad the
    // years out to 9999.
    lemma_days_before_month_mono(y, m + 1, 13);
    lemma_days_in_year(y);
    lemma_days_before_year_step(y);
    if y < 9999 {
        lemma_days_before_year_mono(y + 1, 9999);
    }
    lemma_days_in_year(9999);
    lemma_days_before_month_mono(9999, 13, 13);
    assert(spec_days_before_month(9999, 13) == spec_days_before_month(9999, 12)
        + spec_days_in_month(9999, 12));
}

/// The day number of 9999-12-31, as a number.
pub proof fn lemma_max_day_number_value()
    ensures
        spec_max_day_number() == 3652058,
{
    reveal_with_fuel(spec_days_before_month, 14);
}

/// The day number of a date, as an ordinary integer.
pub fn day_number(d: &Date) -> (r: u64)
    requires
        d.valid(),
    ensures
        r == d.spec_day_number(),
        r <= spec_max_day_number(),
{
    let ghost yi = d.year as int;
    let ghost mi = d.month as int;
    proof {
        lemma_day_number_in_range(*d);
        lemma_max_day_number_value();
        lemma_div_is_ordered_by_denominator(yi - 1, 4, 100);
        lemma_days_before_month_nonneg(yi, mi);
        lemma_days_before_month_mono(yi, 1, mi);
        assert(spec_days_before_month(yi, 1) == 0);
    }
    let y = d.year as u64;
    let mut n: u64 = 365 * (y - 1) + (y - 1) / 4 - (y - 1) / 100 + (y - 1) / 400;
    let mut m: u8 = 1;
    while m < d.month
        invariant
            1 <= m <= d.month,
            d.valid(),
            n == spec_days_before_year(d.year as int) + spec_days_before_month(
                d.year as int,
                m as int,
            ),
            n <= d.spec_day_number(),
        decreases d.month - m,
    {
        proof {
            lemma_days_before_month_mono(d.year as int, m as int + 1, d.month as int);
            lemma_day_number_in_range(*d);
            lemma_max_day_number_value();
        }
        n = n + days_in_month(d.year, m) as u64;
        m = m + 1;
    }
    proof {
        lemma_day_number_in_range(*d);
        lemma_max_day_number_value();
    }
    n + d.day as u64 - 1
}

/// The day after `d`: the next day of the month, or the first day of the
/// next month or year on rollover. Exact: the day number goes up by one.
pub fn next_day(d: &Date) -> (r: Date)
    requires
        d.valid(),
        d.spec_day_number() < spec_max_day_number(),
    ensures
        r.valid(),
        r.spec_day_number() == d.spec_day_number() + 1,
{
    let dim = days_in_month(d.year, d.month);
    if d.day < dim {
        Date { year: d.year, month: d.month, day: d.day + 1 }
    } else if d.month < 12 {
        Date { year: d.year, month: d.month + 1, day: 1 }
    } else {
        proof {
            if d.year == 9999 {
                lemma_days_in_year(9999);
                assert(spec_days_before_month(9999, 13) == spec_days_before_month(9999, 12)
                    + spec_days_in_month(9999, 12));
                assert(d.spec_day_number() == spec_max_day_number());
            }
            lemma_days_before_year_step(d.year as int);
            lemma_days_in_year(d.year as int);
        }
        Date { year: d.year + 1, month: 1, day: 1 }
    }
}

/// The day before `d`. Exact: the day number goes down by one.
pub fn prev_day(d: &Date) -> (r: Date)
    requires
        d.valid(),
        d.spec_day_number() > 0,
    ensures
        r.valid(),
        r.spec_day_number() == d.spec_day_number() - 1,
{
    if d.day > 1 {
        Date { year: d.year, month: d.month, day: d.day - 1 }
    } else if d.month > 1 {
        let pm = d.month - 1;
        let dim = days_in_month(d.year, pm);
        Date { year: d.year, month: pm, day: dim }
    } else {
        proof {
            if d.year == 1 {
                lemma_days_before_month_nonneg(1, 1);
                assert(spec_days_before_year(1) == 0);
                assert(d.spec_day_number() == 0);
            }
            lemma_days_before_year_step(d.year as int - 1);
            lemma_days_in_year(d.year as int - 1);
        }
        Date { year: d.year - 1, month: 12, day: 31 }
    }
}

/// The date `n` days after `d`, when that stays within the supported
/// range; `d` itself otherwise.
pub fn date_plus_days(d: &Date, n: u64) -> (r: Date)
    requires
        d.valid(),
    ensures
        r.valid(),
        d.spec_day_number() + n <= spec_max_day_number() ==> r.spec_day_number()
            == d.spec_day_number() + n,
        d.spec_day_number() + n > spec_max_day_number() ==> r == *d,
{
    let dn = day_number(d);
    let max_date = Date { year: 9999, month: 12, day: 31 };
    let max_dn = day_number(&max_date);
    if n > max_dn - dn {
        return *d;
    }
    let mut cur = *d;
    let mut i: u64 = 0;
    while i < n
        invariant
            i <= n,
            cur.valid(),
            cur.spec_day_number() == d.spec_day_number() + i,
            d.spec_day_number() + n <= spec_max_day_number(),
        decreases n - i,
    {
        cur = next_day(&cur);
        i = i + 1;
    }
    cur
}

/// The date `n` days before `d`, when that stays within the supported
/// range; `d` itself otherwise.
pub fn date_minus_days(d: &Date, n: u64) -> (r: Date)
    requires
        d.valid(),
    ensures
        r.valid(),
        d.spec_day_number() - n >= 0 ==> r.spec_day_number() == d.spec_day_number() - n,
        d.spec_day_number() - n < 0 ==> r == *d,
{
    let dn = day_number(d);
    if n > dn {
        return *d;
    }
    let mut cur = *d;
    let mut i: u64 = 0;
    while i < n
        invariant
            i <= n,
            cur.valid(),
            cur.spec_day_number() == d.spec_day_number() - i,
            n <= d.spec_day_number(),
        decreases n - i,
    {
        cur = prev_day(&cur);
        i = i + 1;
    }
    cur
}

} // verus!
