//! Proleptic-Gregorian calendar arithmetic on plain year/month/day values.
//!
//! A `Date` is mapped to a day number (days since 0000-01-01) by `day_number`;
//! all ordering and distance questions about dates are asked of day numbers.

use vstd::prelude::*;

verus! {

/// True for years with 366 days in the proleptic Gregorian calendar.
pub open spec fn spec_is_leap_year(y: int) -> bool {
    (y % 4 == 0 && y % 100 != 0) || y % 400 == 0
}

/// Decides whether a year has 366 days.
pub fn is_leap_year(y: u16) -> (r: bool)
    ensures
        r == spec_is_leap_year(y as int),
{
    (y % 4 == 0 && y % 100 != 0) || y % 400 == 0
}

/// Days in the given month of the given year; 0 for a month outside 1..=12.
pub open spec fn spec_days_in_month(y: int, m: int) -> int {
    if m == 1 { 31 }
    else if m == 2 { if spec_is_leap_year(y) { 29 } else { 28 } }
    else if m == 3 { 31 }
    else if m == 4 { 30 }
    else if m == 5 { 31 }
    else if m == 6 { 30 }
    else if m == 7 { 31 }
    else if m == 8 { 31 }
    else if m == 9 { 30 }
    else if m == 10 { 31 }
    else if m == 11 { 30 }
    else if m == 12 { 31 }
    else { 0 }
}

/// Number of days in month `m` of year `y`.
pub fn days_in_month(y: u16, m: u8) -> (r: u8)
    requires
        1 <= m <= 12,
    ensures
        r == spec_days_in_month(y as int, m as int),
{
    if m == 2 {
        if is_leap_year(y) { 29 } else { 28 }
    } else if m == 4 || m == 6 || m == 9 || m == 11 {
        30
    } else {
        31
    }
}

/// Days of the year that precede the first day of month `m` (1-based).
pub open spec fn spec_days_before_month(y: int, m: int) -> int
    decreases m,
{
    if m <= 1 { 0 } else { spec_days_before_month(y, m - 1) + spec_days_in_month(y, m - 1) }
}

/// Number of days in year `y`.
pub open spec fn spec_days_in_year(y: int) -> int {
    if spec_is_leap_year(y) { 366 } else { 365 }
}

/// Days that precede January 1 of year `y`, counting from year 0.
pub open spec fn spec_days_before_year(y: int) -> int
    decreases y,
{
    if y <= 0 { 0 } else { spec_days_before_year(y - 1) + spec_days_in_year(y - 1) }
}

/// The day number of a calendar day: days since 0000-01-01.
pub open spec fn spec_day_number(y: int, m: int, d: int) -> int {
    spec_days_before_year(y) + spec_days_before_month(y, m) + (d - 1)
}

/// Every year count of days stays below 366 per year.
pub proof fn lemma_days_before_year_bound(y: int)
    requires
        0 <= y,
    ensures
        365 * y <= spec_days_before_year(y) <= 366 * y,
    decreases y,
{
    if y > 0 {
        lemma_days_before_year_bound(y - 1);
    }
}

/// Later years have at least as many days before them.
pub proof fn lemma_days_before_year_monotone(a: int, b: int)
    requires
        a <= b,
    ensures
        spec_days_before_year(a) <= spec_days_before_year(b),
    decreases b - a,
{
    if a < b {
        lemma_days_before_year_monotone(a, b - 1);
        if b >= 1 {
            assert(spec_days_before_year(b) == spec_days_before_year(b - 1) + spec_days_in_year(
                b - 1,
            ));
        }
    }
}

/// Days before a month never go negative.
pub proof fn lemma_days_before_month_nonneg(y: int, m: int)
    requires
        1 <= m <= 13,
    ensures
        0 <= spec_days_before_month(y, m),
    decreases m,
{
    if m > 1 {
        lemma_days_before_month_nonneg(y, m - 1);
    }
}

/// Days before a month stay within the year's length.
pub proof fn lemma_days_before_month_bound(y: int, m: int)
    requires
        1 <= m <= 13,
    ensures
        0 <= spec_days_before_month(y, m) <= spec_days_in_year(y),
    decreases 13 - m,
{
    lemma_days_before_month_nonneg(y, m);
    if m == 13 {
        lemma_months_sum_to_year(y);
    } else {
        lemma_days_before_month_bound(y, m + 1);
    }
}

/// A calendar date, as plain year, month and day fields.
#[derive(Clone, Copy, Debug, PartialEq, Eq, Structural, Hash)]
pub struct Date {
    pub year: u16,
    pub month: u8,
    pub day: u8,
}

impl Date {
    /// Validity: month and day name an existing calendar day.
    pub open spec fn wf(self) -> bool {
        &&& 1 <= self.month <= 12
        &&& 1 <= self.day <= spec_days_in_month(self.year as int, self.month as int)
    }

    /// The date's day number.
    pub open spec fn spec_day_number(self) -> int {
        spec_day_number(self.year as int, self.month as int, self.day as int)
    }

    /// Day numbers of representable dates fit comfortably in `u32`.
    pub proof fn lemma_day_number_bound(self)
        requires
            self.wf(),
        ensures
            0 <= self.spec_day_number() < 24_000_000,
    {
        lemma_days_before_year_bound(self.year as int);
        lemma_days_before_month_bound(self.year as int, self.month as int);
    }

    /// Days since 0000-01-01.
    pub fn day_number(&self) -> (r: u32)
        requires
            self.wf(),
        ensures
            r == self.spec_day_number(),
    {
        proof {
            self.lemma_day_number_bound();
            lemma_days_before_year_bound(self.year as int);
        }
        let mut days: u32 = 0;
        let mut y: u16 = 0;
        while y < self.year
            invariant
                y <= self.year,
                days == spec_days_before_year(y as int),
                days <= 366 * (y as int),
            decreases self.year - y,
        {
            proof {
                lemma_days_before_year_bound(y as int + 1);
            }
            if is_leap_year(y) {
                days = days + 366;
            } else {
                days = days + 365;
            }
            y = y + 1;
        }
        let mut m: u8 = 1;
        while m < self.month
            invariant
                1 <= m <= self.month,
                self.wf(),
                days == spec_days_before_year(self.year as int)
                    + spec_days_before_month(self.year as int, m as int),
                days <= 366 * (self.year as int) + 366,
            decreases self.month - m,
        {
            proof {
                lemma_days_before_month_bound(self.year as int, m as int + 1);
                lemma_days_before_year_bound(self.year as int);
            }
            days = days + days_in_month(self.year, m) as u32;
            m = m + 1;
        }
        days + (self.day - 1) as u32
    }

    /// The day after this one.
    pub fn next_day(&self) -> (r: Date)
        requires
            self.wf(),
            !(self.year == u16::MAX && self.month == 12 && self.day == 31),
        ensures
            r.wf(),
            r.spec_day_number() == self.spec_day_number() + 1,
    {
        if self.day < days_in_month(self.year, self.month) {
            Date { year: self.year, month: self.month, day: self.day + 1 }
        } else if self.month < 12 {
            let r = Date { year: self.year, month: self.month + 1, day: 1 };
            proof {
                assert(spec_days_before_month(self.year as int, self.month as int + 1)
                    == spec_days_before_month(self.year as int, self.month as int)
                        + spec_days_in_month(self.year as int, self.month as int));
            }
            r
        } else {
            let r = Date { year: self.year + 1, month: 1, day: 1 };
            proof {
                assert(spec_days_before_month(self.year as int, 13)
                    == spec_days_in_year(self.year as int)) by {
                    lemma_months_sum_to_year(self.year as int);
                }
                assert(spec_days_before_month(self.year as int, 13)
                    == spec_days_before_month(self.year as int, 12) + 31);
                assert(spec_days_before_year(self.year as int + 1)
                    == spec_days_before_year(self.year as int)
                        + spec_days_in_year(self.year as int));
            }
            r
        }
    }

    /// The day before this one.
    pub fn prev_day(&self) -> (r: Date)
        requires
            self.wf(),
            !(self.year == 0 && self.month == 1 && self.day == 1),
        ensures
            r.wf(),
            r.spec_day_number() == self.spec_day_number() - 1,
    {
        if self.day > 1 {
            Date { year: self.year, month: self.month, day: self.day - 1 }
        } else if self.month > 1 {
            let r = Date {
                year: self.year,
                month: self.month - 1,
                day: days_in_month(self.year, self.month - 1),
            };
            proof {
                assert(spec_days_before_month(self.year as int, self.month as int)
                    == spec_days_before_month(self.year as int, self.month as int - 1)
                        + spec_days_in_month(self.year as int, self.month as int - 1));
            }
            r
        } else {
            let r = Date { year: self.year - 1, month: 12, day: 31 };
            proof {
                assert(spec_days_before_month(r.year as int, 13)
                    == spec_days_in_year(r.year as int)) by {
                    lemma_months_sum_to_year(r.year as int);
                }
                assert(spec_days_before_month(r.year as int, 13)
                    == spec_days_before_month(r.year as int, 12) + 31);
                assert(spec_days_before_year(self.year as int)
                    == spec_days_before_year(r.year as int)
                        + spec_days_in_year(r.year as int));
            }
            r
        }
    }

    /// Whether this date is a Sunday.
    ///
    /// Day number 1 (0000-01-02) was a Sunday in the proleptic Gregorian
    /// calendar, so Sundays are the day numbers congruent to 1 modulo 7.
    pub open spec fn spec_is_sunday(self) -> bool {
        self.spec_day_number() % 7 == 1
    }

    /// Decides whether this date is a Sunday.
    pub fn is_sunday(&self) -> (r: bool)
        requires
            self.wf(),
        ensures
            r == self.spec_is_sunday(),
    {
        proof {
            self.lemma_day_number_bound();
        }
        self.day_number() % 7 == 1
    }
}

/// The twelve months of a year sum to the year's number of days.
proof fn lemma_months_sum_to_year(y: int)
    ensures
        spec_days_before_month(y, 13) == spec_days_in_year(y),
{
    assert(spec_days_before_month(y, 13) == spec_days_in_year(y)) by {
        reveal_with_fuel(spec_days_before_month, 13);
    }
}

} // verus!
