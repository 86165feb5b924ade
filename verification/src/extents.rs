//! Reporting windows anchored at the current instant: today, and the week
//! so far.

use vstd::prelude::*;

use crate::dates::Date;
use crate::entry::Time;
use crate::iter::preceding_sunday;
use crate::timesource::TimeSource;

verus! {

/// The window from today's midnight to now, in the local offset.
pub fn today<TS: TimeSource>(ts: &TS) -> (r: (Time, Time))
    ensures
        r.0.wf(),
        r.1.wf(),
        r.0.spec_abs_minutes() <= r.1.spec_abs_minutes(),
        r.0.spec_date() == r.1.spec_date(),
        r.0.hour == 0 && r.0.minute == 0,
{
    let now = ts.now();
    let start = Time { hour: 0, minute: 0, implied: false, ..now };
    (start, now)
}

/// The window from the most recent Sunday's midnight to now, in the local
/// offset.
pub fn this_week<TS: TimeSource>(ts: &TS) -> (r: (Time, Time))
    ensures
        r.0.wf(),
        r.1.wf(),
        r.0.spec_abs_minutes() <= r.1.spec_abs_minutes(),
        r.0.hour == 0 && r.0.minute == 0,
        r.0.spec_date().spec_is_sunday() || r.0.spec_date() == (Date { year: 1, month: 1, day: 1 }),
        r.1.spec_date().spec_day_number() - 6 <= r.0.spec_date().spec_day_number()
            <= r.1.spec_date().spec_day_number(),
{
    let now = ts.now();
    proof {
        crate::iter::lemma_time_date_bound(now);
        vstd::arithmetic::div_mod::lemma_mod_bound(now.spec_date().spec_day_number() + 6, 7);
    }
    let sunday = preceding_sunday(now.date());
    // Clamp to the calendar's first representable year: only reachable
    // when "now" falls in the first week of year 1.
    let sd = if sunday.year == 0 {
        Date { year: 1, month: 1, day: 1 }
    } else {
        sunday
    };
    let start = Time {
        year: sd.year,
        month: sd.month,
        day: sd.day,
        hour: 0,
        minute: 0,
        offset: now.offset,
        implied: false,
    };
    proof {
        assert(start.spec_date() == sd);
        crate::dates::lemma_days_before_year_bound(1);
        crate::dates::lemma_days_before_year_bound(now.year as int);
        crate::dates::lemma_days_before_month_nonneg(now.year as int, now.month as int);
        if sunday.year == 0 {
            sunday.lemma_day_number_bound();
            crate::dates::lemma_days_before_month_bound(0, sunday.month as int + 1);
            assert(sd.spec_day_number() == 366);
        }
        if sd.year > 9999 {
            crate::dates::lemma_days_before_month_bound(now.year as int, now.month as int + 1);
            crate::dates::lemma_days_before_year_monotone(now.year as int + 1, sd.year as int);
            crate::dates::lemma_days_before_month_nonneg(sd.year as int, sd.month as int);
            assert(crate::dates::spec_days_before_year(now.year as int + 1)
                == crate::dates::spec_days_before_year(now.year as int)
                + crate::dates::spec_days_in_year(now.year as int));
            assert(false);
        }
        assert(start.spec_date().spec_day_number() <= now.spec_date().spec_day_number());
    }
    (start, now)
}

} // verus!
