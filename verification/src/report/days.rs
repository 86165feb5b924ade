//! The per-day table report: minutes worked per day, one row per week,
//! grouped into months and years.

use vstd::prelude::*;

use crate::dates::Date;
use crate::entry::{Time, TimeEntry};
use crate::iter::{each_week, each_day_in_week, date_plus_days};
use crate::text::{dec_i128, push_padded_left, push_padded_right, two2, year4};
use crate::timesource::TimeSource;

verus! {

/// The whole table: one block per year.
#[derive(Debug, PartialEq)]
pub struct Report {
    pub years: Vec<Year>,
    pub opts: Options,
}

/// One year's block of the table.
#[derive(Debug, PartialEq)]
pub struct Year {
    pub year: i32,
    pub months: Vec<Month>,
}

/// One month's rows of the table.
#[derive(Debug, PartialEq)]
pub struct Month {
    pub month: u8,
    pub weeks: Vec<Week>,
}

/// One week's row: its Sunday and the minutes worked on each of its
/// seven days.
#[derive(Debug, PartialEq)]
pub struct Week {
    pub start: Date,
    pub minutes: Vec<i64>,
}

/// Which totals the rendered table includes.
#[derive(Debug, PartialEq, Clone, Copy)]
pub struct Options {
    pub include_totals: bool,
    pub only_show_per_year: bool,
}

impl Options {
    /// Whether each week's own row is shown.
    pub fn show_weekly_total(&self) -> (r: bool)
        ensures
            r == !self.only_show_per_year,
    {
        !self.only_show_per_year
    }

    /// Whether a total row per month is shown.
    pub fn show_monthly_total(&self) -> (r: bool)
        ensures
            r == (self.include_totals && !self.only_show_per_year),
    {
        self.include_totals && !self.only_show_per_year
    }

    /// Whether a total row per year is shown.
    pub fn show_yearly_total(&self) -> (r: bool)
        ensures
            r == (self.include_totals || self.only_show_per_year),
    {
        self.include_totals || self.only_show_per_year
    }
}

/// The grouping state while weeks stream in: finished years, the year and
/// month currently being filled.
pub struct State {
    pub years: Vec<Year>,
    pub year: Year,
    pub month: Month,
}

/// Copies a list of intervals.
fn copy_entries(v: &Vec<TimeEntry>) -> (r: Vec<TimeEntry>)
    ensures
        r@ == v@,
{
    let mut out: Vec<TimeEntry> = Vec::new();
    let mut i: usize = 0;
    while i < v.len()
        invariant
            i <= v@.len(),
            out@ == v@.take(i as int),
        decreases v@.len() - i,
    {
        out.push(v[i]);
        proof {
            assert(v@.take(i + 1) =~= v@.take(i as int).push(v@[i as int]));
        }
        i = i + 1;
    }
    proof {
        assert(v@.take(v@.len() as int) == v@);
    }
    out
}

/// A table row is well formed: a valid, in-range date and seven day
/// columns.
pub open spec fn week_row_wf(w: Week) -> bool {
    &&& w.minutes@.len() == 7
    &&& w.start.wf()
    &&& w.start.spec_day_number() <= 4_190_000
}

/// Every row of a month is well formed.
pub open spec fn month_rows_wf(m: Month) -> bool {
    forall|w: int| 0 <= w < m.weeks@.len() ==> week_row_wf(#[trigger] m.weeks@[w])
}

/// Every row of a year is well formed.
pub open spec fn year_rows_wf(y: Year) -> bool {
    forall|m: int| 0 <= m < y.months@.len() ==> month_rows_wf(#[trigger] y.months@[m])
}

/// Every row of the grouping state is well formed.
pub open spec fn state_wf(st: State) -> bool {
    &&& forall|i: int| 0 <= i < st.years@.len() ==> year_rows_wf(#[trigger] st.years@[i])
    &&& year_rows_wf(st.year)
    &&& month_rows_wf(st.month)
}

/// The minutes worked on the day starting at `start`, out of the given
/// intervals, clipped to the day's `[00:00, 24:00)` window in the local
/// offset.
pub fn minutes_on_day<TS: TimeSource>(start: Date, entries: &Vec<TimeEntry>, ts: &TS) -> (r: i64)
    requires
        start.wf(),
        start.spec_day_number() <= 4_200_000,
        forall|i: int| 0 <= i < entries@.len() ==> (#[trigger] entries@[i]).parts_wf(),
        entries@.len() <= 0x1000_0000,
    ensures
        exists|off: int|
            {
                &&& -1559 <= off <= 1559
                &&& r == crate::entry::spec_sum_minutes(
                    entries@,
                    #[trigger] (start.spec_day_number() * 1440 - off),
                    start.spec_day_number() * 1440 + 1440 - off,
                )
            },
{
    let off = ts.local_offset() as i64;
    proof {
        start.lemma_day_number_bound();
    }
    let from = (start.day_number() as i64) * 1440 - off;
    let to = (start.day_number() as i64) * 1440 + 1440 - off;
    crate::entry::sum_minutes_between(entries, from, to)
}

/// One week's row: the minutes worked on each of its seven days. Each
/// nonzero cell is the clipped total, over that day's window, of a
/// consecutive run of the intervals, closed at one instant.
pub fn convert_week<TS: TimeSource>(start: Date, entries: &Vec<TimeEntry>, ts: &TS) -> (r: Week)
    requires
        start.wf(),
        start.spec_day_number() <= 4_190_000,
        forall|i: int| 0 <= i < entries@.len() ==> (#[trigger] entries@[i]).parts_wf(),
        entries@.len() <= 0x1000_0000,
    ensures
        r.start == start,
        r.minutes@.len() == 7,
        week_row_wf(r),
        forall|i: int|
            0 <= i < 7 ==> ((#[trigger] r.minutes@[i]) == 0 || exists|a: int, b: int, off: int, now: Time|
                #![trigger crate::entry::spec_sum_minutes(
                    crate::iter::spec_closed_run(entries@, a, b, now),
                    (start.spec_day_number() + i) * 1440 - off,
                    (start.spec_day_number() + i) * 1440 + 1440 - off,
                )]
                {
                    &&& 0 <= a <= b <= entries@.len()
                    &&& -1559 <= off <= 1559
                    &&& now.wf()
                    &&& r.minutes@[i] == crate::entry::spec_sum_minutes(
                        crate::iter::spec_closed_run(entries@, a, b, now),
                        (start.spec_day_number() + i) * 1440 - off,
                        (start.spec_day_number() + i) * 1440 + 1440 - off,
                    )
                }),
{
    let mut minutes: Vec<i64> = Vec::new();
    let mut z: usize = 0;
    while z < 7
        invariant
            minutes@.len() == z <= 7,
            forall|k: int| 0 <= k < z ==> #[trigger] minutes@[k] == 0,
        decreases 7 - z,
    {
        minutes.push(0);
        z = z + 1;
    }
    proof {
        start.lemma_day_number_bound();
    }
    let start_dn = start.day_number();
    let mut it = each_day_in_week(copy_entries(entries), start, ts);
    loop
        invariant
            it.wf(),
            it.spec_entries() == entries@,
            entries@.len() <= 0x1000_0000,
            forall|i: int| 0 <= i < entries@.len() ==> (#[trigger] entries@[i]).parts_wf(),
            it.spec_now().wf(),
            it.spec_week_start() == start,
            start.wf(),
            start_dn == start.spec_day_number() <= 4_190_000,
            minutes@.len() == 7,
            forall|i: int|
                0 <= i < 7 ==> ((#[trigger] minutes@[i]) == 0 || exists|a: int, b: int, off: int, now: Time|
                    #![trigger crate::entry::spec_sum_minutes(
                        crate::iter::spec_closed_run(entries@, a, b, now),
                        (start.spec_day_number() + i) * 1440 - off,
                        (start.spec_day_number() + i) * 1440 + 1440 - off,
                    )]
                    {
                        &&& 0 <= a <= b <= entries@.len()
                        &&& -1559 <= off <= 1559
                        &&& now.wf()
                        &&& minutes@[i] == crate::entry::spec_sum_minutes(
                            crate::iter::spec_closed_run(entries@, a, b, now),
                            (start.spec_day_number() + i) * 1440 - off,
                            (start.spec_day_number() + i) * 1440 + 1440 - off,
                        )
                    }),
        decreases it.spec_measure(),
    {
        proof {
            it.lemma_measure_nonneg();
        }
        match it.next() {
            None => {
                break;
            },
            Some((d, es)) => {
                proof {
                    d.lemma_day_number_bound();
                    assert forall|k: int| 0 <= k < es@.len() implies (
                    #[trigger] es@[k]).parts_wf() by {
                        let j = choose|j: int|
                            0 <= j < entries@.len() && es@[k] == crate::iter::spec_finish_if_not(
                                entries@[j],
                                it.spec_now(),
                            );
                        assert(entries@[j].parts_wf());
                    }
                }
                let i = (d.day_number() - start_dn) as usize;
                let ghost bucket = es@;
                let m = minutes_on_day(d, &es, ts);
                proof {
                    let (aw, bw) = choose|aw: int, bw: int|
                        #![auto]
                        0 <= aw <= bw <= entries@.len() && bucket == crate::iter::spec_closed_run(
                            entries@,
                            aw,
                            bw,
                            it.spec_now(),
                        );
                    let off_w = choose|off: int|
                        {
                            &&& -1559 <= off <= 1559
                            &&& m == crate::entry::spec_sum_minutes(
                                bucket,
                                #[trigger] (d.spec_day_number() * 1440 - off),
                                d.spec_day_number() * 1440 + 1440 - off,
                            )
                        };
                    assert(d.spec_day_number() == start.spec_day_number() + i);
                    assert(m == crate::entry::spec_sum_minutes(
                        crate::iter::spec_closed_run(entries@, aw, bw, it.spec_now()),
                        (start.spec_day_number() + i as int) * 1440 - off_w,
                        (start.spec_day_number() + i as int) * 1440 + 1440 - off_w,
                    ));
                }
                minutes.set(i, m);
                proof {
                    it.lemma_measure_nonneg();
                }
            },
        }
    }
    Week { start, minutes }
}

/// Folds one week's row into the grouping state: the row is appended to
/// the current month; a week starting a new month closes the month into
/// the year, and one starting a new year closes the year into the list.
pub fn prepare_week<TS: TimeSource>(
    state: Option<State>,
    week_start: Date,
    entries: Vec<TimeEntry>,
    ts: &TS,
) -> (r: State)
    requires
        week_start.wf(),
        week_start.spec_day_number() <= 4_190_000,
        forall|i: int| 0 <= i < entries@.len() ==> (#[trigger] entries@[i]).parts_wf(),
        entries@.len() <= 0x1000_0000,
        match state {
            Some(st) => state_wf(st),
            None => true,
        },
    ensures
        state_wf(r),
        r.month.weeks@.len() >= 1,
        r.month.weeks@.last().start == week_start,
        r.month.month == week_start.month,
        r.year.year == week_start.year as i32,
        match state {
            None => {
                &&& r.years@.len() == 0
                &&& r.year.months@.len() == 0
                &&& r.month.weeks@.len() == 1
            },
            Some(st) => if st.year.year != week_start.year as i32 {
                &&& r.years@.drop_last() == st.years@
                &&& r.years@.len() == st.years@.len() + 1
                &&& r.years@.last().year == st.year.year
                &&& r.years@.last().months@ == st.year.months@.push(st.month)
                &&& r.year.months@.len() == 0
                &&& r.month.weeks@.len() == 1
            } else if st.month.month != week_start.month {
                &&& r.years@ == st.years@
                &&& r.year.year == st.year.year
                &&& r.year.months@ == st.year.months@.push(st.month)
                &&& r.month.weeks@.len() == 1
            } else {
                &&& r.years@ == st.years@
                &&& r.year == st.year
                &&& r.month.month == st.month.month
                &&& r.month.weeks@.drop_last() == st.month.weeks@
                &&& r.month.weeks@.len() == st.month.weeks@.len() + 1
            },
        },
{
    let week = convert_week(week_start, &entries, ts);
    match state {
        None => {
            let month = Month { month: week_start.month, weeks: vec_of_week(week) };
            let year = Year { year: week_start.year as i32, months: Vec::new() };
            State { years: Vec::new(), year, month }
        },
        Some(st) => {
            let State { mut years, mut year, mut month } = st;
            if year.year != week_start.year as i32 {
                let ghost old_year = year;
                year.months.push(month);
                proof {
                    assert(year_rows_wf(year)) by {
                        assert(forall|m: int|
                            0 <= m < year.months@.len() ==> month_rows_wf(
                                #[trigger] year.months@[m],
                            ));
                    }
                }
                years.push(year);
                let month = Month { month: week_start.month, weeks: vec_of_week(week) };
                let year = Year { year: week_start.year as i32, months: Vec::new() };
                State { years, year, month }
            } else if month.month != week_start.month {
                year.months.push(month);
                proof {
                    assert(year_rows_wf(year)) by {
                        assert(forall|m: int|
                            0 <= m < year.months@.len() ==> month_rows_wf(
                                #[trigger] year.months@[m],
                            ));
                    }
                }
                let month = Month { month: week_start.month, weeks: vec_of_week(week) };
                State { years, year, month }
            } else {
                month.weeks.push(week);
                State { years, year, month }
            }
        },
    }
}

/// A one-element week list.
fn vec_of_week(w: Week) -> (r: Vec<Week>)
    ensures
        r@.len() == 1,
        r@[0] == w,
{
    let mut v: Vec<Week> = Vec::new();
    v.push(w);
    v
}

/// Closes the grouping state into the finished report.
fn finish(state: Option<State>, opts: Options) -> (r: Report)
    requires
        match state {
            Some(st) => state_wf(st),
            None => true,
        },
    ensures
        r.opts == opts,
        report_wf(r),
{
    match state {
        Some(st) => {
            let State { mut years, mut year, month } = st;
            year.months.push(month);
            proof {
                assert(year_rows_wf(year)) by {
                    assert(forall|m: int|
                        0 <= m < year.months@.len() ==> month_rows_wf(#[trigger] year.months@[m]));
                }
            }
            years.push(year);
            let r = Report { years, opts };
            proof {
                assert(report_wf(r)) by {
                    assert(forall|y: int|
                        0 <= y < r.years@.len() ==> year_rows_wf(#[trigger] r.years@[y]));
                }
            }
            r
        },
        None => Report { years: Vec::new(), opts },
    }
}

/// Builds the per-day table for the given intervals: weeks in order,
/// grouped by the month and year their Sunday falls in.
pub fn prepare<TS: TimeSource>(entries: Vec<TimeEntry>, ts: &TS, opts: Options) -> (r: Report)
    requires
        forall|i: int| 0 <= i < entries@.len() ==> (#[trigger] entries@[i]).parts_wf(),
        entries@.len() <= 0x1000_0000,
    ensures
        r.opts == opts,
        report_wf(r),
{
    let ghost all = entries@;
    let mut state: Option<State> = None;
    let mut it = each_week(entries, ts);
    loop
        invariant
            it.wf(),
            it.spec_entries() == all,
            it.spec_now().wf(),
            all.len() <= 0x1000_0000,
            forall|i: int| 0 <= i < all.len() ==> (#[trigger] all[i]).parts_wf(),
            match state {
                Some(st) => state_wf(st),
                None => true,
            },
        decreases it.spec_measure(),
    {
        proof {
            it.lemma_measure_nonneg();
        }
        let ghost old_ix = it.spec_next_index();
        match it.next() {
            None => {
                break;
            },
            Some((week_start, es)) => {
                proof {
                    assert forall|i: int| 0 <= i < es@.len() implies (
                    #[trigger] es@[i]).parts_wf() by {
                        assert(es@[i] == crate::iter::spec_finish_if_not(
                            all[old_ix + i],
                            it.spec_now(),
                        ));
                        assert(all[old_ix + i].parts_wf());
                    }
                }
                state = Some(prepare_week(state, week_start, es, ts));
                proof {
                    it.lemma_measure_nonneg();
                }
            },
        }
    }
    finish(state, opts)
}

/// Every week row of the table names a real date within range and holds
/// seven day columns.
pub open spec fn report_wf(r: Report) -> bool {
    forall|y: int, m: int, w: int|
        0 <= y < r.years@.len() && 0 <= m < r.years@[y].months@.len() && 0 <= w
            < r.years@[y].months@[m].weeks@.len() ==> {
            &&& (#[trigger] r.years@[y].months@[m].weeks@[w]).minutes@.len() == 7
            &&& r.years@[y].months@[m].weeks@[w].start.wf()
            &&& r.years@[y].months@[m].weeks@[w].start.spec_day_number() <= 4_190_000
        }
}

/// Adds each day column of `b` into `a`, saturating far outside any value
/// a real log can produce.
pub fn accum(a: &mut Vec<i128>, b: &Vec<i64>)
    requires
        old(a)@.len() == 7,
        b@.len() == 7,
        forall|i: int| 0 <= i < 7 ==> -0x4000_0000_0000_0000 <= #[trigger] old(a)@[i]
            <= 0x4000_0000_0000_0000,
    ensures
        final(a)@.len() == 7,
        forall|i: int| 0 <= i < 7 ==> -0x4000_0000_0000_0000 <= #[trigger] final(a)@[i]
            <= 0x4000_0000_0000_0000,
{
    let mut i: usize = 0;
    while i < 7
        invariant
            i <= 7,
            a@.len() == 7,
            b@.len() == 7,
            forall|k: int| 0 <= k < 7 ==> -0x4000_0000_0000_0000 <= #[trigger] a@[k]
                <= 0x4000_0000_0000_0000,
        decreases 7 - i,
    {
        let s = a[i] + b[i] as i128;
        let clamped: i128 = if s > 0x4000_0000_0000_0000i128 {
            0x4000_0000_0000_0000i128
        } else if s < -0x4000_0000_0000_0000i128 {
            -0x4000_0000_0000_0000i128
        } else {
            s
        };
        a.set(i, clamped);
        i = i + 1;
    }
}

/// Renders one table row: a 23-column label, one cell per day showing its
/// minutes when positive, and the row's total.
pub fn write_report_line(out: &mut Vec<u8>, label: &Vec<u8>, minutes: &Vec<i128>)
    requires
        minutes@.len() == 7,
        forall|i: int| 0 <= i < 7 ==> -0x4000_0000_0000_0000 <= #[trigger] minutes@[i]
            <= 0x4000_0000_0000_0000,
{
    push_padded_right(out, label, 23);
    out.push(32);
    out.push(124);
    let mut tot: i128 = 0;
    let mut i: usize = 0;
    while i < 7
        invariant
            i <= 7,
            minutes@.len() == 7,
            forall|k: int| 0 <= k < 7 ==> -0x4000_0000_0000_0000 <= #[trigger] minutes@[k]
                <= 0x4000_0000_0000_0000,
            -(i as int) * 0x4000_0000_0000_0000 <= tot <= (i as int) * 0x4000_0000_0000_0000,
        decreases 7 - i,
    {
        proof {
            assert((i as int) * 0x4000_0000_0000_0000 + 0x4000_0000_0000_0000 == (i + 1)
                * 0x4000_0000_0000_0000) by (nonlinear_arith);
            assert(-(i as int) * 0x4000_0000_0000_0000 - 0x4000_0000_0000_0000 == -((i + 1)
                as int) * 0x4000_0000_0000_0000) by (nonlinear_arith);
            assert((7int) * 0x4000_0000_0000_0000 < 0x8000_0000_0000_0000_0000_0000_0000_0000)
                by (nonlinear_arith);
        }
        let m = minutes[i];
        if m > 0 {
            out.push(124);
            out.push(32);
            let d = dec_i128(m);
            push_padded_left(out, &d, 5, 32);
            out.push(32);
            tot = tot + m;
        } else {
            out.push(124);
            let mut sp: usize = 0;
            while sp < 7
                decreases 7 - sp,
            {
                out.push(32);
                sp = sp + 1;
            }
        }
        i = i + 1;
    }
    out.push(124);
    out.push(124);
    out.push(32);
    let d = dec_i128(tot);
    push_padded_left(out, &d, 6, 32);
    out.push(10);
}

/// A week-row label: `start - end`, both dates in `YYYY-MM-DD` form.
fn week_label(start: Date) -> (r: Vec<u8>)
    requires
        start.wf(),
        start.spec_day_number() <= 4_190_000,
{
    proof {
        start.lemma_day_number_bound();
    }
    let endd = date_plus_days(start, 6);
    let mut v = date_label(start);
    v.push(32);
    v.push(45);
    v.push(32);
    let e = date_label(endd);
    crate::entry::append_bytes(&mut v, &e);
    v
}

/// A date as `YYYY-MM-DD`.
fn date_label(d: Date) -> (r: Vec<u8>)
    requires
        d.wf(),
{
    let mut v = year4(d.year);
    v.push(45);
    let m = two2(d.month);
    crate::entry::append_bytes(&mut v, &m);
    v.push(45);
    let dd = two2(d.day);
    crate::entry::append_bytes(&mut v, &dd);
    v
}

/// Seven zero columns.
fn zero7() -> (r: Vec<i128>)
    ensures
        r@.len() == 7,
        forall|k: int| 0 <= k < 7 ==> -0x4000_0000_0000_0000 <= #[trigger] r@[k]
            <= 0x4000_0000_0000_0000,
{
    let mut v: Vec<i128> = Vec::new();
    let mut i: usize = 0;
    while i < 7
        invariant
            v@.len() == i <= 7,
            forall|k: int| 0 <= k < i ==> #[trigger] v@[k] == 0,
        decreases 7 - i,
    {
        v.push(0);
        i = i + 1;
    }
    v
}

/// The day columns as wide integers, saturated far outside any value a
/// real log can produce.
fn widen7(v: &Vec<i64>) -> (r: Vec<i128>)
    requires
        v@.len() == 7,
    ensures
        r@.len() == 7,
        forall|k: int| 0 <= k < 7 ==> -0x4000_0000_0000_0000 <= #[trigger] r@[k]
            <= 0x4000_0000_0000_0000,
{
    let mut out: Vec<i128> = Vec::new();
    let mut i: usize = 0;
    while i < 7
        invariant
            out@.len() == i <= 7,
            v@.len() == 7,
            forall|k: int| 0 <= k < i ==> -0x4000_0000_0000_0000 <= #[trigger] out@[k]
                <= 0x4000_0000_0000_0000,
        decreases 7 - i,
    {
        let w = v[i] as i128;
        let clamped: i128 = if w > 0x4000_0000_0000_0000i128 {
            0x4000_0000_0000_0000i128
        } else if w < -0x4000_0000_0000_0000i128 {
            -0x4000_0000_0000_0000i128
        } else {
            w
        };
        out.push(clamped);
        i = i + 1;
    }
    out
}

/// Adds each column of `b` into `a`, saturating far outside any value a
/// real log can produce.
fn accum7(a: &mut Vec<i128>, b: &Vec<i128>)
    requires
        old(a)@.len() == 7,
        b@.len() == 7,
        forall|i: int| 0 <= i < 7 ==> -0x4000_0000_0000_0000 <= #[trigger] old(a)@[i]
            <= 0x4000_0000_0000_0000,
        forall|i: int| 0 <= i < 7 ==> -0x4000_0000_0000_0000 <= #[trigger] b@[i]
            <= 0x4000_0000_0000_0000,
    ensures
        final(a)@.len() == 7,
        forall|i: int| 0 <= i < 7 ==> -0x4000_0000_0000_0000 <= #[trigger] final(a)@[i]
            <= 0x4000_0000_0000_0000,
{
    let mut i: usize = 0;
    while i < 7
        invariant
            i <= 7,
            a@.len() == 7,
            b@.len() == 7,
            forall|k: int| 0 <= k < 7 ==> -0x4000_0000_0000_0000 <= #[trigger] b@[k]
                <= 0x4000_0000_0000_0000,
            forall|k: int| 0 <= k < 7 ==> -0x4000_0000_0000_0000 <= #[trigger] a@[k]
                <= 0x4000_0000_0000_0000,
        decreases 7 - i,
    {
        let s = a[i] + b[i];
        let clamped: i128 = if s > 0x4000_0000_0000_0000i128 {
            0x4000_0000_0000_0000i128
        } else if s < -0x4000_0000_0000_0000i128 {
            -0x4000_0000_0000_0000i128
        } else {
            s
        };
        a.set(i, clamped);
        i = i + 1;
    }
}

impl Report {
    /// Renders the table: week rows, monthly and yearly totals as the
    /// options ask for them.
    pub fn render_bytes(&self) -> (r: Vec<u8>)
        requires
            report_wf(*self),
    {
        let mut out: Vec<u8> = Vec::new();
        let mut yi: usize = 0;
        while yi < self.years.len()
            invariant
                report_wf(*self),
                yi <= self.years@.len(),
            decreases self.years@.len() - yi,
        {
            let year = &self.years[yi];
            let mut year_tot = zero7();
            let mut mi: usize = 0;
            while mi < year.months.len()
                invariant
                    report_wf(*self),
                    year_tot@.len() == 7,
                    forall|k: int| 0 <= k < 7 ==> -0x4000_0000_0000_0000 <= #[trigger] year_tot@[k]
                        <= 0x4000_0000_0000_0000,
                    yi < self.years@.len(),
                    *year == self.years@[yi as int],
                decreases year.months@.len() - mi,
            {
                let month = &year.months[mi];
                let mut month_tot = zero7();
                let mut wi: usize = 0;
                while wi < month.weeks.len()
                    invariant
                        report_wf(*self),
                        month_tot@.len() == 7,
                        forall|k: int| 0 <= k < 7 ==> -0x4000_0000_0000_0000
                            <= #[trigger] month_tot@[k] <= 0x4000_0000_0000_0000,
                        yi < self.years@.len(),
                        mi < year.months@.len(),
                        *year == self.years@[yi as int],
                        *month == year.months@[mi as int],
                    decreases month.weeks@.len() - wi,
                {
                    let week = &month.weeks[wi];
                    let cells = widen7_checked(&week.minutes);
                    if self.opts.show_weekly_total() {
                        proof {
                            assert(self.years@[yi as int].months@[mi as int].weeks@[wi as int]
                                == month.weeks@[wi as int]);
                        }
                        let label = week_label(week.start);
                        write_report_line(&mut out, &label, &cells);
                    }
                    accum7(&mut month_tot, &cells);
                    wi = wi + 1;
                }
                if self.opts.show_monthly_total() {
                    let mut label = year4(if year.year >= 0 && year.year <= 0xffff {
                        year.year as u16
                    } else {
                        0
                    });
                    label.push(45);
                    let mm = two2(if month.month < 100 {
                        month.month
                    } else {
                        0
                    });
                    crate::entry::append_bytes(&mut label, &mm);
                    write_report_line(&mut out, &label, &month_tot);
                }
                accum7(&mut year_tot, &month_tot);
                mi = mi + 1;
            }
            if self.opts.show_yearly_total() {
                let label = year4(if year.year >= 0 && year.year <= 0xffff {
                    year.year as u16
                } else {
                    0
                });
                write_report_line(&mut out, &label, &year_tot);
            }
            yi = yi + 1;
        }
        out
    }

    /// Renders the table as text.
    pub fn render(&self) -> (r: String)
        requires
            report_wf(*self),
    {
        let b = self.render_bytes();
        ascii_or_empty(&b)
    }
}

/// The day columns as wide integers; a malformed row counts as empty.
fn widen7_checked(v: &Vec<i64>) -> (r: Vec<i128>)
    ensures
        r@.len() == 7,
        forall|k: int| 0 <= k < 7 ==> -0x4000_0000_0000_0000 <= #[trigger] r@[k]
            <= 0x4000_0000_0000_0000,
{
    if v.len() == 7 {
        widen7(v)
    } else {
        zero7()
    }
}

/// Renders the bytes as text when they are ASCII; report tables always
/// are.
fn ascii_or_empty(b: &Vec<u8>) -> (r: String) {
    let mut ok = true;
    let mut i: usize = 0;
    while i < b.len()
        invariant
            i <= b@.len(),
            ok ==> forall|k: int| 0 <= k < i ==> #[trigger] b@[k] < 128,
        decreases b@.len() - i,
    {
        if b[i] >= 128 {
            ok = false;
        }
        i = i + 1;
    }
    if ok {
        crate::entry::ascii_string(b)
    } else {
        String::new()
    }
}

} // verus!
