//! The time-off report: minutes worked per week against a full-week
//! quota, and the shortfall totalled per year.

use vstd::prelude::*;

use crate::dates::Date;
use crate::entry::{Time, TimeEntry};
use crate::iter::each_week;
use crate::text::{dec_i128, push_padded_left, two2, year4};
use crate::timesource::TimeSource;

verus! {

/// Copies a list of intervals.
fn copy_entries(v: &Vec<TimeEntry>) -> (r: Vec<TimeEntry>)
    ensures
        r@ == v@,
{
    let mut out: Vec<TimeEntry> = Vec::new();
    let mut i: usize = 0;
    while i < v.len()
        invariant
            i <= v@.len(),
            out@ == v@.take(i as int),
        decreases v@.len() - i,
    {
        out.push(v[i]);
        proof {
            assert(v@.take(i + 1) =~= v@.take(i as int).push(v@[i as int]));
        }
        i = i + 1;
    }
    proof {
        assert(v@.take(v@.len() as int) == v@);
    }
    out
}

/// One row is tied: its minutes is the week-window total, at its date,
/// of a consecutive run of the intervals closed at one instant.
pub open spec fn spec_row_tied(entries: Seq<TimeEntry>, d: Date, m: i64) -> bool {
    exists|a: int, b: int, off: int, now: Time|
        #![trigger crate::iter::spec_week_run_minutes(entries, a, b, now, d.spec_day_number(), off)]
        {
            &&& 0 <= a <= b <= entries.len()
            &&& -1559 <= off <= 1559
            &&& now.wf()
            &&& m == crate::iter::spec_week_run_minutes(
                entries,
                a,
                b,
                now,
                d.spec_day_number(),
                off,
            )
        }
}

/// Every report row's minutes is the week-window total of a consecutive
/// run of the intervals, closed at one instant.
pub open spec fn spec_week_rows_tied(entries: Seq<TimeEntry>, rows: Seq<(Date, i64)>) -> bool {
    forall|i: int|
        #![trigger rows[i]]
        0 <= i < rows.len() ==> spec_row_tied(entries, (rows[i]).0, (rows[i]).1)
}

/// Appending a tied row keeps every row tied.
proof fn lemma_week_rows_tied_push(
    entries: Seq<TimeEntry>,
    rows: Seq<(Date, i64)>,
    d: Date,
    m: i64,
)
    requires
        spec_week_rows_tied(entries, rows),
        spec_row_tied(entries, d, m),
    ensures
        spec_week_rows_tied(entries, rows.push((d, m))),
{
    let rows2 = rows.push((d, m));
    assert forall|i: int|
        #![trigger rows2[i]]
        0 <= i < rows2.len() implies spec_row_tied(entries, (rows2[i]).0, (rows2[i]).1) by {
        if i < rows.len() {
            assert(rows2[i] == rows[i]);
            assert(spec_row_tied(entries, (rows[i]).0, (rows[i]).1));
        } else {
            assert(rows2[i] == (d, m));
        }
    }
}

/// The report: one row per week in ascending order, and the quota the
/// shortfall is measured against.
pub struct Report {
    pub weeks: Vec<(Date, i64)>,
    pub full_week: i64,
}

/// Builds the time-off report: each week's start date and its worked
/// minutes — the clipped total, over the week's window, of a consecutive
/// run of the intervals closed at one instant — weeks strictly ascending.
pub fn prepare<TS: TimeSource>(entries: &Vec<TimeEntry>, full_week: i64, ts: &TS) -> (r: Report)
    requires
        forall|i: int| 0 <= i < entries@.len() ==> (#[trigger] entries@[i]).parts_wf(),
        entries@.len() <= 0x1000_0000,
    ensures
        r.full_week == full_week,
        forall|i: int, j: int|
            0 <= i < j < r.weeks@.len() ==> (#[trigger] r.weeks@[i]).0.spec_day_number() < (
            #[trigger] r.weeks@[j]).0.spec_day_number(),
        forall|i: int| 0 <= i < r.weeks@.len() ==> (#[trigger] r.weeks@[i]).0.wf(),
        spec_week_rows_tied(entries@, r.weeks@),
{
    let mut weeks: Vec<(Date, i64)> = Vec::new();
    let mut it = each_week(copy_entries(entries), ts);
    loop
        invariant
            it.wf(),
            it.spec_entries() == entries@,
            it.spec_now().wf(),
            it.spec_days() == 7,
            entries@.len() <= 0x1000_0000,
            forall|i: int| 0 <= i < entries@.len() ==> (#[trigger] entries@[i]).parts_wf(),
            forall|i: int, j: int|
                0 <= i < j < weeks@.len() ==> (#[trigger] weeks@[i]).0.spec_day_number() < (
                #[trigger] weeks@[j]).0.spec_day_number(),
            forall|i: int| 0 <= i < weeks@.len() ==> (#[trigger] weeks@[i]).0.wf(),
            spec_week_rows_tied(entries@, weeks@),
            match it.spec_last_date() {
                None => weeks@.len() == 0,
                Some(p) => forall|i: int|
                    0 <= i < weeks@.len() ==> (#[trigger] weeks@[i]).0.spec_day_number()
                        <= p.spec_day_number(),
            },
        decreases it.spec_measure(),
    {
        proof {
            it.lemma_measure_nonneg();
        }
        let ghost old_ix = it.spec_next_index();
        let ghost old_last = it.spec_last_date();
        match it.next() {
            None => {
                break;
            },
            Some((week_start, es)) => {
                proof {
                    assert forall|i: int| 0 <= i < es@.len() implies (
                    #[trigger] es@[i]).parts_wf() by {
                        assert(es@[i] == crate::iter::spec_finish_if_not(
                            entries@[old_ix + i],
                            it.spec_now(),
                        ));
                        assert(entries@[old_ix + i].parts_wf());
                    }
                    week_start.lemma_day_number_bound();
                }
                let ghost bucket = es@;
                let off = ts.local_offset() as i64;
                let from = (week_start.day_number() as i64) * 1440 - off;
                let to = (week_start.day_number() as i64) * 1440 + 10080 - off;
                let minutes = crate::entry::sum_minutes_between(&es, from, to);
                proof {
                    if old_last is Some {
                        assert(forall|i: int|
                            0 <= i < weeks@.len() ==> (#[trigger] weeks@[i]).0.spec_day_number()
                                < week_start.spec_day_number());
                    } else {
                        assert(weeks@.len() == 0);
                    }
                    assert(bucket == crate::iter::spec_closed_run(
                        entries@,
                        old_ix,
                        old_ix + bucket.len() as int,
                        it.spec_now(),
                    ));
                    assert(0 <= old_ix <= old_ix + bucket.len() as int <= entries@.len()
                        && -1559 <= off as int <= 1559 && it.spec_now().wf() && minutes
                        == crate::iter::spec_week_run_minutes(
                        entries@,
                        old_ix,
                        old_ix + bucket.len() as int,
                        it.spec_now(),
                        week_start.spec_day_number(),
                        off as int,
                    ));
                }
                proof {
                    assert(spec_row_tied(entries@, week_start, minutes));
                    lemma_week_rows_tied_push(entries@, weeks@, week_start, minutes);
                }
                weeks.push((week_start, minutes));
                proof {
                    it.lemma_measure_nonneg();
                }
            },
        }
    }
    Report { weeks, full_week }
}

impl Report {
    /// Renders the report: one `work=…, pto=…` line per week, then the
    /// yearly time-off totals.
    pub fn render_bytes(&self) -> (r: Vec<u8>)
        requires
            forall|i: int| 0 <= i < self.weeks@.len() ==> (#[trigger] self.weeks@[i]).0.wf(),
    {
        let mut out: Vec<u8> = Vec::new();
        let mut years: Vec<(u16, i128)> = Vec::new();
        let mut i: usize = 0;
        while i < self.weeks.len()
            invariant
                i <= self.weeks@.len(),
                forall|k: int| 0 <= k < self.weeks@.len() ==> (#[trigger] self.weeks@[k]).0.wf(),
                forall|k: int| 0 <= k < years@.len() ==> -0x4000_0000_0000_0000
                    <= (#[trigger] years@[k]).1 <= 0x4000_0000_0000_0000,
            decreases self.weeks@.len() - i,
        {
            let wk = self.weeks[i];
            let minutes = wk.1;
            let pto128: i128 = if (self.full_week as i128) - (minutes as i128) > 0 {
                (self.full_week as i128) - (minutes as i128)
            } else {
                0
            };
            proof {
                assert(0 <= pto128 <= 0x1_0000_0000_0000_0000);
            }
            let d = date_label(wk.0);
            crate::entry::append_bytes(&mut out, &d);
            push_bytes_str(&mut out, " work=");
            let mv = dec_i128(minutes as i128);
            push_padded_left(&mut out, &mv, 4, 32);
            push_bytes_str(&mut out, " pto=");
            let pv = dec_i128(pto128);
            push_padded_left(&mut out, &pv, 4, 32);
            out.push(10);
            // Fold the shortfall into this year's total.
            let y = wk.0.year;
            let mut found = false;
            let mut yi: usize = 0;
            while yi < years.len()
                invariant
                    yi <= years@.len(),
                    forall|k: int| 0 <= k < years@.len() ==> -0x4000_0000_0000_0000
                        <= (#[trigger] years@[k]).1 <= 0x4000_0000_0000_0000,
                    0 <= pto128 <= 0x1_0000_0000_0000_0000,
                decreases years@.len() - yi,
            {
                if years[yi].0 == y {
                    let s = years[yi].1 + pto128;
                    let clamped: i128 = if s > 0x4000_0000_0000_0000i128 {
                        0x4000_0000_0000_0000i128
                    } else {
                        s
                    };
                    years.set(yi, (y, clamped));
                    found = true;
                }
                yi = yi + 1;
            }
            if !found {
                let clamped: i128 = if pto128 > 0x4000_0000_0000_0000i128 {
                    0x4000_0000_0000_0000i128
                } else {
                    pto128
                };
                years.push((y, clamped));
            }
            i = i + 1;
        }
        if years.len() > 0 {
            out.push(10);
            let mut yi: usize = 0;
            while yi < years.len()
                invariant
                    yi <= years@.len(),
                    forall|k: int| 0 <= k < years@.len() ==> -0x4000_0000_0000_0000
                        <= (#[trigger] years@[k]).1 <= 0x4000_0000_0000_0000,
                decreases years@.len() - yi,
            {
                let (y, minutes) = years[yi];
                let d = year4(y);
                crate::entry::append_bytes(&mut out, &d);
                push_bytes_str(&mut out, " total_pto=");
                let mv = dec_i128(minutes);
                push_padded_left(&mut out, &mv, 5, 32);
                push_bytes_str(&mut out, " days=");
                let dv: i128 = if minutes >= 0 {
                    proof {
                        vstd::arithmetic::div_mod::lemma_div_pos_is_pos(minutes as int, 60);
                        vstd::arithmetic::div_mod::lemma_div_nonincreasing(minutes as int, 60);
                        vstd::arithmetic::div_mod::lemma_div_pos_is_pos((minutes as int) / 60, 8);
                        vstd::arithmetic::div_mod::lemma_div_nonincreasing(
                            (minutes as int) / 60,
                            8,
                        );
                    }
                    minutes / 60 / 8
                } else {
                    0
                };
                let dd = dec_i128(dv);
                push_padded_left(&mut out, &dd, 3, 32);
                out.push(10);
                yi = yi + 1;
            }
        }
        out
    }
}

/// Appends the bytes of a label.
fn push_bytes_str(out: &mut Vec<u8>, s: &str) {
    let v = s.as_bytes_vec();
    crate::entry::append_bytes(out, &v);
}

/// A date as `YYYY-MM-DD`.
fn date_label(d: Date) -> (r: Vec<u8>)
    requires
        d.wf(),
{
    let mut v = year4(d.year);
    v.push(45);
    let m = two2(d.month);
    crate::entry::append_bytes(&mut v, &m);
    v.push(45);
    let dd = two2(d.day);
    crate::entry::append_bytes(&mut v, &dd);
    v
}

} // verus!
