//! Query contexts over the log, as the command-line and web layers use
//! them: parse once, then ask questions of the interval list.

use vstd::prelude::*;

use crate::dates::spec_days_before_year;
use crate::entry::{spec_sum_minutes, sum_minutes_between, Time, TimeEntry};
use crate::parser::ParseError;
use crate::store::{read_entries, read_last_entries};
use crate::timesource::TimeSource;

verus! {

/// A query context for the command-line layer, reading the conventional
/// log location.
pub fn for_cli<TS>(ts: TS) -> (r: Context<TS>)
    ensures
        r.spec_data_file() is None,
{
    Context { ts, tf: None }
}

/// A query context for the web layer, reading the given log location.
pub fn for_web<TS>(tf: String, ts: TS) -> (r: Context<TS>)
    ensures
        r.spec_data_file() is Some,
{
    Context { ts, tf: Some(tf) }
}

/// A time source paired with an optional explicit log path; the caller
/// reads the file at that path (or at the conventional location) and
/// hands the bytes in.
pub struct Context<TS> {
    ts: TS,
    tf: Option<String>,
}

impl<TS> Context<TS> {
    /// The explicit log path, when one was given.
    pub closed spec fn spec_data_file(self) -> Option<String> {
        self.tf
    }

    /// The explicit log path, when one was given.
    pub fn data_file(&self) -> (r: &Option<String>)
        ensures
            *r == self.spec_data_file(),
    {
        &self.tf
    }
}

impl<TS: TimeSource> Context<TS> {
    /// The last hundred or so records of the given log bytes, as
    /// intervals: exactly the intervals the grammar denotes from the
    /// tail's line boundary.
    pub fn tail(&self, bytes: &Vec<u8>) -> (r: Result<EntriesResult, ParseError>)
        ensures
            r matches Ok(er) ==> er.wf(),
            r is Ok ==> exists|imp: i16|
                {
                    &&& -1559 <= imp <= 1559
                    &&& (#[trigger] crate::parser::spec_parse(
                        bytes@,
                        crate::store::spec_tail_start(bytes@, 100),
                        imp,
                    )) matches Some(recs) && r->Ok_0.spec_entries()
                        == crate::parser::spec_rec_time_entries(recs)
                },
            r is Err ==> exists|imp: i16|
                -1559 <= imp <= 1559 && (#[trigger] crate::parser::spec_parse(
                    bytes@,
                    crate::store::spec_tail_start(bytes@, 100),
                    imp,
                )) is None,
    {
        match read_last_entries(bytes, 100, &self.ts) {
            Err(e) => Err(e),
            Ok(v) => {
                proof {
                    crate::parser::lemma_time_entries_wf(v@);
                    crate::parser::lemma_time_entries_view(v@);
                }
                Ok(EntriesResult { entries: crate::entry::into_time_entries(v) })
            },
        }
    }

    /// Every record of the given log bytes, as intervals: exactly the
    /// intervals the grammar denotes from the start of the log.
    pub fn all(&self, bytes: &Vec<u8>) -> (r: Result<EntriesResult, ParseError>)
        ensures
            r matches Ok(er) ==> er.wf(),
            r is Ok ==> exists|imp: i16|
                {
                    &&& -1559 <= imp <= 1559
                    &&& (#[trigger] crate::parser::spec_parse(bytes@, 0, imp)) matches Some(recs)
                        && r->Ok_0.spec_entries() == crate::parser::spec_rec_time_entries(recs)
                },
            r is Err ==> exists|imp: i16|
                -1559 <= imp <= 1559 && (#[trigger] crate::parser::spec_parse(bytes@, 0, imp))
                    is None,
    {
        match read_entries(bytes, &self.ts) {
            Err(e) => Err(e),
            Ok(v) => {
                proof {
                    crate::parser::lemma_time_entries_wf(v@);
                    crate::parser::lemma_time_entries_view(v@);
                }
                Ok(EntriesResult { entries: crate::entry::into_time_entries(v) })
            },
        }
    }
}

/// The intervals of a log, ready to be asked about.
pub struct EntriesResult {
    entries: Vec<TimeEntry>,
}

/// Whether an interval can overlap the window `[from, to]`: it starts no
/// later than `to`, and it is open or stops no earlier than `from`.
pub open spec fn spec_overlaps(e: TimeEntry, from: int, to: int) -> bool {
    &&& e.start.spec_abs_minutes() <= to
    &&& match e.stop {
        Some(t) => from <= t.spec_abs_minutes(),
        None => true,
    }
}

/// The intervals overlapping the window, in order.
pub open spec fn spec_between(s: Seq<TimeEntry>, from: int, to: int) -> Seq<TimeEntry>
    decreases s.len(),
{
    if s.len() == 0 {
        Seq::empty()
    } else {
        spec_between(s.drop_last(), from, to) + if spec_overlaps(s.last(), from, to) {
            seq![s.last()]
        } else {
            Seq::empty()
        }
    }
}

impl EntriesResult {
    /// Every held interval is well-formed.
    pub closed spec fn wf(self) -> bool {
        forall|i: int| 0 <= i < self.entries@.len() ==> (#[trigger] self.entries@[i]).parts_wf()
    }

    /// The held intervals.
    pub closed spec fn spec_entries(self) -> Seq<TimeEntry> {
        self.entries@
    }

    /// Builds a result from intervals directly.
    pub fn from_entries(entries: Vec<TimeEntry>) -> (r: EntriesResult)
        requires
            forall|i: int| 0 <= i < entries@.len() ==> (#[trigger] entries@[i]).parts_wf(),
        ensures
            r.wf(),
            r.spec_entries() == entries@,
    {
        EntriesResult { entries }
    }

    /// How many intervals are held.
    pub fn len(&self) -> (r: usize)
        ensures
            r == self.spec_entries().len(),
    {
        self.entries.len()
    }

    /// Whether the last interval is still open.
    pub fn is_working(&self) -> (r: bool)
        ensures
            r == (self.spec_entries().len() > 0 && self.spec_entries().last().stop is None),
    {
        if self.entries.len() == 0 {
            false
        } else {
            self.entries[self.entries.len() - 1].stop.is_none()
        }
    }

    /// The last interval's most recent timestamp, as log text.
    pub fn last_update(&self) -> (r: Option<String>)
        requires
            self.wf(),
        ensures
            r is Some <==> self.spec_entries().len() > 0,
    {
        if self.entries.len() == 0 {
            None
        } else {
            let e = &self.entries[self.entries.len() - 1];
            proof {
                assert(self.entries@.last().parts_wf());
            }
            match &e.stop {
                None => Some(e.start.display()),
                Some(t) => Some(t.display()),
            }
        }
    }

    /// The total minutes the intervals contribute to the window.
    pub fn minutes_between(&self, range: (Time, Time)) -> (r: i64)
        requires
            self.wf(),
            self.spec_entries().len() <= 0x1000_0000,
            range.0.wf(),
            range.1.wf(),
        ensures
            r == spec_sum_minutes(
                self.spec_entries(),
                range.0.spec_abs_minutes(),
                range.1.spec_abs_minutes(),
            ),
    {
        proof {
            range.0.lemma_abs_minutes_bound();
            range.1.lemma_abs_minutes_bound();
        }
        sum_minutes_between(&self.entries, range.0.abs_minutes(), range.1.abs_minutes())
    }

    /// The intervals overlapping the window, in order.
    pub fn between(&self, range: (Time, Time)) -> (r: Vec<TimeEntry>)
        requires
            self.wf(),
            range.0.wf(),
            range.1.wf(),
        ensures
            r@ == spec_between(
                self.spec_entries(),
                range.0.spec_abs_minutes(),
                range.1.spec_abs_minutes(),
            ),
    {
        proof {
            range.0.lemma_abs_minutes_bound();
            range.1.lemma_abs_minutes_bound();
        }
        let from = range.0.abs_minutes();
        let to = range.1.abs_minutes();
        entries_between(&self.entries, from, to)
    }

    /// One row per previous week, most distant first: how far into that
    /// week "now minus whole weeks" fell, for the race report.
    pub fn recent_weeks<TS: TimeSource>(&self, previous_weeks: i16, ts: &TS) -> (r: Vec<
        PreviousWeek,
    >)
        requires
            self.wf(),
        ensures
            forall|i: int|
                0 <= i < r@.len() ==> (#[trigger] r@[i]).wf() && r@[i].spec_entry_count()
                    == self.spec_entries().len(),
    {
        let mut out: Vec<PreviousWeek> = Vec::new();
        if previous_weeks <= 0 {
            return out;
        }
        let (start_week, now) = crate::extents::this_week(ts);
        proof {
            crate::iter::lemma_time_date_bound(now);
        }
        let mut off: i16 = previous_weeks;
        while off >= 1
            invariant
                start_week.wf(),
                now.wf(),
                self.wf(),
                forall|i: int|
                    0 <= i < out@.len() ==> (#[trigger] out@[i]).wf() && out@[i].spec_entry_count()
                        == self.spec_entries().len(),
            decreases off,
        {
            let back_days_i: i64 = (off as i64) * 7;
            if back_days_i <= 200_000 {
                let back_days = back_days_i as u32;
                if let Some(ws) = time_minus_days(start_week, back_days) {
                    if let Some(td) = time_minus_days(now, back_days) {
                        let row = PreviousWeek {
                            start: ws,
                            todayish: td,
                            entries: copy_entries(&self.entries),
                        };
                        proof {
                            assert forall|k: int| 0 <= k < row.entries@.len() implies (
                            #[trigger] row.entries@[k]).parts_wf() by {
                                assert(row.entries@[k] == self.entries@[k]);
                            }
                            assert(row.wf());
                        }
                        out.push(row);
                    }
                }
            }
            off = off - 1;
        }
        out
    }
}

/// The timestamp the given number of days earlier, or `None` when that
/// falls before the calendar's start.
fn time_minus_days(t: Time, days: u32) -> (r: Option<Time>)
    requires
        t.wf(),
        days <= 200_000,
    ensures
        r matches Some(u) ==> u.wf() && u.spec_abs_minutes() == t.spec_abs_minutes() - days
            * 1440,
{
    proof {
        crate::iter::lemma_time_date_bound(t);
    }
    let dn = t.date().day_number();
    if (dn as u64) < (days as u64) + 366 {
        return None;
    }
    let mut cur = t.date();
    let mut i: u32 = 0;
    while i < days
        invariant
            i <= days,
            cur.wf(),
            cur.spec_day_number() == t.spec_date().spec_day_number() - i,
            t.spec_date().spec_day_number() >= days + 366,
        decreases days - i,
    {
        proof {
            if cur.year == 0 && cur.month == 1 && cur.day == 1 {
                assert(cur.spec_day_number() == 0);
            }
        }
        cur = cur.prev_day();
        i = i + 1;
    }
    let u = Time {
        year: cur.year,
        month: cur.month,
        day: cur.day,
        hour: t.hour,
        minute: t.minute,
        offset: t.offset,
        implied: t.implied,
    };
    proof {
        assert(u.spec_date() == cur);
        if u.year == 0 {
            crate::dates::lemma_days_before_month_bound(0, u.month as int + 1);
            assert(cur.spec_day_number() <= 365);
            assert(false);
        }
        if u.year > 9999 {
            crate::dates::lemma_days_before_month_bound(t.year as int, t.month as int + 1);
            crate::dates::lemma_days_before_year_monotone(t.year as int + 1, u.year as int);
            crate::dates::lemma_days_before_month_nonneg(u.year as int, u.month as int);
            assert(spec_days_before_year(t.year as int + 1) == spec_days_before_year(
                t.year as int,
            ) + crate::dates::spec_days_in_year(t.year as int));
            assert(false);
        }
    }
    Some(u)
}

/// One previous week: its start, the matching instant within it, and the
/// intervals to measure.
pub struct PreviousWeek {
    pub start: Time,
    todayish: Time,
    entries: Vec<TimeEntry>,
}

impl PreviousWeek {
    /// The row's validity.
    pub closed spec fn wf(self) -> bool {
        &&& self.start.wf()
        &&& self.todayish.wf()
        &&& forall|i: int| 0 <= i < self.entries@.len() ==> (#[trigger] self.entries@[i]).parts_wf()
    }

    /// Minutes worked from the week's start to its "now" mark.
    pub fn minutes_to_date(&self) -> (r: i64)
        requires
            self.wf(),
            self.spec_entry_count() <= 0x1000_0000,
    {
        proof {
            self.start.lemma_abs_minutes_bound();
            self.todayish.lemma_abs_minutes_bound();
        }
        sum_minutes_between(&self.entries, self.start.abs_minutes(), self.todayish.abs_minutes())
    }

    /// Minutes worked in the whole week.
    pub fn total_minutes(&self) -> (r: i64)
        requires
            self.wf(),
            self.spec_entry_count() <= 0x1000_0000,
    {
        proof {
            self.start.lemma_abs_minutes_bound();
        }
        let from = self.start.abs_minutes();
        sum_minutes_between(&self.entries, from, from + 10080)
    }

    /// How many intervals the row measures.
    pub closed spec fn spec_entry_count(self) -> int {
        self.entries@.len() as int
    }
}

/// The intervals overlapping the window `[from, to]`, in order, the
/// window's ends given as absolute minute counts.
pub fn entries_between(entries: &Vec<TimeEntry>, from: i64, to: i64) -> (r: Vec<TimeEntry>)
    requires
        forall|i: int| 0 <= i < entries@.len() ==> (#[trigger] entries@[i]).parts_wf(),
    ensures
        r@ == spec_between(entries@, from as int, to as int),
{
    let mut out: Vec<TimeEntry> = Vec::new();
    let mut i: usize = 0;
    while i < entries.len()
        invariant
            i <= entries@.len(),
            forall|k: int| 0 <= k < entries@.len() ==> (#[trigger] entries@[k]).parts_wf(),
            out@ == spec_between(entries@.take(i as int), from as int, to as int),
        decreases entries@.len() - i,
    {
        proof {
            assert(entries@.take(i + 1).drop_last() == entries@.take(i as int));
            assert(entries@.take(i + 1).last() == entries@[i as int]);
            entries@[i as int].start.lemma_abs_minutes_bound();
            if let Some(t) = entries@[i as int].stop {
                t.lemma_abs_minutes_bound();
            }
        }
        let e = &entries[i];
        let mut keep = e.start.abs_minutes() <= to;
        if keep {
            match &e.stop {
                Some(t) => {
                    if t.abs_minutes() < from {
                        keep = false;
                    }
                },
                None => {},
            }
        }
        if keep {
            out.push(*e);
        }
        i = i + 1;
    }
    proof {
        assert(entries@.take(entries@.len() as int) == entries@);
    }
    out
}

/// Copies a list of intervals.
fn copy_entries(v: &Vec<TimeEntry>) -> (r: Vec<TimeEntry>)
    ensures
        r@ == v@,
{
    let mut out: Vec<TimeEntry> = Vec::new();
    let mut i: usize = 0;
    while i < v.len()
        invariant
            i <= v@.len(),
            out@ == v@.take(i as int),
        decreases v@.len() - i,
    {
        out.push(v[i]);
        proof {
            assert(v@.take(i + 1) =~= v@.take(i as int).push(v@[i as int]));
        }
        i = i + 1;
    }
    proof {
        assert(v@.take(v@.len() as int) == v@);
    }
    out
}

} // verus!
