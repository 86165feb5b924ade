//! The calendar partitioner: buckets intervals into day- or week-length
//! periods.
//!
//! A `DaysIterator` walks the intervals in log order and yields, per
//! period, the period's start date and every interval that overlaps it;
//! an interval spanning several periods is yielded, unchanged, in each of
//! them, and an open interval is treated as ending "now" for overlap
//! decisions only. Periods come gapless, each one `days` after the last,
//! until the entries are exhausted.

use vstd::prelude::*;

use crate::dates::Date;
use crate::entry::{Time, TimeEntry};
use crate::timesource::TimeSource;

verus! {

/// A closed copy of an interval: an open interval is closed at `now`,
/// marked explicit; a closed one is kept as it is.
pub open spec fn spec_finish_if_not(e: TimeEntry, now: Time) -> TimeEntry {
    match e.stop {
        Some(_) => e,
        None => TimeEntry { start: e.start, stop: Some(Time { implied: false, ..now }) },
    }
}

/// A consecutive run of intervals, each closed at `now` if it was open:
/// the shape of every bucket the partitioner yields.
pub open spec fn spec_closed_run(s: Seq<TimeEntry>, a: int, b: int, now: Time) -> Seq<TimeEntry> {
    s.subrange(a, b).map_values(|e: TimeEntry| spec_finish_if_not(e, now))
}

/// The minutes a consecutive run of the intervals, closed at `now`,
/// contributes to the week-long window starting at day number `dn` in
/// offset `off`.
pub open spec fn spec_week_run_minutes(
    s: Seq<TimeEntry>,
    a: int,
    b: int,
    now: Time,
    dn: int,
    off: int,
) -> int {
    crate::entry::spec_sum_minutes(
        spec_closed_run(s, a, b, now),
        dn * 1440 - off,
        dn * 1440 + 10080 - off,
    )
}

/// The day number an interval runs to: its stop's date, or the date of
/// `now` while it is open.
pub open spec fn spec_eff_stop_dn(e: TimeEntry, now: Time) -> int {
    match e.stop {
        Some(t) => t.spec_date().spec_day_number(),
        None => now.spec_date().spec_day_number(),
    }
}

/// The larger of an interval's start day number and the day number it
/// runs to.
pub open spec fn spec_entry_max_dn(e: TimeEntry, now: Time) -> int {
    let s = e.start.spec_date().spec_day_number();
    let t = spec_eff_stop_dn(e, now);
    if s >= t {
        s
    } else {
        t
    }
}

/// A well-formed timestamp's date lies between year 1 and year 9999.
pub proof fn lemma_time_date_bound(t: Time)
    requires
        t.wf(),
    ensures
        365 <= t.spec_date().spec_day_number() <= 3_660_030,
{
    crate::dates::lemma_days_before_year_bound(t.year as int);
    crate::dates::lemma_days_before_month_bound(t.year as int, t.month as int);
}

/// Adds `k` days to a date.
pub fn date_plus_days(d: Date, k: u8) -> (r: Date)
    requires
        d.wf(),
        d.spec_day_number() + k < 20_000_000,
    ensures
        r.wf(),
        r.spec_day_number() == d.spec_day_number() + k,
{
    let mut cur = d;
    let mut i: u8 = 0;
    while i < k
        invariant
            i <= k,
            cur.wf(),
            cur.spec_day_number() == d.spec_day_number() + i,
            d.spec_day_number() + k < 20_000_000,
        decreases k - i,
    {
        proof {
            cur.lemma_day_number_bound();
            if cur.year == u16::MAX && cur.month == 12 && cur.day == 31 {
                crate::dates::lemma_days_before_year_bound(u16::MAX as int);
                crate::dates::lemma_days_before_month_nonneg(cur.year as int, cur.month as int);
                assert(false);
            }
        }
        cur = cur.next_day();
        i = i + 1;
    }
    cur
}

/// The Sunday on or before the given date.
pub fn preceding_sunday(d: Date) -> (r: Date)
    requires
        d.wf(),
        6 <= d.spec_day_number(),
    ensures
        r.wf(),
        r.spec_is_sunday(),
        r.spec_day_number() == d.spec_day_number() - ((d.spec_day_number() + 6) % 7),
{
    proof {
        d.lemma_day_number_bound();
    }
    let dn = d.day_number();
    let back = (dn + 6) % 7;
    let mut cur = d;
    let mut i: u32 = 0;
    while i < back
        invariant
            i <= back <= 6,
            cur.wf(),
            cur.spec_day_number() == d.spec_day_number() - i,
            6 <= d.spec_day_number(),
        decreases back - i,
    {
        proof {
            if cur.year == 0 && cur.month == 1 && cur.day == 1 {
                assert(cur.spec_day_number() == 0);
            }
        }
        cur = cur.prev_day();
        i = i + 1;
    }
    proof {
        let n = d.spec_day_number();
        let q = (n + 6) / 7;
        vstd::arithmetic::div_mod::lemma_fundamental_div_mod(n + 6, 7);
        assert(cur.spec_day_number() == 7 * q - 6);
        assert(7 * q - 6 == 7 * (q - 1) + 1);
        vstd::arithmetic::div_mod::lemma_fundamental_div_mod_converse_mod(
            7 * (q - 1) + 1,
            7,
            q - 1,
            1,
        );
    }
    cur
}

/// Walks intervals in order and yields one period per call: the period's
/// start date and the intervals overlapping it.
pub struct DaysIterator {
    entries: Vec<TimeEntry>,
    days: u8,
    last_date: Option<Date>,
    next_index: usize,
    now: Time,
}

impl DaysIterator {
    /// The intervals being partitioned.
    pub closed spec fn spec_entries(self) -> Seq<TimeEntry> {
        self.entries@
    }

    /// The period length, in days.
    pub closed spec fn spec_days(self) -> u8 {
        self.days
    }

    /// The instant open intervals are taken to end at.
    pub closed spec fn spec_now(self) -> Time {
        self.now
    }

    /// The most recently yielded period start.
    pub closed spec fn spec_last_date(self) -> Option<Date> {
        self.last_date
    }

    /// How many leading intervals are settled in already-yielded periods.
    pub closed spec fn spec_next_index(self) -> int {
        self.next_index as int
    }

    /// The iterator's invariant: a day or week span, well-formed inputs,
    /// and a last date that stays within reach of the remaining entries.
    pub closed spec fn wf(self) -> bool {
        &&& self.days == 1 || self.days == 7
        &&& self.now.wf()
        &&& self.next_index <= self.entries@.len()
        &&& forall|i: int| 0 <= i < self.entries@.len() ==> (#[trigger] self.entries@[i]).parts_wf()
        &&& match self.last_date {
            None => self.next_index == 0,
            Some(d) => {
                &&& d.wf()
                &&& 0 <= d.spec_day_number() <= 4_190_000
                &&& self.next_index < self.entries@.len() ==> d.spec_day_number() + self.days
                    <= spec_entry_max_dn(self.entries@[self.next_index as int], self.now)
            },
        }
    }

    /// A measure that every yielded period strictly shrinks; loops over
    /// the iterator decrease it.
    pub closed spec fn spec_measure(self) -> int {
        (self.entries@.len() - self.next_index) * 8_400_000 + 4_200_000 - (match self.last_date {
            None => -1,
            Some(d) => d.spec_day_number(),
        })
    }

    /// The measure never goes negative.
    pub proof fn lemma_measure_nonneg(self)
        requires
            self.wf(),
        ensures
            self.spec_measure() >= 0,
    {
    }

    /// The start date of the first period: the first interval's start
    /// date, or for week periods the Sunday on or before it.
    fn get_first_date(&self) -> (r: Date)
        requires
            self.wf(),
            self.entries@.len() > 0,
        ensures
            r.wf(),
            r.spec_day_number() <= 3_660_030,
            self.spec_days() == 1 ==> r == self.spec_entries()[0].start.spec_date(),
            self.spec_days() == 7 ==> {
                &&& r.spec_is_sunday()
                &&& r.spec_day_number() <= self.spec_entries()[0].start.spec_date().spec_day_number()
                    < r.spec_day_number() + 7
            },
    {
        proof {
            assert(self.entries@[0].parts_wf());
            lemma_time_date_bound(self.entries@[0].start);
        }
        let first = self.entries[0].start_date();
        if self.days == 1 {
            first
        } else {
            let r = preceding_sunday(first);
            proof {
                vstd::arithmetic::div_mod::lemma_mod_bound(
                    first.spec_day_number() + 6,
                    7,
                );
            }
            r
        }
    }

    /// Yields the next period: its start date and the intervals that
    /// overlap it, open intervals closed at "now" in the copy handed out.
    /// `None` once every interval is settled.
    pub fn next(&mut self) -> (r: Option<(Date, Vec<TimeEntry>)>)
        requires
            old(self).wf(),
        ensures
            final(self).wf(),
            final(self).spec_entries() == old(self).spec_entries(),
            final(self).spec_days() == old(self).spec_days(),
            final(self).spec_now() == old(self).spec_now(),
            0 <= old(self).spec_next_index() <= old(self).spec_entries().len(),
            r is None <==> old(self).spec_next_index() >= old(self).spec_entries().len(),
            r is None ==> *final(self) == *old(self),
            match r {
                Some((d, es)) => {
                    &&& final(self).spec_measure() < old(self).spec_measure()
                    &&& d.wf()
                    &&& d.spec_day_number() <= 4_190_000
                    &&& es@.len() <= old(self).spec_entries().len() - old(self).spec_next_index()
                    &&& forall|k: int|
                        0 <= k < es@.len() ==> es@[k] == spec_finish_if_not(
                            old(self).spec_entries()[old(self).spec_next_index() + k],
                            old(self).spec_now(),
                        )
                    &&& es@ == spec_closed_run(
                        old(self).spec_entries(),
                        old(self).spec_next_index(),
                        old(self).spec_next_index() + es@.len(),
                        old(self).spec_now(),
                    )
                    &&& forall|k: int|
                        0 <= k < es@.len() ==> (#[trigger] old(self).spec_entries()[old(self).spec_next_index() + k]).start.spec_date().spec_day_number()
                            < d.spec_day_number() + old(self).spec_days()
                    &&& old(self).spec_next_index() + es@.len() - 1 <= final(self).spec_next_index() <= old(self).spec_next_index() + es@.len()
                    &&& old(self).spec_next_index() <= final(self).spec_next_index()
                    &&& forall|j: int|
                        old(self).spec_next_index() <= j < final(self).spec_next_index()
                            ==> spec_eff_stop_dn(
                            #[trigger] old(self).spec_entries()[j],
                            old(self).spec_now(),
                        ) < d.spec_day_number() + old(self).spec_days()
                    &&& (final(self).spec_next_index() == old(self).spec_next_index() + es@.len()
                        - 1 ==> spec_eff_stop_dn(
                        old(self).spec_entries()[final(self).spec_next_index()],
                        old(self).spec_now(),
                    ) >= d.spec_day_number() + old(self).spec_days())
                    &&& (final(self).spec_next_index() == old(self).spec_next_index() + es@.len()
                        ==> (final(self).spec_next_index() == old(self).spec_entries().len() || old(self).spec_entries()[final(self).spec_next_index()].start.spec_date().spec_day_number()
                        >= d.spec_day_number() + old(self).spec_days()))
                    &&& match old(self).spec_last_date() {
                        Some(p) => d.spec_day_number() == p.spec_day_number() + old(self).spec_days(),
                        None => {
                            &&& (old(self).spec_days() == 1 ==> d == old(self).spec_entries()[0].start.spec_date())
                            &&& (old(self).spec_days() == 7 ==> d.spec_is_sunday()
                                && d.spec_day_number() <= old(self).spec_entries()[0].start.spec_date().spec_day_number()
                                < d.spec_day_number() + 7)
                        },
                    }
                    &&& final(self).spec_last_date() == Some(d)
                },
                None => true,
            },
    {
        if self.next_index >= self.entries.len() {
            return None;
        }
        proof {
            if self.last_date is Some {
                let e = self.entries@[self.next_index as int];
                assert(e.parts_wf());
                lemma_time_date_bound(e.start);
                if let Some(t) = e.stop {
                    lemma_time_date_bound(t);
                }
                lemma_time_date_bound(self.now);
            }
        }
        let date = match &self.last_date {
            None => self.get_first_date(),
            Some(d) => date_plus_days(*d, self.days),
        };
        let next_date = date_plus_days(date, self.days);
        let ghost old_ix = self.next_index as int;
        let ghost now = self.now;
        let ghost all = self.entries@;
        self.last_date = Some(date);
        let nd_dn = next_date.day_number();
        let mut es: Vec<TimeEntry> = Vec::new();
        let mut blocked = false;
        while !blocked && self.next_index < self.entries.len()
            invariant
                old_ix <= self.next_index as int <= all.len(),
                self.entries@ == all,
                self.now == now,
                self.days == old(self).spec_days(),
                self.last_date == Some(date),
                self.now.wf(),
                forall|i: int| 0 <= i < all.len() ==> (#[trigger] all[i]).parts_wf(),
                nd_dn == next_date.spec_day_number(),
                next_date.wf(),
                !blocked ==> es@.len() == self.next_index as int - old_ix,
                blocked ==> self.next_index as int - old_ix <= es@.len()
                    <= self.next_index as int - old_ix + 1,
                old_ix + es@.len() <= all.len(),
                forall|k: int|
                    0 <= k < es@.len() ==> es@[k] == spec_finish_if_not(all[old_ix + k], now),
                forall|k: int|
                    0 <= k < es@.len() ==> (#[trigger] all[old_ix
                        + k]).start.spec_date().spec_day_number() < nd_dn,
                forall|j: int|
                    old_ix <= j < self.next_index as int ==> spec_eff_stop_dn(
                        #[trigger] all[j],
                        now,
                    ) < nd_dn,
                blocked ==> self.next_index < all.len(),
                (blocked && es@.len() == self.next_index as int - old_ix)
                    ==> all[self.next_index as int].start.spec_date().spec_day_number() >= nd_dn,
                (blocked && es@.len() == self.next_index as int - old_ix + 1) ==> spec_eff_stop_dn(
                    all[self.next_index as int],
                    now,
                ) >= nd_dn,
                blocked ==> spec_entry_max_dn(all[self.next_index as int], now)
                    >= next_date.spec_day_number(),
            decreases all.len() - self.next_index, (if blocked { 0int } else { 1int }),
        {
            let e = self.entries[self.next_index];
            proof {
                assert(all[self.next_index as int].parts_wf());
                lemma_time_date_bound(e.start);
                if let Some(t) = e.stop {
                    lemma_time_date_bound(t);
                }
            }
            if e.start_date().day_number() >= nd_dn {
                blocked = true;
            } else {
                es.push(e.finish_if_not(self.now));
                let st = match e.stop_date() {
                    None => self.now.date(),
                    Some(d) => d,
                };
                proof {
                    lemma_time_date_bound(now);
                }
                if st.day_number() >= nd_dn {
                    blocked = true;
                } else {
                    self.next_index = self.next_index + 1;
                }
            }
        }
        proof {
            date.lemma_day_number_bound();
            if self.next_index < self.entries.len() {
                let e = all[self.next_index as int];
                assert(e.parts_wf());
                lemma_time_date_bound(e.start);
                if let Some(t) = e.stop {
                    lemma_time_date_bound(t);
                }
                lemma_time_date_bound(now);
            }
            assert(es@ =~= spec_closed_run(all, old_ix, old_ix + es@.len() as int, now));
        }
        Some((date, es))
    }
}

/// Partitions intervals into week periods starting on Sundays, open
/// intervals taken to end now.
pub fn each_week<TS: TimeSource>(entries: Vec<TimeEntry>, ts: &TS) -> (r: DaysIterator)
    requires
        forall|i: int| 0 <= i < entries@.len() ==> (#[trigger] entries@[i]).parts_wf(),
    ensures
        r.wf(),
        r.spec_entries() == entries@,
        r.spec_days() == 7,
        r.spec_next_index() == 0,
        r.spec_last_date() is None,
        r.spec_now().wf(),
{
    DaysIterator { entries, days: 7, last_date: None, next_index: 0, now: ts.now() }
}

/// Partitions intervals into single-day periods, open intervals taken to
/// end now.
pub fn each_day<TS: TimeSource>(entries: Vec<TimeEntry>, ts: &TS) -> (r: DaysIterator)
    requires
        forall|i: int| 0 <= i < entries@.len() ==> (#[trigger] entries@[i]).parts_wf(),
    ensures
        r.wf(),
        r.spec_entries() == entries@,
        r.spec_days() == 1,
        r.spec_next_index() == 0,
        r.spec_last_date() is None,
        r.spec_now().wf(),
{
    DaysIterator { entries, days: 1, last_date: None, next_index: 0, now: ts.now() }
}

/// Day periods of one given week: the day iterator, filtered to the seven
/// days from `week_start`.
pub struct WeekOfDaysIterator {
    days_iter: DaysIterator,
    week_start: Date,
}

impl WeekOfDaysIterator {
    /// The iterator's invariant.
    pub closed spec fn wf(self) -> bool {
        &&& self.days_iter.wf()
        &&& self.days_iter.spec_days() == 1
        &&& self.week_start.wf()
    }

    /// The week being filtered to.
    pub closed spec fn spec_week_start(self) -> Date {
        self.week_start
    }

    /// The intervals being partitioned.
    pub closed spec fn spec_entries(self) -> Seq<TimeEntry> {
        self.days_iter.spec_entries()
    }

    /// The instant open intervals are taken to end at.
    pub closed spec fn spec_now(self) -> Time {
        self.days_iter.spec_now()
    }

    /// A measure that every yielded period strictly shrinks.
    pub closed spec fn spec_measure(self) -> int {
        self.days_iter.spec_measure()
    }

    /// The measure never goes negative.
    pub proof fn lemma_measure_nonneg(self)
        requires
            self.wf(),
        ensures
            self.spec_measure() >= 0,
    {
        self.days_iter.lemma_measure_nonneg();
    }

    /// The most recently visited day, yielded or skipped.
    pub closed spec fn spec_last_date(self) -> Option<Date> {
        self.days_iter.spec_last_date()
    }

    /// Yields the next day of the week that has any interval scheduled,
    /// skipping days outside the week.
    pub fn next(&mut self) -> (r: Option<(Date, Vec<TimeEntry>)>)
        requires
            old(self).wf(),
        ensures
            final(self).wf(),
            final(self).spec_entries() == old(self).spec_entries(),
            final(self).spec_now() == old(self).spec_now(),
            final(self).spec_week_start() == old(self).spec_week_start(),
            r is Some ==> final(self).spec_measure() < old(self).spec_measure(),
            final(self).spec_last_date() is None ==> old(self).spec_last_date() is None,
            match old(self).spec_last_date() {
                Some(p) => final(self).spec_last_date() matches Some(q) && q.spec_day_number()
                    >= p.spec_day_number(),
                None => true,
            },
            match r {
                Some((d, es)) => {
                    &&& d.wf()
                    &&& final(self).spec_last_date() == Some(d)
                    &&& match old(self).spec_last_date() {
                        Some(p) => d.spec_day_number() >= p.spec_day_number() + 1,
                        None => true,
                    }
                    &&& old(self).spec_week_start().spec_day_number() <= d.spec_day_number() <= old(self).spec_week_start().spec_day_number() + 6
                    &&& es@.len() <= old(self).spec_entries().len()
                    &&& forall|k: int|
                        #![trigger es@[k]]
                        0 <= k < es@.len() ==> exists|j: int|
                            0 <= j < old(self).spec_entries().len() && es@[k]
                                == spec_finish_if_not(
                                #[trigger] old(self).spec_entries()[j],
                                old(self).spec_now(),
                            )
                    &&& exists|a: int, b: int|
                        #![trigger spec_closed_run(old(self).spec_entries(), a, b, old(self).spec_now())]
                        0 <= a <= b <= old(self).spec_entries().len() && es@ == spec_closed_run(
                            old(self).spec_entries(),
                            a,
                            b,
                            old(self).spec_now(),
                        )
                },
                None => true,
            },
    {
        proof {
            self.days_iter.lemma_measure_nonneg();
            self.week_start.lemma_day_number_bound();
        }
        let ws_dn = self.week_start.day_number();
        loop
            invariant
                self.days_iter.wf(),
                self.days_iter.spec_days() == 1,
                self.week_start.wf(),
                self.week_start == old(self).spec_week_start(),
                self.days_iter.spec_entries() == old(self).spec_entries(),
                self.days_iter.spec_now() == old(self).spec_now(),
                self.days_iter.spec_measure() <= old(self).spec_measure(),
                ws_dn == self.week_start.spec_day_number(),
                match old(self).spec_last_date() {
                    Some(p) => self.days_iter.spec_last_date() matches Some(q)
                        && q.spec_day_number() >= p.spec_day_number(),
                    None => true,
                },
            decreases self.days_iter.spec_measure(),
        {
            proof {
                self.days_iter.lemma_measure_nonneg();
            }
            let ghost pre_ix = self.days_iter.spec_next_index();
            match self.days_iter.next() {
                None => {
                    return None;
                },
                Some((d, es)) => {
                    proof {
                        d.lemma_day_number_bound();
                    }
                    let d_dn = d.day_number();
                    if d_dn >= ws_dn && d_dn <= ws_dn + 6 {
                        proof {
                            assert forall|k: int|
                                #![trigger es@[k]]
                                0 <= k < es@.len() implies exists|j: int|
                                0 <= j < old(self).spec_entries().len() && es@[k]
                                    == spec_finish_if_not(
                                    #[trigger] old(self).spec_entries()[j],
                                    old(self).spec_now(),
                                ) by {
                                assert(es@[k] == spec_finish_if_not(
                                    old(self).spec_entries()[pre_ix + k],
                                    old(self).spec_now(),
                                ));
                            }
                            assert(0 <= pre_ix <= pre_ix + es@.len()
                                <= old(self).spec_entries().len() && es@ == spec_closed_run(
                                old(self).spec_entries(),
                                pre_ix,
                                pre_ix + es@.len() as int,
                                old(self).spec_now(),
                            ));
                        }
                        return Some((d, es));
                    }
                },
            }
        }
    }
}

/// Day periods of the week starting at `week_start`, open intervals taken
/// to end now.
pub fn each_day_in_week<TS: TimeSource>(entries: Vec<TimeEntry>, week_start: Date, ts: &TS) -> (r:
    WeekOfDaysIterator)
    requires
        forall|i: int| 0 <= i < entries@.len() ==> (#[trigger] entries@[i]).parts_wf(),
        week_start.wf(),
    ensures
        r.wf(),
        r.spec_entries() == entries@,
        r.spec_week_start() == week_start,
        r.spec_now().wf(),
        r.spec_last_date() is None,
{
    WeekOfDaysIterator { days_iter: each_day(entries, ts), week_start }
}

} // verus!
