//! Log records: timed intervals, annotations, and the timestamps they carry.
//!
//! A `Time` is a wall-clock date and minute together with a UTC offset in
//! minutes; `implied` marks an offset that came from the environment rather
//! than from the log text, and such a timestamp is written back without an
//! offset field. All arithmetic maps a timestamp to its absolute minute
//! count (minutes since 0000-01-01 00:00 UTC).

use vstd::prelude::*;

use crate::dates::{spec_days_in_month, days_in_month, Date};
use crate::timesource::TimeSource;

verus! {

/// A timestamp: date, time of day at minute granularity, and UTC offset.
#[derive(Clone, Copy, Debug, PartialEq, Eq, Structural, Hash)]
pub struct Time {
    pub year: u16,
    pub month: u8,
    pub day: u8,
    pub hour: u8,
    pub minute: u8,
    /// Minutes east of UTC.
    pub offset: i16,
    /// True when the offset was supplied by the environment, not the log text.
    pub implied: bool,
}

/// How a timestamp's offset is to be recorded.
pub enum TZ {
    /// An offset written in the log text, in minutes east of UTC.
    Known(i16),
    /// An offset taken from the environment; omitted when formatting.
    Implied(i16),
}

impl TZ {
    /// `Known` for a given offset; otherwise the time source supplies an
    /// implied one.
    pub fn from<TS: TimeSource>(utc_offset: Option<i16>, ts: &TS) -> (r: TZ)
        ensures
            match utc_offset {
                Some(m) => r == TZ::Known(m),
                None => r is Implied && -1559 <= r->Implied_0 <= 1559,
            },
    {
        match utc_offset {
            None => TZ::Implied(ts.local_offset()),
            Some(minutes) => TZ::Known(minutes),
        }
    }
}

impl Time {
    /// Validity: a real calendar day of a four-digit year, a real minute of
    /// the day, and an offset small enough to print as `±HHMM`.
    pub open spec fn wf(self) -> bool {
        &&& 1 <= self.year <= 9999
        &&& 1 <= self.month <= 12
        &&& 1 <= self.day <= spec_days_in_month(self.year as int, self.month as int)
        &&& self.hour < 24
        &&& self.minute < 60
        &&& -5999 <= self.offset <= 5999
    }

    /// The timestamp's calendar date.
    pub open spec fn spec_date(self) -> Date {
        Date { year: self.year, month: self.month, day: self.day }
    }

    /// The timestamp's calendar date.
    pub fn date(&self) -> (r: Date)
        ensures
            r == self.spec_date(),
    {
        Date { year: self.year, month: self.month, day: self.day }
    }

    /// Minutes since 0000-01-01 00:00 UTC.
    pub open spec fn spec_abs_minutes(self) -> int {
        self.spec_date().spec_day_number() * 1440 + self.hour * 60 + self.minute - self.offset
    }

    /// Absolute minute counts of well-formed timestamps stay well inside `i64`.
    pub proof fn lemma_abs_minutes_bound(self)
        requires
            self.wf(),
        ensures
            -5999 <= self.spec_abs_minutes() < 0x2_0000_0000,
    {
        self.spec_date().lemma_day_number_bound();
        crate::dates::lemma_days_before_year_bound(self.year as int);
        crate::dates::lemma_days_before_month_bound(self.year as int, self.month as int);
    }

    /// Minutes since 0000-01-01 00:00 UTC.
    pub fn abs_minutes(&self) -> (r: i64)
        requires
            self.wf(),
        ensures
            r == self.spec_abs_minutes(),
    {
        proof {
            self.lemma_abs_minutes_bound();
        }
        let days = self.date().day_number() as i64;
        days * 1440 + (self.hour as i64) * 60 + (self.minute as i64) - (self.offset as i64)
    }

    /// Builds a timestamp when the parts name a real calendar minute.
    pub fn from_parts(year: u16, month: u8, day: u8, hour: u8, minute: u8, offset: i16, implied:
        bool) -> (r: Option<Time>)
        ensures
            match r {
                Some(t) => {
                    &&& t == (Time { year, month, day, hour, minute, offset, implied })
                    &&& t.wf()
                },
                None => !(Time { year, month, day, hour, minute, offset, implied }).wf(),
            },
    {
        if 1 <= year && year <= 9999 && 1 <= month && month <= 12 && 1 <= day && day
            <= days_in_month(year, month) && hour < 24 && minute < 60 && -5999 <= offset && offset
            <= 5999 {
            Some(Time { year, month, day, hour, minute, offset, implied })
        } else {
            None
        }
    }

    /// Builds a timestamp from calendar parts and an offset choice; `None`
    /// when the parts are out of range.
    pub fn new(year: u16, month: u8, day: u8, hour: u8, minute: u8, tz: TZ) -> (r: Option<Time>)
        ensures
            match r {
                Some(t) => {
                    &&& t.wf()
                    &&& t.year == year
                    &&& t.month == month
                    &&& t.day == day
                    &&& t.hour == hour
                    &&& t.minute == minute
                    &&& match tz {
                        TZ::Known(m) => t.offset == m && !t.implied,
                        TZ::Implied(m) => t.offset == m && t.implied,
                    }
                },
                None => true,
            },
            r is None <==> !(Time {
                year,
                month,
                day,
                hour,
                minute,
                offset: (match tz { TZ::Known(m) => m, TZ::Implied(m) => m }),
                implied: (match tz { TZ::Known(_) => false, TZ::Implied(_) => true }),
            }).wf(),
    {
        match tz {
            TZ::Known(m) => Time::from_parts(year, month, day, hour, minute, m, false),
            TZ::Implied(m) => Time::from_parts(year, month, day, hour, minute, m, true),
        }
    }

    /// A copy of the given instant with its offset marked explicit, as when
    /// the clock's reading is about to be written to the log.
    pub fn at(wrapped: Time) -> (r: Time)
        ensures
            r == (Time { implied: false, ..wrapped }),
    {
        Time { implied: false, ..wrapped }
    }
}

/// The minutes an interval `[start, stop]` contributes to the window
/// `[from, to)`; an interval without a stop is taken to run through `to`.
/// Mirrors the clipping rule of the report engine: zero when the interval
/// starts after the window or stops before it, otherwise the length of the
/// clipped overlap.
pub open spec fn spec_minutes_between(start: int, stop: Option<int>, from: int, to: int) -> int {
    if start > to {
        0
    } else {
        let s = if start > from { start } else { from };
        match stop {
            None => to - s,
            Some(t) => if t < from {
                0
            } else {
                (if t < to { t } else { to }) - s
            },
        }
    }
}

/// A timed interval: a start and, once closed, a stop.
#[derive(Clone, Copy, Debug, PartialEq, Eq, Structural, Hash)]
pub struct TimeEntry {
    pub start: Time,
    pub stop: Option<Time>,
}

impl TimeEntry {
    /// Both timestamps are well-formed.
    pub open spec fn parts_wf(self) -> bool {
        &&& self.start.wf()
        &&& match self.stop {
            Some(t) => t.wf(),
            None => true,
        }
    }

    /// Well-formed and ordered: a closed interval stops no earlier than it
    /// starts.
    pub open spec fn wf(self) -> bool {
        &&& self.parts_wf()
        &&& match self.stop {
            Some(t) => self.start.spec_abs_minutes() <= t.spec_abs_minutes(),
            None => true,
        }
    }

    /// The stop's absolute minute, as `spec_minutes_between` sees it.
    pub open spec fn spec_stop_abs(self) -> Option<int> {
        match self.stop {
            Some(t) => Some(t.spec_abs_minutes()),
            None => None,
        }
    }

    /// An interval opened at the current instant.
    pub fn start<TS: TimeSource>(ts: &TS) -> (r: TimeEntry)
        ensures
            r.wf(),
            r.stop is None,
            !r.start.implied,
            exists|now: Time|
                #![auto]
                now.wf() && r.start == (Time { implied: false, ..now }),
    {
        let now = ts.now();
        let r = TimeEntry { start: Time::at(now), stop: None };
        proof {
            assert(now.wf() && r.start == (Time { implied: false, ..now }));
        }
        r
    }

    /// Closes the interval at `stop` unless it is already closed.
    pub fn finish_if_not(self, stop: Time) -> (r: TimeEntry)
        ensures
            r.start == self.start,
            match self.stop {
                Some(_) => r == self,
                None => r.stop == Some(Time { implied: false, ..stop }),
            },
    {
        if self.is_finished() {
            self
        } else {
            TimeEntry { stop: Some(Time::at(stop)), ..self }
        }
    }

    /// Closes an open interval at the current instant.
    pub fn finish<TS: TimeSource>(self, ts: &TS) -> (r: TimeEntry)
        requires
            self.stop is None,
        ensures
            r.start == self.start,
            r.stop is Some,
            r.stop->Some_0.wf(),
            !r.stop->Some_0.implied,
            exists|now: Time|
                #![auto]
                now.wf() && r.stop == Some(Time { implied: false, ..now }),
    {
        let now = ts.now();
        let r = TimeEntry { stop: Some(Time::at(now)), ..self };
        proof {
            assert(now.wf() && r.stop == Some(Time { implied: false, ..now }));
        }
        r
    }

    /// The date the interval starts on.
    pub fn start_date(&self) -> (r: Date)
        ensures
            r == self.start.spec_date(),
    {
        self.start.date()
    }

    /// The date the interval stops on, if it is closed.
    pub fn stop_date(&self) -> (r: Option<Date>)
        ensures
            match self.stop {
                Some(t) => r == Some(t.spec_date()),
                None => r is None,
            },
    {
        match &self.stop {
            Some(t) => Some(t.date()),
            None => None,
        }
    }

    /// Whether the interval is closed.
    pub fn is_finished(&self) -> (r: bool)
        ensures
            r == (self.stop is Some),
    {
        self.stop.is_some()
    }

    /// Whether any part of the interval can fall in the given year.
    pub fn includes_year(&self, year: i32) -> (r: bool)
        ensures
            r == {
                &&& self.start.year <= year
                &&& match self.stop {
                    Some(t) => year <= t.year,
                    None => true,
                }
            },
    {
        if self.start.year as i32 > year {
            return false;
        }
        if let Some(stop) = &self.stop {
            if (stop.year as i32) < year {
                return false;
            }
        }
        true
    }

    /// Whether any part of the interval can fall in the given month.
    pub fn includes_year_month(&self, year: i32, month: u8) -> (r: bool)
        ensures
            r == {
                &&& (self.start.year < year || (self.start.year == year && self.start.month
                    <= month))
                &&& match self.stop {
                    Some(t) => year < t.year || (year == t.year && month <= t.month),
                    None => true,
                }
            },
    {
        if self.start.year as i32 > year {
            return false;
        }
        if self.start.year as i32 == year && self.start.month > month {
            return false;
        }
        if let Some(stop) = &self.stop {
            if (stop.year as i32) < year {
                return false;
            }
            if stop.year as i32 == year && stop.month < month {
                return false;
            }
        }
        true
    }

    /// Minutes from start to stop, or to the current instant while open:
    /// for an open interval the result is the distance from the start to
    /// some valid instant the time source reported.
    pub fn minutes<TS: TimeSource>(&self, ts: &TS) -> (r: i64)
        requires
            self.parts_wf(),
        ensures
            match self.stop {
                Some(t) => r == t.spec_abs_minutes() - self.start.spec_abs_minutes(),
                None => exists|now: Time|
                    #![auto]
                    now.wf() && r == now.spec_abs_minutes() - self.start.spec_abs_minutes(),
            },
    {
        proof {
            self.start.lemma_abs_minutes_bound();
        }
        match &self.stop {
            None => {
                let now = ts.now();
                proof {
                    now.lemma_abs_minutes_bound();
                }
                let r = now.abs_minutes() - self.start.abs_minutes();
                proof {
                    assert(now.wf() && r == now.spec_abs_minutes()
                        - self.start.spec_abs_minutes());
                }
                r
            },
            Some(t) => {
                proof {
                    t.lemma_abs_minutes_bound();
                }
                t.abs_minutes() - self.start.abs_minutes()
            },
        }
    }

    /// Minutes since the interval stopped, if it is closed: the distance
    /// from the stop to some valid instant the time source reported.
    pub fn minutes_since_stop<TS: TimeSource>(&self, ts: &TS) -> (r: Option<i64>)
        requires
            self.parts_wf(),
        ensures
            r is Some <==> self.stop is Some,
            r matches Some(m) ==> exists|now: Time|
                #![auto]
                now.wf() && m == now.spec_abs_minutes()
                    - self.stop->Some_0.spec_abs_minutes(),
    {
        match &self.stop {
            None => None,
            Some(t) => {
                let now = ts.now();
                proof {
                    now.lemma_abs_minutes_bound();
                    t.lemma_abs_minutes_bound();
                }
                let m = now.abs_minutes() - t.abs_minutes();
                proof {
                    assert(now.wf() && m == now.spec_abs_minutes() - t.spec_abs_minutes());
                }
                Some(m)
            },
        }
    }

    /// Minutes this interval contributes to the window `[from, to)`.
    pub fn minutes_between(&self, from: &Time, to: &Time) -> (r: i64)
        requires
            self.parts_wf(),
            from.wf(),
            to.wf(),
        ensures
            r == spec_minutes_between(
                self.start.spec_abs_minutes(),
                self.spec_stop_abs(),
                from.spec_abs_minutes(),
                to.spec_abs_minutes(),
            ),
    {
        proof {
            self.start.lemma_abs_minutes_bound();
            from.lemma_abs_minutes_bound();
            to.lemma_abs_minutes_bound();
            if let Some(t) = self.stop {
                t.lemma_abs_minutes_bound();
            }
        }
        let from_abs = from.abs_minutes();
        let to_abs = to.abs_minutes();
        let start_abs = self.start.abs_minutes();
        if start_abs > to_abs {
            return 0;
        }
        let s = if start_abs > from_abs { start_abs } else { from_abs };
        match &self.stop {
            None => to_abs - s,
            Some(t) => {
                let t_abs = t.abs_minutes();
                if t_abs < from_abs {
                    0
                } else {
                    (if t_abs < to_abs { t_abs } else { to_abs }) - s
                }
            },
        }
    }

    /// An interval is acceptable after the previous interval of the log when
    /// it is ordered and the previous one was closed before it starts.
    pub fn is_valid_after(&self, other: &Option<TimeEntry>) -> (r: Result<(), ValidationError>)
        requires
            self.parts_wf(),
            match other {
                Some(o) => o.parts_wf(),
                None => true,
            },
        ensures
            r == match spec_validation_issue(*self, *other) {
                Some(e) => Err::<(), ValidationError>(e),
                None => Ok(()),
            },
            r is Ok <==> {
                &&& match self.stop {
                    Some(t) => self.start.spec_abs_minutes() <= t.spec_abs_minutes(),
                    None => true,
                }
                &&& match other {
                    Some(o) => match o.stop {
                        Some(t) => t.spec_abs_minutes() <= self.start.spec_abs_minutes(),
                        None => false,
                    },
                    None => true,
                }
            },
    {
        proof {
            self.start.lemma_abs_minutes_bound();
        }
        if let Some(stop) = &self.stop {
            proof {
                stop.lemma_abs_minutes_bound();
            }
            if self.start.abs_minutes() > stop.abs_minutes() {
                return Err(ValidationError::StopBeforeStart);
            }
        }
        if let Some(other_entry) = other {
            match &other_entry.stop {
                None => {
                    return Err(ValidationError::PreviousNotFinished);
                },
                Some(stop) => {
                    proof {
                        stop.lemma_abs_minutes_bound();
                    }
                    if self.start.abs_minutes() < stop.abs_minutes() {
                        return Err(ValidationError::StartsBeforePreviousStops);
                    }
                },
            }
        }
        Ok(())
    }
}

/// Why a record is logically invalid, from the validation pass.
#[derive(Clone, Copy, Debug, PartialEq, Eq, Structural)]
pub enum ValidationError {
    /// A closed interval stops before it starts.
    StopBeforeStart,
    /// The previous interval is still open.
    PreviousNotFinished,
    /// The interval starts before the previous interval stops.
    StartsBeforePreviousStops,
}

/// The problem, if any, with an interval standing after the previous one:
/// an inverted interval first, then an unfinished or overlapping
/// predecessor.
pub open spec fn spec_validation_issue(e: TimeEntry, prev: Option<TimeEntry>) -> Option<
    ValidationError,
> {
    if (match e.stop {
        Some(t) => e.start.spec_abs_minutes() > t.spec_abs_minutes(),
        None => false,
    }) {
        Some(ValidationError::StopBeforeStart)
    } else {
        match prev {
            Some(o) => match o.stop {
                None => Some(ValidationError::PreviousNotFinished),
                Some(t) => if e.start.spec_abs_minutes() < t.spec_abs_minutes() {
                    Some(ValidationError::StartsBeforePreviousStops)
                } else {
                    None
                },
            },
            None => None,
        }
    }
}

/// The last interval among the first `k` records.
pub open spec fn spec_last_interval(s: Seq<Entry>, k: int) -> Option<TimeEntry>
    decreases k,
    when 0 <= k <= s.len()
{
    if k <= 0 {
        None
    } else {
        match s[k - 1] {
            Entry::Time(te) => Some(te),
            Entry::Note(_) => spec_last_interval(s, k - 1),
        }
    }
}

/// The validation report over the first `k` records: each offending
/// record's index with its problem, in order.
pub open spec fn spec_validate(s: Seq<Entry>, k: int) -> Seq<(int, ValidationError)>
    decreases k,
    when 0 <= k <= s.len()
{
    if k <= 0 {
        Seq::empty()
    } else {
        spec_validate(s, k - 1) + (match s[k - 1] {
            Entry::Time(te) => match spec_validation_issue(te, spec_last_interval(s, k - 1)) {
                Some(err) => seq![(k - 1, err)],
                None => Seq::empty(),
            },
            Entry::Note(_) => Seq::empty(),
        })
    }
}

/// The validation pass of the log: scans every record, reports each
/// logically invalid interval with its index, and keeps going — it never
/// stops at the first problem.
pub fn validate_entries(entries: &Vec<Entry>) -> (r: Vec<(usize, ValidationError)>)
    requires
        forall|i: int|
            0 <= i < entries@.len() ==> ((#[trigger] entries@[i]) matches Entry::Time(te)
                ==> te.parts_wf()),
    ensures
        r@.map_values(|p: (usize, ValidationError)| (p.0 as int, p.1)) == spec_validate(
            entries@,
            entries@.len() as int,
        ),
{
    let mut out: Vec<(usize, ValidationError)> = Vec::new();
    let mut last: Option<TimeEntry> = None;
    let mut i: usize = 0;
    while i < entries.len()
        invariant
            i <= entries@.len(),
            forall|k: int|
                0 <= k < entries@.len() ==> ((#[trigger] entries@[k]) matches Entry::Time(te)
                    ==> te.parts_wf()),
            last == spec_last_interval(entries@, i as int),
            (match last {
                Some(e) => e.parts_wf(),
                None => true,
            }),
            out@.map_values(|p: (usize, ValidationError)| (p.0 as int, p.1)) == spec_validate(
                entries@,
                i as int,
            ),
        decreases entries@.len() - i,
    {
        let ghost pre = out@;
        match &entries[i] {
            Entry::Time(te) => {
                if let Err(err) = te.is_valid_after(&last) {
                    out.push((i, err));
                }
                last = Some(*te);
            },
            Entry::Note(_) => {},
        }
        proof {
            assert(out@.map_values(|p: (usize, ValidationError)| (p.0 as int, p.1)) =~= spec_validate(
                entries@,
                i + 1,
            ));
        }
        i = i + 1;
    }
    out
}

/// A log record: a timed interval or a free-text annotation line.
#[derive(Clone, Debug, PartialEq, Eq)]
pub enum Entry {
    Time(TimeEntry),
    Note(Vec<u8>),
}

impl Entry {
    /// The interval, if this record is one; consumes the record.
    pub fn try_into_time(self) -> (r: Option<TimeEntry>)
        ensures
            match self {
                Entry::Time(te) => r == Some(te),
                Entry::Note(_) => r is None,
            },
    {
        match self {
            Entry::Time(te) => Some(te),
            _ => None,
        }
    }

    /// The interval of a record known to be one.
    pub fn into_time(self) -> (r: TimeEntry)
        requires
            self is Time,
        ensures
            self == Entry::Time(r),
    {
        match self {
            Entry::Time(te) => te,
            Entry::Note(_) => unreached(),
        }
    }

    /// The interval, if this record is one.
    pub fn try_time(&self) -> (r: Option<&TimeEntry>)
        ensures
            match self {
                Entry::Time(te) => r is Some && *r->Some_0 == te,
                Entry::Note(_) => r is None,
            },
    {
        match self {
            Entry::Time(te) => Some(te),
            _ => None,
        }
    }

    /// The interval of a record known to be one.
    pub fn time(&self) -> (r: &TimeEntry)
        requires
            self is Time,
        ensures
            *self == Entry::Time(*r),
    {
        match self {
            Entry::Time(te) => te,
            Entry::Note(_) => unreached(),
        }
    }

    /// An annotation record holding the given bytes.
    pub fn note(note: &[u8]) -> (r: Entry)
        ensures
            r is Note,
            r->Note_0@ == note@,
    {
        let mut v: Vec<u8> = Vec::new();
        let mut i: usize = 0;
        while i < note.len()
            invariant
                i <= note@.len(),
                v@ == note@.take(i as int),
            decreases note@.len() - i,
        {
            v.push(note[i]);
            proof {
                assert(note@.take(i + 1) == note@.take(i as int).push(note@[i as int]));
            }
            i = i + 1;
        }
        proof {
            assert(note@.take(note@.len() as int) == note@);
        }
        Entry::Note(v)
    }
}

impl TimeEntry {
    /// Minutes this interval contributes to the window `[from, to)`, the
    /// window's ends given as absolute minute counts.
    pub fn minutes_between_abs(&self, from: i64, to: i64) -> (r: i64)
        requires
            self.parts_wf(),
            -0x2_1000_0000 <= from <= 0x2_1000_0000,
            -0x2_1000_0000 <= to <= 0x2_1000_0000,
        ensures
            r == spec_minutes_between(
                self.start.spec_abs_minutes(),
                self.spec_stop_abs(),
                from as int,
                to as int,
            ),
    {
        proof {
            self.start.lemma_abs_minutes_bound();
            if let Some(t) = self.stop {
                t.lemma_abs_minutes_bound();
            }
        }
        let start_abs = self.start.abs_minutes();
        if start_abs > to {
            return 0;
        }
        let s = if start_abs > from {
            start_abs
        } else {
            from
        };
        match &self.stop {
            None => to - s,
            Some(t) => {
                let t_abs = t.abs_minutes();
                if t_abs < from {
                    0
                } else {
                    (if t_abs < to { t_abs } else { to }) - s
                }
            },
        }
    }
}

/// The contribution of an interval to a window `[from, to)` never exceeds
/// the window's length in either direction.
pub proof fn lemma_minutes_between_range(start: int, stop: Option<int>, from: int, to: int)
    requires
        from <= to,
    ensures
        -(to - from) <= spec_minutes_between(start, stop, from, to) <= to - from,
{
}

/// Boundary split: cutting a window at any point in it splits an
/// interval's contribution without loss — the two parts sum to the whole,
/// for any ordered interval, open ones included.
pub proof fn lemma_minutes_between_split(start: int, stop: Option<int>, a: int, b: int, c: int)
    requires
        a <= b <= c,
        match stop {
            Some(t) => start <= t,
            None => true,
        },
    ensures
        spec_minutes_between(start, stop, a, c) == spec_minutes_between(start, stop, a, b)
            + spec_minutes_between(start, stop, b, c),
{
}

/// Boundary split for an interval spanning two adjacent periods: the two
/// periods' contributions sum to the whole interval's minutes whenever
/// the interval lies within the two periods together.
pub proof fn lemma_boundary_split(e: TimeEntry, a: int, b: int, c: int)
    requires
        e.wf(),
        e.stop is Some,
        a <= b <= c,
        a <= e.start.spec_abs_minutes(),
        e.stop->Some_0.spec_abs_minutes() <= c,
    ensures
        spec_minutes_between(e.start.spec_abs_minutes(), e.spec_stop_abs(), a, b)
            + spec_minutes_between(e.start.spec_abs_minutes(), e.spec_stop_abs(), b, c)
            == e.stop->Some_0.spec_abs_minutes() - e.start.spec_abs_minutes(),
{
    lemma_minutes_between_split(e.start.spec_abs_minutes(), e.spec_stop_abs(), a, b, c);
}

/// The total contribution of a list of intervals to the window
/// `[from, to)`.
pub open spec fn spec_sum_minutes(entries: Seq<TimeEntry>, from: int, to: int) -> int
    decreases entries.len(),
{
    if entries.len() == 0 {
        0
    } else {
        spec_sum_minutes(entries.drop_last(), from, to) + spec_minutes_between(
            entries.last().start.spec_abs_minutes(),
            entries.last().spec_stop_abs(),
            from,
            to,
        )
    }
}

/// An interval's contribution is bounded when its timestamps are.
pub proof fn lemma_minutes_between_abs_bound(e: TimeEntry, from: int, to: int)
    requires
        e.parts_wf(),
        -0x2_1000_0000 <= from <= 0x2_1000_0000,
        -0x2_1000_0000 <= to <= 0x2_1000_0000,
    ensures
        -0x8_0000_0000 <= spec_minutes_between(
            e.start.spec_abs_minutes(),
            e.spec_stop_abs(),
            from,
            to,
        ) <= 0x8_0000_0000,
{
    e.start.lemma_abs_minutes_bound();
    if let Some(t) = e.stop {
        t.lemma_abs_minutes_bound();
    }
}

/// Sums the contributions of every interval to the window `[from, to)`,
/// the window's ends given as absolute minute counts.
pub fn sum_minutes_between(entries: &Vec<TimeEntry>, from: i64, to: i64) -> (r: i64)
    requires
        forall|i: int| 0 <= i < entries@.len() ==> (#[trigger] entries@[i]).parts_wf(),
        entries@.len() <= 0x1000_0000,
        -0x2_1000_0000 <= from <= 0x2_1000_0000,
        -0x2_1000_0000 <= to <= 0x2_1000_0000,
    ensures
        r == spec_sum_minutes(entries@, from as int, to as int),
{
    let mut sum: i64 = 0;
    let mut i: usize = 0;
    while i < entries.len()
        invariant
            i <= entries@.len() <= 0x1000_0000,
            forall|k: int| 0 <= k < entries@.len() ==> (#[trigger] entries@[k]).parts_wf(),
            -0x2_1000_0000 <= from <= 0x2_1000_0000,
            -0x2_1000_0000 <= to <= 0x2_1000_0000,
            sum == spec_sum_minutes(entries@.take(i as int), from as int, to as int),
            -0x8_0000_0000 * (i as int) <= sum <= 0x8_0000_0000 * (i as int),
        decreases entries@.len() - i,
    {
        proof {
            lemma_minutes_between_abs_bound(entries@[i as int], from as int, to as int);
            assert(entries@.take(i + 1).drop_last() == entries@.take(i as int));
            assert(entries@.take(i + 1).last() == entries@[i as int]);
            assert(0x8_0000_0000 * (i as int) + 0x8_0000_0000 == 0x8_0000_0000 * (i + 1)) by (nonlinear_arith);
            assert(-0x8_0000_0000 * (i as int) - 0x8_0000_0000 == -0x8_0000_0000 * (i + 1)) by (nonlinear_arith);
        }
        sum = sum + entries[i].minutes_between_abs(from, to);
        i = i + 1;
    }
    proof {
        assert(entries@.take(entries@.len() as int) == entries@);
    }
    sum
}

/// Splitting the window splits the sum: the total over `[a, c)` equals
/// the totals over `[a, b)` and `[b, c)` together, for ordered intervals.
pub proof fn lemma_sum_minutes_split(entries: Seq<TimeEntry>, a: int, b: int, c: int)
    requires
        a <= b <= c,
        forall|i: int| 0 <= i < entries.len() ==> (#[trigger] entries[i]).wf(),
    ensures
        spec_sum_minutes(entries, a, c) == spec_sum_minutes(entries, a, b) + spec_sum_minutes(
            entries,
            b,
            c,
        ),
    decreases entries.len(),
{
    if entries.len() > 0 {
        lemma_sum_minutes_split(entries.drop_last(), a, b, c);
        let e = entries.last();
        assert(e.wf());
        e.start.lemma_abs_minutes_bound();
        lemma_minutes_between_split(e.start.spec_abs_minutes(), e.spec_stop_abs(), a, b, c);
    }
}

/// The sum over `[lo, lo + k days)`, split into one window per day.
pub open spec fn spec_day_sums(entries: Seq<TimeEntry>, lo: int, k: nat) -> int
    decreases k,
{
    if k == 0 {
        0
    } else {
        spec_day_sums(entries, lo, (k - 1) as nat) + spec_sum_minutes(
            entries,
            lo + (k - 1) * 1440,
            lo + k * 1440,
        )
    }
}

/// An empty window collects no minutes from any interval.
pub proof fn lemma_sum_minutes_empty(entries: Seq<TimeEntry>, x: int)
    ensures
        spec_sum_minutes(entries, x, x) == 0,
    decreases entries.len(),
{
    if entries.len() > 0 {
        lemma_sum_minutes_empty(entries.drop_last(), x);
    }
}

/// Sum invariance: the total over a whole day-aligned window equals the
/// sum of the per-day clipped totals, for ordered intervals.
pub proof fn lemma_sum_day_partition(entries: Seq<TimeEntry>, lo: int, k: nat)
    requires
        forall|i: int| 0 <= i < entries.len() ==> (#[trigger] entries[i]).wf(),
    ensures
        spec_sum_minutes(entries, lo, lo + k * 1440) == spec_day_sums(entries, lo, k),
    decreases k,
{
    if k > 0 {
        lemma_sum_day_partition(entries, lo, (k - 1) as nat);
        assert(((k - 1) as nat) * 1440 == k * 1440 - 1440) by (nonlinear_arith)
            requires
                k >= 1,
        ;
        assert(lo <= lo + (k - 1) * 1440 <= lo + k * 1440);
        lemma_sum_minutes_split(entries, lo, lo + (k - 1) * 1440, lo + k * 1440);
        assert(spec_day_sums(entries, lo, k) == spec_day_sums(entries, lo, (k - 1) as nat)
            + spec_sum_minutes(entries, lo + (k - 1) * 1440, lo + k * 1440));
    } else {
        lemma_sum_minutes_empty(entries, lo);
    }
}

/// The ASCII byte of a decimal digit value.
pub open spec fn spec_digit(n: int) -> u8 {
    (48 + n) as u8
}

/// A number below 100 as two zero-padded ASCII digits.
pub open spec fn spec_two(n: int) -> Seq<u8> {
    seq![spec_digit(n / 10), spec_digit(n % 10)]
}

/// A number below 10000 as four zero-padded ASCII digits.
pub open spec fn spec_four(n: int) -> Seq<u8> {
    seq![
        spec_digit(n / 1000),
        spec_digit((n / 100) % 10),
        spec_digit((n / 10) % 10),
        spec_digit(n % 10),
    ]
}

/// The magnitude of an offset, in minutes.
pub open spec fn spec_off_abs(off: int) -> int {
    if off >= 0 {
        off
    } else {
        -off
    }
}

/// The bytes a timestamp formats to: `YYYY-MM-DD HH:MM`, and for an explicit
/// offset also ` ±HHMM`. An implied offset is omitted.
pub open spec fn spec_format_time(t: Time) -> Seq<u8> {
    spec_four(t.year as int) + seq![45u8] + spec_two(t.month as int) + seq![45u8] + spec_two(
        t.day as int,
    ) + seq![32u8] + spec_two(t.hour as int) + seq![58u8] + spec_two(t.minute as int) + if t.implied {
        Seq::<u8>::empty()
    } else {
        seq![32u8, if t.offset >= 0 { 43u8 } else { 45u8 }] + spec_two(
            spec_off_abs(t.offset as int) / 60,
        ) + spec_two(spec_off_abs(t.offset as int) % 60)
    }
}

/// The bytes an interval formats to: the start, then `,stop` when closed,
/// then a newline.
pub open spec fn spec_format_time_entry(e: TimeEntry) -> Seq<u8> {
    spec_format_time(e.start) + match e.stop {
        None => seq![10u8],
        Some(t) => seq![44u8] + spec_format_time(t) + seq![10u8],
    }
}

/// The bytes a record formats to; an annotation is `#`, its bytes, and a
/// newline.
pub open spec fn spec_format_entry(e: Entry) -> Seq<u8> {
    match e {
        Entry::Time(te) => spec_format_time_entry(te),
        Entry::Note(v) => seq![35u8] + v@ + seq![10u8],
    }
}

/// Appends two zero-padded decimal digits.
fn push_two(v: &mut Vec<u8>, n: u8)
    requires
        n < 100,
    ensures
        final(v)@ == old(v)@ + spec_two(n as int),
{
    v.push(48 + n / 10);
    v.push(48 + n % 10);
    proof {
        assert(v@ =~= old(v)@ + spec_two(n as int));
    }
}

/// Appends four zero-padded decimal digits.
fn push_four(v: &mut Vec<u8>, n: u16)
    requires
        n < 10000,
    ensures
        final(v)@ == old(v)@ + spec_four(n as int),
{
    v.push(48 + (n / 1000) as u8);
    v.push(48 + ((n / 100) % 10) as u8);
    v.push(48 + ((n / 10) % 10) as u8);
    v.push(48 + (n % 10) as u8);
    proof {
        assert(v@ =~= old(v)@ + spec_four(n as int));
    }
}

impl Time {
    /// The timestamp as log-file bytes.
    pub fn format_bytes(&self) -> (r: Vec<u8>)
        requires
            self.wf(),
        ensures
            r@ == spec_format_time(*self),
    {
        let mut v: Vec<u8> = Vec::new();
        push_four(&mut v, self.year);
        v.push(45);
        push_two(&mut v, self.month);
        v.push(45);
        push_two(&mut v, self.day);
        v.push(32);
        push_two(&mut v, self.hour);
        v.push(58);
        push_two(&mut v, self.minute);
        if !self.implied {
            v.push(32);
            if self.offset >= 0 {
                v.push(43);
            } else {
                v.push(45);
            }
            let a: i16 = if self.offset >= 0 {
                self.offset
            } else {
                -self.offset
            };
            push_two(&mut v, (a / 60) as u8);
            push_two(&mut v, (a % 60) as u8);
        }
        proof {
            assert(v@ =~= spec_format_time(*self));
        }
        v
    }

    /// The timestamp as text, as it would stand in the log.
    pub fn display(&self) -> (r: String)
        requires
            self.wf(),
        ensures
            r@ == spec_ascii_chars(spec_format_time(*self)),
    {
        let bytes = self.format_bytes();
        proof {
            lemma_format_time_ascii(*self);
        }
        ascii_string(&bytes)
    }
}

impl TimeEntry {
    /// The interval as log-file bytes, newline included.
    pub fn format_bytes(&self) -> (r: Vec<u8>)
        requires
            self.parts_wf(),
        ensures
            r@ == spec_format_time_entry(*self),
    {
        let mut v = self.start.format_bytes();
        match &self.stop {
            None => {
                v.push(10);
            },
            Some(t) => {
                v.push(44);
                let tb = t.format_bytes();
                append_bytes(&mut v, &tb);
                v.push(10);
            },
        }
        proof {
            assert(v@ =~= spec_format_time_entry(*self));
        }
        v
    }

    /// The interval as text, as it would stand in the log.
    pub fn display(&self) -> (r: String)
        requires
            self.parts_wf(),
        ensures
            r@ == spec_ascii_chars(spec_format_time_entry(*self)),
    {
        let bytes = self.format_bytes();
        proof {
            lemma_format_time_ascii(self.start);
            if let Some(t) = self.stop {
                lemma_format_time_ascii(t);
            }
        }
        ascii_string(&bytes)
    }
}

impl Entry {
    /// The record as log-file bytes, newline included.
    pub fn format_bytes(&self) -> (r: Vec<u8>)
        requires
            self matches Entry::Time(te) ==> te.parts_wf(),
        ensures
            r@ == spec_format_entry(*self),
    {
        match self {
            Entry::Time(te) => te.format_bytes(),
            Entry::Note(n) => {
                let mut v: Vec<u8> = Vec::new();
                v.push(35);
                append_bytes(&mut v, n);
                v.push(10);
                proof {
                    assert(v@ =~= spec_format_entry(*self));
                }
                v
            },
        }
    }
}

/// Appends all bytes of `src` to `dst`.
pub fn append_bytes(dst: &mut Vec<u8>, src: &Vec<u8>)
    ensures
        final(dst)@ == old(dst)@ + src@,
{
    let mut i: usize = 0;
    while i < src.len()
        invariant
            i <= src@.len(),
            dst@ == old(dst)@ + src@.take(i as int),
        decreases src@.len() - i,
    {
        dst.push(src[i]);
        proof {
            assert(old(dst)@ + src@.take(i + 1) =~= (old(dst)@ + src@.take(i as int)).push(
                src@[i as int],
            ));
        }
        i = i + 1;
    }
    proof {
        assert(src@.take(src@.len() as int) == src@);
    }
}

/// The characters of a sequence of ASCII bytes.
pub open spec fn spec_ascii_chars(s: Seq<u8>) -> Seq<char> {
    s.map_values(|b: u8| b as char)
}

/// Formatted timestamps hold ASCII bytes only.
pub proof fn lemma_format_time_ascii(t: Time)
    requires
        t.wf(),
    ensures
        forall|i: int|
            0 <= i < spec_format_time(t).len() ==> #[trigger] spec_format_time(t)[i] < 128,
{
}

/// Relies on `String::from_utf8`: ASCII bytes are valid UTF-8 and decode to
/// one character per byte.
#[verifier::external_body]
pub(crate) fn ascii_string(v: &Vec<u8>) -> (r: String)
    requires
        forall|i: int| 0 <= i < v@.len() ==> #[trigger] v@[i] < 128,
    ensures
        r@ == spec_ascii_chars(v@),
{
    match String::from_utf8(v.clone()) {
        Ok(s) => s,
        Err(_) => String::new(),
    }
}

/// The intervals of a record list, in order, annotations dropped.
pub open spec fn spec_time_entries(s: Seq<Entry>) -> Seq<TimeEntry>
    decreases s.len(),
{
    if s.len() == 0 {
        Seq::empty()
    } else {
        spec_time_entries(s.drop_last()) + if s.last() is Time {
            seq![s.last()->Time_0]
        } else {
            Seq::empty()
        }
    }
}

/// Keeps the intervals of a record list, in order, dropping annotations.
pub fn into_time_entries(entries: Vec<Entry>) -> (r: Vec<TimeEntry>)
    ensures
        r@ == spec_time_entries(entries@),
{
    let mut res: Vec<TimeEntry> = Vec::new();
    let mut i: usize = 0;
    while i < entries.len()
        invariant
            i <= entries@.len(),
            res@ == spec_time_entries(entries@.take(i as int)),
        decreases entries@.len() - i,
    {
        proof {
            assert(entries@.take(i + 1).drop_last() == entries@.take(i as int));
            assert(entries@.take(i + 1).last() == entries@[i as int]);
        }
        match &entries[i] {
            Entry::Time(te) => {
                res.push(*te);
            },
            Entry::Note(_) => {},
        }
        i = i + 1;
        proof {
            assert(res@ == spec_time_entries(entries@.take(i as int)));
        }
    }
    proof {
        assert(entries@.take(entries@.len() as int) == entries@);
    }
    res
}

} // verus!
