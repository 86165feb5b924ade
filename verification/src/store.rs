//! The log-store logic, on in-memory log bytes.
//!
//! The file itself stays outside this crate; callers hand in the file's
//! bytes and apply the returned write plans. A tail read seeks to an
//! approximate offset, discards the partial line there, and parses from the
//! next line start. The two mutating operations act on the last interval
//! only: opening a new interval appends after the last record, and closing
//! the open interval rewrites from that interval's first byte — valid
//! because an open interval is always the last record in the log.

use vstd::prelude::*;

use crate::entry::{Entry, Time, TimeEntry, spec_format_time_entry};
use crate::parser::{
    spec_parse, spec_parse_record, spec_line_end, parse_entries_from, parse_record_at,
    line_end, lemma_parse_record_progress, ParseError, Rec, rec_view,
};
use crate::timesource::TimeSource;

verus! {

/// The assumed average line length that tail reads seek by.
pub const APPROX_LINE_LENGTH_FOR_SEEK: u64 = 50;

/// The position right after the next newline at or after `i`, or the end
/// of the input.
pub open spec fn spec_after_line(s: Seq<u8>, i: int) -> int {
    if spec_line_end(s, i) < s.len() {
        spec_line_end(s, i) + 1
    } else {
        spec_line_end(s, i)
    }
}

/// Where a tail read of `n` records starts: `n` average line lengths
/// before the end, moved forward past the partial line there; from the
/// beginning when the input is short enough.
pub open spec fn spec_tail_start(s: Seq<u8>, n: int) -> int {
    if n * 50 < s.len() {
        spec_after_line(s, s.len() - n * 50)
    } else {
        0
    }
}

/// The start position of a tail read of `n` records.
pub fn tail_start(s: &Vec<u8>, n: u64) -> (r: usize)
    ensures
        r == spec_tail_start(s@, n as int),
        r <= s@.len(),
{
    let len = s.len();
    let off: u128 = (n as u128) * 50;
    if off < len as u128 {
        let seek = len - off as usize;
        let le = line_end(s, seek);
        proof {
            crate::parser::lemma_line_end_bounds(s@, seek as int);
        }
        if le < len {
            le + 1
        } else {
            le
        }
    } else {
        0
    }
}

/// Parses the whole log.
pub fn read_entries<TS: TimeSource>(s: &Vec<u8>, ts: &TS) -> (r: Result<Vec<Entry>, ParseError>)
    ensures
        r is Ok ==> exists|imp: i16|
            {
                &&& -1559 <= imp <= 1559
                &&& #[trigger] spec_parse(s@, 0, imp) == Some(
                    r->Ok_0@.map_values(|e: Entry| rec_view(e)),
                )
            },
        r matches Ok(v) ==> forall|k: int|
            0 <= k < v@.len() ==> ((#[trigger] v@[k]) matches Entry::Time(te) ==> te.parts_wf()),
        r is Err ==> exists|imp: i16|
            -1559 <= imp <= 1559 && (#[trigger] spec_parse(s@, 0, imp)) is None,
{
    let imp = ts.local_offset();
    parse_entries_from(s, 0, imp)
}

/// Parses the whole log and keeps only the timed intervals.
pub fn read_time_entries<TS: TimeSource>(s: &Vec<u8>, ts: &TS) -> (r: Result<
    Vec<TimeEntry>,
    ParseError,
>)
    ensures
        r is Ok ==> exists|imp: i16|
            {
                &&& -1559 <= imp <= 1559
                &&& (#[trigger] spec_parse(s@, 0, imp)) matches Some(recs) && r->Ok_0@
                    == crate::parser::spec_rec_time_entries(recs)
            },
        r is Err ==> exists|imp: i16|
            -1559 <= imp <= 1559 && (#[trigger] spec_parse(s@, 0, imp)) is None,
        r matches Ok(tv) ==> forall|k: int|
            0 <= k < tv@.len() ==> (#[trigger] tv@[k]).parts_wf(),
{
    crate::parser::parse_time_entries(s, ts)
}

/// Parses roughly the last `n` records, with `imp` as the offset of
/// timestamps that carry none. Parsing starts at a line boundary, so the
/// result is what the grammar denotes from there; with `n` large enough
/// that the seek reaches the start of the input, this is exactly
/// `read_entries`.
pub fn read_last_entries_with_offset(s: &Vec<u8>, n: u64, imp: i16) -> (r: Result<
    Vec<Entry>,
    ParseError,
>)
    ensures
        match r {
            Ok(v) => spec_parse(s@, spec_tail_start(s@, n as int), imp) == Some(
                v@.map_values(|e: Entry| rec_view(e)),
            ),
            Err(_) => spec_parse(s@, spec_tail_start(s@, n as int), imp) is None,
        },
        r matches Ok(v) ==> forall|k: int|
            0 <= k < v@.len() ==> ((#[trigger] v@[k]) matches Entry::Time(te) ==> te.parts_wf()),
{
    let start = tail_start(s, n);
    parse_entries_from(s, start, imp)
}

/// Parses roughly the last `n` records.
pub fn read_last_entries<TS: TimeSource>(s: &Vec<u8>, n: u64, ts: &TS) -> (r: Result<
    Vec<Entry>,
    ParseError,
>)
    ensures
        r is Ok ==> exists|imp: i16|
            {
                &&& -1559 <= imp <= 1559
                &&& #[trigger] spec_parse(s@, spec_tail_start(s@, n as int), imp) == Some(
                    r->Ok_0@.map_values(|e: Entry| rec_view(e)),
                )
            },
        r is Err ==> exists|imp: i16|
            -1559 <= imp <= 1559 && (#[trigger] spec_parse(s@, spec_tail_start(s@, n as int), imp))
                is None,
        r matches Ok(v) ==> forall|k: int|
            0 <= k < v@.len() ==> ((#[trigger] v@[k]) matches Entry::Time(te) ==> te.parts_wf()),
{
    let imp = ts.local_offset();
    read_last_entries_with_offset(s, n, imp)
}

/// Parses roughly the last record and returns it; `None` when the tail
/// holds no records.
pub fn read_last_entry<TS: TimeSource>(s: &Vec<u8>, ts: &TS) -> (r: Result<
    Option<Entry>,
    ParseError,
>)
    ensures
        r matches Ok(Some(e)) ==> (e matches Entry::Time(te) ==> te.parts_wf()),
        r is Ok ==> exists|imp: i16|
            {
                &&& -1559 <= imp <= 1559
                &&& (#[trigger] spec_parse(s@, spec_tail_start(s@, 1), imp)) matches Some(recs)
                    && match r->Ok_0 {
                    None => recs.len() == 0,
                    Some(e) => recs.len() > 0 && rec_view(e) == recs.last(),
                }
            },
        r is Err ==> exists|imp: i16|
            -1559 <= imp <= 1559 && (#[trigger] spec_parse(s@, spec_tail_start(s@, 1), imp))
                is None,
{
    match read_last_entries(s, 1, ts) {
        Err(e) => Err(e),
        Ok(mut v) => {
            let ghost pre = v@;
            let e = v.pop();
            proof {
                if pre.len() > 0 {
                    assert(rec_view(pre.last()) == pre.map_values(
                        |x: Entry| rec_view(x),
                    ).last());
                }
            }
            Ok(e)
        },
    }
}

/// A tail read that reaches the start of the input returns exactly what a
/// full read returns: both parse from position zero.
pub proof fn lemma_tail_read_equivalence(s: Seq<u8>, n: int, imp: i16)
    requires
        n * 50 >= s.len(),
    ensures
        spec_parse(s, spec_tail_start(s, n), imp) == spec_parse(s, 0, imp),
{
}

/// What a forward scan of the log's records knows when it stops: the last
/// interval seen, whether the log's very last record is that interval
/// (only then can it be patched in place), and the byte range of the last
/// record.
pub ghost struct ScanState {
    pub last: Option<TimeEntry>,
    pub last_is_interval: bool,
    pub start_pos: int,
    pub stop_pos: int,
}

/// One scan step: fold the record at `j` into the state. An annotation
/// keeps the memory of the last interval but marks it unpatchable.
pub open spec fn spec_scan_step(st: ScanState, r: Rec, j: int) -> ScanState {
    ScanState {
        last: match r {
            Rec::T(te) => Some(te),
            Rec::N(_) => st.last,
        },
        last_is_interval: r is T,
        start_pos: st.stop_pos,
        stop_pos: j,
    }
}

/// The log invariant the mutating operations refuse to work around: the
/// last interval is still open, yet an annotation follows it, so the open
/// interval is not the last record and cannot be patched in place.
pub open spec fn spec_open_buried(st: ScanState) -> bool {
    &&& st.last matches Some(e) && e.stop is None
    &&& !st.last_is_interval
}

/// The scan from position `i` with state `st`: `None` on malformed text.
pub open spec fn spec_scan_from(s: Seq<u8>, i: int, imp: i16, st: ScanState) -> Option<ScanState>
    decreases s.len() - i,
    when 0 <= i <= s.len()
    via spec_scan_from_decreases
{
    match spec_parse_record(s, i, imp) {
        None => None,
        Some((None, _)) => Some(st),
        Some((Some(r), j)) => spec_scan_from(s, j, imp, spec_scan_step(st, r, j)),
    }
}

#[via_fn]
proof fn spec_scan_from_decreases(s: Seq<u8>, i: int, imp: i16, st: ScanState) {
    lemma_parse_record_progress(s, i, imp);
}

/// The scan over the tail of the log that the mutating operations rely
/// on: it starts two average line lengths before the end, at a line
/// boundary.
pub open spec fn spec_scan(s: Seq<u8>, imp: i16) -> Option<ScanState> {
    spec_scan_from(
        s,
        spec_tail_start(s, 2),
        imp,
        ScanState {
            last: None,
            last_is_interval: false,
            start_pos: spec_tail_start(s, 2),
            stop_pos: spec_tail_start(s, 2),
        },
    )
}

/// Finds the last interval of the log and the byte range of the last
/// record, reading only the log's tail.
fn scan_for_update(s: &Vec<u8>, imp: i16) -> (r: Result<
    (Option<TimeEntry>, bool, usize, usize),
    usize,
>)
    ensures
        match r {
            Ok((last, last_rec, sp, ep)) => {
                &&& spec_scan(s@, imp) matches Some(st)
                &&& st.last == last
                &&& st.last_is_interval == last_rec
                &&& st.start_pos == sp
                &&& st.stop_pos == ep
                &&& sp <= ep <= s@.len()
                &&& (match last {
                    Some(e) => e.parts_wf(),
                    None => true,
                })
            },
            Err(p) => spec_scan(s@, imp) is None && p <= s@.len(),
        },
{
    let t0 = tail_start(s, 2);
    let mut last: Option<TimeEntry> = None;
    let mut last_rec: bool = false;
    let mut sp: usize = t0;
    let mut ep: usize = t0;
    let mut pos: usize = t0;
    loop
        invariant
            pos <= s@.len(),
            sp <= ep <= s@.len(),
            ep == pos,
            (match last {
                Some(e) => e.parts_wf(),
                None => true,
            }),
            spec_scan(s@, imp) == spec_scan_from(
                s@,
                pos as int,
                imp,
                ScanState {
                    last,
                    last_is_interval: last_rec,
                    start_pos: sp as int,
                    stop_pos: ep as int,
                },
            ),
        decreases s@.len() - pos,
    {
        match parse_record_at(s, pos, imp) {
            Err(p) => {
                return Err(p);
            },
            Ok((None, _)) => {
                return Ok((last, last_rec, sp, ep));
            },
            Ok((Some(e), j)) => {
                proof {
                    crate::parser::lemma_parse_record_wf(s@, pos as int, imp);
                }
                match e {
                    Entry::Time(te) => {
                        last_rec = true;
                        last = Some(te);
                    },
                    Entry::Note(_) => {
                        last_rec = false;
                    },
                }
                sp = ep;
                ep = j;
                pos = j;
            },
        }
    }
}

/// Why a store operation failed.
#[derive(Clone, Copy, Debug, PartialEq, Eq, Structural)]
pub enum StoreError {
    /// The log text is malformed at the given line and column.
    Parse(ParseError),
    /// An open interval is followed by an annotation, so the open interval
    /// is not the last record and cannot be patched in place.
    OpenIntervalFollowedByNote,
}

/// A pending write: bytes to be written at a byte offset of the log file,
/// overwriting what stands there and extending the file as needed.
#[derive(Debug, PartialEq, Eq)]
pub struct WritePlan {
    pub at: usize,
    pub data: Vec<u8>,
}

/// The log bytes after a write plan is applied.
pub fn apply_plan(s: &Vec<u8>, plan: &WritePlan) -> (r: Vec<u8>)
    requires
        plan.at <= s@.len(),
    ensures
        r@ == s@.take(plan.at as int) + plan.data@ + (if plan.at + plan.data@.len() < s@.len() {
            s@.subrange(plan.at + plan.data@.len(), s@.len() as int)
        } else {
            Seq::<u8>::empty()
        }),
{
    let mut out: Vec<u8> = Vec::new();
    let mut i: usize = 0;
    while i < plan.at
        invariant
            i <= plan.at <= s@.len(),
            out@ == s@.take(i as int),
        decreases plan.at - i,
    {
        out.push(s[i]);
        proof {
            assert(s@.take(i + 1) =~= s@.take(i as int).push(s@[i as int]));
        }
        i = i + 1;
    }
    crate::entry::append_bytes(&mut out, &plan.data);
    let tail_from = if plan.data.len() <= s.len() - plan.at {
        plan.at + plan.data.len()
    } else {
        s.len()
    };
    let mut j: usize = tail_from;
    while j < s.len()
        invariant
            tail_from <= j <= s@.len(),
            out@ == s@.take(plan.at as int) + plan.data@ + s@.subrange(tail_from as int, j as int),
        decreases s@.len() - j,
    {
        out.push(s[j]);
        proof {
            assert(s@.take(plan.at as int) + plan.data@ + s@.subrange(tail_from as int, j + 1)
                =~= (s@.take(plan.at as int) + plan.data@ + s@.subrange(
                tail_from as int,
                j as int,
            )).push(s@[j as int]));
        }
        j = j + 1;
    }
    proof {
        if plan.at + plan.data@.len() < s@.len() {
            assert(tail_from == plan.at + plan.data@.len());
        } else {
            assert(out@ =~= s@.take(plan.at as int) + plan.data@ + Seq::<u8>::empty());
        }
    }
    out
}

/// Opens a new interval unless one is already open. With an open interval
/// as the log's last record, returns its elapsed minutes and plans no
/// write; with an open interval buried under an annotation, refuses;
/// otherwise plans an appended open interval, starting now, right after
/// the last record.
pub fn start_new_entry<TS: TimeSource>(s: &Vec<u8>, ts: &TS) -> (r: Result<
    (Option<i64>, Option<WritePlan>),
    StoreError,
>)
    ensures
        exists|imp: i16|
            {
                &&& -1559 <= imp <= 1559
                &&& ((#[trigger] spec_scan(s@, imp)) is None ==> r matches Err(StoreError::Parse(
                    _,
                )))
                &&& (spec_scan(s@, imp) matches Some(st) ==> if spec_open_buried(st) {
                    r matches Err(e) && e == StoreError::OpenIntervalFollowedByNote
                } else {
                    match r {
                        Err(_) => false,
                        Ok((minutes, plan)) => {
                            &&& ((st.last matches Some(e) && e.stop is None) <==> minutes is Some)
                            &&& match minutes {
                                Some(m) => plan is None && (exists|now: Time|
                                #![auto]
                                now.wf() && m == now.spec_abs_minutes()
                                    - st.last->Some_0.start.spec_abs_minutes()),
                                None => match plan {
                                    Some(p) => p.at == st.stop_pos && (exists|now: Time|
                                    #![auto]
                                    now.wf() && !now.implied && p.data@ == spec_format_time_entry(
                                        TimeEntry { start: now, stop: None },
                                    )),
                                    None => false,
                                },
                            }
                        },
                    }
                })
            },
{
    let imp = ts.local_offset();
    match scan_for_update(s, imp) {
        Err(p) => {
            let pe = crate::parser::position_error(s, p);
            Err(StoreError::Parse(pe))
        },
        Ok((last, last_rec, _sp, ep)) => {
            if let Some(e) = &last {
                if !e.is_finished() {
                    if !last_rec {
                        return Err(StoreError::OpenIntervalFollowedByNote);
                    }
                    return Ok((Some(e.minutes(ts)), None));
                }
            }
            let entry = TimeEntry::start(ts);
            let data = entry.format_bytes();
            Ok((None, Some(WritePlan { at: ep, data })))
        },
    }
}

/// Closes the open interval if there is one. `None` without any interval;
/// `(false, minutes since its stop)` when the last interval is already
/// closed (annotations may follow it), with no write; `(true, its
/// minutes)` when it is open and is the last record, with a plan that
/// rewrites the interval, closed now, over its byte range; an open
/// interval buried under an annotation is refused.
pub fn stop_current_entry<TS: TimeSource>(s: &Vec<u8>, ts: &TS) -> (r: Result<
    Option<(bool, i64, Option<WritePlan>)>,
    StoreError,
>)
    ensures
        exists|imp: i16|
            {
                &&& -1559 <= imp <= 1559
                &&& ((#[trigger] spec_scan(s@, imp)) is None ==> r matches Err(StoreError::Parse(
                    _,
                )))
                &&& (spec_scan(s@, imp) matches Some(st) ==> if spec_open_buried(st) {
                    r matches Err(e) && e == StoreError::OpenIntervalFollowedByNote
                } else {
                    match r {
                        Err(_) => false,
                        Ok(out) => {
                            &&& (out is Some <==> st.last is Some)
                            &&& match out {
                                Some((just_closed, m, plan)) => {
                                    &&& (just_closed <==> st.last->Some_0.stop is None)
                                    &&& if just_closed {
                                        match plan {
                                            Some(p) => p.at == st.start_pos && (exists|now: Time|
                                            #![auto]
                                            now.wf() && !now.implied && p.data@
                                                == spec_format_time_entry(
                                                TimeEntry {
                                                    start: st.last->Some_0.start,
                                                    stop: Some(now),
                                                },
                                            ) && m == now.spec_abs_minutes()
                                                - st.last->Some_0.start.spec_abs_minutes()),
                                            None => false,
                                        }
                                    } else {
                                        plan is None && (exists|now: Time|
                                        #![auto]
                                        now.wf() && m == now.spec_abs_minutes()
                                            - st.last->Some_0.stop->Some_0.spec_abs_minutes())
                                    }
                                },
                                None => true,
                            }
                        },
                    }
                })
            },
{
    let imp = ts.local_offset();
    match scan_for_update(s, imp) {
        Err(p) => {
            let pe = crate::parser::position_error(s, p);
            Err(StoreError::Parse(pe))
        },
        Ok((last, last_rec, sp, _ep)) => {
            match last {
                None => Ok(None),
                Some(e) => {
                    if e.is_finished() {
                        let m = match e.minutes_since_stop(ts) {
                            Some(m) => m,
                            None => 0,
                        };
                        Ok(Some((false, m, None)))
                    } else {
                        if !last_rec {
                            return Err(StoreError::OpenIntervalFollowedByNote);
                        }
                        let closed = e.finish(ts);
                        let minutes = closed.minutes(ts);
                        let data = closed.format_bytes();
                        Ok(Some((true, minutes, Some(WritePlan { at: sp, data }))))
                    }
                },
            }
        },
    }
}

} // verus!
