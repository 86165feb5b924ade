//! The incremental log-text parser.
//!
//! The log grammar is stated as specification functions over byte sequences
//! (`spec_parse_record`, `spec_parse`), and the executable parser is proved
//! to return exactly what the grammar denotes. Each call of `parse_entry`
//! consumes one record and returns the position after it, so a caller can
//! resume from any record boundary — tail reads rely on that.
//!
//! Grammar, one record per line, blank lines skipped:
//! `record := "#" text | timestamp [ "," spaces [timestamp] ]`, with
//! `timestamp := YYYY "-" MM "-" DD " " HH ":" MM [" " sign HHMM]`.

use vstd::prelude::*;

use crate::entry::{spec_format_time, spec_format_time_entry, Entry, Time, TimeEntry};
use crate::timesource::TimeSource;

verus! {

/// A parsed record, at the specification level: a timed interval or the
/// bytes of an annotation.
pub ghost enum Rec {
    T(TimeEntry),
    N(Seq<u8>),
}

/// The specification-level value of an executable record.
pub open spec fn rec_view(e: Entry) -> Rec {
    match e {
        Entry::Time(te) => Rec::T(te),
        Entry::Note(v) => Rec::N(v@),
    }
}

/// Bytes skipped between records: spaces and newlines.
pub open spec fn is_ws(b: u8) -> bool {
    b == 32 || b == 10
}

/// ASCII decimal digits.
pub open spec fn is_digit(b: u8) -> bool {
    48 <= b <= 57
}

/// The value of a digit byte.
pub open spec fn dv(b: u8) -> int {
    b - 48
}

/// The first position at or after `i` holding a byte that is neither a
/// space nor a newline, or the end of the input.
pub open spec fn spec_skip_ws(s: Seq<u8>, i: int) -> int
    decreases s.len() - i,
    when 0 <= i <= s.len()
{
    if i < s.len() && is_ws(s[i]) {
        spec_skip_ws(s, i + 1)
    } else {
        i
    }
}

/// The first position at or after `i` holding a byte that is not a space,
/// or the end of the input.
pub open spec fn spec_skip_spaces(s: Seq<u8>, i: int) -> int
    decreases s.len() - i,
    when 0 <= i <= s.len()
{
    if i < s.len() && s[i] == 32 {
        spec_skip_spaces(s, i + 1)
    } else {
        i
    }
}

/// The position of the next newline at or after `i`, or the end of the
/// input.
pub open spec fn spec_line_end(s: Seq<u8>, i: int) -> int
    decreases s.len() - i,
    when 0 <= i <= s.len()
{
    if i < s.len() && s[i] != 10 {
        spec_line_end(s, i + 1)
    } else {
        i
    }
}

/// The value of the two digits at `i`.
pub open spec fn two_val(s: Seq<u8>, i: int) -> int {
    dv(s[i]) * 10 + dv(s[i + 1])
}

/// The value of the four digits at `i`.
pub open spec fn four_val(s: Seq<u8>, i: int) -> int {
    dv(s[i]) * 1000 + dv(s[i + 1]) * 100 + dv(s[i + 2]) * 10 + dv(s[i + 3])
}

/// Whether the fixed-width timestamp core `YYYY-MM-DD HH:MM` stands at `i`.
pub open spec fn core_ok(s: Seq<u8>, i: int) -> bool {
    &&& i + 16 <= s.len()
    &&& is_digit(s[i]) && is_digit(s[i + 1]) && is_digit(s[i + 2]) && is_digit(s[i + 3])
    &&& s[i + 4] == 45
    &&& is_digit(s[i + 5]) && is_digit(s[i + 6])
    &&& s[i + 7] == 45
    &&& is_digit(s[i + 8]) && is_digit(s[i + 9])
    &&& s[i + 10] == 32
    &&& is_digit(s[i + 11]) && is_digit(s[i + 12])
    &&& s[i + 13] == 58
    &&& is_digit(s[i + 14]) && is_digit(s[i + 15])
}

/// Whether an explicit offset field ` ±HHMM` stands at `j`.
pub open spec fn off_ok(s: Seq<u8>, j: int) -> bool {
    &&& j + 6 <= s.len()
    &&& s[j] == 32
    &&& (s[j + 1] == 43 || s[j + 1] == 45)
    &&& is_digit(s[j + 2]) && is_digit(s[j + 3]) && is_digit(s[j + 4]) && is_digit(s[j + 5])
}

/// The offset value, in minutes, of the offset field at `j`.
pub open spec fn off_val(s: Seq<u8>, j: int) -> int {
    if s[j + 1] == 43 {
        two_val(s, j + 2) * 60 + two_val(s, j + 4)
    } else {
        -(two_val(s, j + 2) * 60 + two_val(s, j + 4))
    }
}

/// The timestamp starting at `i`, with `imp` as the offset of a timestamp
/// that carries none, and the position after it; `None` on malformed or
/// out-of-range text. A space after the core must open a well-formed
/// offset field.
pub open spec fn spec_parse_ts(s: Seq<u8>, i: int, imp: i16) -> Option<(Time, int)> {
    if !core_ok(s, i) {
        None
    } else {
        let y = four_val(s, i);
        let mo = two_val(s, i + 5);
        let d = two_val(s, i + 8);
        let h = two_val(s, i + 11);
        let mi = two_val(s, i + 14);
        if off_ok(s, i + 16) {
            let t = Time {
                year: y as u16,
                month: mo as u8,
                day: d as u8,
                hour: h as u8,
                minute: mi as u8,
                offset: off_val(s, i + 16) as i16,
                implied: false,
            };
            if t.wf() {
                Some((t, i + 22))
            } else {
                None
            }
        } else if i + 16 < s.len() && s[i + 16] == 32 {
            None
        } else {
            let t = Time {
                year: y as u16,
                month: mo as u8,
                day: d as u8,
                hour: h as u8,
                minute: mi as u8,
                offset: imp,
                implied: true,
            };
            if t.wf() {
                Some((t, i + 16))
            } else {
                None
            }
        }
    }
}

/// One record starting at or after `i0`: `Some((None, end))` at a clean end
/// of input, `Some((Some(rec), next))` for a record and the position after
/// it, `None` on malformed text.
pub open spec fn spec_parse_record(s: Seq<u8>, i0: int, imp: i16) -> Option<(Option<Rec>, int)> {
    let i = spec_skip_ws(s, i0);
    if i >= s.len() {
        Some((None, i))
    } else if s[i] == 35 {
        let j = spec_line_end(s, i);
        Some((Some(Rec::N(s.subrange(i + 1, j))), if j < s.len() { j + 1 } else { j }))
    } else if is_digit(s[i]) {
        match spec_parse_ts(s, i, imp) {
            None => None,
            Some((t1, j)) => if j >= s.len() {
                Some((Some(Rec::T(TimeEntry { start: t1, stop: None })), j))
            } else if s[j] == 10 {
                Some((Some(Rec::T(TimeEntry { start: t1, stop: None })), j + 1))
            } else if s[j] == 44 {
                let k = spec_skip_spaces(s, j + 1);
                if k >= s.len() {
                    Some((Some(Rec::T(TimeEntry { start: t1, stop: None })), k))
                } else if s[k] == 10 {
                    Some((Some(Rec::T(TimeEntry { start: t1, stop: None })), k + 1))
                } else {
                    match spec_parse_ts(s, k, imp) {
                        None => None,
                        Some((t2, m)) => if m >= s.len() {
                            Some((Some(Rec::T(TimeEntry { start: t1, stop: Some(t2) })), m))
                        } else if s[m] == 10 {
                            Some((Some(Rec::T(TimeEntry { start: t1, stop: Some(t2) })), m + 1))
                        } else {
                            None
                        },
                    }
                }
            } else {
                None
            },
        }
    } else {
        None
    }
}

/// Positions only move forward: a skip lands between `i` and the end.
pub proof fn lemma_skip_ws_bounds(s: Seq<u8>, i: int)
    requires
        0 <= i <= s.len(),
    ensures
        i <= spec_skip_ws(s, i) <= s.len(),
    decreases s.len() - i,
{
    if i < s.len() && is_ws(s[i]) {
        lemma_skip_ws_bounds(s, i + 1);
    }
}

/// Positions only move forward: a space skip lands between `i` and the end.
pub proof fn lemma_skip_spaces_bounds(s: Seq<u8>, i: int)
    requires
        0 <= i <= s.len(),
    ensures
        i <= spec_skip_spaces(s, i) <= s.len(),
    decreases s.len() - i,
{
    if i < s.len() && s[i] == 32 {
        lemma_skip_spaces_bounds(s, i + 1);
    }
}

/// A line end lies between `i` and the end of the input.
pub proof fn lemma_line_end_bounds(s: Seq<u8>, i: int)
    requires
        0 <= i <= s.len(),
    ensures
        i <= spec_line_end(s, i) <= s.len(),
    decreases s.len() - i,
{
    if i < s.len() && s[i] != 10 {
        lemma_line_end_bounds(s, i + 1);
    }
}

/// A parsed record always advances the position.
pub proof fn lemma_parse_record_progress(s: Seq<u8>, i0: int, imp: i16)
    requires
        0 <= i0 <= s.len(),
    ensures
        match spec_parse_record(s, i0, imp) {
            Some((Some(_), j)) => i0 < j <= s.len(),
            Some((None, j)) => i0 <= j <= s.len(),
            None => true,
        },
{
    lemma_skip_ws_bounds(s, i0);
    let i = spec_skip_ws(s, i0);
    if i < s.len() {
        if s[i] == 35 {
            lemma_line_end_bounds(s, i);
        } else if is_digit(s[i]) {
            if let Some((t1, j)) = spec_parse_ts(s, i, imp) {
                if j < s.len() && s[j] == 44 {
                    lemma_skip_spaces_bounds(s, j + 1);
                }
            }
        }
    }
}

/// The whole input as records: `None` on malformed text, else the record
/// list denoted by the grammar.
pub open spec fn spec_parse(s: Seq<u8>, i: int, imp: i16) -> Option<Seq<Rec>>
    decreases s.len() - i,
    when 0 <= i <= s.len()
    via spec_parse_decreases
{
    match spec_parse_record(s, i, imp) {
        None => None,
        Some((None, _)) => Some(Seq::empty()),
        Some((Some(r), j)) => match spec_parse(s, j, imp) {
            None => None,
            Some(rest) => Some(seq![r] + rest),
        },
    }
}

#[via_fn]
proof fn spec_parse_decreases(s: Seq<u8>, i: int, imp: i16) {
    lemma_parse_record_progress(s, i, imp);
}

/// Where in the text a parse failed, by line and column (both 1-based).
#[derive(Clone, Copy, Debug, PartialEq, Eq, Structural)]
pub struct ParseError {
    pub line: usize,
    pub col: usize,
}

/// How many newline bytes stand before position `i`.
pub open spec fn spec_nl_count(s: Seq<u8>, i: int) -> int
    decreases i,
    when 0 <= i <= s.len()
{
    if i <= 0 {
        0
    } else {
        spec_nl_count(s, i - 1) + if s[i - 1] == 10 {
            1int
        } else {
            0int
        }
    }
}

/// Where the line containing position `i` starts: right after the last
/// newline before `i`, or at the start of the input.
pub open spec fn spec_line_start(s: Seq<u8>, i: int) -> int
    decreases i,
    when 0 <= i <= s.len()
{
    if i <= 0 {
        0
    } else if s[i - 1] == 10 {
        i
    } else {
        spec_line_start(s, i - 1)
    }
}

/// The line and column of the byte at `pos`, both 1-based: the line is
/// one more than the newlines before it, the column counts from its
/// line's start.
fn line_col(s: &Vec<u8>, pos: usize) -> (r: (usize, usize))
    requires
        pos <= s@.len(),
    ensures
        pos < usize::MAX ==> {
            &&& r.0 == spec_nl_count(s@, pos as int) + 1
            &&& r.1 == pos - spec_line_start(s@, pos as int) + 1
        },
{
    let mut line: usize = 1;
    let mut line_start: usize = 0;
    let mut i: usize = 0;
    while i < pos
        invariant
            i <= pos <= s@.len(),
            line_start <= i,
            1 <= line,
            line_start == spec_line_start(s@, i as int),
            pos < usize::MAX ==> line == spec_nl_count(s@, i as int) + 1,
            spec_nl_count(s@, i as int) <= i,
        decreases pos - i,
    {
        if s[i] == 10 {
            if line < usize::MAX {
                line = line + 1;
            }
            line_start = i + 1;
        }
        i = i + 1;
    }
    let diff = pos - line_start;
    (line, if diff < usize::MAX { diff + 1 } else { diff })
}

/// Skips spaces and newlines from `i`.
fn skip_ws(s: &Vec<u8>, i: usize) -> (r: usize)
    requires
        i <= s@.len(),
    ensures
        r == spec_skip_ws(s@, i as int),
        i <= r <= s@.len(),
{
    let mut j: usize = i;
    while j < s.len() && (s[j] == 32 || s[j] == 10)
        invariant
            i <= j <= s@.len(),
            spec_skip_ws(s@, i as int) == spec_skip_ws(s@, j as int),
        decreases s@.len() - j,
    {
        j = j + 1;
    }
    j
}

/// Skips spaces from `i`.
fn skip_spaces(s: &Vec<u8>, i: usize) -> (r: usize)
    requires
        i <= s@.len(),
    ensures
        r == spec_skip_spaces(s@, i as int),
        i <= r <= s@.len(),
{
    let mut j: usize = i;
    while j < s.len() && s[j] == 32
        invariant
            i <= j <= s@.len(),
            spec_skip_spaces(s@, i as int) == spec_skip_spaces(s@, j as int),
        decreases s@.len() - j,
    {
        j = j + 1;
    }
    j
}

/// Scans to the next newline or the end of the input.
pub fn line_end(s: &Vec<u8>, i: usize) -> (r: usize)
    requires
        i <= s@.len(),
    ensures
        r == spec_line_end(s@, i as int),
        i <= r <= s@.len(),
{
    let mut j: usize = i;
    while j < s.len() && s[j] != 10
        invariant
            i <= j <= s@.len(),
            spec_line_end(s@, i as int) == spec_line_end(s@, j as int),
        decreases s@.len() - j,
    {
        j = j + 1;
    }
    j
}

/// Reads the two-digit number at `i`, if both bytes are digits.
fn two_digits(s: &Vec<u8>, i: usize) -> (r: Option<u8>)
    requires
        i + 2 <= s@.len(),
    ensures
        match r {
            Some(n) => is_digit(s@[i as int]) && is_digit(s@[i as int + 1]) && n == two_val(
                s@,
                i as int,
            ),
            None => !(is_digit(s@[i as int]) && is_digit(s@[i as int + 1])),
        },
{
    let n = s.len();
    proof {
        assert(i + 2 <= n);
    }
    let b0 = s[i];
    let b1 = s[i + 1];
    if 48 <= b0 && b0 <= 57 && 48 <= b1 && b1 <= 57 {
        Some((b0 - 48) * 10 + (b1 - 48))
    } else {
        None
    }
}

/// Reads the four-digit number at `i`, if all four bytes are digits.
fn four_digits(s: &Vec<u8>, i: usize) -> (r: Option<u16>)
    requires
        i + 4 <= s@.len(),
    ensures
        match r {
            Some(n) => {
                &&& is_digit(s@[i as int]) && is_digit(s@[i as int + 1]) && is_digit(
                    s@[i as int + 2],
                ) && is_digit(s@[i as int + 3])
                &&& n == four_val(s@, i as int)
            },
            None => !(is_digit(s@[i as int]) && is_digit(s@[i as int + 1]) && is_digit(
                s@[i as int + 2],
            ) && is_digit(s@[i as int + 3])),
        },
{
    let n = s.len();
    proof {
        assert(i + 4 <= n);
    }
    let b0 = s[i];
    let b1 = s[i + 1];
    let b2 = s[i + 2];
    let b3 = s[i + 3];
    if 48 <= b0 && b0 <= 57 && 48 <= b1 && b1 <= 57 && 48 <= b2 && b2 <= 57 && 48 <= b3 && b3 <= 57
    {
        Some((b0 - 48) as u16 * 1000 + (b1 - 48) as u16 * 100 + (b2 - 48) as u16 * 10 + (b3
            - 48) as u16)
    } else {
        None
    }
}

/// Reads one timestamp at `i`; `imp` is the offset for a timestamp that
/// carries none.
fn parse_ts(s: &Vec<u8>, i: usize, imp: i16) -> (r: Option<(Time, usize)>)
    requires
        i <= s@.len(),
    ensures
        match r {
            Some((t, j)) => spec_parse_ts(s@, i as int, imp) == Some((t, j as int)) && i < j
                <= s@.len(),
            None => spec_parse_ts(s@, i as int, imp) is None,
        },
{
    if s.len() - i < 16 {
        return None;
    }
    let y = match four_digits(s, i) {
        Some(v) => v,
        None => {
            return None;
        },
    };
    if !(s[i + 4] == 45 && s[i + 7] == 45 && s[i + 10] == 32 && s[i + 13] == 58) {
        return None;
    }
    let mo = match two_digits(s, i + 5) {
        Some(v) => v,
        None => {
            return None;
        },
    };
    let d = match two_digits(s, i + 8) {
        Some(v) => v,
        None => {
            return None;
        },
    };
    let h = match two_digits(s, i + 11) {
        Some(v) => v,
        None => {
            return None;
        },
    };
    let mi = match two_digits(s, i + 14) {
        Some(v) => v,
        None => {
            return None;
        },
    };
    // Decide whether an explicit offset field follows the core.
    let j = i + 16;
    let mut has_off = false;
    if j < s.len() && s[j] == 32 {
        if s.len() - j >= 6 && (s[j + 1] == 43 || s[j + 1] == 45) {
            let hh = two_digits(s, j + 2);
            let mm = two_digits(s, j + 4);
            if hh.is_some() && mm.is_some() {
                has_off = true;
            } else {
                return None;
            }
        } else {
            return None;
        }
    }
    if has_off {
        let hh = match two_digits(s, j + 2) {
            Some(v) => v,
            None => {
                return None;
            },
        };
        let mm = match two_digits(s, j + 4) {
            Some(v) => v,
            None => {
                return None;
            },
        };
        let mag: i16 = hh as i16 * 60 + mm as i16;
        let off: i16 = if s[j + 1] == 43 {
            mag
        } else {
            -mag
        };
        proof {
            assert(off_ok(s@, i as int + 16));
            assert(-6039 <= mag as int <= 6039);
            assert(off == off_val(s@, i as int + 16) as i16);
        }
        match Time::from_parts(y, mo, d, h, mi, off, false) {
            Some(t) => Some((t, j + 6)),
            None => None,
        }
    } else {
        proof {
            assert(core_ok(s@, i as int));
            assert(!off_ok(s@, i as int + 16));
            assert(!(i + 16 < s@.len() && s@[i as int + 16] == 32));
        }
        match Time::from_parts(y, mo, d, h, mi, imp, true) {
            Some(t) => Some((t, j)),
            None => None,
        }
    }
}

/// Copies `s[from..to)` into a fresh vector.
fn copy_range(s: &Vec<u8>, from: usize, to: usize) -> (r: Vec<u8>)
    requires
        from <= to <= s@.len(),
    ensures
        r@ == s@.subrange(from as int, to as int),
{
    let mut v: Vec<u8> = Vec::new();
    let mut i: usize = from;
    while i < to
        invariant
            from <= i <= to <= s@.len(),
            v@ == s@.subrange(from as int, i as int),
        decreases to - i,
    {
        v.push(s[i]);
        proof {
            assert(s@.subrange(from as int, i + 1) =~= s@.subrange(from as int, i as int).push(
                s@[i as int],
            ));
        }
        i = i + 1;
    }
    v
}

/// Reads one record starting at or after `pos`; `Ok((None, end))` at a
/// clean end of input, `Err(p)` with the offending byte position on
/// malformed text.
pub fn parse_record_at(s: &Vec<u8>, pos: usize, imp: i16) -> (r: Result<(Option<Entry>, usize), usize>)
    requires
        pos <= s@.len(),
    ensures
        match r {
            Ok((oe, j)) => {
                &&& spec_parse_record(s@, pos as int, imp) == Some(
                    (
                        match oe {
                            Some(e) => Some(rec_view(e)),
                            None => None::<Rec>,
                        },
                        j as int,
                    ),
                )
                &&& j <= s@.len()
                &&& (oe is Some ==> pos < j)
            },
            Err(p) => spec_parse_record(s@, pos as int, imp) is None && p <= s@.len(),
        },
{
    proof {
        lemma_parse_record_progress(s@, pos as int, imp);
    }
    let i = skip_ws(s, pos);
    if i >= s.len() {
        return Ok((None, i));
    }
    if s[i] == 35 {
        let j = line_end(s, i);
        proof {
            assert(spec_line_end(s@, i as int) == spec_line_end(s@, i as int + 1));
            lemma_line_end_bounds(s@, i as int + 1);
        }
        let content = copy_range(s, i + 1, j);
        let next = if j < s.len() {
            j + 1
        } else {
            j
        };
        return Ok((Some(Entry::Note(content)), next));
    }
    if !(48 <= s[i] && s[i] <= 57) {
        return Err(i);
    }
    let (t1, j) = match parse_ts(s, i, imp) {
        Some(v) => v,
        None => {
            return Err(i);
        },
    };
    if j >= s.len() {
        return Ok((Some(Entry::Time(TimeEntry { start: t1, stop: None })), j));
    }
    if s[j] == 10 {
        return Ok((Some(Entry::Time(TimeEntry { start: t1, stop: None })), j + 1));
    }
    if s[j] != 44 {
        return Err(j);
    }
    let k = skip_spaces(s, j + 1);
    if k >= s.len() {
        return Ok((Some(Entry::Time(TimeEntry { start: t1, stop: None })), k));
    }
    if s[k] == 10 {
        return Ok((Some(Entry::Time(TimeEntry { start: t1, stop: None })), k + 1));
    }
    let (t2, m) = match parse_ts(s, k, imp) {
        Some(v) => v,
        None => {
            return Err(k);
        },
    };
    if m >= s.len() {
        return Ok((Some(Entry::Time(TimeEntry { start: t1, stop: Some(t2) })), m));
    }
    if s[m] == 10 {
        return Ok((Some(Entry::Time(TimeEntry { start: t1, stop: Some(t2) })), m + 1));
    }
    Err(m)
}

/// Reads one record starting at or after `pos` and returns it with the
/// position after it; `Ok((None, end))` at a clean end of input. A caller
/// may hand the returned position back in to resume at the next record.
pub fn parse_entry<TS: TimeSource>(s: &Vec<u8>, pos: usize, ts: &TS) -> (r: Result<
    (Option<Entry>, usize),
    ParseError,
>)
    requires
        pos <= s@.len(),
    ensures
        match r {
            Ok((oe, j)) => exists|imp: i16|
                {
                    &&& -1559 <= imp <= 1559
                    &&& spec_parse_record(s@, pos as int, imp) == Some(
                        (
                            match oe {
                                Some(e) => Some(rec_view(e)),
                                None => None::<Rec>,
                            },
                            j as int,
                        ),
                    )
                },
            Err(_) => true,
        },
        r matches Ok((oe, j)) ==> j <= s@.len() && (oe is Some ==> pos < j),
{
    let imp = ts.local_offset();
    match parse_record_at(s, pos, imp) {
        Ok(v) => Ok(v),
        Err(p) => {
            let (line, col) = line_col(s, p);
            Err(ParseError { line, col })
        },
    }
}

/// The parse error naming the line and column of the byte at `p`.
pub fn position_error(s: &Vec<u8>, p: usize) -> (r: ParseError)
    requires
        p <= s@.len(),
    ensures
        p < usize::MAX ==> {
            &&& r.line == spec_nl_count(s@, p as int) + 1
            &&& r.col == p - spec_line_start(s@, p as int) + 1
        },
{
    let (line, col) = line_col(s, p);
    ParseError { line, col }
}

/// A record parsed as an interval holds well-formed timestamps: the
/// grammar admits only calendar-valid, in-range fields.
pub proof fn lemma_parse_record_wf(s: Seq<u8>, i0: int, imp: i16)
    requires
        0 <= i0 <= s.len(),
    ensures
        spec_parse_record(s, i0, imp) matches Some((Some(r), _)) ==> (r matches Rec::T(te)
            ==> te.parts_wf()),
{
    lemma_skip_ws_bounds(s, i0);
}

/// Joins a prefix of parsed records with the outcome of parsing the rest.
pub open spec fn spec_parse_join(prefix: Seq<Rec>, rest: Option<Seq<Rec>>) -> Option<Seq<Rec>> {
    match rest {
        None => None,
        Some(r) => Some(prefix + r),
    }
}

/// Parses records from `pos` to the end of the input, with `imp` as the
/// offset of timestamps that carry none; an error names the offending
/// byte's line and column, counted from the start of the input.
pub fn parse_entries_from(s: &Vec<u8>, start: usize, imp: i16) -> (r: Result<
    Vec<Entry>,
    ParseError,
>)
    requires
        start <= s@.len(),
    ensures
        match r {
            Ok(v) => spec_parse(s@, start as int, imp) == Some(
                v@.map_values(|e: Entry| rec_view(e)),
            ),
            Err(_) => spec_parse(s@, start as int, imp) is None,
        },
        r matches Ok(v) ==> forall|k: int|
            0 <= k < v@.len() ==> ((#[trigger] v@[k]) matches Entry::Time(te) ==> te.parts_wf()),
{
    let mut acc: Vec<Entry> = Vec::new();
    let mut pos: usize = start;
    loop
        invariant
            pos <= s@.len(),
            spec_parse(s@, start as int, imp) == spec_parse_join(
                acc@.map_values(|e: Entry| rec_view(e)),
                spec_parse(s@, pos as int, imp),
            ),
            forall|k: int|
                0 <= k < acc@.len() ==> ((#[trigger] acc@[k]) matches Entry::Time(te)
                    ==> te.parts_wf()),
        decreases s@.len() - pos,
    {
        match parse_record_at(s, pos, imp) {
            Err(p) => {
                let (line, col) = line_col(s, p);
                return Err(ParseError { line, col });
            },
            Ok((None, _)) => {
                proof {
                    assert(spec_parse(s@, pos as int, imp) == Some(Seq::<Rec>::empty()));
                    assert(acc@.map_values(|e: Entry| rec_view(e)) + Seq::<Rec>::empty()
                        =~= acc@.map_values(|e: Entry| rec_view(e)));
                }
                return Ok(acc);
            },
            Ok((Some(e), j)) => {
                proof {
                    lemma_parse_record_wf(s@, pos as int, imp);
                    let prefix = acc@.map_values(|e: Entry| rec_view(e));
                    let rv = rec_view(e);
                    assert(spec_parse(s@, pos as int, imp) == match spec_parse(s@, j as int, imp) {
                        None => None::<Seq<Rec>>,
                        Some(rest) => Some(seq![rv] + rest),
                    });
                    assert(acc@.push(e).map_values(|e: Entry| rec_view(e)) =~= prefix + seq![rv]);
                    if let Some(rest) = spec_parse(s@, j as int, imp) {
                        assert(prefix + (seq![rv] + rest) =~= (prefix + seq![rv]) + rest);
                    }
                }
                acc.push(e);
                pos = j;
            },
        }
    }
}

/// Parses the whole input into records, with `imp` as the offset of
/// timestamps that carry none.
pub fn parse_entries_with_offset(s: &Vec<u8>, imp: i16) -> (r: Result<Vec<Entry>, ParseError>)
    ensures
        match r {
            Ok(v) => spec_parse(s@, 0, imp) == Some(v@.map_values(|e: Entry| rec_view(e))),
            Err(_) => spec_parse(s@, 0, imp) is None,
        },
        r matches Ok(v) ==> forall|k: int|
            0 <= k < v@.len() ==> ((#[trigger] v@[k]) matches Entry::Time(te) ==> te.parts_wf()),
{
    parse_entries_from(s, 0, imp)
}

/// Parses the whole input into records, asking the time source for the
/// offset of timestamps that carry none.
pub fn parse_entries<TS: TimeSource>(s: &Vec<u8>, ts: &TS) -> (r: Result<Vec<Entry>, ParseError>)
    ensures
        match r {
            Ok(v) => exists|imp: i16|
                -1559 <= imp <= 1559 && spec_parse(s@, 0, imp) == Some(
                    v@.map_values(|e: Entry| rec_view(e)),
                ),
            Err(_) => exists|imp: i16|
                -1559 <= imp <= 1559 && (#[trigger] spec_parse(s@, 0, imp)) is None,
        },
        r matches Ok(v) ==> forall|k: int|
            0 <= k < v@.len() ==> ((#[trigger] v@[k]) matches Entry::Time(te) ==> te.parts_wf()),
{
    let imp = ts.local_offset();
    parse_entries_with_offset(s, imp)
}

/// The intervals among a record list, in order.
pub open spec fn spec_rec_time_entries(s: Seq<Rec>) -> Seq<TimeEntry>
    decreases s.len(),
{
    if s.len() == 0 {
        Seq::empty()
    } else {
        spec_rec_time_entries(s.drop_last()) + if s.last() is T {
            seq![s.last()->T_0]
        } else {
            Seq::empty()
        }
    }
}

/// Every interval kept from a record list inherits its well-formedness.
pub proof fn lemma_time_entries_wf(v: Seq<Entry>)
    requires
        forall|k: int|
            0 <= k < v.len() ==> ((#[trigger] v[k]) matches Entry::Time(te) ==> te.parts_wf()),
    ensures
        forall|k: int|
            0 <= k < crate::entry::spec_time_entries(v).len() ==> (
            #[trigger] crate::entry::spec_time_entries(v)[k]).parts_wf(),
    decreases v.len(),
{
    let ste = crate::entry::spec_time_entries(v);
    if v.len() > 0 {
        assert(forall|k: int|
            0 <= k < v.drop_last().len() ==> ((#[trigger] v.drop_last()[k]) matches Entry::Time(te)
                ==> te.parts_wf()));
        lemma_time_entries_wf(v.drop_last());
        let pre = crate::entry::spec_time_entries(v.drop_last());
        assert forall|k: int| 0 <= k < ste.len() implies (#[trigger] ste[k]).parts_wf() by {
            if k < pre.len() {
                assert(ste[k] == pre[k]);
            } else {
                assert(v.last() is Time);
                assert(ste[k] == v.last()->Time_0);
            }
        }
    }
}

/// Dropping annotations commutes with taking the record view.
pub proof fn lemma_time_entries_view(v: Seq<Entry>)
    ensures
        crate::entry::spec_time_entries(v) == spec_rec_time_entries(
            v.map_values(|e: Entry| rec_view(e)),
        ),
    decreases v.len(),
{
    let m = v.map_values(|e: Entry| rec_view(e));
    if v.len() > 0 {
        lemma_time_entries_view(v.drop_last());
        assert(m.drop_last() =~= v.drop_last().map_values(|e: Entry| rec_view(e)));
        assert(m.last() == rec_view(v.last()));
    }
}

/// Parses the whole input and keeps only the timed intervals, with `imp`
/// as the offset of timestamps that carry none.
pub fn parse_time_entries_with_offset(s: &Vec<u8>, imp: i16) -> (r: Result<
    Vec<TimeEntry>,
    ParseError,
>)
    ensures
        match r {
            Ok(tv) => spec_parse(s@, 0, imp) matches Some(recs) && tv@ == spec_rec_time_entries(
                recs,
            ),
            Err(_) => spec_parse(s@, 0, imp) is None,
        },
        r matches Ok(tv) ==> forall|k: int|
            0 <= k < tv@.len() ==> (#[trigger] tv@[k]).parts_wf(),
{
    match parse_entries_with_offset(s, imp) {
        Ok(v) => {
            proof {
                lemma_time_entries_view(v@);
                lemma_time_entries_wf(v@);
            }
            Ok(crate::entry::into_time_entries(v))
        },
        Err(e) => Err(e),
    }
}

/// Parses the whole input and keeps only the timed intervals, asking the
/// time source for the offset of timestamps that carry none.
pub fn parse_time_entries<TS: TimeSource>(s: &Vec<u8>, ts: &TS) -> (r: Result<
    Vec<TimeEntry>,
    ParseError,
>)
    ensures
        r is Ok ==> exists|imp: i16|
            {
                &&& -1559 <= imp <= 1559
                &&& (#[trigger] spec_parse(s@, 0, imp)) matches Some(recs) && r->Ok_0@
                    == spec_rec_time_entries(recs)
            },
        r is Err ==> exists|imp: i16|
            -1559 <= imp <= 1559 && (#[trigger] spec_parse(s@, 0, imp)) is None,
        r matches Ok(tv) ==> forall|k: int|
            0 <= k < tv@.len() ==> (#[trigger] tv@[k]).parts_wf(),
{
    let imp = ts.local_offset();
    parse_time_entries_with_offset(s, imp)
}

/// Splitting a number below 100 into its two decimal digits is lossless.
proof fn lemma_dec2(n: int)
    requires
        0 <= n < 100,
    ensures
        (n / 10) * 10 + n % 10 == n,
        0 <= n / 10 <= 9,
        0 <= n % 10 <= 9,
{
    vstd::arithmetic::div_mod::lemma_fundamental_div_mod(n, 10);
}

/// Splitting a number below 10000 into its four decimal digits is
/// lossless.
proof fn lemma_dec4(y: int)
    requires
        0 <= y < 10000,
    ensures
        (y / 1000) * 1000 + ((y / 100) % 10) * 100 + ((y / 10) % 10) * 10 + y % 10 == y,
        0 <= y / 1000 <= 9,
        0 <= (y / 100) % 10 <= 9,
        0 <= (y / 10) % 10 <= 9,
        0 <= y % 10 <= 9,
{
    vstd::arithmetic::div_mod::lemma_fundamental_div_mod(y, 10);
    vstd::arithmetic::div_mod::lemma_fundamental_div_mod(y / 10, 10);
    vstd::arithmetic::div_mod::lemma_fundamental_div_mod(y / 100, 10);
    vstd::arithmetic::div_mod::lemma_div_denominator(y, 10, 10);
    vstd::arithmetic::div_mod::lemma_div_denominator(y, 100, 10);
    assert(y / 10 / 10 == y / 100);
    assert(y / 100 / 10 == y / 1000);
}

/// The bytes of a formatted timestamp, position by position.
#[verifier::rlimit(60)]
proof fn lemma_format_time_bytes(t: Time)
    requires
        t.wf(),
    ensures
        spec_format_time(t).len() == if t.implied { 16int } else { 22int },
        ({
            let f = spec_format_time(t);
            let y = t.year as int;
            let mo = t.month as int;
            let d = t.day as int;
            let h = t.hour as int;
            let mi = t.minute as int;
            let mag = crate::entry::spec_off_abs(t.offset as int);
            &&& f[0] == crate::entry::spec_digit(y / 1000)
            &&& f[1] == crate::entry::spec_digit((y / 100) % 10)
            &&& f[2] == crate::entry::spec_digit((y / 10) % 10)
            &&& f[3] == crate::entry::spec_digit(y % 10)
            &&& f[4] == 45
            &&& f[5] == crate::entry::spec_digit(mo / 10)
            &&& f[6] == crate::entry::spec_digit(mo % 10)
            &&& f[7] == 45
            &&& f[8] == crate::entry::spec_digit(d / 10)
            &&& f[9] == crate::entry::spec_digit(d % 10)
            &&& f[10] == 32
            &&& f[11] == crate::entry::spec_digit(h / 10)
            &&& f[12] == crate::entry::spec_digit(h % 10)
            &&& f[13] == 58
            &&& f[14] == crate::entry::spec_digit(mi / 10)
            &&& f[15] == crate::entry::spec_digit(mi % 10)
            &&& !t.implied ==> {
                &&& f[16] == 32
                &&& f[17] == (if t.offset >= 0 { 43u8 } else { 45u8 })
                &&& f[18] == crate::entry::spec_digit((mag / 60) / 10)
                &&& f[19] == crate::entry::spec_digit((mag / 60) % 10)
                &&& f[20] == crate::entry::spec_digit((mag % 60) / 10)
                &&& f[21] == crate::entry::spec_digit((mag % 60) % 10)
            }
        }),
{
}

/// A formatted timestamp parses back to itself: the grammar reads the
/// very bytes `spec_format_time` wrote, wherever they stand in the input.
/// An implied timestamp must carry the caller's implied offset, and — as
/// in the log itself — must not be followed by a stray space.
#[verifier::rlimit(60)]
pub proof fn lemma_parse_format_ts(s: Seq<u8>, i: int, t: Time, imp: i16)
    requires
        t.wf(),
        t.implied ==> t.offset == imp,
        0 <= i,
        i + spec_format_time(t).len() <= s.len(),
        s.subrange(i, i + spec_format_time(t).len() as int) == spec_format_time(t),
        t.implied ==> (i + 16 == s.len() || s[i + 16] != 32),
    ensures
        spec_parse_ts(s, i, imp) == Some((t, i + spec_format_time(t).len() as int)),
{
    let fmt = spec_format_time(t);
    let flen = fmt.len() as int;
    lemma_format_time_bytes(t);
    assert forall|k: int| 0 <= k < flen implies s[i + k] == fmt[k] by {
        assert(s.subrange(i, i + flen)[k] == s[i + k]);
    }
    lemma_dec4(t.year as int);
    lemma_dec2(t.month as int);
    lemma_dec2(t.day as int);
    lemma_dec2(t.hour as int);
    lemma_dec2(t.minute as int);
    assert(core_ok(s, i));
    assert(four_val(s, i) == t.year as int);
    assert(two_val(s, i + 5) == t.month as int);
    assert(two_val(s, i + 8) == t.day as int);
    assert(two_val(s, i + 11) == t.hour as int);
    assert(two_val(s, i + 14) == t.minute as int);
    if t.implied {
        assert(!off_ok(s, i + 16));
        assert(spec_parse_ts(s, i, imp) == Some((t, i + 16)));
    } else {
        let mag = crate::entry::spec_off_abs(t.offset as int);
        vstd::arithmetic::div_mod::lemma_fundamental_div_mod(mag, 60);
        assert(0 <= mag % 60 < 60) by {
            vstd::arithmetic::div_mod::lemma_mod_bound(mag, 60);
        }
        assert(0 <= mag / 60 <= 99) by {
            vstd::arithmetic::div_mod::lemma_div_pos_is_pos(mag, 60);
            vstd::arithmetic::div_mod::lemma_div_is_ordered(mag, 5999, 60);
        }
        lemma_dec2(mag / 60);
        lemma_dec2(mag % 60);
        assert(s[i + 16] == 32);
        assert(off_ok(s, i + 16));
        assert(two_val(s, i + 18) == mag / 60);
        assert(two_val(s, i + 20) == mag % 60);
        assert(off_val(s, i + 16) == t.offset as int);
        assert(spec_parse_ts(s, i, imp) == Some((t, i + 22)));
    }
}

/// Round trip: a formatted interval parses back to exactly itself, as one
/// record consuming all its bytes — for implied and explicit offsets
/// alike, with the implied offset supplied by the caller.
#[verifier::rlimit(80)]
pub proof fn lemma_parse_format_round_trip(e: TimeEntry, imp: i16)
    requires
        e.parts_wf(),
        e.start.implied ==> e.start.offset == imp,
        match e.stop {
            Some(t) => t.implied ==> t.offset == imp,
            None => true,
        },
    ensures
        spec_parse_record(spec_format_time_entry(e), 0, imp) == Some(
            (Some(Rec::T(e)), spec_format_time_entry(e).len() as int),
        ),
{
    let s = spec_format_time_entry(e);
    let f1 = spec_format_time(e.start);
    let l1 = f1.len() as int;
    assert(l1 == if e.start.implied { 16int } else { 22int });
    assert(s[0] == f1[0]);
    assert(is_digit(s[0])) by {
        lemma_dec4(e.start.year as int);
    }
    assert(spec_skip_ws(s, 0) == 0);
    match e.stop {
        None => {
            assert(s =~= f1 + seq![10u8]);
            assert(s.subrange(0, l1) =~= f1);
            assert(s[l1] == 10);
            lemma_parse_format_ts(s, 0, e.start, imp);
            assert(spec_parse_record(s, 0, imp) == Some(
                (Some(Rec::T(TimeEntry { start: e.start, stop: None })), l1 + 1),
            ));
            assert(TimeEntry { start: e.start, stop: None } == e);
        },
        Some(t2) => {
            let f2 = spec_format_time(t2);
            let l2 = f2.len() as int;
            assert(s =~= f1 + seq![44u8] + f2 + seq![10u8]);
            assert(s.subrange(0, l1) =~= f1);
            assert(s[l1] == 44);
            lemma_parse_format_ts(s, 0, e.start, imp);
            assert(s.subrange(l1 + 1, l1 + 1 + l2) =~= f2);
            assert(s[l1 + 1] == f2[0]);
            assert(is_digit(s[l1 + 1])) by {
                lemma_dec4(t2.year as int);
            }
            assert(spec_skip_spaces(s, l1 + 1) == l1 + 1);
            lemma_parse_format_ts(s, l1 + 1, t2, imp);
            assert(s[l1 + 1 + l2] == 10);
            assert(spec_parse_record(s, 0, imp) == Some(
                (Some(Rec::T(TimeEntry { start: e.start, stop: Some(t2) })), l1 + 1 + l2 + 1),
            ));
            assert(TimeEntry { start: e.start, stop: Some(t2) } == e);
        },
    }
}

/// The bytes a record list formats to.
pub open spec fn spec_format_entries(s: Seq<Entry>) -> Seq<u8>
    decreases s.len(),
{
    if s.len() == 0 {
        Seq::empty()
    } else {
        spec_format_entries(s.drop_last()) + crate::entry::spec_format_entry(s.last())
    }
}

/// Writes every record back as log-file bytes, in order.
pub fn write_entries(entries: &Vec<Entry>) -> (r: Vec<u8>)
    requires
        forall|i: int|
            0 <= i < entries@.len() ==> (#[trigger] entries@[i] matches Entry::Time(te)
                ==> te.parts_wf()),
    ensures
        r@ == spec_format_entries(entries@),
{
    let mut out: Vec<u8> = Vec::new();
    let mut i: usize = 0;
    while i < entries.len()
        invariant
            i <= entries@.len(),
            out@ == spec_format_entries(entries@.take(i as int)),
            forall|k: int|
                0 <= k < entries@.len() ==> (#[trigger] entries@[k] matches Entry::Time(te)
                    ==> te.parts_wf()),
        decreases entries@.len() - i,
    {
        let b = entries[i].format_bytes();
        crate::entry::append_bytes(&mut out, &b);
        proof {
            assert(entries@.take(i + 1).drop_last() == entries@.take(i as int));
            assert(entries@.take(i + 1).last() == entries@[i as int]);
        }
        i = i + 1;
    }
    proof {
        assert(entries@.take(entries@.len() as int) == entries@);
    }
    out
}

} // verus!
