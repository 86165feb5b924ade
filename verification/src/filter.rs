//! Year and year-month filters over interval lists, parsed from command
//! arguments like `2020` or `2020-08`.

use vstd::prelude::*;

use crate::entry::TimeEntry;

verus! {

/// A parsed filter: everything, one year, or one month of one year.
#[derive(Clone, Copy, Debug, PartialEq, Eq, Structural)]
pub enum Filter {
    Everything,
    ByYear(i32),
    ByYearMonth(i32, u8),
}

/// Whether an interval can touch what the filter names.
pub open spec fn spec_passes(f: Filter, e: TimeEntry) -> bool {
    match f {
        Filter::Everything => true,
        Filter::ByYear(year) => {
            &&& e.start.year <= year
            &&& match e.stop {
                Some(t) => year <= t.year,
                None => true,
            }
        },
        Filter::ByYearMonth(year, month) => {
            &&& (e.start.year < year || (e.start.year == year && e.start.month <= month))
            &&& match e.stop {
                Some(t) => year < t.year || (year == t.year && month <= t.month),
                None => true,
            }
        },
    }
}

impl Filter {
    /// Decides whether the interval passes the filter.
    pub fn filter(&self, entry: &TimeEntry) -> (r: bool)
        ensures
            r == spec_passes(*self, *entry),
    {
        match self {
            Filter::Everything => true,
            Filter::ByYear(year) => entry.includes_year(*year),
            Filter::ByYearMonth(year, month) => entry.includes_year_month(*year, *month),
        }
    }

    /// Narrows the filter by one dash-separated part: a year first, then a
    /// month; a third part or an unreadable number is refused.
    pub fn add_part(self, part: &str) -> (r: Result<Filter, &'static str>)
        ensures
            r matches Ok(f) ==> match self {
                Filter::Everything => f is ByYear,
                Filter::ByYear(y) => f matches Filter::ByYearMonth(fy, _) && fy == y,
                Filter::ByYearMonth(_, _) => false,
            },
    {
        let bytes = part.as_bytes_vec();
        self.add_part_bytes(&bytes, 0, bytes.len())
    }

    /// Narrows the filter by the part held in `bytes[from..to)`.
    fn add_part_bytes(self, bytes: &Vec<u8>, from: usize, to: usize) -> (r: Result<
        Filter,
        &'static str,
    >)
        requires
            from <= to <= bytes@.len(),
        ensures
            r matches Ok(f) ==> match self {
                Filter::Everything => f is ByYear,
                Filter::ByYear(y) => f matches Filter::ByYearMonth(fy, _) && fy == y,
                Filter::ByYearMonth(_, _) => false,
            },
            match spec_add_part(self, bytes@, from as int, to as int) {
                Some(f) => r == Ok::<Filter, &'static str>(f),
                None => r is Err,
            },
    {
        match self {
            Filter::Everything => match parse_number(bytes, from, to) {
                Some(n) => Ok(Filter::ByYear(n as i32)),
                None => Err("couldn't parse year"),
            },
            Filter::ByYear(y) => match parse_number(bytes, from, to) {
                Some(n) => if n <= 255 {
                    Ok(Filter::ByYearMonth(y, n as u8))
                } else {
                    Err("couldn't parse month")
                },
                None => Err("couldn't parse month"),
            },
            Filter::ByYearMonth(_, _) => Err("only YYYY or YYYY-MM filters are supported"),
        }
    }
}

/// A decimal digit byte.
pub open spec fn spec_is_digit_byte(b: u8) -> bool {
    48 <= b <= 57
}

/// Folds digits of `s[from..to)` onto `acc`; `None` at a non-digit or
/// once the running value reaches the parser's cap.
pub open spec fn spec_num_acc(s: Seq<u8>, from: int, to: int, acc: u32) -> Option<u32>
    decreases to - from,
    when 0 <= from <= to <= s.len()
{
    if from >= to {
        Some(acc)
    } else if !spec_is_digit_byte(s[from]) {
        None
    } else if acc >= 100_000_000 {
        None
    } else {
        spec_num_acc(s, from + 1, to, (acc * 10 + (s[from] - 48)) as u32)
    }
}

/// The number named by `s[from..to)`: one to nine decimal digits.
pub open spec fn spec_parse_number(s: Seq<u8>, from: int, to: int) -> Option<u32> {
    if to - from <= 0 || to - from > 9 {
        None
    } else {
        spec_num_acc(s, from, to, 0)
    }
}

/// What narrowing a filter by the part `s[from..to)` gives, if anything.
pub open spec fn spec_add_part(f: Filter, s: Seq<u8>, from: int, to: int) -> Option<Filter> {
    match f {
        Filter::Everything => match spec_parse_number(s, from, to) {
            Some(n) => Some(Filter::ByYear(n as i32)),
            None => None,
        },
        Filter::ByYear(y) => match spec_parse_number(s, from, to) {
            Some(n) => if n <= 255 {
                Some(Filter::ByYearMonth(y, n as u8))
            } else {
                None
            },
            None => None,
        },
        Filter::ByYearMonth(_, _) => None,
    }
}

/// Folds the dash-separated parts of `s` from position `i` (current
/// segment starting at `seg`) onto the filter built so far.
pub open spec fn spec_build_from(s: Seq<u8>, f: Filter, seg: int, i: int) -> Option<Filter>
    decreases s.len() - i,
    when 0 <= seg <= i <= s.len()
{
    if i >= s.len() {
        spec_add_part(f, s, seg, s.len() as int)
    } else if s[i] == 45 {
        match spec_add_part(f, s, seg, i) {
            None => None,
            Some(nf) => spec_build_from(s, nf, i + 1, i + 1),
        }
    } else {
        spec_build_from(s, f, seg, i + 1)
    }
}

/// The filter a single argument's bytes name, if any.
pub open spec fn spec_build_filter(s: Seq<u8>) -> Option<Filter> {
    spec_build_from(s, Filter::Everything, 0, 0)
}

/// The bytes of one argument string.
pub open spec fn spec_str_bytes(s: String) -> Seq<u8> {
    vstd::utf8::encode_utf8(s@)
}

/// Reads `bytes[from..to)` as a small nonnegative decimal number; `None`
/// for anything else.
fn parse_number(bytes: &Vec<u8>, from: usize, to: usize) -> (r: Option<u32>)
    requires
        from <= to <= bytes@.len(),
    ensures
        r == spec_parse_number(bytes@, from as int, to as int),
{
    if to - from == 0 || to - from > 9 {
        return None;
    }
    let mut acc: u32 = 0;
    let mut i: usize = from;
    while i < to
        invariant
            from <= i <= to <= bytes@.len(),
            to - from <= 9,
            acc < 1_000_000_000,
            spec_num_acc(bytes@, from as int, to as int, 0) == spec_num_acc(
                bytes@,
                i as int,
                to as int,
                acc,
            ),
        decreases to - i,
    {
        let b = bytes[i];
        if b < 48 || b > 57 {
            return None;
        }
        if acc >= 100_000_000 {
            return None;
        }
        acc = acc * 10 + (b - 48) as u32;
        i = i + 1;
    }
    Some(acc)
}

/// The intervals that pass the filter, in order.
pub open spec fn spec_filtered(s: Seq<TimeEntry>, f: Filter) -> Seq<TimeEntry>
    decreases s.len(),
{
    if s.len() == 0 {
        Seq::empty()
    } else {
        spec_filtered(s.drop_last(), f) + if spec_passes(f, s.last()) {
            seq![s.last()]
        } else {
            Seq::empty()
        }
    }
}

/// Builds the filter named by the argument list: none, `YYYY`, or
/// `YYYY-MM`; anything else is refused.
pub fn build_filter(filters: &Vec<String>) -> (r: Result<Filter, &'static str>)
    ensures
        filters@.len() == 0 ==> r == Ok::<Filter, &'static str>(Filter::Everything),
        filters@.len() >= 2 ==> r is Err,
        filters@.len() == 1 ==> match spec_build_filter(spec_str_bytes(filters@[0])) {
            Some(f) => r == Ok::<Filter, &'static str>(f),
            None => r is Err,
        },
{
    if filters.len() == 0 {
        Ok(Filter::Everything)
    } else if filters.len() == 1 {
        let bytes = filters[0].as_str().as_bytes_vec();
        proof {
            assert(bytes@ == spec_str_bytes(filters@[0]));
        }
        let mut f = Filter::Everything;
        let mut seg_start: usize = 0;
        let mut i: usize = 0;
        while i < bytes.len()
            invariant
                seg_start <= i <= bytes@.len(),
                filters@.len() == 1,
                bytes@ == spec_str_bytes(filters@[0]),
                spec_build_filter(bytes@) == spec_build_from(
                    bytes@,
                    f,
                    seg_start as int,
                    i as int,
                ),
            decreases bytes@.len() - i,
        {
            if bytes[i] == 45 {
                match f.add_part_bytes(&bytes, seg_start, i) {
                    Ok(nf) => {
                        f = nf;
                    },
                    Err(e) => {
                        return Err(e);
                    },
                }
                seg_start = i + 1;
            }
            i = i + 1;
        }
        match f.add_part_bytes(&bytes, seg_start, bytes.len()) {
            Ok(nf) => Ok(nf),
            Err(e) => Err(e),
        }
    } else {
        Err("only YYYY or YYYY-MM is supported")
    }
}

/// Keeps the intervals that pass the filters; `Err` when the arguments do
/// not name a filter.
pub fn filter_entries(entries: Vec<TimeEntry>, filters: &Vec<String>) -> (r: Result<
    Vec<TimeEntry>,
    &'static str,
>)
    ensures
        r matches Ok(v) ==> exists|f: Filter| v@ == spec_filtered(entries@, f),
        filters@.len() == 0 ==> (r matches Ok(v) && v@ == spec_filtered(
            entries@,
            Filter::Everything,
        )),
        filters@.len() == 1 ==> match spec_build_filter(spec_str_bytes(filters@[0])) {
            Some(f) => r matches Ok(v) && v@ == spec_filtered(entries@, f),
            None => r is Err,
        },
        filters@.len() >= 2 ==> r is Err,
{
    let f = match build_filter(filters) {
        Ok(f) => f,
        Err(e) => {
            return Err(e);
        },
    };
    let mut out: Vec<TimeEntry> = Vec::new();
    let mut i: usize = 0;
    while i < entries.len()
        invariant
            i <= entries@.len(),
            out@ == spec_filtered(entries@.take(i as int), f),
        decreases entries@.len() - i,
    {
        proof {
            assert(entries@.take(i + 1).drop_last() == entries@.take(i as int));
            assert(entries@.take(i + 1).last() == entries@[i as int]);
        }
        if f.filter(&entries[i]) {
            out.push(entries[i]);
        }
        i = i + 1;
    }
    proof {
        assert(entries@.take(entries@.len() as int) == entries@);
    }
    Ok(out)
}

} // verus!
