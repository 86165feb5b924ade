//! The aggregation and statistics engine: per-week totals with optional
//! distributional summaries.
//!
//! A week with fewer than two intervals gets only its total minutes; a
//! fuller week is split into day segments, each interval's contribution
//! clipped to its day, and the segment minute counts are summarised by
//! minimum, integer mean, maximum, a truncated sample standard deviation,
//! and one quantized "sparkline" symbol per segment.

use vstd::prelude::*;

use crate::dates::Date;
use crate::entry::{Time, TimeEntry};
use crate::iter::{each_week, each_day_in_week};
use crate::timesource::TimeSource;

verus! {

/// One week of the report: its start date, total minutes, how many day
/// segments it has, and the summary statistics where they are defined.
#[derive(Debug, PartialEq)]
pub struct All<T: PartialEq> {
    pub start: Date,
    pub minutes: i64,
    pub segments: usize,
    pub analysis: Option<AllAnalysis<T>>,
}

/// Distributional summary of a week's day-segment minute counts.
#[derive(Debug, PartialEq)]
pub struct AllAnalysis<T: PartialEq> {
    pub min: i64,
    pub max: i64,
    pub mean: i64,
    pub stddev: i64,
    pub sparks: Vec<Vec<T>>,
}

/// The largest integer whose square is at most `n`.
pub fn sqrtint(n: i64) -> (r: i64)
    requires
        0 <= n < 0x8_0000_0000_0000,
    ensures
        0 <= r,
        r * r <= n,
        n < (r + 1) * (r + 1),
{
    let mut i: i64 = 1;
    loop
        invariant
            1 <= i <= 0x800_0001,
            (i - 1) * (i - 1) <= n < 0x8_0000_0000_0000,
        ensures
            (i - 1) * (i - 1) <= n < i * i,
        decreases n - (i - 1) * (i - 1),
    {
        proof {
            assert(i * i <= 0x800_0001 * 0x800_0001) by (nonlinear_arith)
                requires
                    1 <= i <= 0x800_0001,
            ;
        }
        let sq = i * i;
        if sq > n {
            break;
        }
        proof {
            assert(i * i <= n ==> i < 0x800_0000) by (nonlinear_arith)
                requires
                    1 <= i,
                    n < 0x8_0000_0000_0000,
            ;
            assert((i - 1) * (i - 1) < i * i) by (nonlinear_arith)
                requires
                    1 <= i,
            ;
        }
        i = i + 1;
    }
    i - 1
}

/// The total of a list of segment minute counts.
pub open spec fn spec_i64_sum(xs: Seq<i64>) -> int
    decreases xs.len(),
{
    if xs.len() == 0 {
        0
    } else {
        spec_i64_sum(xs.drop_last()) + xs.last()
    }
}

/// The minimum of a list of segment minute counts, seeded with `acc`.
pub open spec fn spec_fold_min(acc: int, xs: Seq<i64>) -> int
    decreases xs.len(),
{
    if xs.len() == 0 {
        acc
    } else {
        let m = spec_fold_min(acc, xs.drop_last());
        if xs.last() < m {
            xs.last() as int
        } else {
            m
        }
    }
}

/// The maximum of a list of segment minute counts, seeded with `acc`.
pub open spec fn spec_fold_max(acc: int, xs: Seq<i64>) -> int
    decreases xs.len(),
{
    if xs.len() == 0 {
        acc
    } else {
        let m = spec_fold_max(acc, xs.drop_last());
        if xs.last() > m {
            xs.last() as int
        } else {
            m
        }
    }
}

/// Division truncating toward zero, as the report's mean is computed.
pub open spec fn spec_div_trunc(a: int, b: int) -> int {
    if a >= 0 {
        a / b
    } else {
        -((-a) / b)
    }
}

/// The sum of squared deviations of the counts from `mean`.
pub open spec fn spec_sumsq(xs: Seq<i64>, mean: int) -> int
    decreases xs.len(),
{
    if xs.len() == 0 {
        0
    } else {
        spec_sumsq(xs.drop_last(), mean) + (xs.last() - mean) * (xs.last() - mean)
    }
}

/// The sparkline symbol index for a count `m` against the week's maximum
/// `max`, over `k` symbols: `m * k / max`, clamped to the last symbol when
/// `max` is not positive, the count is negative, or the index runs over.
pub open spec fn spec_spark_index(m: int, max: int, k: int) -> int {
    if max <= 0 || m < 0 {
        k - 1
    } else {
        let i = m * k / max;
        if i < k {
            i
        } else {
            k - 1
        }
    }
}

/// Picks the sparkline symbol for a count `m` against the week's maximum.
pub fn spark_for<T: Copy>(m: i64, max: i64, sparks: &Vec<T>) -> (r: T)
    requires
        1 <= sparks@.len() <= 0x10000,
        -10080 <= m <= 10080,
    ensures
        r == sparks@[spec_spark_index(m as int, max as int, sparks@.len() as int)],
{
    let k = sparks.len();
    if max <= 0 || m < 0 {
        sparks[k - 1]
    } else {
        proof {
            assert(m * (k as i64) >= 0 && m * (k as i64) <= 10080 * 0x10000) by (nonlinear_arith)
                requires
                    0 <= m <= 10080,
                    1 <= k <= 0x10000,
            ;
            vstd::arithmetic::div_mod::lemma_div_pos_is_pos(m * (k as int), max as int);
        }
        let idx = m * (k as i64) / max;
        if idx < k as i64 {
            sparks[idx as usize]
        } else {
            sparks[k - 1]
        }
    }
}

/// Appends all values of `src` to `dst`.
fn append_i64s(dst: &mut Vec<i64>, src: &Vec<i64>)
    ensures
        final(dst)@ == old(dst)@ + src@,
{
    let mut i: usize = 0;
    while i < src.len()
        invariant
            i <= src@.len(),
            dst@ == old(dst)@ + src@.take(i as int),
        decreases src@.len() - i,
    {
        dst.push(src[i]);
        proof {
            assert(old(dst)@ + src@.take(i + 1) =~= (old(dst)@ + src@.take(i as int)).push(
                src@[i as int],
            ));
        }
        i = i + 1;
    }
    proof {
        assert(src@.take(src@.len() as int) == src@);
    }
}

/// Copies a list of intervals.
fn copy_entries(v: &Vec<TimeEntry>) -> (r: Vec<TimeEntry>)
    ensures
        r@ == v@,
{
    let mut out: Vec<TimeEntry> = Vec::new();
    let mut i: usize = 0;
    while i < v.len()
        invariant
            i <= v@.len(),
            out@ == v@.take(i as int),
        decreases v@.len() - i,
    {
        out.push(v[i]);
        proof {
            assert(v@.take(i + 1) =~= v@.take(i as int).push(v@[i as int]));
        }
        i = i + 1;
    }
    proof {
        assert(v@.take(v@.len() as int) == v@);
    }
    out
}

/// Truncating division of a total by a positive count lands between any
/// `lo` and `hi` with `n * lo <= total <= n * hi`.
fn div_between(total: i64, n: i64, lo: i64, hi: i64) -> (r: i64)
    requires
        1 <= n <= 0x1000_0000,
        -0x4000_0000 <= lo,
        hi <= 0x4000_0000,
        0 <= hi,
        lo <= hi,
        n * lo <= total <= n * hi,
    ensures
        lo <= r <= hi,
        r == spec_div_trunc(total as int, n as int),
{
    proof {
        assert(-0x4000_0000_0000_0000 <= n * lo && n * hi <= 0x4000_0000_0000_0000)
            by (nonlinear_arith)
            requires
                1 <= n <= 0x1000_0000,
                -0x4000_0000 <= lo,
                hi <= 0x4000_0000,
                lo <= hi,
        ;
    }
    if total >= 0 {
        let r = total / n;
        proof {
            vstd::arithmetic::div_mod::lemma_div_is_ordered(total as int, n * hi, n as int);
            vstd::arithmetic::div_mod::lemma_div_multiples_vanish(hi as int, n as int);
            vstd::arithmetic::div_mod::lemma_div_pos_is_pos(total as int, n as int);
            if lo > 0 {
                vstd::arithmetic::div_mod::lemma_div_is_ordered(n * lo, total as int, n as int);
                vstd::arithmetic::div_mod::lemma_div_multiples_vanish(lo as int, n as int);
            }
        }
        r
    } else {
        // Rust division truncates toward zero; mirror it with a
        // nonnegative division.
        let q = (-total) / n;
        proof {
            assert((n as int) * ((-lo) as int) == -((n as int) * (lo as int))) by (nonlinear_arith);
            vstd::arithmetic::div_mod::lemma_div_is_ordered((-total) as int, n * (-lo), n as int);
            vstd::arithmetic::div_mod::lemma_div_multiples_vanish((-lo) as int, n as int);
            vstd::arithmetic::div_mod::lemma_div_pos_is_pos((-total) as int, n as int);
        }
        -q
    }
}

/// Totals a list of segment minute counts and finds its minimum, maximum,
/// integer mean and the sum of squared deviations from the mean, in that
/// order. The minimum starts a whole week high and the maximum at zero,
/// so an idle segment list reads as zero either way.
fn summarize(flat: &Vec<i64>) -> (r: (i64, i64, i64, i64, i64))
    requires
        2 <= flat@.len() <= 0x1000_0000,
        forall|i: int| 0 <= i < flat@.len() ==> -1440 <= #[trigger] flat@[i] <= 1440,
    ensures
        r.0 == spec_i64_sum(flat@),
        r.1 == spec_fold_min(10080, flat@),
        r.2 == spec_fold_max(0, flat@),
        r.3 == spec_div_trunc(spec_i64_sum(flat@), flat@.len() as int),
        r.4 == spec_sumsq(flat@, r.3 as int),
        r.1 <= r.3 <= r.2,
        -1440 <= r.3 <= 1440,
        0 <= r.4 < 0x8_0000_0000_0000,
{
    let n = flat.len();
    let mut min: i64 = 10080;
    let mut max: i64 = 0;
    let mut total: i64 = 0;
    let mut j: usize = 0;
    while j < n
        invariant
            j <= n == flat@.len() <= 0x1000_0000,
            forall|k: int| 0 <= k < flat@.len() ==> -1440 <= #[trigger] flat@[k] <= 1440,
            -1440 <= min <= 10080,
            0 <= max <= 1440,
            j > 0 ==> min <= max,
            (j as int) * min <= total <= (j as int) * max,
            -1440 * (j as int) <= total <= 1440 * (j as int),
            total == spec_i64_sum(flat@.take(j as int)),
            min == spec_fold_min(10080, flat@.take(j as int)),
            max == spec_fold_max(0, flat@.take(j as int)),
        decreases n - j,
    {
        proof {
            assert(flat@.take(j + 1).drop_last() == flat@.take(j as int));
            assert(flat@.take(j + 1).last() == flat@[j as int]);
        }
        let m = flat[j];
        let ghost old_min = min;
        let ghost old_max = max;
        if m < min {
            min = m;
        }
        if m > max {
            max = m;
        }
        proof {
            assert((j as int) * min <= (j as int) * old_min && (j as int) * old_max <= (j as int)
                * max) by (nonlinear_arith)
                requires
                    min <= old_min,
                    old_max <= max,
                    j >= 0,
            ;
            assert((j as int) * min + min == (j + 1) * min) by (nonlinear_arith);
            assert((j as int) * max + max == (j + 1) * max) by (nonlinear_arith);
            assert(1440 * (j as int) + 1440 == 1440 * (j + 1));
            assert(-1440 * (j as int) - 1440 == -1440 * (j + 1));
        }
        total = total + m;
        j = j + 1;
    }
    proof {
        assert(flat@.take(n as int) == flat@);
    }
    let mean = div_between(total, n as i64, min, max);
    let mut sumsq: i64 = 0;
    let mut k: usize = 0;
    while k < n
        invariant
            k <= n == flat@.len() <= 0x1000_0000,
            forall|q: int| 0 <= q < flat@.len() ==> -1440 <= #[trigger] flat@[q] <= 1440,
            -1440 <= mean <= 1440,
            0 <= sumsq <= (k as int) * 0x7e9000,
            (k as int) * 0x7e9000 <= 0x1000_0000 * 0x7e9000,
            sumsq == spec_sumsq(flat@.take(k as int), mean as int),
        decreases n - k,
    {
        proof {
            assert(flat@.take(k + 1).drop_last() == flat@.take(k as int));
            assert(flat@.take(k + 1).last() == flat@[k as int]);
        }
        let d = flat[k] - mean;
        proof {
            assert(0 <= d * d <= 0x7e9000) by (nonlinear_arith)
                requires
                    -2880 <= d <= 2880,
            ;
            assert((k as int) * 0x7e9000 + 0x7e9000 == (k + 1) * 0x7e9000) by (nonlinear_arith);
            assert((k + 1) * 0x7e9000 <= 0x1000_0000 * 0x7e9000) by (nonlinear_arith)
                requires
                    0 <= k + 1 <= 0x1000_0000,
            ;
        }
        sumsq = sumsq + d * d;
        k = k + 1;
    }
    proof {
        assert(0x1000_0000 * 0x7e9000 < 0x8_0000_0000_0000);
    }
    (total, min, max, mean, sumsq)
}

/// One week's report line. The week is split into day segments when it
/// has at least two intervals; the statistics block exists exactly when
/// at least two day segments exist, and then `min <= mean <= max`.
pub fn calc_all_week<T: Copy + PartialEq, TS: TimeSource>(
    start: Date,
    entries: Vec<TimeEntry>,
    sparks: &Vec<T>,
    ts: &TS,
) -> (r: All<T>)
    requires
        start.wf(),
        start.spec_day_number() <= 4_200_000,
        forall|i: int| 0 <= i < entries@.len() ==> (#[trigger] entries@[i]).parts_wf(),
        entries@.len() <= 0x100_0000,
        1 <= sparks@.len() <= 0x10000,
    ensures
        r.start == start,
        r.analysis is Some <==> r.segments >= 2,
        match r.analysis {
            None => {
                &&& r.segments < 2
                &&& exists|off: int|
                    #![trigger crate::entry::spec_sum_minutes(
                        entries@,
                        start.spec_day_number() * 1440 - off,
                        start.spec_day_number() * 1440 + 10080 - off,
                    )]
                    -1559 <= off <= 1559 && r.minutes == crate::entry::spec_sum_minutes(
                        entries@,
                        start.spec_day_number() * 1440 - off,
                        start.spec_day_number() * 1440 + 10080 - off,
                    )
            },
            Some(a) => exists|xs: Seq<i64>|
                #![auto]
                {
                    &&& xs.len() == r.segments
                    &&& 2 <= xs.len() <= 7 * entries@.len()
                    &&& (forall|i: int| 0 <= i < xs.len() ==> -1440 <= #[trigger] xs[i] <= 1440)
                    &&& r.minutes == spec_i64_sum(xs)
                    &&& a.min == spec_fold_min(10080, xs)
                    &&& a.max == spec_fold_max(0, xs)
                    &&& a.mean == spec_div_trunc(spec_i64_sum(xs), xs.len() as int)
                    &&& 0 <= a.stddev
                    &&& a.stddev * a.stddev <= spec_sumsq(xs, a.mean as int) / (xs.len() - 1)
                    &&& spec_sumsq(xs, a.mean as int) / (xs.len() - 1) < (a.stddev + 1) * (
                    a.stddev + 1)
                    &&& a.min <= a.mean <= a.max
                },
        },
{
    let off = ts.local_offset() as i64;
    proof {
        start.lemma_day_number_bound();
    }
    {
        let ghost n = entries@.len();
        // Clip each interval's minutes to its day's window, one list per
        // non-empty day of the week.
        let mut day_lists: Vec<Vec<i64>> = Vec::new();
        let mut flat: Vec<i64> = Vec::new();
        let mut it = each_day_in_week(copy_entries(&entries), start, ts);
        let ghost ws_dn = start.spec_day_number();
        loop
            invariant
                it.wf(),
                it.spec_entries() == entries@,
                it.spec_now().wf(),
                n == entries@.len() <= 0x100_0000,
                forall|i: int| 0 <= i < entries@.len() ==> (#[trigger] entries@[i]).parts_wf(),
                it.spec_week_start() == start,
                start.wf(),
                ws_dn == start.spec_day_number() <= 4_200_000,
                day_lists@.len() <= 7,
                flat@.len() <= day_lists@.len() * n,
                forall|i: int| 0 <= i < flat@.len() ==> -1440 <= #[trigger] flat@[i] <= 1440,
                forall|i: int, j: int|
                    0 <= i < day_lists@.len() && 0 <= j < (#[trigger] day_lists@[i])@.len()
                        ==> -1440 <= (#[trigger] day_lists@[i]@[j]) <= 1440,
                match it.spec_last_date() {
                    None => day_lists@.len() == 0,
                    Some(d) => day_lists@.len() <= (if d.spec_day_number() >= ws_dn {
                        d.spec_day_number() - ws_dn + 1
                    } else {
                        0int
                    }),
                },
                -1559 <= off <= 1559,
            decreases it.spec_measure(),
        {
            proof {
                it.lemma_measure_nonneg();
            }
            match it.next() {
                None => {
                    break;
                },
                Some((d, es)) => {
                    proof {
                        assert forall|k: int| 0 <= k < es@.len() implies (
                        #[trigger] es@[k]).parts_wf() by {
                            let j = choose|j: int|
                                0 <= j < entries@.len() && es@[k]
                                    == crate::iter::spec_finish_if_not(
                                    entries@[j],
                                    it.spec_now(),
                                );
                            assert(entries@[j].parts_wf());
                        };
                    }
                    if es.len() > 0 {
                        proof {
                            d.lemma_day_number_bound();
                        }
                        let d_from = (d.day_number() as i64) * 1440 - off;
                        let d_to = (d.day_number() as i64) * 1440 + 1440 - off;
                        let mut list: Vec<i64> = Vec::new();
                        let mut j: usize = 0;
                        while j < es.len()
                            invariant
                                j <= es@.len(),
                                list@.len() == j,
                                forall|k: int|
                                    0 <= k < es@.len() ==> (#[trigger] es@[k]).parts_wf(),
                                forall|k: int|
                                    0 <= k < list@.len() ==> -1440 <= #[trigger] list@[k] <= 1440,
                                d_to == d_from + 1440,
                                -0x2_1000_0000 <= d_from <= 0x2_1000_0000,
                                -0x2_1000_0000 <= d_to <= 0x2_1000_0000,
                            decreases es@.len() - j,
                        {
                            let m = es[j].minutes_between_abs(d_from, d_to);
                            proof {
                                crate::entry::lemma_minutes_between_range(
                                    es@[j as int].start.spec_abs_minutes(),
                                    es@[j as int].spec_stop_abs(),
                                    d_from as int,
                                    d_to as int,
                                );
                            }
                            list.push(m);
                            j = j + 1;
                        }
                        proof {
                            assert(day_lists@.len() * n + n == (day_lists@.len() + 1) * n)
                                by (nonlinear_arith);
                        }
                        append_i64s(&mut flat, &list);
                        day_lists.push(list);
                    }
                    proof {
                        it.lemma_measure_nonneg();
                    }
                },
            }
        }
        let segments = flat.len();
        proof {
            assert(flat@.len() <= 7 * n) by (nonlinear_arith)
                requires
                    flat@.len() <= day_lists@.len() * n,
                    day_lists@.len() <= 7,
                    n >= 0,
            ;
        }
        if segments < 2 {
            // Fewer than two day segments: variance is degenerate, so
            // report only the whole week window's total.
            let from = (start.day_number() as i64) * 1440 - off;
            let to = (start.day_number() as i64) * 1440 + 10080 - off;
            let minutes = crate::entry::sum_minutes_between(&entries, from, to);
            proof {
                assert(-1559 <= off as int <= 1559 && minutes == crate::entry::spec_sum_minutes(
                    entries@,
                    start.spec_day_number() * 1440 - off as int,
                    start.spec_day_number() * 1440 + 10080 - off as int,
                ));
            }
            All { start, minutes, segments, analysis: None }
        } else {
            let r5 = summarize(&flat);
            let total = r5.0;
            let min = r5.1;
            let max = r5.2;
            let mean = r5.3;
            let sumsq = r5.4;
            proof {
                vstd::arithmetic::div_mod::lemma_div_pos_is_pos(
                    sumsq as int,
                    segments as int - 1,
                );
                vstd::arithmetic::div_mod::lemma_div_nonincreasing(
                    sumsq as int,
                    segments as int - 1,
                );
            }
            let stddev = sqrtint(sumsq / (segments as i64 - 1));
            let mut sparks_out: Vec<Vec<T>> = Vec::new();
            let mut di: usize = 0;
            while di < day_lists.len()
                invariant
                    di <= day_lists@.len(),
                    1 <= sparks@.len() <= 0x10000,
                    forall|i: int, j: int|
                        0 <= i < day_lists@.len() && 0 <= j < (#[trigger] day_lists@[i])@.len()
                            ==> -1440 <= (#[trigger] day_lists@[i]@[j]) <= 1440,
                decreases day_lists@.len() - di,
            {
                let row = &day_lists[di];
                let mut out_row: Vec<T> = Vec::new();
                let mut rj: usize = 0;
                while rj < row.len()
                    invariant
                        rj <= row@.len(),
                        1 <= sparks@.len() <= 0x10000,
                        forall|j: int| 0 <= j < row@.len() ==> -1440 <= #[trigger] row@[j] <= 1440,
                    decreases row@.len() - rj,
                {
                    out_row.push(spark_for(row[rj], max, sparks));
                    rj = rj + 1;
                }
                sparks_out.push(out_row);
                di = di + 1;
            }
            proof {
                assert(flat@.len() == segments && 2 <= flat@.len() <= 7 * entries@.len()
                    && total == spec_i64_sum(flat@) && min == spec_fold_min(10080, flat@) && max
                    == spec_fold_max(0, flat@) && mean == spec_div_trunc(
                    spec_i64_sum(flat@),
                    flat@.len() as int,
                ) && 0 <= stddev && stddev * stddev <= spec_sumsq(flat@, mean as int) / (
                flat@.len() - 1) && spec_sumsq(flat@, mean as int) / (flat@.len() - 1) < (stddev
                    + 1) * (stddev + 1));
            }
            All {
                start,
                minutes: total,
                segments,
                analysis: Some(AllAnalysis { min, max, mean, stddev, sparks: sparks_out }),
            }
        }
    }
}

/// Computes the weekly report lines for the given intervals: one line per
/// week from the first interval's week through the last interval's. A
/// statistics block is present exactly for the weeks with at least two
/// day segments; within it the mean is the week's minutes divided by its
/// segment count (truncating), the minimum, maximum and standard
/// deviation come from the day-segment minute counts, and a week without
/// it totals a run of the intervals, closed at one instant, over its
/// window.
pub fn calc<T: Copy + PartialEq, TS: TimeSource>(
    entries: &Vec<TimeEntry>,
    sparks: &Vec<T>,
    ts: &TS,
) -> (r: Vec<All<T>>)
    requires
        forall|i: int| 0 <= i < entries@.len() ==> (#[trigger] entries@[i]).parts_wf(),
        entries@.len() <= 0x100_0000,
        1 <= sparks@.len() <= 0x10000,
    ensures
        forall|i: int|
            0 <= i < r@.len() ==> ((#[trigger] r@[i]).analysis is Some <==> r@[i].segments >= 2),
        forall|i: int|
            0 <= i < r@.len() ==> match (#[trigger] r@[i]).analysis {
                None => {
                    &&& r@[i].segments < 2
                    &&& exists|a: int, b: int, off: int, now: Time|
                        #![trigger crate::entry::spec_sum_minutes(
                            crate::iter::spec_closed_run(entries@, a, b, now),
                            r@[i].start.spec_day_number() * 1440 - off,
                            r@[i].start.spec_day_number() * 1440 + 10080 - off,
                        )]
                        {
                            &&& 0 <= a <= b <= entries@.len()
                            &&& -1559 <= off <= 1559
                            &&& now.wf()
                            &&& r@[i].minutes == crate::entry::spec_sum_minutes(
                                crate::iter::spec_closed_run(entries@, a, b, now),
                                r@[i].start.spec_day_number() * 1440 - off,
                                r@[i].start.spec_day_number() * 1440 + 10080 - off,
                            )
                        }
                },
                Some(stats) => exists|xs: Seq<i64>|
                    #![auto]
                    {
                        &&& xs.len() == r@[i].segments
                        &&& 2 <= xs.len() <= 7 * entries@.len()
                        &&& (forall|k: int| 0 <= k < xs.len() ==> -1440 <= #[trigger] xs[k]
                            <= 1440)
                        &&& r@[i].minutes == spec_i64_sum(xs)
                        &&& stats.min == spec_fold_min(10080, xs)
                        &&& stats.max == spec_fold_max(0, xs)
                        &&& stats.mean == spec_div_trunc(spec_i64_sum(xs), xs.len() as int)
                        &&& 0 <= stats.stddev
                        &&& stats.stddev * stats.stddev <= spec_sumsq(xs, stats.mean as int) / (
                        xs.len() - 1)
                        &&& spec_sumsq(xs, stats.mean as int) / (xs.len() - 1) < (stats.stddev
                            + 1) * (stats.stddev + 1)
                        &&& stats.min <= stats.mean <= stats.max
                    },
            },
{
    let ghost n = entries@.len();
    let mut out: Vec<All<T>> = Vec::new();
    let mut it = each_week(copy_entries(entries), ts);
    loop
        invariant
            it.wf(),
            it.spec_entries() == entries@,
            it.spec_now().wf(),
            n == entries@.len() <= 0x100_0000,
            forall|i: int| 0 <= i < entries@.len() ==> (#[trigger] entries@[i]).parts_wf(),
            1 <= sparks@.len() <= 0x10000,
            forall|i: int|
                0 <= i < out@.len() ==> ((#[trigger] out@[i]).analysis is Some <==> out@[i].segments
                    >= 2),
            forall|i: int|
                0 <= i < out@.len() ==> match (#[trigger] out@[i]).analysis {
                    None => {
                        &&& out@[i].segments < 2
                        &&& exists|a: int, b: int, off: int, now: Time|
                            #![trigger crate::entry::spec_sum_minutes(
                                crate::iter::spec_closed_run(entries@, a, b, now),
                                out@[i].start.spec_day_number() * 1440 - off,
                                out@[i].start.spec_day_number() * 1440 + 10080 - off,
                            )]
                            {
                                &&& 0 <= a <= b <= entries@.len()
                                &&& -1559 <= off <= 1559
                                &&& now.wf()
                                &&& out@[i].minutes == crate::entry::spec_sum_minutes(
                                    crate::iter::spec_closed_run(entries@, a, b, now),
                                    out@[i].start.spec_day_number() * 1440 - off,
                                    out@[i].start.spec_day_number() * 1440 + 10080 - off,
                                )
                            }
                    },
                    Some(stats) => exists|xs: Seq<i64>|
                        #![auto]
                        {
                            &&& xs.len() == out@[i].segments
                            &&& 2 <= xs.len() <= 7 * entries@.len()
                            &&& (forall|k: int| 0 <= k < xs.len() ==> -1440 <= #[trigger] xs[k]
                                <= 1440)
                            &&& out@[i].minutes == spec_i64_sum(xs)
                            &&& stats.min == spec_fold_min(10080, xs)
                            &&& stats.max == spec_fold_max(0, xs)
                            &&& stats.mean == spec_div_trunc(spec_i64_sum(xs), xs.len() as int)
                            &&& 0 <= stats.stddev
                            &&& stats.stddev * stats.stddev <= spec_sumsq(xs, stats.mean as int)
                                / (xs.len() - 1)
                            &&& spec_sumsq(xs, stats.mean as int) / (xs.len() - 1) < (
                            stats.stddev + 1) * (stats.stddev + 1)
                            &&& stats.min <= stats.mean <= stats.max
                        },
                },
        decreases it.spec_measure(),
    {
        proof {
            it.lemma_measure_nonneg();
        }
        let ghost old_ix = it.spec_next_index();
        match it.next() {
            None => {
                return out;
            },
            Some((start, es)) => {
                proof {
                    assert forall|i: int| 0 <= i < es@.len() implies (
                    #[trigger] es@[i]).parts_wf() by {
                        assert(es@[i] == crate::iter::spec_finish_if_not(
                            entries@[old_ix + i],
                            it.spec_now(),
                        ));
                        assert(entries@[old_ix + i].parts_wf());
                    }
                }
                let ghost bucket = es@;
                let line = calc_all_week(start, es, sparks, ts);
                proof {
                    if line.analysis is None {
                        let off_w = choose|off: int|
                            #![trigger crate::entry::spec_sum_minutes(
                                bucket,
                                start.spec_day_number() * 1440 - off,
                                start.spec_day_number() * 1440 + 10080 - off,
                            )]
                            -1559 <= off <= 1559 && line.minutes
                                == crate::entry::spec_sum_minutes(
                                bucket,
                                start.spec_day_number() * 1440 - off,
                                start.spec_day_number() * 1440 + 10080 - off,
                            );
                        assert(bucket == crate::iter::spec_closed_run(
                            entries@,
                            old_ix,
                            old_ix + bucket.len() as int,
                            it.spec_now(),
                        ));
                        assert(0 <= old_ix <= old_ix + bucket.len() as int <= entries@.len()
                            && -1559 <= off_w <= 1559 && it.spec_now().wf() && line.minutes
                            == crate::entry::spec_sum_minutes(
                            crate::iter::spec_closed_run(
                                entries@,
                                old_ix,
                                old_ix + bucket.len() as int,
                                it.spec_now(),
                            ),
                            line.start.spec_day_number() * 1440 - off_w,
                            line.start.spec_day_number() * 1440 + 10080 - off_w,
                        ));
                    }
                }
                out.push(line);
                proof {
                    it.lemma_measure_nonneg();
                }
            },
        }
    }
}

} // verus!
