//! The overlap aggregator: lower-bound search over a chromosome's sorted
//! intervals, the forward overlap scan, and the rendering of one result row.

use vstd::prelude::*;

use vstd::arithmetic::div_mod::lemma_div_nonincreasing;
use vstd::arithmetic::div_mod::lemma_div_pos_is_pos;

use crate::model::{
    agg, all_bounded, item_agg, lemma_agg_bounds, lemma_agg_ignores_head, lemma_agg_ignores_tail,
    overlaps, sorted_intervals, MethInterval, TargetInterval, COV_ABS_MAX, WEIGHT_ABS_MAX,
};
use crate::nums::{dec_int, dec_nat, dec_pad4, fmt_i128, fmt_pad4, fmt_u128};
use crate::table::{lemma_spec_find_some, spec_find, MethRanges};

verus! {

/// Largest magnitude a coverage sum can reach: one maximal coverage per
/// possible vector slot.
pub const COV_SUM_ABS_MAX: i128 = 0x1_0000_0000 * 0xFFFF_FFFF_FFFF_FFFF;

/// Largest magnitude a weighted sum can reach.
pub const WEIGHT_SUM_ABS_MAX: i128 = 0x2000_0000_0000_0000 * 0xFFFF_FFFF_FFFF_FFFF;

/// A loose magnitude bound on the rounded weighted fraction.
pub const WFRAC_ABS_MAX: i128 = 0x7fff_ffff_ffff_ffff_ffff_ffff_ffff_ffff;

/// The aggregate over one target: how many intervals overlap it, their total
/// coverage, and the coverage-weighted methylation fraction in rounded
/// ten-thousandths.
pub struct AggregateResult {
    pub num_positions: usize,
    pub total_coverage: i128,
    pub weighted_fraction_e4: i128,
}

/// The weighted fraction in ten-thousandths, rounded to nearest with ties
/// away from zero: the weighted sum `ws` (in millionths of coverage) over
/// the total coverage `tc`, or `0` when no coverage was accumulated.
pub open spec fn spec_wfrac_e4(ws: int, tc: int) -> int {
    if tc <= 0 {
        0
    } else if ws >= 0 {
        (2 * ws + 100 * tc) / (200 * tc)
    } else {
        -((2 * (-ws) + 100 * tc) / (200 * tc))
    }
}

/// Computes `spec_wfrac_e4` on machine integers.
pub fn weighted_fraction_e4(ws: i128, tc: i128) -> (q: i128)
    requires
        -WEIGHT_SUM_ABS_MAX <= ws <= WEIGHT_SUM_ABS_MAX,
        -COV_SUM_ABS_MAX <= tc <= COV_SUM_ABS_MAX,
    ensures
        q == spec_wfrac_e4(ws as int, tc as int),
        -WFRAC_ABS_MAX <= q <= WFRAC_ABS_MAX,
{
    if tc <= 0 {
        return 0;
    }
    let tcu = tc as u128;
    let neg = ws < 0;
    let wsa: u128 = if neg {
        (0 - ws) as u128
    } else {
        ws as u128
    };
    let num = 2 * wsa + 100 * tcu;
    let den = 200 * tcu;
    let q = num / den;
    proof {
        lemma_div_pos_is_pos(num as int, den as int);
        lemma_div_nonincreasing(num as int, den as int);
    }
    let qi = q as i128;
    if neg {
        0 - qi
    } else {
        qi
    }
}

/// The first index whose interval's `end` lies strictly past the anchor.
///
/// The result is meaningful when the slice satisfies the sort invariant: it
/// is then the least index `r` with `intervals[r].end > start`, so every
/// interval before `r` ends at or before the anchor and cannot overlap a
/// half-open region starting there.
pub fn lower_bound_end(intervals: &[MethInterval], start: i32) -> (r: usize)
    ensures
        r <= intervals@.len(),
        sorted_intervals(intervals@) ==> (forall|i: int|
            0 <= i < r ==> (#[trigger] intervals@[i]).end <= start) && (forall|i: int|
            r <= i < intervals@.len() ==> (#[trigger] intervals@[i]).end > start),
{
    let mut lo: usize = 0;
    let mut hi: usize = intervals.len();
    while lo < hi
        invariant
            0 <= lo <= hi <= intervals@.len(),
            sorted_intervals(intervals@) ==> (forall|i: int|
                0 <= i < lo ==> (#[trigger] intervals@[i]).end <= start) && (forall|i: int|
                hi <= i < intervals@.len() ==> (#[trigger] intervals@[i]).end > start),
        decreases hi - lo,
    {
        let mid = lo + (hi - lo) / 2;
        if intervals[mid].end <= start {
            lo = mid + 1;
        } else {
            hi = mid;
        }
    }
    lo
}

/// Aggregates every interval of one chromosome that overlaps the half-open
/// target `[start, end)`.
///
/// On a sequence satisfying the sort invariant the result is exactly the
/// mathematical aggregate `agg` of the whole sequence: the search skips only
/// intervals ending at or before `start`, and the scan stops only when no
/// later interval can begin before `end`.
pub fn aggregate_target(intervals: &[MethInterval], start: i32, end: i32) -> (r: AggregateResult)
    requires
        all_bounded(intervals@),
    ensures
        r.num_positions <= intervals@.len(),
        -COV_SUM_ABS_MAX <= r.total_coverage <= COV_SUM_ABS_MAX,
        -WFRAC_ABS_MAX <= r.weighted_fraction_e4 <= WFRAC_ABS_MAX,
        sorted_intervals(intervals@) ==> {
            let a = agg(intervals@, start as int, end as int);
            r.num_positions == a.0 && r.total_coverage == a.1 && r.weighted_fraction_e4
                == spec_wfrac_e4(a.2, a.1)
        },
{
    let n = intervals.len();
    let idx = lower_bound_end(intervals, start);
    let ghost st = start as int;
    let ghost en = end as int;
    let mut j = idx;
    let mut count: usize = 0;
    let mut cov_sum: i128 = 0;
    let mut ws_sum: i128 = 0;
    while j < n
        invariant
            0 <= idx <= j <= n,
            n == intervals@.len(),
            st == start as int,
            en == end as int,
            all_bounded(intervals@),
            count <= j - idx,
            -((j - idx) * (COV_ABS_MAX as int)) <= cov_sum as int <= (j - idx) * (
            COV_ABS_MAX as int),
            -((j - idx) * (WEIGHT_ABS_MAX as int)) <= ws_sum as int <= (j - idx) * (
            WEIGHT_ABS_MAX as int),
            sorted_intervals(intervals@) ==> (forall|i: int|
                0 <= i < idx ==> (#[trigger] intervals@[i]).end <= start),
            sorted_intervals(intervals@) ==> (count as int, cov_sum as int, ws_sum as int) == agg(
                intervals@.subrange(idx as int, j as int),
                st,
                en,
            ),
        ensures
            sorted_intervals(intervals@) ==> (forall|i: int|
                j <= i < n ==> !overlaps(#[trigger] intervals@[i], st, en)),
        decreases n - j,
    {
        let iv = intervals[j];
        if iv.start >= end {
            proof {
                if sorted_intervals(intervals@) {
                    assert(forall|i: int|
                        j <= i < n ==> (#[trigger] intervals@[i]).start >= intervals@[
                        j as int].start);
                }
            }
            break ;
        }
        proof {
            assert(intervals@.subrange(idx as int, j + 1).drop_last() =~= intervals@.subrange(
                idx as int,
                j as int,
            ));
            assert(intervals@.subrange(idx as int, j + 1).last() == intervals@[j as int]);
            assert(intervals@[j as int].bounded());
        }
        if iv.end > start {
            count += 1;
            cov_sum += iv.coverage as i128;
            ws_sum += (iv.frac_scaled as i128) * (iv.coverage as i128);
        } else {
            proof {
                assert(!overlaps(intervals@[j as int], st, en));
            }
        }
        j += 1;
    }
    proof {
        assert((j - idx) * (COV_ABS_MAX as int) <= 0xFFFF_FFFF_FFFF_FFFF * (COV_ABS_MAX as int));
        assert((j - idx) * (WEIGHT_ABS_MAX as int) <= 0xFFFF_FFFF_FFFF_FFFF * (
        WEIGHT_ABS_MAX as int));
        if sorted_intervals(intervals@) {
            assert(forall|i: int| 0 <= i < idx ==> !overlaps(#[trigger] intervals@[i], st, en));
            lemma_agg_ignores_tail(intervals@, j as int, st, en);
            lemma_agg_ignores_head(intervals@, idx as int, j as int, st, en);
            assert(intervals@.subrange(0, n as int) =~= intervals@);
        }
    }
    let q = weighted_fraction_e4(ws_sum, cov_sum);
    AggregateResult { num_positions: count, total_coverage: cov_sum, weighted_fraction_e4: q }
}

/// The rounded weighted fraction rendered with four decimal digits.
pub open spec fn frac4_chars(q: int) -> Seq<char> {
    if q < 0 {
        seq!['-'] + dec_nat((-q) / 10000) + seq!['.'] + dec_pad4((-q) % 10000)
    } else {
        dec_nat(q / 10000) + seq!['.'] + dec_pad4(q % 10000)
    }
}

/// One output row: target coordinates and its aggregate, tab-separated, the
/// weighted fraction with exactly four decimal digits.
pub open spec fn agg_line_chars(
    chrom: Seq<char>,
    t_start: int,
    t_end: int,
    a: (int, int, int),
) -> Seq<char> {
    chrom + seq!['\t'] + dec_int(t_start) + seq!['\t'] + dec_int(t_end) + seq!['\t'] + dec_nat(a.0)
        + seq!['\t'] + dec_int(a.1) + seq!['\t'] + frac4_chars(spec_wfrac_e4(a.2, a.1))
}

/// The row owed to one target: its chromosome's stored intervals (none, for
/// an unknown chromosome) aggregated over its half-open range.
pub open spec fn target_line_spec(ranges: MethRanges, t: TargetInterval) -> Seq<char> {
    agg_line_chars(
        t.chrom@,
        t.start as int,
        t.end as int,
        agg(ranges.intervals_for(t.chrom@), t.start as int, t.end as int),
    )
}

/// Renders one target's result row from a table whose intervals are within
/// arithmetic bounds; on a table satisfying the sort invariant the row is
/// exactly the one the mathematical aggregate owes the target.
pub fn compute_target_line(ranges: &MethRanges, target: &TargetInterval) -> (r: String)
    requires
        ranges.bounded_ok(),
    ensures
        ranges.sorted_ok() ==> r@ == target_line_spec(*ranges, *target),
{
    let found = ranges.find(&target.chrom);
    let ar = match found {
        Some(ivs) => {
            proof {
                lemma_spec_find_some(ranges.entries@, target.chrom@);
            }
            aggregate_target(ivs.as_slice(), target.start, target.end)
        },
        None => AggregateResult {
            num_positions: 0,
            total_coverage: 0,
            weighted_fraction_e4: 0,
        },
    };
    let mut line = target.chrom.clone();
    proof {
        reveal_strlit("\t");
        reveal_strlit(".");
        reveal_strlit("-");
        assert("\t"@ =~= seq!['\t']);
        assert("."@ =~= seq!['.']);
        assert("-"@ =~= seq!['-']);
    }
    line.append("\t");
    let s_start = fmt_i128(target.start as i128);
    line.append(s_start.as_str());
    line.append("\t");
    let s_end = fmt_i128(target.end as i128);
    line.append(s_end.as_str());
    line.append("\t");
    let s_count = fmt_u128(ar.num_positions as u128);
    line.append(s_count.as_str());
    line.append("\t");
    let s_cov = fmt_i128(ar.total_coverage);
    line.append(s_cov.as_str());
    line.append("\t");
    let q = ar.weighted_fraction_e4;
    let qa: u128 = if q < 0 {
        line.append("-");
        (0 - q) as u128
    } else {
        q as u128
    };
    let s_ip = fmt_u128(qa / 10000);
    line.append(s_ip.as_str());
    line.append(".");
    let s_fp = fmt_pad4((qa % 10000) as u64);
    line.append(s_fp.as_str());
    proof {
        if ranges.sorted_ok() {
            let a = agg(ranges.intervals_for(target.chrom@), target.start as int, target.end as int);
            assert(line@ =~= agg_line_chars(target.chrom@, target.start as int, target.end as int, a));
        }
    }
    line
}

} // verus!
