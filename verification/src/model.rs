//! The data model: measured methylation intervals, query targets, and the
//! mathematical definition of the overlap aggregate.

use vstd::prelude::*;

verus! {

/// Largest coverage magnitude a stored interval may carry. Coverage is read
/// from a 32-bit field or is the sum of two such fields, so it fits here.
pub const COV_ABS_MAX: i64 = 0x1_0000_0000;

/// Largest fraction magnitude (in millionths) a stored interval may carry.
pub const FRAC_ABS_MAX: i64 = 0x8_0000_0000_0000;

/// Largest magnitude of one interval's weighted contribution
/// `frac_scaled * coverage`; sums of these over any vector fit in `i128`.
pub const WEIGHT_ABS_MAX: i128 = 0x2000_0000_0000_0000;

/// One measured genomic sub-interval, half-open `[start, end)`.
///
/// `frac_scaled` is the methylated fraction in millionths (`FRAC_SCALE`
/// units); `coverage` is the read depth backing it, the aggregation weight.
#[derive(Clone, Copy, Debug, PartialEq, Eq, Structural)]
pub struct MethInterval {
    pub start: i32,
    pub end: i32,
    pub frac_scaled: i64,
    pub coverage: i64,
}

impl MethInterval {
    /// Bounds that every interval produced by the table builder satisfies;
    /// they keep every aggregate sum inside `i128`.
    pub open spec fn bounded(self) -> bool {
        &&& -COV_ABS_MAX <= self.coverage <= COV_ABS_MAX
        &&& -FRAC_ABS_MAX <= self.frac_scaled <= FRAC_ABS_MAX
        &&& -WEIGHT_ABS_MAX <= self.frac_scaled * self.coverage <= WEIGHT_ABS_MAX
    }

    /// The coverage-weighted methylation mass this interval contributes, in
    /// millionths.
    pub open spec fn weight(self) -> int {
        self.frac_scaled * self.coverage
    }
}

/// One query region: a chromosome name and a half-open coordinate range.
#[derive(Clone, Debug)]
pub struct TargetInterval {
    pub chrom: String,
    pub start: i32,
    pub end: i32,
}

/// Whether a measured interval overlaps the half-open target `[start, end)`.
pub open spec fn overlaps(iv: MethInterval, start: int, end: int) -> bool {
    iv.start < end && iv.end > start
}

/// All intervals in a sequence are bounded.
pub open spec fn all_bounded(s: Seq<MethInterval>) -> bool {
    forall|i: int| 0 <= i < s.len() ==> (#[trigger] s[i]).bounded()
}

/// The stored-table invariant for one chromosome: both `start` and `end`
/// coordinates are non-decreasing. Non-decreasing `end` makes the
/// lower-bound search valid; non-decreasing `start` lets the forward scan
/// stop at the first interval starting at or past the target's end.
pub open spec fn sorted_intervals(s: Seq<MethInterval>) -> bool {
    forall|i: int, j: int|
        0 <= i <= j < s.len() ==> (#[trigger] s[i]).end <= (#[trigger] s[j]).end && s[i].start
            <= s[j].start
}

/// What one interval adds to the aggregate of a target: a position count, a
/// coverage total and a weighted methylation mass — zero unless it overlaps.
pub open spec fn item_agg(iv: MethInterval, start: int, end: int) -> (int, int, int) {
    if overlaps(iv, start, end) {
        (1int, iv.coverage as int, iv.weight())
    } else {
        (0int, 0int, 0int)
    }
}

/// The aggregate of a whole interval sequence against a target `[start,
/// end)`: the component-wise sum of the contributions of its elements.
pub open spec fn agg(s: Seq<MethInterval>, start: int, end: int) -> (int, int, int)
    decreases s.len(),
{
    if s.len() == 0 {
        (0int, 0int, 0int)
    } else {
        let rest = agg(s.drop_last(), start, end);
        let c = item_agg(s.last(), start, end);
        (rest.0 + c.0, rest.1 + c.1, rest.2 + c.2)
    }
}

/// Dropping a wholly non-overlapping tail does not change the aggregate.
pub proof fn lemma_agg_ignores_tail(s: Seq<MethInterval>, b: int, start: int, end: int)
    requires
        0 <= b <= s.len(),
        forall|j: int| b <= j < s.len() ==> !overlaps(#[trigger] s[j], start, end),
    ensures
        agg(s, start, end) == agg(s.subrange(0, b), start, end),
    decreases s.len() - b,
{
    if b == s.len() {
        assert(s.subrange(0, b) =~= s);
    } else {
        let s1 = s.subrange(0, s.len() - 1);
        assert(s1 =~= s.drop_last());
        lemma_agg_ignores_tail(s1, b, start, end);
        assert(s1.subrange(0, b) =~= s.subrange(0, b));
    }
}

/// Dropping a wholly non-overlapping head does not change the aggregate.
pub proof fn lemma_agg_ignores_head(s: Seq<MethInterval>, m: int, b: int, start: int, end: int)
    requires
        0 <= m <= b <= s.len(),
        forall|j: int| 0 <= j < m ==> !overlaps(#[trigger] s[j], start, end),
    ensures
        agg(s.subrange(0, b), start, end) == agg(s.subrange(m, b), start, end),
    decreases b - m,
{
    if b == m {
        assert(agg(s.subrange(0, b), start, end) == agg(s.subrange(m, b), start, end)) by {
            lemma_agg_ignores_tail(s.subrange(0, b), 0, start, end);
            assert(s.subrange(0, b).subrange(0, 0) =~= s.subrange(m, b).subrange(0, 0));
            lemma_agg_ignores_tail(s.subrange(m, b), 0, start, end);
        }
    } else {
        lemma_agg_ignores_head(s, m, b - 1, start, end);
        assert(s.subrange(0, b).drop_last() =~= s.subrange(0, b - 1));
        assert(s.subrange(m, b).drop_last() =~= s.subrange(m, b - 1));
        assert(s.subrange(0, b).last() == s[b - 1]);
        assert(s.subrange(m, b).last() == s[b - 1]);
    }
}

/// The aggregate of a bounded sequence stays inside per-element bounds
/// multiplied by its length.
pub proof fn lemma_agg_bounds(s: Seq<MethInterval>, start: int, end: int)
    requires
        all_bounded(s),
    ensures
        0 <= agg(s, start, end).0 <= s.len(),
        -(s.len() * COV_ABS_MAX) <= agg(s, start, end).1 <= s.len() * COV_ABS_MAX,
        -(s.len() * WEIGHT_ABS_MAX) <= agg(s, start, end).2 <= s.len() * WEIGHT_ABS_MAX,
    decreases s.len(),
{
    if s.len() > 0 {
        assert(all_bounded(s.drop_last()));
        lemma_agg_bounds(s.drop_last(), start, end);
    }
}

} // verus!
