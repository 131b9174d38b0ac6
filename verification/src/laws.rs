//! Laws of the library, stated and proved once over the specifications the
//! executable contracts use.

use vstd::prelude::*;

use crate::builder::{build_state, counts_mode_ok, mode_of, recs_filter, ColConfig, DeriveMode};
use crate::model::{agg, item_agg, sorted_intervals, MethInterval, TargetInterval};
use crate::aggregate::{agg_line_chars, target_line_spec};
use crate::table::MethRanges;

verus! {

broadcast use {vstd::seq_lib::group_to_multiset_ensures, vstd::multiset::group_multiset_axioms};

/// Removing one element takes exactly its contribution out of the
/// aggregate.
proof fn lemma_agg_remove(s: Seq<MethInterval>, j: int, start: int, end: int)
    requires
        0 <= j < s.len(),
    ensures
        agg(s, start, end).0 == agg(s.remove(j), start, end).0 + item_agg(s[j], start, end).0,
        agg(s, start, end).1 == agg(s.remove(j), start, end).1 + item_agg(s[j], start, end).1,
        agg(s, start, end).2 == agg(s.remove(j), start, end).2 + item_agg(s[j], start, end).2,
    decreases s.len(),
{
    if j == s.len() - 1 {
        assert(s.remove(j) =~= s.drop_last());
    } else {
        let s1 = s.drop_last();
        assert(s.remove(j).drop_last() =~= s1.remove(j));
        assert(s.remove(j).last() == s.last());
        lemma_agg_remove(s1, j, start, end);
    }
}

/// The aggregate depends only on which intervals occur, with multiplicity:
/// two sequences holding the same intervals — a reordering, however the
/// duplicates are arranged — aggregate identically against every target.
pub proof fn lemma_agg_permutation(
    s1: Seq<MethInterval>,
    s2: Seq<MethInterval>,
    start: int,
    end: int,
)
    requires
        s1.to_multiset() == s2.to_multiset(),
    ensures
        agg(s1, start, end) == agg(s2, start, end),
    decreases s1.len(),
{
    s1.to_multiset_ensures();
    s2.to_multiset_ensures();
    if s1.len() == 0 {
        assert(s2.to_multiset().len() == 0);
        assert(s2.len() == 0);
    } else {
        let x = s1.last();
        let s1p = s1.drop_last();
        s1p.to_multiset_ensures();
        assert(s1 =~= s1p.push(x));
        assert(s1.to_multiset() =~= s1p.to_multiset().insert(x));
        assert(s2.to_multiset().count(x) > 0);
        assert(s2.contains(x));
        let j = choose|j: int| 0 <= j < s2.len() && s2[j] == x;
        s2.remove(j).to_multiset_ensures();
        lemma_agg_remove(s2, j, start, end);
        assert(s2.remove(j).to_multiset() =~= s2.to_multiset().remove(x));
        assert(s1p.to_multiset() =~= s2.remove(j).to_multiset());
        lemma_agg_permutation(s1p, s2.remove(j), start, end);
    }
}

/// Order independence at the row level: two tables storing the same
/// intervals for a target's chromosome owe the target the same row.
pub proof fn theorem_aggregate_order_independent(
    r1: MethRanges,
    r2: MethRanges,
    t: TargetInterval,
)
    requires
        r1.intervals_for(t.chrom@).to_multiset() == r2.intervals_for(t.chrom@).to_multiset(),
    ensures
        target_line_spec(r1, t) == target_line_spec(r2, t),
{
    lemma_agg_permutation(
        r1.intervals_for(t.chrom@),
        r2.intervals_for(t.chrom@),
        t.start as int,
        t.end as int,
    );
}

/// A target on a chromosome the table does not hold is owed the zero row:
/// no positions, no coverage, a weighted fraction of zero.
pub proof fn lemma_unknown_chrom_zero(r: MethRanges, t: TargetInterval)
    requires
        !r.has_chrom(t.chrom@),
    ensures
        target_line_spec(r, t) == agg_line_chars(
            t.chrom@,
            t.start as int,
            t.end as int,
            (0int, 0int, 0int),
        ),
{
}

/// Derivation-mode priority is fixed: whenever the methylated and
/// unmethylated count columns both apply, that mode is chosen, whatever
/// other combinations would also apply.
pub proof fn lemma_mode_priority(cols: ColConfig, nf: int)
    requires
        counts_mode_ok(cols, nf),
    ensures
        mode_of(cols, nf) == Some(DeriveMode::Counts),
{
}

/// Consecutive accepted records on one chromosome do not run backwards:
/// what the builder's sort check admits.
pub open spec fn adjacent_ok(recs: Seq<(Seq<char>, MethInterval)>) -> bool {
    forall|k: int|
        0 <= k < recs.len() - 1 && (#[trigger] recs[k]).0 == (#[trigger] recs[k + 1]).0 && recs[
            k].1.start != -1 ==> recs[k + 1].1.start >= recs[k].1.end
}

/// Each chromosome's records form one contiguous run.
pub open spec fn chroms_contiguous(recs: Seq<(Seq<char>, MethInterval)>) -> bool {
    forall|i: int, j: int, k: int|
        0 <= i <= j <= k < recs.len() && (#[trigger] recs[i]).0 == (#[trigger] recs[k]).0 ==> (
        #[trigger] recs[j]).0 == recs[i].0
}

/// Every record is a genuine half-open interval at non-negative
/// coordinates.
pub open spec fn coords_ok(recs: Seq<(Seq<char>, MethInterval)>) -> bool {
    forall|i: int|
        0 <= i < recs.len() ==> 0 <= (#[trigger] recs[i]).1.start <= recs[i].1.end
}

/// A successful build leaves records whose consecutive same-chromosome
/// pairs passed the sort check, and tracks the last accepted record.
proof fn lemma_build_chain(lines: Seq<Seq<char>>, cols: ColConfig, n: int)
    requires
        0 <= n,
        build_state(lines, cols, n).err is None,
    ensures
        adjacent_ok(build_state(lines, cols, n).recs),
        match build_state(lines, cols, n).prev {
            Some(p) => build_state(lines, cols, n).recs.len() > 0 && p.0 == build_state(
                lines,
                cols,
                n,
            ).recs.last().0 && p.1 == build_state(lines, cols, n).recs.last().1.start && p.2
                == build_state(lines, cols, n).recs.last().1.end,
            None => build_state(lines, cols, n).recs.len() == 0,
        },
    decreases n,
{
    if n > 0 {
        let st = build_state(lines, cols, n - 1);
        let st2 = build_state(lines, cols, n);
        assert(st.err is None);
        lemma_build_chain(lines, cols, n - 1);
        if st2.recs.len() > st.recs.len() {
            let rec = st2.recs.last();
            assert(st2.recs.drop_last() =~= st.recs);
            assert forall|k: int|
                0 <= k < st2.recs.len() - 1 && (#[trigger] st2.recs[k]).0 == (#[trigger] st2.recs[k
                    + 1]).0 && st2.recs[k].1.start != -1 implies st2.recs[k + 1].1.start
                >= st2.recs[k].1.end by {
                if k + 1 < st2.recs.len() - 1 {
                    assert(st2.recs[k] == st.recs[k]);
                    assert(st2.recs[k + 1] == st.recs[k + 1]);
                } else {
                    assert(st2.recs[k] == st.recs[st.recs.len() - 1]);
                }
            }
        }
    }
}

/// Under the builder's sort check, contiguity and honest coordinates, any
/// two same-chromosome records are fully ordered.
proof fn lemma_pairwise(recs: Seq<(Seq<char>, MethInterval)>, i: int, j: int)
    requires
        adjacent_ok(recs),
        chroms_contiguous(recs),
        coords_ok(recs),
        0 <= i <= j < recs.len(),
        recs[i].0 == recs[j].0,
    ensures
        recs[i].1.end <= recs[j].1.end,
        recs[i].1.start <= recs[j].1.start,
    decreases j - i,
{
    if i < j {
        let k = j - 1;
        assert(recs[k].0 == recs[i].0);
        lemma_pairwise(recs, i, k);
        assert(recs[k].1.start >= 0);
        assert(recs[k].0 == recs[k + 1].0);
        assert(recs[k + 1].1.start >= recs[k].1.end);
        assert(recs[k + 1] == recs[j]);
    }
}

/// Every element of a chromosome's filtered sequence is one of the records.
proof fn lemma_filter_mem(recs: Seq<(Seq<char>, MethInterval)>, c: Seq<char>, k: int)
    requires
        0 <= k < recs_filter(recs, c).len(),
    ensures
        exists|m: int|
            0 <= m < recs.len() && (#[trigger] recs[m]).0 == c && recs[m].1 == recs_filter(
                recs,
                c,
            )[k],
    decreases recs.len(),
{
    let f = recs_filter(recs, c);
    let fp = recs_filter(recs.drop_last(), c);
    if recs.last().0 == c && k == f.len() - 1 {
        assert(recs[recs.len() - 1].0 == c && recs[recs.len() - 1].1 == f[k]);
    } else {
        lemma_filter_mem(recs.drop_last(), c, k);
        let m = choose|m: int|
            0 <= m < recs.drop_last().len() && (#[trigger] recs.drop_last()[m]).0 == c
                && recs.drop_last()[m].1 == fp[k];
        assert(recs[m].0 == c && recs[m].1 == f[k]);
    }
}

/// The filtered sequence of every chromosome satisfies the sort invariant.
proof fn lemma_filter_sorted(recs: Seq<(Seq<char>, MethInterval)>, c: Seq<char>)
    requires
        adjacent_ok(recs),
        chroms_contiguous(recs),
        coords_ok(recs),
    ensures
        sorted_intervals(recs_filter(recs, c)),
    decreases recs.len(),
{
    if recs.len() > 0 {
        let rp = recs.drop_last();
        assert(adjacent_ok(rp)) by {
            assert(forall|k: int| 0 <= k < rp.len() ==> rp[k] == (#[trigger] recs[k]));
        }
        assert(chroms_contiguous(rp)) by {
            assert(forall|k: int| 0 <= k < rp.len() ==> rp[k] == (#[trigger] recs[k]));
        }
        assert(coords_ok(rp)) by {
            assert(forall|k: int| 0 <= k < rp.len() ==> rp[k] == (#[trigger] recs[k]));
        }
        lemma_filter_sorted(rp, c);
        let f = recs_filter(recs, c);
        let fp = recs_filter(rp, c);
        if recs.last().0 == c {
            assert(f == fp.push(recs.last().1));
            assert forall|a: int, b: int| 0 <= a <= b < f.len() implies (#[trigger] f[a]).end <= (
            #[trigger] f[b]).end && f[a].start <= f[b].start by {
                if b < f.len() - 1 {
                    assert(f[a] == fp[a] && f[b] == fp[b]);
                } else if a < b {
                    assert(f[a] == fp[a]);
                    lemma_filter_mem(rp, c, a);
                    let m = choose|m: int|
                        0 <= m < rp.len() && (#[trigger] rp[m]).0 == c && rp[m].1 == fp[a];
                    assert(recs[m].0 == c && recs[m].1 == fp[a]);
                    lemma_pairwise(recs, m, recs.len() - 1);
                }
            }
        }
    }
}

/// The builder invariant: a table built without a fatal error from records
/// that are contiguous per chromosome and lie at honest non-negative
/// coordinates stores, for every chromosome, a sequence whose `end` (and
/// `start`) values are non-decreasing.
pub proof fn theorem_builder_sorted(lines: Seq<Seq<char>>, cols: ColConfig)
    requires
        build_state(lines, cols, lines.len() as int).err is None,
        chroms_contiguous(build_state(lines, cols, lines.len() as int).recs),
        coords_ok(build_state(lines, cols, lines.len() as int).recs),
    ensures
        forall|c: Seq<char>|
            sorted_intervals(
                #[trigger] recs_filter(build_state(lines, cols, lines.len() as int).recs, c),
            ),
{
    lemma_build_chain(lines, cols, lines.len() as int);
    assert forall|c: Seq<char>|
        sorted_intervals(
            #[trigger] recs_filter(build_state(lines, cols, lines.len() as int).recs, c),
        ) by {
        lemma_filter_sorted(build_state(lines, cols, lines.len() as int).recs, c);
    }
}

/// The builder invariant carried onto the table itself: a table holding
/// exactly a successful build's records — as `parse_meth_bed` guarantees —
/// satisfies the sort invariant the aggregator relies on, provided the
/// input's records were contiguous per chromosome with honest coordinates.
pub proof fn theorem_built_table_sorted(lines: Seq<Seq<char>>, cols: ColConfig, t: MethRanges)
    requires
        t.inv(),
        build_state(lines, cols, lines.len() as int).err is None,
        chroms_contiguous(build_state(lines, cols, lines.len() as int).recs),
        coords_ok(build_state(lines, cols, lines.len() as int).recs),
        forall|c: Seq<char>|
            t.intervals_for(c) == recs_filter(
                build_state(lines, cols, lines.len() as int).recs,
                c,
            ),
    ensures
        t.sorted_ok(),
{
    theorem_builder_sorted(lines, cols);
    let recs = build_state(lines, cols, lines.len() as int).recs;
    assert forall|i: int| 0 <= i < t.entries@.len() implies sorted_intervals(
        (#[trigger] t.entries@[i]).intervals@,
    ) by {
        t.lemma_entry_lookup(i);
        let c = t.entries@[i].chrom@;
        assert(t.intervals_for(c) == t.entries@[i].intervals@);
        assert(t.intervals_for(c) == recs_filter(recs, c));
        assert(sorted_intervals(recs_filter(recs, c)));
    }
}

} // verus!
