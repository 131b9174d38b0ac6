//! The batch driver: one result row per target, in target order, whether
//! the targets are processed sequentially or in parallel.

use vstd::prelude::*;

use rayon::iter::{IntoParallelRefIterator, ParallelIterator};

use crate::aggregate::{compute_target_line, target_line_spec};
use crate::model::TargetInterval;
use crate::table::MethRanges;

verus! {

/// The batch contract: as many rows as targets, and the row at each index
/// is the one its target is owed.
pub open spec fn batch_rows_ok(
    ranges: MethRanges,
    targets: Seq<TargetInterval>,
    rows: Seq<Seq<char>>,
) -> bool {
    rows.len() == targets.len() && forall|i: int|
        0 <= i < targets.len() ==> rows[i] == target_line_spec(ranges, targets[i])
}

/// Computes every target's row in order, sequentially.
pub fn compute_all_lines(ranges: &MethRanges, targets: &Vec<TargetInterval>) -> (r: Vec<String>)
    requires
        ranges.bounded_ok(),
    ensures
        r@.len() == targets@.len(),
        ranges.sorted_ok() ==> batch_rows_ok(
            *ranges,
            targets@,
            r@.map_values(|s: String| s@),
        ),
{
    let n = targets.len();
    let mut out: Vec<String> = Vec::new();
    let mut i: usize = 0;
    while i < n
        invariant
            0 <= i <= n,
            n == targets@.len(),
            out@.len() == i,
            ranges.bounded_ok(),
            ranges.sorted_ok() ==> forall|k: int|
                0 <= k < i ==> out@.map_values(|s: String| s@)[k] == target_line_spec(
                    *ranges,
                    targets@[k],
                ),
        decreases n - i,
    {
        let line = compute_target_line(ranges, &targets[i]);
        out.push(line);
        i += 1;
    }
    out
}

/// Runs the batch on a worker pool and collects the rows in target order.
///
/// Relies on rayon: `ThreadPoolBuilder::num_threads(n)` caps the pool at
/// `n` workers (`0` selects the default parallelism), `install` runs the
/// closure inside that pool, and collecting a mapped indexed parallel
/// iterator (`par_iter().map(..).collect()`) yields exactly the results a
/// sequential map would, in the input's order, whatever order the workers
/// finish in. The closure only calls this crate's `compute_target_line`.
#[verifier::external_body]
pub fn compute_all_lines_parallel(
    ranges: &MethRanges,
    targets: &Vec<TargetInterval>,
    threads: usize,
) -> (r: Vec<String>)
    requires
        ranges.bounded_ok(),
    ensures
        r@.len() == targets@.len(),
        ranges.sorted_ok() ==> batch_rows_ok(
            *ranges,
            targets@,
            r@.map_values(|s: String| s@),
        ),
{
    let work = || targets.par_iter().map(|t| compute_target_line(ranges, t)).collect();
    match rayon::ThreadPoolBuilder::new().num_threads(threads).build() {
        Ok(pool) => pool.install(work),
        Err(_) => work(),
    }
}

/// Worker count cannot change the output: any two row sequences meeting the
/// batch contract — as the sequential and the parallel runs both do on a
/// well-formed table — are equal.
pub proof fn lemma_batch_deterministic(
    ranges: MethRanges,
    targets: Seq<TargetInterval>,
    a: Seq<Seq<char>>,
    b: Seq<Seq<char>>,
)
    requires
        batch_rows_ok(ranges, targets, a),
        batch_rows_ok(ranges, targets, b),
    ensures
        a == b,
{
    assert(a =~= b);
}

} // verus!
