//! The target loader: tab-delimited `chrom start end` records, one query
//! region per line.

use vstd::prelude::*;

use crate::model::TargetInterval;
use crate::nums::{parse_i32_lossy, parse_i32_spec};
use crate::split::{find_tab, next_tab, views_of};

verus! {

/// The chromosome, start and end of a target line, or `None` when the line
/// has fewer than three tab-separated columns. Columns past the third are
/// ignored; the coordinate columns are read lossily.
pub open spec fn target_of_line(line: Seq<char>) -> Option<(Seq<char>, i32, i32)> {
    let t1 = next_tab(line, 0);
    if t1 == line.len() {
        None
    } else {
        let t2 = next_tab(line, t1 + 1);
        if t2 == line.len() {
            None
        } else {
            let t3 = next_tab(line, t2 + 1);
            Some(
                (
                    line.subrange(0, t1),
                    parse_i32_spec(line.subrange(t1 + 1, t2)),
                    parse_i32_spec(line.subrange(t2 + 1, t3)),
                ),
            )
        }
    }
}

/// The view of a target used by contracts.
pub open spec fn target_view(t: TargetInterval) -> (Seq<char>, i32, i32) {
    (t.chrom@, t.start, t.end)
}

/// The targets read from a sequence of lines, in order, skipping lines with
/// too few columns.
pub open spec fn targets_of(lines: Seq<Seq<char>>) -> Seq<(Seq<char>, i32, i32)>
    decreases lines.len(),
{
    if lines.len() == 0 {
        Seq::empty()
    } else {
        let rest = targets_of(lines.drop_last());
        match target_of_line(lines.last()) {
            Some(t) => rest.push(t),
            None => rest,
        }
    }
}

/// Reads one target line.
pub fn parse_target_line(line: &str) -> (r: Option<TargetInterval>)
    ensures
        match r {
            Some(t) => target_of_line(line@) == Some(target_view(t)),
            None => target_of_line(line@) is None,
        },
{
    let n = line.unicode_len();
    let t1 = find_tab(line, 0);
    if t1 == n {
        return None;
    }
    let t2 = find_tab(line, t1 + 1);
    if t2 == n {
        return None;
    }
    let t3 = find_tab(line, t2 + 1);
    let chrom = String::from_str(line.substring_char(0, t1));
    let start = parse_i32_lossy(line.substring_char(t1 + 1, t2));
    let end = parse_i32_lossy(line.substring_char(t2 + 1, t3));
    Some(TargetInterval { chrom, start, end })
}

/// Reads the whole target list, in input order.
pub fn parse_targets(lines: &Vec<String>) -> (r: Vec<TargetInterval>)
    ensures
        r@.map_values(|t: TargetInterval| target_view(t)) == targets_of(views_of(lines@)),
{
    let n = lines.len();
    let ghost lv = views_of(lines@);
    let mut out: Vec<TargetInterval> = Vec::new();
    let mut i: usize = 0;
    while i < n
        invariant
            0 <= i <= n,
            n == lines@.len(),
            lv == views_of(lines@),
            out@.map_values(|t: TargetInterval| target_view(t)) == targets_of(
                lv.take(i as int),
            ),
        decreases n - i,
    {
        proof {
            assert(lv.take(i + 1).drop_last() =~= lv.take(i as int));
            assert(lv.take(i + 1).last() == lv[i as int]);
            assert(lv[i as int] == lines@[i as int]@);
        }
        let t = parse_target_line(lines[i].as_str());
        match t {
            Some(tv) => {
                let ghost prev = out@.map_values(|t: TargetInterval| target_view(t));
                out.push(tv);
                proof {
                    assert(out@.map_values(|t: TargetInterval| target_view(t)) =~= prev.push(
                        target_view(tv),
                    ));
                }
            },
            None => {},
        }
        i += 1;
    }
    proof {
        assert(lv.take(n as int) =~= lv);
    }
    out
}

} // verus!
