//! The interval table builder: reads whitespace-delimited methylation
//! records in file order, validates the global sort order, derives each
//! record's fraction and coverage from the configured columns, and fills the
//! per-chromosome table.

use vstd::prelude::*;

use vstd::arithmetic::div_mod::{
    lemma_div_nonincreasing, lemma_div_pos_is_pos, lemma_fundamental_div_mod, lemma_mod_bound,
};

use crate::model::{MethInterval, COV_ABS_MAX, FRAC_ABS_MAX, WEIGHT_ABS_MAX};
use crate::nums::{
    fmt_i128, fmt_u128, parse_frac_lossy, parse_frac_spec, parse_i32_lossy, parse_i32_spec,
    FRAC_PARSE_MAX,
};
use crate::split::{line_fields, split_fields, views_of};
use crate::table::MethRanges;

verus! {

/// The configured 1-based column indices; `0` means "unset".
#[derive(Clone, Copy, Debug)]
pub struct ColConfig {
    pub frac_col: usize,
    pub cov_col: usize,
    pub meth_col: usize,
    pub unmeth_col: usize,
}

/// The three ways a record's fraction and coverage can be derived, in fixed
/// priority order.
#[derive(Clone, Copy, Debug, PartialEq, Eq, Structural)]
pub enum DeriveMode {
    /// Methylated and unmethylated counts: coverage is their sum.
    Counts,
    /// Methylated count and a direct coverage column.
    MethCoverage,
    /// Direct fraction and coverage columns, no cross-derivation.
    FracCoverage,
}

pub open spec fn counts_mode_ok(cols: ColConfig, nf: int) -> bool {
    cols.meth_col > 0 && cols.meth_col <= nf && cols.unmeth_col > 0 && cols.unmeth_col <= nf
}

pub open spec fn meth_cov_mode_ok(cols: ColConfig, nf: int) -> bool {
    cols.meth_col > 0 && cols.meth_col <= nf && cols.cov_col > 0 && cols.cov_col <= nf
}

pub open spec fn frac_cov_mode_ok(cols: ColConfig, nf: int) -> bool {
    cols.cov_col > 0 && cols.cov_col <= nf && cols.frac_col > 0 && cols.frac_col <= nf
}

/// The derivation mode used for a record with `nf` fields: the first
/// applicable combination wins, and the priority never depends on the data.
pub open spec fn mode_of(cols: ColConfig, nf: int) -> Option<DeriveMode> {
    if counts_mode_ok(cols, nf) {
        Some(DeriveMode::Counts)
    } else if meth_cov_mode_ok(cols, nf) {
        Some(DeriveMode::MethCoverage)
    } else if frac_cov_mode_ok(cols, nf) {
        Some(DeriveMode::FracCoverage)
    } else {
        None
    }
}

/// The fraction (in millionths) derived from a methylated count and a
/// coverage: their quotient, truncated, or `0` without positive coverage.
pub open spec fn frac_of_counts(m: int, cov: int) -> int {
    if cov > 0 {
        if m >= 0 {
            m * 1_000_000 / cov
        } else {
            -((-m) * 1_000_000 / cov)
        }
    } else {
        0
    }
}

/// The fraction and coverage of a record, by the first applicable mode, or
/// `None` when no configured column combination fits the field count.
pub open spec fn derive_spec(fields: Seq<Seq<char>>, cols: ColConfig) -> Option<(i64, i64)> {
    match mode_of(cols, fields.len() as int) {
        Some(DeriveMode::Counts) => {
            let m = parse_i32_spec(fields[cols.meth_col as int - 1]) as int;
            let u = parse_i32_spec(fields[cols.unmeth_col as int - 1]) as int;
            let cov = m + u;
            Some(((frac_of_counts(m, cov) as i64), (cov as i64)))
        },
        Some(DeriveMode::MethCoverage) => {
            let m = parse_i32_spec(fields[cols.meth_col as int - 1]) as int;
            let cov = parse_i32_spec(fields[cols.cov_col as int - 1]) as int;
            Some(((frac_of_counts(m, cov) as i64), (cov as i64)))
        },
        Some(DeriveMode::FracCoverage) => Some(
            (
                (parse_frac_spec(fields[cols.frac_col as int - 1]) as i64),
                (parse_i32_spec(fields[cols.cov_col as int - 1]) as i64),
            ),
        ),
        None => None,
    }
}

/// Computes `frac_of_counts` on machine integers; the result and its
/// weighted product with the coverage stay within the table bounds.
pub fn frac_from_counts(m: i32, cov: i64) -> (r: i64)
    ensures
        r as int == frac_of_counts(m as int, cov as int),
        -FRAC_ABS_MAX <= r <= FRAC_ABS_MAX,
        -WEIGHT_ABS_MAX <= r as int * cov as int <= WEIGHT_ABS_MAX,
{
    if cov <= 0 {
        return 0;
    }
    let mm: u64 = if m < 0 {
        (0 - (m as i64)) as u64
    } else {
        (m as i64) as u64
    };
    let num: u64 = mm * 1_000_000;
    let covu = cov as u64;
    let q = num / covu;
    proof {
        lemma_div_pos_is_pos(num as int, covu as int);
        lemma_div_nonincreasing(num as int, covu as int);
        lemma_fundamental_div_mod(num as int, covu as int);
        lemma_mod_bound(num as int, covu as int);
    }
    let qi = q as i64;
    let r: i64 = if m < 0 {
        0 - qi
    } else {
        qi
    };
    proof {
        assert(0 <= covu as int * q as int <= num as int);
        assert(qi as int * cov as int == covu as int * q as int) by (nonlinear_arith)
            requires
                qi as int == q as int,
                covu as int == cov as int,
        ;
        if m < 0 {
            assert((0 - qi) as int * cov as int == -(qi as int * cov as int))
                by (nonlinear_arith);
        }
    }
    r
}

/// Derives a record's fraction and coverage from its fields, by the first
/// applicable column combination.
pub fn derive_values(fields: &Vec<String>, cols: ColConfig) -> (r: Option<(i64, i64)>)
    ensures
        r == derive_spec(views_of(fields@), cols),
        match r {
            Some(v) => -COV_ABS_MAX <= v.1 <= COV_ABS_MAX && -FRAC_ABS_MAX <= v.0
                <= FRAC_ABS_MAX && -WEIGHT_ABS_MAX <= v.0 as int * v.1 as int
                <= WEIGHT_ABS_MAX,
            None => true,
        },
{
    let nf = fields.len();
    if cols.meth_col > 0 && cols.meth_col <= nf && cols.unmeth_col > 0 && cols.unmeth_col
        <= nf {
        let m = parse_i32_lossy(fields[cols.meth_col - 1].as_str());
        let u = parse_i32_lossy(fields[cols.unmeth_col - 1].as_str());
        let cov: i64 = m as i64 + u as i64;
        let frac = frac_from_counts(m, cov);
        Some((frac, cov))
    } else if cols.meth_col > 0 && cols.meth_col <= nf && cols.cov_col > 0 && cols.cov_col
        <= nf {
        let m = parse_i32_lossy(fields[cols.meth_col - 1].as_str());
        let c = parse_i32_lossy(fields[cols.cov_col - 1].as_str());
        let cov: i64 = c as i64;
        let frac = frac_from_counts(m, cov);
        Some((frac, cov))
    } else if cols.cov_col > 0 && cols.cov_col <= nf && cols.frac_col > 0 && cols.frac_col
        <= nf {
        let frac = parse_frac_lossy(fields[cols.frac_col - 1].as_str());
        let c = parse_i32_lossy(fields[cols.cov_col - 1].as_str());
        proof {
            crate::nums::lemma_parse_frac_bounds(views_of(fields@)[cols.frac_col as int - 1]);
            assert(-WEIGHT_ABS_MAX <= frac as int * (c as i64) as int <= WEIGHT_ABS_MAX)
                by (nonlinear_arith)
                requires
                    -FRAC_PARSE_MAX <= frac as int <= FRAC_PARSE_MAX,
                    -0x8000_0000 <= (c as i64) as int <= 0x8000_0000,
                    WEIGHT_ABS_MAX == 0x2000_0000_0000_0000,
            ;
        }
        Some((frac, c as i64))
    } else {
        None
    }
}

/// A fatal error of table construction.
#[derive(Debug)]
pub enum BuildError {
    /// The input is not sorted: a record begins before its same-chromosome
    /// predecessor ends.
    NotSorted {
        linenum: usize,
        prev_chrom: String,
        prev_start: i32,
        prev_end: i32,
        chrom: String,
        start: i32,
        end: i32,
    },
    /// No configured column combination fits a record's field count.
    InvalidColumns,
}

/// The ghost form of a fatal build error.
pub enum BuildErrSpec {
    NotSorted { linenum: int, prev: (Seq<char>, i32, i32), cur: (Seq<char>, i32, i32) },
    BadColumns,
}

impl BuildError {
    /// Whether this error carries exactly the data of the ghost error.
    pub open spec fn matches_err(self, o: BuildErrSpec) -> bool {
        match (self, o) {
            (
                BuildError::NotSorted {
                    linenum: ln,
                    prev_chrom: pc,
                    prev_start: ps,
                    prev_end: pe,
                    chrom: cc,
                    start: cs,
                    end: ce,
                },
                BuildErrSpec::NotSorted { linenum: sln, prev: sp, cur: sc },
            ) => ln == sln && pc@ == sp.0 && ps == sp.1 && pe == sp.2 && cc@ == sc.0 && cs
                == sc.1 && ce == sc.2,
            (BuildError::InvalidColumns, BuildErrSpec::BadColumns) => true,
            _ => false,
        }
    }

    /// The diagnostic text of this error.
    pub open spec fn message_chars(self) -> Seq<char> {
        match self {
            BuildError::NotSorted {
                linenum: ln,
                prev_chrom: pc,
                prev_start: ps,
                prev_end: pe,
                chrom: cc,
                start: cs,
                end: ce,
            } => "Error: Methylation BED file is not sorted. Exiting...\nLine "@
                + crate::nums::dec_nat(ln as int) + ": "@ + pc@ + " "@ + crate::nums::dec_int(
                ps as int,
            ) + " "@ + crate::nums::dec_int(pe as int) + ", then "@ + cc@ + " "@
                + crate::nums::dec_int(cs as int) + " "@ + crate::nums::dec_int(ce as int),
            BuildError::InvalidColumns => "Error: invalid column indices"@,
        }
    }

    /// Renders the diagnostic text.
    pub fn message(&self) -> (r: String)
        ensures
            r@ == self.message_chars(),
    {
        match self {
            BuildError::NotSorted {
                linenum,
                prev_chrom,
                prev_start,
                prev_end,
                chrom,
                start,
                end,
            } => {
                let mut s = String::from_str(
                    "Error: Methylation BED file is not sorted. Exiting...\nLine ",
                );
                let p1 = fmt_u128(*linenum as u128);
                s.append(p1.as_str());
                s.append(": ");
                s.append(prev_chrom.as_str());
                s.append(" ");
                let p2 = fmt_i128(*prev_start as i128);
                s.append(p2.as_str());
                s.append(" ");
                let p3 = fmt_i128(*prev_end as i128);
                s.append(p3.as_str());
                s.append(", then ");
                s.append(chrom.as_str());
                s.append(" ");
                let p4 = fmt_i128(*start as i128);
                s.append(p4.as_str());
                s.append(" ");
                let p5 = fmt_i128(*end as i128);
                s.append(p5.as_str());
                proof {
                    assert(s@ =~= self.message_chars());
                }
                s
            },
            BuildError::InvalidColumns => String::from_str("Error: invalid column indices"),
        }
    }
}

/// The state of the builder after some prefix of the input: a fatal error if
/// one was hit, the accepted records in file order, and the last accepted
/// record's coordinates for the sort check.
pub struct BuildState {
    pub err: Option<BuildErrSpec>,
    pub recs: Seq<(Seq<char>, MethInterval)>,
    pub prev: Option<(Seq<char>, i32, i32)>,
}

/// The sort check of one record against the previous one: only records on
/// the same chromosome are compared, and a previous start of `-1` disables
/// the check (the builder starts from that sentinel).
pub open spec fn sort_violation(
    prev: Option<(Seq<char>, i32, i32)>,
    chrom: Seq<char>,
    start: i32,
) -> bool {
    match prev {
        Some(p) => p.1 != -1 && p.0 == chrom && start < p.2,
        None => false,
    }
}

/// One step of the builder on one line. Lines with fewer than four fields
/// are skipped; a sort violation is fatal before column derivation is tried.
pub open spec fn build_step(
    st: BuildState,
    line: Seq<char>,
    cols: ColConfig,
    linenum: int,
) -> BuildState {
    if st.err is Some {
        st
    } else {
        let fields = line_fields(line);
        if fields.len() < 4 {
            st
        } else {
            let chrom = fields[0];
            let start = parse_i32_spec(fields[1]);
            let end = parse_i32_spec(fields[2]);
            if sort_violation(st.prev, chrom, start) {
                BuildState {
                    err: Some(
                        BuildErrSpec::NotSorted {
                            linenum,
                            prev: st.prev.unwrap(),
                            cur: (chrom, start, end),
                        },
                    ),
                    recs: st.recs,
                    prev: st.prev,
                }
            } else {
                match derive_spec(fields, cols) {
                    None => BuildState {
                        err: Some(BuildErrSpec::BadColumns),
                        recs: st.recs,
                        prev: st.prev,
                    },
                    Some(v) => BuildState {
                        err: None,
                        recs: st.recs.push(
                            (
                                chrom,
                                MethInterval {
                                    start,
                                    end,
                                    frac_scaled: v.0,
                                    coverage: v.1,
                                },
                            ),
                        ),
                        prev: Some((chrom, start, end)),
                    },
                }
            }
        }
    }
}

/// The builder's state after the first `n` lines.
pub open spec fn build_state(lines: Seq<Seq<char>>, cols: ColConfig, n: int) -> BuildState
    decreases n,
{
    if n <= 0 {
        BuildState { err: None, recs: Seq::empty(), prev: None }
    } else {
        build_step(build_state(lines, cols, n - 1), lines[n - 1], cols, n)
    }
}

/// The intervals of the records on chromosome `c`, in record order.
pub open spec fn recs_filter(recs: Seq<(Seq<char>, MethInterval)>, c: Seq<char>) -> Seq<
    MethInterval,
>
    decreases recs.len(),
{
    if recs.len() == 0 {
        Seq::empty()
    } else {
        let rest = recs_filter(recs.drop_last(), c);
        if recs.last().0 == c {
            rest.push(recs.last().1)
        } else {
            rest
        }
    }
}

/// A fatal error, once hit, ends the build: later lines change nothing.
pub proof fn lemma_err_persists(lines: Seq<Seq<char>>, cols: ColConfig, k: int, n: int)
    requires
        0 <= k <= n,
        build_state(lines, cols, k).err is Some,
    ensures
        build_state(lines, cols, n) == build_state(lines, cols, k),
    decreases n - k,
{
    if k < n {
        lemma_err_persists(lines, cols, k, n - 1);
    }
}

/// Builds the interval table from the input lines, in file order.
///
/// The result is the table whose chromosome sequences are exactly the
/// accepted records filtered by chromosome, or the first fatal error: the
/// sort violation or column mismatch hit earliest in the file.
pub fn parse_meth_bed(lines: &Vec<String>, cols: ColConfig) -> (r: Result<MethRanges, BuildError>)
    ensures
        match r {
            Ok(t) => build_state(views_of(lines@), cols, lines@.len() as int).err is None
                && t.inv() && t.bounded_ok() && forall|c: Seq<char>|
                t.intervals_for(c) == recs_filter(
                    build_state(views_of(lines@), cols, lines@.len() as int).recs,
                    c,
                ),
            Err(e) => build_state(views_of(lines@), cols, lines@.len() as int).err is Some
                && e.matches_err(
                build_state(views_of(lines@), cols, lines@.len() as int).err.unwrap(),
            ),
        },
{
    let ghost lv = views_of(lines@);
    let n = lines.len();
    let mut table = MethRanges::new();
    let mut prev_chrom = String::new();
    let mut prev_start: i32 = -1;
    let mut prev_end: i32 = -1;
    let mut i: usize = 0;
    while i < n
        invariant
            0 <= i <= n,
            n == lines@.len(),
            lv == views_of(lines@),
            build_state(lv, cols, i as int).err is None,
            table.inv(),
            table.bounded_ok(),
            forall|c: Seq<char>|
                table.intervals_for(c) == recs_filter(build_state(lv, cols, i as int).recs, c),
            match build_state(lv, cols, i as int).prev {
                Some(p) => prev_chrom@ == p.0 && prev_start == p.1 && prev_end == p.2,
                None => prev_start == -1,
            },
        decreases n - i,
    {
        let ghost st = build_state(lv, cols, i as int);
        let ghost st2 = build_state(lv, cols, i + 1);
        proof {
            assert(st2 == build_step(st, lv[i as int], cols, i + 1));
            assert(lv[i as int] == lines@[i as int]@);
        }
        let fields = split_fields(lines[i].as_str());
        if fields.len() >= 4 {
            proof {
                assert(views_of(fields@)[0] == fields@[0]@);
                assert(views_of(fields@)[1] == fields@[1]@);
                assert(views_of(fields@)[2] == fields@[2]@);
            }
            let start = parse_i32_lossy(fields[1].as_str());
            let end = parse_i32_lossy(fields[2].as_str());
            if prev_start != -1 && fields[0] == prev_chrom && start < prev_end {
                let e = BuildError::NotSorted {
                    linenum: i + 1,
                    prev_chrom,
                    prev_start,
                    prev_end,
                    chrom: fields[0].clone(),
                    start,
                    end,
                };
                proof {
                    lemma_err_persists(lv, cols, i + 1, n as int);
                }
                return Err(e);
            }
            let dv = derive_values(&fields, cols);
            match dv {
                None => {
                    proof {
                        lemma_err_persists(lv, cols, i + 1, n as int);
                    }
                    return Err(BuildError::InvalidColumns);
                },
                Some((frac, cov)) => {
                    let iv = MethInterval { start, end, frac_scaled: frac, coverage: cov };
                    let chrom = fields[0].clone();
                    let ghost old_table = table;
                    table.push_interval(chrom, iv);
                    prev_chrom = fields[0].clone();
                    prev_start = start;
                    prev_end = end;
                    proof {
                        assert(st2.recs =~= st.recs.push((fields@[0]@, iv)));
                        assert forall|c: Seq<char>|
                            table.intervals_for(c) == recs_filter(st2.recs, c) by {
                            assert(old_table.intervals_for(c) == recs_filter(st.recs, c));
                            assert(st2.recs.drop_last() =~= st.recs);
                            if c == fields@[0]@ {
                                assert(old_table.intervals_for(fields@[0]@) == recs_filter(
                                    st.recs,
                                    fields@[0]@,
                                ));
                                assert(table.intervals_for(fields@[0]@) == old_table.intervals_for(
                                    fields@[0]@,
                                ).push(iv));
                                assert(recs_filter(st2.recs, c) == recs_filter(
                                    st.recs,
                                    c,
                                ).push(iv));
                            } else {
                                assert(recs_filter(st2.recs, c) == recs_filter(st.recs, c));
                                assert(crate::table::spec_find(table.entries@, c)
                                    == crate::table::spec_find(old_table.entries@, c));
                            }
                        }
                    }
                },
            }
        } else {
            proof {
                assert(st2 == st);
            }
        }
        i += 1;
    }
    Ok(table)
}

} // verus!
