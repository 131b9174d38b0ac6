use methfast::aggregate::{aggregate_target, compute_target_line, lower_bound_end};
use methfast::batch::{compute_all_lines, compute_all_lines_parallel};
use methfast::builder::{derive_values, parse_meth_bed, BuildError, ColConfig};
use methfast::model::{MethInterval, TargetInterval};
use methfast::table::MethRanges;

fn iv(start: i32, end: i32, frac_scaled: i64, coverage: i64) -> MethInterval {
    MethInterval { start, end, frac_scaled, coverage }
}

fn default_cols() -> ColConfig {
    ColConfig { frac_col: 4, cov_col: 5, meth_col: 0, unmeth_col: 0 }
}

#[test]
fn computes_weighted_fraction_from_intervals() {
    let mut ranges = MethRanges::new();
    ranges.push_interval("chr1".to_string(), iv(10, 11, 1_000_000, 5));
    ranges.push_interval("chr1".to_string(), iv(12, 13, 500_000, 10));
    ranges.push_interval("chr1".to_string(), iv(20, 21, 0, 3));

    let target = TargetInterval { chrom: "chr1".to_string(), start: 9, end: 14 };
    let line = compute_target_line(&ranges, &target);
    assert_eq!(line, "chr1\t9\t14\t2\t15\t0.6667");
}

#[test]
fn finds_first_candidate_interval_with_binary_search() {
    let intervals = vec![
        iv(1, 2, 0, 1),
        iv(5, 6, 0, 1),
        iv(10, 11, 0, 1),
    ];
    assert_eq!(lower_bound_end(&intervals, 0), 0);
    assert_eq!(lower_bound_end(&intervals, 2), 1);
    assert_eq!(lower_bound_end(&intervals, 6), 2);
    assert_eq!(lower_bound_end(&intervals, 11), 3);
}

#[test]
fn zero_coverage_yields_zero_weighted_fraction() {
    let intervals = vec![iv(10, 11, 750_000, 0)];
    let a = aggregate_target(&intervals, 5, 20);
    assert_eq!(a.num_positions, 1);
    assert_eq!(a.total_coverage, 0);
    assert_eq!(a.weighted_fraction_e4, 0);

    let mut ranges = MethRanges::new();
    ranges.push_interval("chr1".to_string(), iv(10, 11, 750_000, 0));
    let target = TargetInterval { chrom: "chr1".to_string(), start: 5, end: 20 };
    assert_eq!(compute_target_line(&ranges, &target), "chr1\t5\t20\t1\t0\t0.0000");
}

#[test]
fn unknown_chromosome_yields_zero_row() {
    let mut ranges = MethRanges::new();
    ranges.push_interval("chr1".to_string(), iv(10, 11, 1_000_000, 5));
    let target = TargetInterval { chrom: "chr9".to_string(), start: 1, end: 100 };
    assert_eq!(compute_target_line(&ranges, &target), "chr9\t1\t100\t0\t0\t0.0000");
}

#[test]
fn end_to_end_weighted_rows_from_text() {
    let meth_lines = vec![
        "chr1 10 11 1.0 5".to_string(),
        "chr1 12 13 0.5 10".to_string(),
        "chr1 20 21 0.0 3".to_string(),
    ];
    let ranges = parse_meth_bed(&meth_lines, default_cols()).unwrap();
    let target_lines = vec![
        "chr1\t9\t14".to_string(),
        "chr2\t1\t5".to_string(),
    ];
    let targets = methfast::targets::parse_targets(&target_lines);
    let rows = compute_all_lines(&ranges, &targets);
    assert_eq!(rows, vec![
        "chr1\t9\t14\t2\t15\t0.6667".to_string(),
        "chr2\t1\t5\t0\t0\t0.0000".to_string(),
    ]);
}

#[test]
fn parallel_rows_match_sequential_rows() {
    let mut meth_lines = Vec::new();
    for i in 0..200 {
        meth_lines.push(format!("chr1 {} {} 0.25 4", 10 * i, 10 * i + 5));
    }
    let ranges = parse_meth_bed(&meth_lines, default_cols()).unwrap();
    let mut targets = Vec::new();
    for i in 0..100 {
        targets.push(TargetInterval { chrom: "chr1".to_string(), start: 7 * i, end: 7 * i + 40 });
    }
    let sequential = compute_all_lines(&ranges, &targets);
    let with_one = compute_all_lines_parallel(&ranges, &targets, 1);
    let with_four = compute_all_lines_parallel(&ranges, &targets, 4);
    assert_eq!(sequential, with_one);
    assert_eq!(sequential, with_four);
}

#[test]
fn unsorted_input_is_a_fatal_error() {
    let meth_lines = vec![
        "chr1 10 20 0.5 5".to_string(),
        "chr1 15 25 0.5 5".to_string(),
    ];
    let err = parse_meth_bed(&meth_lines, default_cols()).unwrap_err();
    assert!(matches!(err, BuildError::NotSorted { linenum: 2, .. }));
    assert_eq!(
        err.message(),
        "Error: Methylation BED file is not sorted. Exiting...\nLine 2: chr1 10 20, then chr1 15 25"
    );
}

#[test]
fn new_chromosome_resets_the_sort_check() {
    let meth_lines = vec![
        "chr1 10 20 0.5 5".to_string(),
        "chr2 5 8 0.5 5".to_string(),
        "chr2 8 12 0.5 5".to_string(),
    ];
    assert!(parse_meth_bed(&meth_lines, default_cols()).is_ok());
}

#[test]
fn short_records_are_skipped_silently() {
    let meth_lines = vec![
        "track header".to_string(),
        "chr1 10 11 0.5 4".to_string(),
        "chr1 12".to_string(),
        "chr1 15 16 0.5 4".to_string(),
    ];
    let ranges = parse_meth_bed(&meth_lines, default_cols()).unwrap();
    let target = TargetInterval { chrom: "chr1".to_string(), start: 0, end: 100 };
    assert_eq!(compute_target_line(&ranges, &target), "chr1\t0\t100\t2\t8\t0.5000");
}

#[test]
fn bad_column_configuration_is_a_fatal_error() {
    let meth_lines = vec!["chr1 10 11 0.5 4".to_string()];
    let cols = ColConfig { frac_col: 9, cov_col: 9, meth_col: 0, unmeth_col: 0 };
    let err = parse_meth_bed(&meth_lines, cols).unwrap_err();
    assert!(matches!(err, BuildError::InvalidColumns));
    assert_eq!(err.message(), "Error: invalid column indices");
}

#[test]
fn count_columns_take_priority_over_fraction_columns() {
    let fields = vec![
        "chr1".to_string(),
        "10".to_string(),
        "11".to_string(),
        "5".to_string(),
        "5".to_string(),
    ];
    // Both the count pair (columns 4 and 5) and the fraction/coverage pair
    // (columns 4 and 5) apply; the count pair must win.
    let cols = ColConfig { frac_col: 4, cov_col: 5, meth_col: 4, unmeth_col: 5 };
    assert_eq!(derive_values(&fields, cols), Some((500_000, 10)));
}

#[test]
fn meth_and_coverage_columns_derive_the_fraction() {
    let fields = vec![
        "chr1".to_string(),
        "10".to_string(),
        "11".to_string(),
        "3".to_string(),
        "12".to_string(),
    ];
    let cols = ColConfig { frac_col: 0, cov_col: 5, meth_col: 4, unmeth_col: 0 };
    assert_eq!(derive_values(&fields, cols), Some((250_000, 12)));
}

#[test]
fn reordering_non_overlapping_intervals_keeps_the_aggregate() {
    // Two loads of the same intervals, arriving in different file orders
    // that both satisfy the sort invariant per chromosome.
    let mut a = MethRanges::new();
    a.push_interval("chr2".to_string(), iv(1, 2, 100_000, 7));
    a.push_interval("chr1".to_string(), iv(10, 11, 1_000_000, 5));
    a.push_interval("chr1".to_string(), iv(12, 13, 500_000, 10));

    let mut b = MethRanges::new();
    b.push_interval("chr1".to_string(), iv(10, 11, 1_000_000, 5));
    b.push_interval("chr1".to_string(), iv(12, 13, 500_000, 10));
    b.push_interval("chr2".to_string(), iv(1, 2, 100_000, 7));

    let target = TargetInterval { chrom: "chr1".to_string(), start: 9, end: 14 };
    assert_eq!(compute_target_line(&a, &target), compute_target_line(&b, &target));
    let target2 = TargetInterval { chrom: "chr2".to_string(), start: 0, end: 5 };
    assert_eq!(compute_target_line(&a, &target2), compute_target_line(&b, &target2));
}

#[test]
fn duplicate_targets_are_processed_independently() {
    let mut ranges = MethRanges::new();
    ranges.push_interval("chr1".to_string(), iv(10, 11, 1_000_000, 5));
    let t = TargetInterval { chrom: "chr1".to_string(), start: 9, end: 14 };
    let targets = vec![t.clone(), t.clone(), t];
    let rows = compute_all_lines(&ranges, &targets);
    assert_eq!(rows.len(), 3);
    assert_eq!(rows[0], rows[1]);
    assert_eq!(rows[1], rows[2]);
}

#[test]
fn negative_counts_degrade_without_faulting() {
    let meth_lines = vec!["chr1 10 11 -5 10".to_string()];
    let cols = ColConfig { frac_col: 0, cov_col: 5, meth_col: 4, unmeth_col: 0 };
    let ranges = parse_meth_bed(&meth_lines, cols).unwrap();
    let target = TargetInterval { chrom: "chr1".to_string(), start: 9, end: 12 };
    assert_eq!(compute_target_line(&ranges, &target), "chr1\t9\t12\t1\t10\t-0.5000");
}

#[test]
fn fractions_above_one_are_kept_as_given() {
    let meth_lines = vec!["chr1 10 11 2.5 4".to_string()];
    let ranges = parse_meth_bed(&meth_lines, default_cols()).unwrap();
    let target = TargetInterval { chrom: "chr1".to_string(), start: 9, end: 12 };
    assert_eq!(compute_target_line(&ranges, &target), "chr1\t9\t12\t1\t4\t2.5000");
}

#[test]
fn half_open_boundaries_exclude_touching_intervals() {
    let mut ranges = MethRanges::new();
    ranges.push_interval("chr1".to_string(), iv(5, 9, 1_000_000, 4));
    let touching_left = TargetInterval { chrom: "chr1".to_string(), start: 9, end: 12 };
    assert_eq!(compute_target_line(&ranges, &touching_left), "chr1\t9\t12\t0\t0\t0.0000");
    let touching_right = TargetInterval { chrom: "chr1".to_string(), start: 0, end: 5 };
    assert_eq!(compute_target_line(&ranges, &touching_right), "chr1\t0\t5\t0\t0\t0.0000");
    let inside = TargetInterval { chrom: "chr1".to_string(), start: 8, end: 9 };
    assert_eq!(compute_target_line(&ranges, &inside), "chr1\t8\t9\t1\t4\t1.0000");
}

#[test]
fn table_sort_check_detects_backwards_ends() {
    let mut good = MethRanges::new();
    good.push_interval("chr1".to_string(), iv(1, 5, 0, 1));
    good.push_interval("chr1".to_string(), iv(5, 9, 0, 1));
    assert!(good.check_sorted());

    let mut bad = MethRanges::new();
    bad.push_interval("chr1".to_string(), iv(1, 9, 0, 1));
    bad.push_interval("chr1".to_string(), iv(2, 5, 0, 1));
    assert!(!bad.check_sorted());
}
