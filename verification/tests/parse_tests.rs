use methfast::is_gzip_magic;
use methfast::nums::{parse_frac_lossy, parse_i32_lossy};
use methfast::split::split_fields;
use methfast::targets::parse_target_line;

#[test]
fn integers_parse_lossily() {
    assert_eq!(parse_i32_lossy("42"), 42);
    assert_eq!(parse_i32_lossy("-7"), -7);
    assert_eq!(parse_i32_lossy("+13"), 13);
    assert_eq!(parse_i32_lossy("0"), 0);
    assert_eq!(parse_i32_lossy("2147483647"), 2147483647);
    assert_eq!(parse_i32_lossy("-2147483648"), -2147483648);
    assert_eq!(parse_i32_lossy("2147483648"), 0);
    assert_eq!(parse_i32_lossy("12x"), 0);
    assert_eq!(parse_i32_lossy(""), 0);
    assert_eq!(parse_i32_lossy("-"), 0);
}

#[test]
fn fractions_parse_lossily_in_millionths() {
    assert_eq!(parse_frac_lossy("0.5"), 500_000);
    assert_eq!(parse_frac_lossy("1"), 1_000_000);
    assert_eq!(parse_frac_lossy("1.0"), 1_000_000);
    assert_eq!(parse_frac_lossy("0"), 0);
    assert_eq!(parse_frac_lossy(".25"), 250_000);
    assert_eq!(parse_frac_lossy("3."), 3_000_000);
    assert_eq!(parse_frac_lossy("0.6666666"), 666_666);
    assert_eq!(parse_frac_lossy("-0.25"), -250_000);
    assert_eq!(parse_frac_lossy("abc"), 0);
    assert_eq!(parse_frac_lossy("."), 0);
    assert_eq!(parse_frac_lossy(""), 0);
    assert_eq!(parse_frac_lossy("12.5.3"), 0);
    assert_eq!(parse_frac_lossy("10000"), 0);
}

#[test]
fn fields_split_on_any_whitespace_run() {
    let f = split_fields("chr1  10\t11   0.5 4");
    assert_eq!(f, vec!["chr1", "10", "11", "0.5", "4"]);
    assert_eq!(split_fields(""), Vec::<String>::new());
    assert_eq!(split_fields("   \t "), Vec::<String>::new());
}

#[test]
fn target_lines_need_three_tab_columns() {
    let t = parse_target_line("chr1\t5\t10\textra\tfields").unwrap();
    assert_eq!(t.chrom, "chr1");
    assert_eq!(t.start, 5);
    assert_eq!(t.end, 10);

    assert!(parse_target_line("chr1\t5").is_none());
    assert!(parse_target_line("chr1").is_none());
    assert!(parse_target_line("").is_none());

    let bad = parse_target_line("chr1\tx\ty").unwrap();
    assert_eq!(bad.start, 0);
    assert_eq!(bad.end, 0);
}

#[test]
fn gzip_magic_is_three_bytes() {
    assert!(is_gzip_magic(&[0x1f, 0x8b, 0x08]));
    assert!(is_gzip_magic(&[0x1f, 0x8b, 0x08, 0x00]));
    assert!(!is_gzip_magic(&[0x1f, 0x8b]));
    assert!(!is_gzip_magic(&[0x1f, 0x8b, 0x09]));
    assert!(!is_gzip_magic(&[]));
}
