use orderbook_heatmap::fixed::parse_fixed;
use orderbook_heatmap::fmt::{fmt_i64, fmt_u64, pad3};
use orderbook_heatmap::render::price_label;

#[test]
fn fixed_parses_plain_decimals() {
    assert_eq!(parse_fixed("10.0"), Some(10_000_000));
    assert_eq!(parse_fixed("5"), Some(5_000_000));
    assert_eq!(parse_fixed("0"), Some(0));
    assert_eq!(parse_fixed("11.0"), Some(11_000_000));
    assert_eq!(parse_fixed("3"), Some(3_000_000));
    assert_eq!(parse_fixed("0.5"), Some(500_000));
    assert_eq!(parse_fixed(".5"), Some(500_000));
    assert_eq!(parse_fixed("10."), Some(10_000_000));
    assert_eq!(parse_fixed("0.000001"), Some(1));
}

#[test]
fn fixed_truncates_extra_fraction_digits() {
    assert_eq!(parse_fixed("0.1234567"), Some(123_456));
    assert_eq!(parse_fixed("1.9999999"), Some(1_999_999));
}

#[test]
fn fixed_rejects_non_numerals() {
    assert_eq!(parse_fixed("abc"), None);
    assert_eq!(parse_fixed(""), None);
    assert_eq!(parse_fixed("."), None);
    assert_eq!(parse_fixed("-1"), None);
    assert_eq!(parse_fixed("1e5"), None);
    assert_eq!(parse_fixed("1.2.3"), None);
    assert_eq!(parse_fixed("inf"), None);
    assert_eq!(parse_fixed("NaN"), None);
    assert_eq!(parse_fixed("1 0"), None);
}

#[test]
fn fixed_rejects_values_over_the_carrier() {
    // The largest carried value is u64::MAX millionths.
    assert_eq!(parse_fixed("18446744073709.551615"), Some(u64::MAX));
    assert_eq!(parse_fixed("18446744073709.551616"), None);
    assert_eq!(parse_fixed("99999999999999999999"), None);
}

#[test]
fn formatting_writes_decimal_text() {
    assert_eq!(fmt_u64(0), "0");
    assert_eq!(fmt_u64(1080), "1080");
    assert_eq!(fmt_i64(-5), "-5");
    assert_eq!(fmt_i64(2147483647), "2147483647");
    assert_eq!(pad3(0), "000");
    assert_eq!(pad3(42), "042");
    assert_eq!(pad3(999), "999");
}

#[test]
fn price_labels_round_to_three_decimals() {
    assert_eq!(price_label(10_000_000), "10.000");
    assert_eq!(price_label(1_234_567), "1.235");
    assert_eq!(price_label(999), "0.001");
    assert_eq!(price_label(499), "0.000");
}
