use feeder_service::binance_depth::format_notional_compact;
use feeder_service::fixed::parse_fixed;
use feeder_service::fmt::format_integer;

#[test]
fn parse_fixed_reads_plain_decimals() {
    assert_eq!(parse_fixed("24100.10"), Some(2_410_010_000_000));
    assert_eq!(parse_fixed("0.00000001"), Some(1));
    assert_eq!(parse_fixed("5"), Some(500_000_000));
    assert_eq!(parse_fixed("5."), Some(500_000_000));
    assert_eq!(parse_fixed(".5"), Some(50_000_000));
    assert_eq!(parse_fixed("0"), Some(0));
}

#[test]
fn parse_fixed_rejects_everything_else() {
    assert_eq!(parse_fixed(""), None);
    assert_eq!(parse_fixed("."), None);
    assert_eq!(parse_fixed("1.2.3"), None);
    assert_eq!(parse_fixed("1e3"), None);
    assert_eq!(parse_fixed("-1"), None);
    assert_eq!(parse_fixed("+1"), None);
    assert_eq!(parse_fixed("NaN"), None);
    assert_eq!(parse_fixed("inf"), None);
    assert_eq!(parse_fixed("1 "), None);
    // More than 8 fractional digits exceed the fixed-point resolution.
    assert_eq!(parse_fixed("0.123456789"), None);
    // Too large for a 64-bit amount.
    assert_eq!(parse_fixed("999999999999999999999"), None);
}

#[test]
fn format_integer_renders_decimal_digits() {
    assert_eq!(format_integer(0), "0");
    assert_eq!(format_integer(7), "7");
    assert_eq!(format_integer(120034), "120034");
    assert_eq!(format_integer(u64::MAX as u128), "18446744073709551615");
}

#[test]
fn compact_notional_rounds_half_up_at_branch_edges() {
    const NOTIONAL: u128 = 10_000_000_000_000_000;
    // 999.96 rounds up to 1000 but stays in the integer branch.
    assert_eq!(format_notional_compact(9_999_600_000_000_000_000), "1000");
    assert_eq!(format_notional_compact(1_000 * NOTIONAL), "1.0K");
    assert_eq!(format_notional_compact(999 * NOTIONAL), "999");
    assert_eq!(format_notional_compact(1_000_000 * NOTIONAL), "1.00M");
}
