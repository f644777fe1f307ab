use asterctl::format_value::{format_value, IntegerDigits};

fn fv(value: &str, digits: i32, decimals: usize, unit: &str) -> String {
    format_value(value, IntegerDigits::from(digits), decimals, unit)
}

#[test]
fn test_format_value_with_decimal() {
    assert_eq!("00123.46\u{b0}C", fv("123.456", 5, 2, "\u{b0}C"));
    assert_eq!("00123.5\u{b0}C", fv("123.456", 5, 1, "\u{b0}C"));
    assert_eq!("00123\u{b0}C", fv("123.456", 5, 0, "\u{b0}C"));
    assert_eq!("123.46\u{b0}C", fv("123.456", -1, 2, "\u{b0}C"));
    assert_eq!("123.5\u{b0}C", fv("123.456", -1, 1, "\u{b0}C"));
    assert_eq!("123\u{b0}C", fv("123.456", -1, 0, "\u{b0}C"));
    assert_eq!("99\u{b0}C", fv("123.456", 2, 0, "\u{b0}C"));
}

#[test]
fn test_format_value_with_integer() {
    assert_eq!("00123.00\u{b0}C", fv("123", 5, 2, "\u{b0}C"));
    assert_eq!("00123.0\u{b0}C", fv("123", 5, 1, "\u{b0}C"));
    assert_eq!("00123\u{b0}C", fv("123", 5, 0, "\u{b0}C"));
    assert_eq!("123.00\u{b0}C", fv("123", -1, 2, "\u{b0}C"));
    assert_eq!("123.0\u{b0}C", fv("123", -1, 1, "\u{b0}C"));
    assert_eq!("123\u{b0}C", fv("123", -1, 0, "\u{b0}C"));
    assert_eq!("99\u{b0}C", fv("123", 2, 0, "\u{b0}C"));
}

#[test]
fn test_format_value_with_negative_integer() {
    assert_eq!("-0123.00\u{b0}C", fv("-123", 5, 2, "\u{b0}C"));
    assert_eq!("-0123\u{b0}C", fv("-123", 5, 0, "\u{b0}C"));
    assert_eq!("-123.00\u{b0}C", fv("-123", -1, 2, "\u{b0}C"));
    assert_eq!("-123.0\u{b0}C", fv("-123", -1, 1, "\u{b0}C"));
    assert_eq!("-123\u{b0}C", fv("-123", -1, 0, "\u{b0}C"));
    assert_eq!("99\u{b0}C", fv("-123", 2, 0, "\u{b0}C"));
}

#[test]
fn test_format_value_edge_cases() {
    assert_eq!("000.0V", fv("0", 3, 1, "V"));
    assert_eq!("99.0%", fv("999.99", 2, 1, "%"));
    assert_eq!("invalidunit", fv("invalid", 2, 2, "unit"));
}

#[test]
fn test_format_value_rounding() {
    assert_eq!("02.0", fv("1.999", 2, 1, ""));
    assert_eq!("02", fv("1.999", 2, 0, ""));
    assert_eq!("2.0", fv("1.999", 1, 1, ""));
    assert_eq!("2.0", fv("1.999", -1, 1, ""));
    assert_eq!("1.00", fv("0.999", 1, 2, ""));
    assert_eq!("1.0", fv("0.999", 1, 1, ""));
    assert_eq!("1", fv("0.999", 1, 0, ""));
    assert_eq!("124", fv("123.6", -1, 0, ""));
}

#[test]
fn format_value_auto_keeps_natural_width() {
    let value = format_value("123.456", IntegerDigits::Auto, 0, "foobar");
    assert_eq!(value, "123foobar");
}

#[test]
fn format_value_zero_policy_drops_integer_part() {
    assert_eq!(".5", fv("0.45", 0, 1, ""));
    assert_eq!("", fv("7", 0, 0, ""));
}

#[test]
fn format_value_passthrough_keeps_unit() {
    assert_eq!("n/aC", fv("n/a", 5, 2, "C"));
    assert_eq!("", fv("", -1, 0, ""));
    assert_eq!("1e5x", fv("1e5", -1, 0, "x"));
}

#[test]
fn format_value_sign_of_small_negative_is_dropped() {
    // the integer part of -0.4 is 0, so the sign disappears
    assert_eq!("0.4", fv("-0.4", -1, 1, ""));
    assert_eq!("-1", fv("-0.6", -1, 0, ""));
}
