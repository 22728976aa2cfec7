use office_oxide::number::{parse_i32_str, parse_numeric_i32, parse_numeric_u32, parse_u32_str};

#[test]
fn integers_as_from_str_reads_them() {
    assert_eq!(parse_u32_str("+42"), Some(42));
    assert_eq!(parse_u32_str("-0"), None);
    assert_eq!(parse_u32_str("4294967296"), None);
    assert_eq!(parse_i32_str("-2147483648"), Some(i32::MIN));
    assert_eq!(parse_i32_str("2147483648"), None);
    assert_eq!(parse_i32_str(""), None);
    assert_eq!(parse_i32_str("+"), None);
    assert_eq!(parse_i32_str(" 1"), None);
}

#[test]
fn measurements_drop_units_and_truncate_decimals() {
    assert_eq!(parse_numeric_u32("20pt"), Some(20));
    assert_eq!(parse_numeric_u32("720"), Some(720));
    assert_eq!(parse_numeric_u32("12.95pt"), Some(12));
    assert_eq!(parse_numeric_u32("12.4"), Some(12));
    assert_eq!(parse_numeric_u32("50%"), Some(50));
    assert_eq!(parse_numeric_u32("-0.4"), Some(0));
    assert_eq!(parse_numeric_u32("-0.5"), Some(0));
    assert_eq!(parse_numeric_u32("-1.5"), None);
    assert_eq!(parse_numeric_i32("-1.5"), Some(-1));
    assert_eq!(parse_numeric_i32(".5"), Some(0));
    assert_eq!(parse_numeric_i32("1.2.3"), None);
    assert_eq!(parse_numeric_i32("abc"), None);
    assert_eq!(parse_numeric_u32("abc"), None);
}

#[test]
fn measurements_read_exponents() {
    assert_eq!(parse_numeric_u32("1.5e2"), Some(150));
    assert_eq!(parse_numeric_u32("2.5E+1pt"), Some(25));
    assert_eq!(parse_numeric_u32("1.5e-1"), Some(0));
    assert_eq!(parse_numeric_u32("1.e1"), Some(10));
    assert_eq!(parse_numeric_u32("1.25e1"), Some(12));
    assert_eq!(parse_numeric_u32("1.5e99"), None);
    assert_eq!(parse_numeric_u32("0.0e99"), Some(0));
    assert_eq!(parse_numeric_u32("1.5e-99999999999999999999999"), Some(0));
    assert_eq!(parse_numeric_i32("-4.2e3"), Some(-4200));
    assert_eq!(parse_numeric_u32("1.5e+"), None);
}
