use kanjisabi::parse::{parse_conf, parse_i32, parse_u32};

#[test]
fn unsigned_numerals() {
    assert_eq!(parse_u32("0"), Some(0));
    assert_eq!(parse_u32("+5"), Some(5));
    assert_eq!(parse_u32("4294967295"), Some(u32::MAX));
    assert_eq!(parse_u32("4294967296"), None);
    assert_eq!(parse_u32(""), None);
    assert_eq!(parse_u32("+"), None);
    assert_eq!(parse_u32("12a"), None);
    assert_eq!(parse_u32("-1"), None);
}

#[test]
fn signed_numerals() {
    assert_eq!(parse_i32("10"), Some(10));
    assert_eq!(parse_i32("-10"), Some(-10));
    assert_eq!(parse_i32("+7"), Some(7));
    assert_eq!(parse_i32("2147483647"), Some(i32::MAX));
    assert_eq!(parse_i32("2147483648"), None);
    assert_eq!(parse_i32("-2147483648"), Some(i32::MIN));
    assert_eq!(parse_i32("-2147483649"), None);
    assert_eq!(parse_i32("-"), None);
    assert_eq!(parse_i32("1.0"), None);
}

#[test]
fn confidence_decimals() {
    assert_eq!(parse_conf("96.063843"), Some(9607));
    assert_eq!(parse_conf("80"), Some(8000));
    assert_eq!(parse_conf("80."), Some(8000));
    assert_eq!(parse_conf(".5"), Some(50));
    assert_eq!(parse_conf("80.00"), Some(8000));
    assert_eq!(parse_conf("80.001"), Some(8001));
    assert_eq!(parse_conf("-1"), Some(0));
    assert_eq!(parse_conf("100"), Some(10000));
    assert_eq!(parse_conf("1000"), Some(10000));
    assert_eq!(parse_conf("."), None);
    assert_eq!(parse_conf(""), None);
    assert_eq!(parse_conf("9 6"), None);
    assert_eq!(parse_conf("9.6.3"), None);
}
