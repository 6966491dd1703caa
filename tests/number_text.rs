use univsrg::number_text::{format_i32, format_u32, parse_i32, parse_u32};

#[test]
fn parses_unsigned_text() {
    assert_eq!(parse_u32("0"), Some(0));
    assert_eq!(parse_u32("+7"), Some(7));
    assert_eq!(parse_u32("4294967295"), Some(u32::MAX));
    assert_eq!(parse_u32("4294967296"), None);
    assert_eq!(parse_u32("-1"), None);
    assert_eq!(parse_u32(""), None);
    assert_eq!(parse_u32("+"), None);
    assert_eq!(parse_u32("4.5"), None);
    assert_eq!(parse_u32(" 4"), None);
}

#[test]
fn parses_signed_text() {
    assert_eq!(parse_i32("-2147483648"), Some(i32::MIN));
    assert_eq!(parse_i32("2147483647"), Some(i32::MAX));
    assert_eq!(parse_i32("2147483648"), None);
    assert_eq!(parse_i32("-2147483649"), None);
    assert_eq!(parse_i32("-15"), Some(-15));
    assert_eq!(parse_i32("+15"), Some(15));
    assert_eq!(parse_i32("-"), None);
    assert_eq!(parse_i32("1e3"), None);
}

#[test]
fn formats_integers() {
    assert_eq!(format_u32(0), "0");
    assert_eq!(format_u32(4294967295), "4294967295");
    assert_eq!(format_i32(-2147483648), "-2147483648");
    assert_eq!(format_i32(1000), "1000");
    for n in [i32::MIN, -1, 0, 9, 10, 99, 100, 123456, i32::MAX] {
        assert_eq!(parse_i32(&format_i32(n)), Some(n));
        assert_eq!(format_i32(n), n.to_string());
    }
}
