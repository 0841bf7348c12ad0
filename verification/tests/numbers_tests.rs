use itch_io_downloader::numbers::{int_to_string, parse_int_at};

#[test]
fn renders_decimal_values() {
    assert_eq!(int_to_string(0), "0");
    assert_eq!(int_to_string(7), "7");
    assert_eq!(int_to_string(-7), "-7");
    assert_eq!(int_to_string(1203), "1203");
    assert_eq!(int_to_string(-1000000), "-1000000");
    assert_eq!(int_to_string(i64::MAX), "9223372036854775807");
    assert_eq!(int_to_string(i64::MIN), "-9223372036854775808");
}

#[test]
fn parses_what_it_renders() {
    for v in [0i64, 1, -1, 42, -999, i64::MAX, i64::MIN] {
        let s = int_to_string(v);
        let (parsed, end) = parse_int_at(&s, 0).unwrap();
        assert_eq!(parsed, v);
        assert_eq!(end, s.chars().count());
    }
}

#[test]
fn parses_up_to_the_first_non_digit() {
    let (v, end) = parse_int_at("123,rest", 0).unwrap();
    assert_eq!(v, 123);
    assert_eq!(end, 3);
    let (v, end) = parse_int_at("x-45}", 1).unwrap();
    assert_eq!(v, -45);
    assert_eq!(end, 4);
}

#[test]
fn rejects_non_canonical_forms() {
    assert!(parse_int_at("", 0).is_none());
    assert!(parse_int_at("-", 0).is_none());
    assert!(parse_int_at("abc", 0).is_none());
    assert!(parse_int_at("007", 0).is_none());
    assert!(parse_int_at("-0", 0).is_none());
    assert!(parse_int_at("9223372036854775808", 0).is_none());
    assert!(parse_int_at("-9223372036854775809", 0).is_none());
    assert!(parse_int_at("123456789012345678901234567890", 0).is_none());
}

#[test]
fn accepts_the_extreme_values() {
    assert_eq!(parse_int_at("9223372036854775807", 0).unwrap().0, i64::MAX);
    assert_eq!(parse_int_at("-9223372036854775808", 0).unwrap().0, i64::MIN);
}
