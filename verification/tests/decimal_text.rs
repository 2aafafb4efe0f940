use spacing_calculator::decimal::{digit_value, format_decimal, parse_decimal, push_decimal, push_integer};

#[test]
fn parses_plain_decimals() {
    assert_eq!(parse_decimal("0.8"), Some(800_000));
    assert_eq!(parse_decimal("0"), Some(0));
    assert_eq!(parse_decimal("0.0"), Some(0));
    assert_eq!(parse_decimal("12"), Some(12_000_000));
    assert_eq!(parse_decimal("0.03125"), Some(31_250));
    assert_eq!(parse_decimal("0.000001"), Some(1));
    assert_eq!(parse_decimal("007.50"), Some(7_500_000));
}

#[test]
fn parses_with_one_side_of_the_point_empty() {
    assert_eq!(parse_decimal("1."), Some(1_000_000));
    assert_eq!(parse_decimal(".5"), Some(500_000));
    assert_eq!(parse_decimal("."), None);
}

#[test]
fn parses_the_largest_text_of_the_grammar() {
    assert_eq!(parse_decimal("999999999.999999"), Some(999_999_999_999_999));
}

#[test]
fn rejects_texts_outside_the_grammar() {
    assert_eq!(parse_decimal(""), None);
    assert_eq!(parse_decimal("abc"), None);
    assert_eq!(parse_decimal("-1"), None);
    assert_eq!(parse_decimal("+1"), None);
    assert_eq!(parse_decimal(" 1"), None);
    assert_eq!(parse_decimal("1 "), None);
    assert_eq!(parse_decimal("1e5"), None);
    assert_eq!(parse_decimal("1.2.3"), None);
    assert_eq!(parse_decimal("1..2"), None);
    assert_eq!(parse_decimal("1,5"), None);
    assert_eq!(parse_decimal("inf"), None);
    assert_eq!(parse_decimal("NaN"), None);
    assert_eq!(parse_decimal("\u{663}"), None);
}

#[test]
fn rejects_too_many_digits() {
    assert_eq!(parse_decimal("0.0000001"), None);
    assert_eq!(parse_decimal("1234567890"), None);
    assert_eq!(parse_decimal("1234567890.5"), None);
    assert_eq!(parse_decimal("123456789"), Some(123_456_789_000_000));
}

#[test]
fn digit_values() {
    assert_eq!(digit_value('0'), Some(0));
    assert_eq!(digit_value('7'), Some(7));
    assert_eq!(digit_value('9'), Some(9));
    assert_eq!(digit_value('a'), None);
    assert_eq!(digit_value('.'), None);
    assert_eq!(digit_value('/'), None);
    assert_eq!(digit_value(':'), None);
}

#[test]
fn formats_shortest_text() {
    assert_eq!(format_decimal(0), "0");
    assert_eq!(format_decimal(50_000), "0.05");
    assert_eq!(format_decimal(500_000), "0.5");
    assert_eq!(format_decimal(31_250), "0.03125");
    assert_eq!(format_decimal(1_000_000), "1");
    assert_eq!(format_decimal(1_500_000), "1.5");
    assert_eq!(format_decimal(1), "0.000001");
    assert_eq!(format_decimal(12_345_678), "12.345678");
    assert_eq!(format_decimal(100_000_000), "100");
    assert_eq!(format_decimal(10_000_010), "10.00001");
    assert_eq!(format_decimal(u64::MAX), "18446744073709.551615");
}

#[test]
fn pushes_behind_what_is_there() {
    let mut out = String::from("n=");
    push_integer(&mut out, 0);
    push_integer(&mut out, 1203);
    assert_eq!(out, "n=01203");
    let mut out = String::from("t=");
    push_decimal(&mut out, 375_000);
    assert_eq!(out, "t=0.375");
}

#[test]
fn formatted_text_parses_back() {
    let samples: [u64; 12] = [
        0,
        1,
        9,
        10,
        21_500,
        31_250,
        39_200,
        999_999,
        1_000_000,
        1_000_001,
        123_456_789_012,
        999_999_999_999_999,
    ];
    for v in samples {
        assert_eq!(parse_decimal(&format_decimal(v)), Some(v));
    }
}
