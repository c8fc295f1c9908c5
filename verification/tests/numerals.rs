use smartt::numeral::parse_u8;
use smartt::numeral::u8_to_string;

#[test]
fn parses_numerals_in_range() {
    assert_eq!(parse_u8("0"), Some(0));
    assert_eq!(parse_u8("1"), Some(1));
    assert_eq!(parse_u8("42"), Some(42));
    assert_eq!(parse_u8("255"), Some(255));
    assert_eq!(parse_u8("007"), Some(7));
    assert_eq!(parse_u8("000255"), Some(255));
}

#[test]
fn rejects_out_of_range_numerals() {
    assert_eq!(parse_u8("256"), None);
    assert_eq!(parse_u8("999"), None);
    assert_eq!(parse_u8("1024"), None);
}

#[test]
fn rejects_non_numerals() {
    assert_eq!(parse_u8(""), None);
    assert_eq!(parse_u8("abc"), None);
    assert_eq!(parse_u8("12a"), None);
    assert_eq!(parse_u8("+5"), None);
    assert_eq!(parse_u8("-1"), None);
    assert_eq!(parse_u8(" 5"), None);
    assert_eq!(parse_u8("5 "), None);
}

#[test]
fn prints_canonical_numerals() {
    assert_eq!(u8_to_string(0), "0");
    assert_eq!(u8_to_string(7), "7");
    assert_eq!(u8_to_string(10), "10");
    assert_eq!(u8_to_string(42), "42");
    assert_eq!(u8_to_string(100), "100");
    assert_eq!(u8_to_string(255), "255");
}

#[test]
fn printing_then_parsing_returns_the_value() {
    let mut v: u16 = 0;
    while v <= 255 {
        assert_eq!(parse_u8(&u8_to_string(v as u8)), Some(v as u8));
        v += 1;
    }
}
