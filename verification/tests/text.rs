use mget::http::range_header;
use mget::text::{chars_of, parse_u64, to_decimal};

#[test]
fn decimal_of_numbers() {
    assert_eq!(to_decimal(0), "0");
    assert_eq!(to_decimal(7), "7");
    assert_eq!(to_decimal(10), "10");
    assert_eq!(to_decimal(1234567890), "1234567890");
    assert_eq!(to_decimal(u64::MAX), "18446744073709551615");
}

#[test]
fn numbers_from_decimal() {
    assert_eq!(parse_u64(b"0"), Some(0));
    assert_eq!(parse_u64(b"007"), Some(7));
    assert_eq!(parse_u64(b"+42"), Some(42));
    assert_eq!(parse_u64(b"1000"), Some(1000));
    assert_eq!(parse_u64(b"18446744073709551615"), Some(u64::MAX));
}

#[test]
fn what_is_no_number() {
    assert_eq!(parse_u64(b""), None);
    assert_eq!(parse_u64(b"+"), None);
    assert_eq!(parse_u64(b"-1"), None);
    assert_eq!(parse_u64(b"++1"), None);
    assert_eq!(parse_u64(b"12a"), None);
    assert_eq!(parse_u64(b" 12"), None);
    assert_eq!(parse_u64(b"12 "), None);
    assert_eq!(parse_u64(b"18446744073709551616"), None);
    assert_eq!(parse_u64(b"18446744073709551620"), None);
    assert_eq!(parse_u64(b"99999999999999999999999"), None);
}

#[test]
fn parse_agrees_with_the_standard_library() {
    for text in ["0", "1", "+1", "-1", "", "+", "18446744073709551615", "18446744073709551616", "1_0", "٣"] {
        assert_eq!(parse_u64(text.as_bytes()), text.parse::<u64>().ok(), "{:?}", text);
    }
    for n in [0u64, 9, 10, 99, 100, 12345, u64::MAX - 1, u64::MAX] {
        assert_eq!(parse_u64(to_decimal(n).as_bytes()), Some(n));
        assert_eq!(to_decimal(n), format!("{}", n));
    }
}

#[test]
fn characters_of_a_text() {
    assert_eq!(chars_of("aé\u{3000}z"), vec!['a', 'é', '\u{3000}', 'z']);
    assert_eq!(chars_of(""), Vec::<char>::new());
}

#[test]
fn range_of_an_interior_segment() {
    assert_eq!(range_header(0, Some(332)), "bytes=0-332");
    assert_eq!(range_header(333, Some(665)), "bytes=333-665");
}

#[test]
fn range_of_the_last_segment() {
    assert_eq!(range_header(666, None), "bytes=666-");
    assert_eq!(range_header(6, None), "bytes=6-");
}
