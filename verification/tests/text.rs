use singeros::text::{blank, parse_u64, str_eq, to_chars, u64_to_decimal};

#[test]
fn decimal_spelling_of_numbers() {
    assert_eq!(u64_to_decimal(0), "0");
    assert_eq!(u64_to_decimal(7), "7");
    assert_eq!(u64_to_decimal(1234567890123), "1234567890123");
    assert_eq!(u64_to_decimal(u64::MAX), "18446744073709551615");
}

#[test]
fn parse_u64_matches_std() {
    for s in ["42", "+7", "", "+", "-1", "007", "18446744073709551615", "18446744073709551616", "1a", " 1", "1 ", "++1"] {
        assert_eq!(parse_u64(s), s.parse::<u64>().ok(), "input {s:?}");
    }
    assert_eq!(parse_u64("+7"), Some(7));
    assert_eq!(parse_u64("18446744073709551616"), None);
}

#[test]
fn decimal_then_parse_roundtrips() {
    for n in [0u64, 1, 9, 10, 99, 100, 65535, 1 << 40, u64::MAX - 1, u64::MAX] {
        assert_eq!(parse_u64(&u64_to_decimal(n)), Some(n));
    }
}

#[test]
fn blank_means_only_white_space() {
    assert!(blank(""));
    assert!(blank(" \t\n\u{3000}"));
    assert!(!blank(" a "));
    assert!(!blank("\u{200b}"));
}

#[test]
fn chars_and_equality() {
    assert_eq!(to_chars("héllo"), vec!['h', 'é', 'l', 'l', 'o']);
    assert!(str_eq("歌", "歌"));
    assert!(!str_eq("a", "ab"));
}
