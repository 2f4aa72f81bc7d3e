use wifimanager::text::{
    decimal_text, find_bytes, find_word, hex_text, parse_number, same_text, split, starts_with, trim,
    white,
};

#[test]
fn white_space_is_the_unicode_property() {
    for n in 0..=0x10ffffu32 {
        if let Some(c) = char::from_u32(n) {
            assert_eq!(white(c), c.is_whitespace(), "{:x}", n);
        }
    }
}

#[test]
fn words_are_found() {
    let v: Vec<char> = "  GET\t/x ".chars().collect();
    assert_eq!(find_word(&v, 0), (2, 5));
    assert_eq!(find_word(&v, 5), (6, 8));
    assert_eq!(find_word(&v, 8), (9, 9));
}

#[test]
fn trimming_takes_white_space_from_both_ends() {
    assert_eq!(trim(" \u{3000}a b\r\n"), "a b");
    assert_eq!(trim(" \t "), "");
    assert_eq!(trim(""), "");
    assert_eq!(trim("x"), "x");
}

#[test]
fn splitting_agrees_with_the_standard_library() {
    for s in ["", "&", "a", "a&b", "&&a&", "a&&b", "ä&ö"] {
        let expected: Vec<&str> = s.split("&").collect();
        assert_eq!(split(s, "&"), expected);
    }
    for s in ["", "\r\n", "a\r\r\nb", "\r\n\r\n", "a\r\nb\r\n", "\n\r"] {
        let expected: Vec<&str> = s.split("\r\n").collect();
        assert_eq!(split(s, "\r\n"), expected);
    }
}

#[test]
fn numbers_are_read_as_the_standard_library_reads_them() {
    for s in [
        "0", "7", "007", "+5", "++5", "-1", "-0", "", "+", "1 2", "12a", "4294967295", "4294967296",
        "99999999999999999999", "\u{0661}",
    ] {
        assert_eq!(
            parse_number(s, u32::MAX as u64),
            s.parse::<u32>().ok().map(|n| n as u64),
            "{}",
            s
        );
    }
    assert_eq!(parse_number("18446744073709551615", u64::MAX), Some(u64::MAX));
    assert_eq!(parse_number("18446744073709551616", u64::MAX), None);
}

#[test]
fn numbers_are_written() {
    for n in [0, 1, 9, 10, 255, 4096, 1234567890, u64::MAX] {
        assert_eq!(decimal_text(n), format!("{}", n));
        assert_eq!(hex_text(n), format!("{:X}", n));
        assert_eq!(parse_number(&decimal_text(n), u64::MAX), Some(n));
    }
}

#[test]
fn bytes_are_found_where_they_first_stand() {
    assert_eq!(find_bytes(b"ab\r\n\r\ncd\r\n\r\n", b"\r\n\r\n"), Some(2));
    assert_eq!(find_bytes(b"\r\r\n\r\n", b"\r\n\r\n"), Some(1));
    assert_eq!(find_bytes(b"\r\n\r", b"\r\n\r\n"), None);
    assert_eq!(find_bytes(b"", b"\r\n"), None);
}

#[test]
fn texts_are_compared() {
    assert!(same_text("/list", "/list"));
    assert!(!same_text("/list", "/lisT"));
    assert!(!same_text("/list", "/lists"));
    assert!(starts_with("/update?x", "/update"));
    assert!(starts_with("/update", "/update"));
    assert!(!starts_with("/updat", "/update"));
}
