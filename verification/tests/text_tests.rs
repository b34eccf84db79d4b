use cosmic_nas_indicator::mounts::words_of;
use cosmic_nas_indicator::text::{
    decimal_text, parse_u16, parse_u64, same_text, split_once_at, starts_with, text_lines, trimmed,
};

#[test]
fn trim_removes_unicode_whitespace_at_both_ends() {
    assert_eq!(trimmed(" \t host \u{3000}\r\n"), "host");
    assert_eq!(trimmed("   "), "");
    assert_eq!(trimmed("a b"), "a b");
    assert_eq!(trimmed("\u{A0}x\u{2009}"), "x");
}

#[test]
fn lines_follow_str_lines() {
    let cases = ["", "a", "a\n", "a\n\nb\n", "a\r\nb", "a\r", "\n", "x\r\r\n", "\r\n"];
    for case in cases {
        let expected: Vec<String> = case.lines().map(|l| l.to_string()).collect();
        assert_eq!(text_lines(case), expected, "lines of {:?}", case);
    }
}

#[test]
fn split_at_first_separator() {
    assert_eq!(
        split_once_at("share = a=b", '='),
        Some(("share ".to_string(), " a=b".to_string()))
    );
    assert_eq!(split_once_at("no separator", '='), None);
    assert_eq!(split_once_at("=", '='), Some((String::new(), String::new())));
}

#[test]
fn prefixes_and_equality() {
    assert!(starts_with("//host/share", "//"));
    assert!(!starts_with("/", "//"));
    assert!(starts_with("", ""));
    assert!(same_text("true", "true"));
    assert!(!same_text("true", "True"));
    assert!(!same_text("tru", "true"));
}

#[test]
fn numbers_parse_like_std() {
    let cases = [
        "445", "0", "+80", "65535", "65536", "", "+", "-1", " 1", "1 ", "00445", "12a",
        "99999999999999999999",
    ];
    for case in cases {
        assert_eq!(parse_u16(case), case.parse::<u16>().ok(), "u16 of {:?}", case);
        assert_eq!(parse_u64(case), case.parse::<u64>().ok(), "u64 of {:?}", case);
    }
    assert_eq!(parse_u64("18446744073709551615"), Some(u64::MAX));
    assert_eq!(parse_u64("18446744073709551616"), None);
}

#[test]
fn numbers_are_written_in_decimal() {
    assert_eq!(decimal_text(0), "0");
    assert_eq!(decimal_text(7), "7");
    assert_eq!(decimal_text(445), "445");
    assert_eq!(decimal_text(u64::MAX), u64::MAX.to_string());
}

#[test]
fn written_numbers_read_back() {
    for n in [0u64, 2, 10, 445, 65535, 1 << 40, u64::MAX] {
        assert_eq!(parse_u64(&decimal_text(n)), Some(n));
    }
    for n in [0u16, 1, 445, u16::MAX] {
        assert_eq!(parse_u16(&decimal_text(n as u64)), Some(n));
    }
}

#[test]
fn trim_and_words_match_std() {
    let cases = [
        "", " ", "a", " a b ", "\u{2003}x\u{85}y\u{202F}", "\t\n\r\u{0B}\u{0C}z", "a\u{200B}b",
        "//nas/data /mnt/nas cifs rw 0 0",
    ];
    for case in cases {
        assert_eq!(trimmed(case), case.trim(), "trim of {:?}", case);
        let expected: Vec<String> = case.split_whitespace().map(|w| w.to_string()).collect();
        assert_eq!(words_of(case), expected, "words of {:?}", case);
    }
}
