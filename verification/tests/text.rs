use blockdev::number::{decimal_text, parse_u64};
use blockdev::path::{join, name_of};
use blockdev::text::{same_text, split_lines, starts_with, trim_end};
use std::path::Path;

#[test]
fn numbers_are_written_in_decimal() {
    for n in [0, 7, 9, 10, 99, 100, 1234567890, u64::MAX] {
        assert_eq!(decimal_text(n), n.to_string());
        assert_eq!(parse_u64(&decimal_text(n)), Ok(n));
    }
    assert_ne!(decimal_text(1), decimal_text(10));
}

#[test]
fn numbers_are_parsed_as_the_standard_library_does() {
    for text in [
        "", "+", "-", "0", "+0", "-0", "007", "+12", "++1", "1+", " 1", "1 ", "1_0", "0x1",
        "18446744073709551615", "18446744073709551616", "+18446744073709551615",
        "99999999999999999999", "99999999999999999999x", "9999999999999999999x",
        "x99999999999999999999", "00000000000000000000000000001", "\u{663}", "12\u{663}",
        "1844674407370955161x6", "184467440737095516150",
    ] {
        let found = parse_u64(text).map_err(|fault| fault.to_text());
        assert_eq!(found, text.parse::<u64>().map_err(|e| e.to_string()), "{:?}", text);
    }
    assert_eq!(parse_u64("+12"), Ok(12));
}

#[test]
fn file_names_are_those_of_the_standard_library() {
    for path in [
        "", "/", "//", ".", "..", "/..", "a", "/a", "a/", "a//", "/dev/sda", "/dev/sda/",
        "/dev/sda/.", "/dev/sda/./", "/dev/sda/..", "/dev/./sda", "./", "./.", "./a", "a/.",
        "a/..", "a/../b", ".a", "..a", "...", "a/...", "/dev/größe", "a/./.", "/./.", ".//.",
    ] {
        let expected = Path::new(path).file_name().map(|n| n.to_str().unwrap().to_string());
        assert_eq!(name_of(path), expected, "{:?}", path);
    }
    assert_eq!(name_of("/dev/sda/./"), Some("sda".to_string()));
}

#[test]
fn joined_names_are_file_names() {
    assert_eq!(join("/sys/block", "sda"), "/sys/block/sda");
    assert_eq!(name_of(&join("/sys/block", "sda")), Some("sda".to_string()));
    assert_eq!(name_of(&join("..", "...")), Some("...".to_string()));
}

#[test]
fn lines_are_those_of_the_standard_library() {
    for text in [
        "", "\n", "\n\n", "a", "a\n", "a\nb", "a\r\nb\r\n", "a\r", "a\r\r\n", "\r\n", "\r",
        "a\n\nb", "ä\nö", "a\u{2028}b",
    ] {
        let expected: Vec<&str> = text.lines().collect();
        assert_eq!(split_lines(text), expected, "{:?}", text);
    }
}

#[test]
fn texts_are_compared_by_their_characters() {
    assert!(same_text("", "") && same_text("aä", "aä"));
    assert!(!same_text("a", "ä") && !same_text("a", "aa") && !same_text("a", ""));
    assert!(starts_with("abc", "") && starts_with("abc", "ab") && starts_with("äb", "ä"));
    assert!(!starts_with("ab", "abc") && !starts_with("abc", "b"));
    assert_eq!(trim_end("ab c \n"), "ab c");
}
