use rustlab::pattern::matches_pattern;
use rustlab::text::{
    chars_of, decimal_chars, lines_of, parse_i32, parse_i64, split_whitespace_chars,
    strip_comment, trim, trim_received_text,
};

fn s(v: &[char]) -> String {
    v.iter().collect()
}

#[test]
fn trimming() {
    assert_eq!(trim("\t a b \u{3000}"), "a b");
    assert_eq!(trim_received_text("\0\0 x \0"), "x");
    assert_eq!(trim_received_text(" \0x"), "\0x");
    assert_eq!(trim_received_text("\0 x \0"), "x");
    assert_eq!(trim(""), "");
}

#[test]
fn splitting() {
    let words: Vec<String> =
        split_whitespace_chars(&chars_of("  a\tbc \u{a0}d  ")).iter().map(|w| s(w)).collect();
    assert_eq!(words, vec!["a", "bc", "d"]);
    let lines: Vec<String> = lines_of(&chars_of("a\r\nb\n\nc\r")).iter().map(|w| s(w)).collect();
    assert_eq!(lines, vec!["a", "b", "", "c\r"]);
    assert_eq!(lines_of(&chars_of("x\n")).len(), 1);
    assert_eq!(s(&strip_comment(&chars_of("a - b -- c -- d"))), "a - b ");
}

#[test]
fn integers() {
    assert_eq!(parse_i64(&chars_of("-9223372036854775808")), Some(i64::MIN));
    assert_eq!(parse_i64(&chars_of("9223372036854775808")), None);
    assert_eq!(parse_i64(&chars_of("+12")), Some(12));
    assert_eq!(parse_i64(&chars_of("-")), None);
    assert_eq!(parse_i64(&chars_of("1a")), None);
    assert_eq!(parse_i32(&chars_of("2147483648")), None);
    assert_eq!(parse_i32(&chars_of("-2147483648")), Some(i32::MIN));
    assert_eq!(s(&decimal_chars(-120)), "-120");
    assert_eq!(s(&decimal_chars(i64::MIN)), i64::MIN.to_string());
    assert_eq!(s(&decimal_chars(0)), "0");
}

#[test]
fn regex_matching() {
    assert!(matches_pattern(r"^\d+$", "123"));
    assert!(!matches_pattern(r"^\d+$", "12a"));
    assert!(!matches_pattern(r"(", "("));
}
