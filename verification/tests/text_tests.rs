use tuat_feed::text::{normalize_date_chars, parse_u32_chars, trim_chars, u32_chars};

fn chars(s: &str) -> Vec<char> {
    s.chars().collect()
}

fn string(v: Vec<char>) -> String {
    v.into_iter().collect()
}

#[test]
fn date_normalization() {
    assert_eq!(string(normalize_date_chars(&chars("2021/10/07(Thu)"))), "2021-10-07");
}

#[test]
fn date_without_parenthesis_keeps_everything() {
    assert_eq!(string(normalize_date_chars(&chars("2021/10/07"))), "2021-10-07");
}

#[test]
fn date_strips_from_last_parenthesis_only() {
    assert_eq!(string(normalize_date_chars(&chars("a(b)c(d)"))), "a(b)c");
}

#[test]
fn trim_strips_both_ends() {
    assert_eq!(string(trim_chars(&chars("  hello \u{3000}"))), "hello");
    assert_eq!(string(trim_chars(&chars("\u{3000}\t\n"))), "");
    assert_eq!(string(trim_chars(&chars("a b"))), "a b");
}

#[test]
fn parse_u32_reads_digits() {
    assert_eq!(parse_u32_chars(&chars("0")), Some(0));
    assert_eq!(parse_u32_chars(&chars("10641")), Some(10641));
    assert_eq!(parse_u32_chars(&chars("4294967295")), Some(u32::MAX));
}

#[test]
fn parse_u32_rejects_bad_input() {
    assert_eq!(parse_u32_chars(&chars("")), None);
    assert_eq!(parse_u32_chars(&chars("12a")), None);
    assert_eq!(parse_u32_chars(&chars("-1")), None);
    assert_eq!(parse_u32_chars(&chars("4294967296")), None);
}

#[test]
fn u32_decimal_notation() {
    assert_eq!(string(u32_chars(0)), "0");
    assert_eq!(string(u32_chars(10641)), "10641");
    assert_eq!(string(u32_chars(u32::MAX)), "4294967295");
}
