use thread_opener::config::parse_channel_list;
use thread_opener::text::{find_sep_str, parse_u64_str, split_lines, split_str, str_eq, trim_str};

#[test]
fn parse_u64_accepts_plain_digits() {
    assert_eq!(parse_u64_str("123"), Some(123));
}

#[test]
fn parse_u64_accepts_a_leading_plus() {
    assert_eq!(parse_u64_str("+5"), Some(5));
}

#[test]
fn parse_u64_accepts_the_largest_value() {
    assert_eq!(parse_u64_str("18446744073709551615"), Some(u64::MAX));
}

#[test]
fn parse_u64_rejects_overflow() {
    assert_eq!(parse_u64_str("18446744073709551616"), None);
}

#[test]
fn parse_u64_rejects_empty_input() {
    assert_eq!(parse_u64_str(""), None);
    assert_eq!(parse_u64_str("+"), None);
}

#[test]
fn parse_u64_rejects_stray_characters() {
    assert_eq!(parse_u64_str("12a"), None);
    assert_eq!(parse_u64_str(" 12"), None);
    assert_eq!(parse_u64_str("-3"), None);
}

#[test]
fn trim_removes_surrounding_whitespace_only() {
    assert_eq!(trim_str("  a b\t"), "a b".to_string());
    assert_eq!(trim_str(""), "".to_string());
    assert_eq!(trim_str(" \t "), "".to_string());
}

#[test]
fn split_lines_handles_both_line_endings() {
    assert_eq!(split_lines("a\r\nb\nc"), vec!["a", "b", "c"]);
}

#[test]
fn split_lines_opens_no_line_after_a_trailing_terminator() {
    assert_eq!(split_lines("a\n"), vec!["a"]);
    assert_eq!(split_lines(""), Vec::<String>::new());
}

#[test]
fn split_lines_keeps_a_bare_carriage_return() {
    assert_eq!(split_lines("x\r"), vec!["x\r"]);
}

#[test]
fn split_str_keeps_empty_pieces() {
    assert_eq!(split_str("a,,b", ','), vec!["a", "", "b"]);
    assert_eq!(split_str("", ','), vec![""]);
    assert_eq!(split_str("a,", ','), vec!["a", ""]);
}

#[test]
fn find_sep_str_finds_the_first_separator() {
    assert_eq!(find_sep_str("ab: c: d"), Some(2));
    assert_eq!(find_sep_str("no separator"), None);
    assert_eq!(find_sep_str("colon:but no space"), None);
}

#[test]
fn str_eq_compares_by_characters() {
    assert!(str_eq("github.com", "github.com"));
    assert!(!str_eq("github.com", "gitlab.com"));
    assert!(!str_eq("a", "ab"));
}

#[test]
fn channel_list_parses_trimmed_entries() {
    assert_eq!(parse_channel_list("1, 2,3"), Some(vec![1, 2, 3]));
    assert_eq!(parse_channel_list(" 42 "), Some(vec![42]));
}

#[test]
fn channel_list_rejects_any_bad_entry() {
    assert_eq!(parse_channel_list("1,,2"), None);
    assert_eq!(parse_channel_list(""), None);
    assert_eq!(parse_channel_list("1,x"), None);
}
