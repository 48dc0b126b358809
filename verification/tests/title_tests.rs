use thread_opener::text::split_lines;
use thread_opener::title::{derive_title, url_title_from_parts};

fn derived(content: &str) -> Option<String> {
    derive_title(&split_lines(content))
}

#[test]
fn colon_prefix_is_the_title() {
    assert_eq!(derived("Bug: app crashes on launch"), Some("Bug".to_string()));
}

#[test]
fn colon_prefix_of_exactly_100_chars_is_accepted() {
    let prefix = "a".repeat(100);
    let content = format!("{}: rest", prefix);
    assert_eq!(derived(&content), Some(prefix));
}

#[test]
fn colon_prefix_over_100_chars_is_rejected() {
    let content = format!("{}: rest", "a".repeat(101));
    assert_eq!(derived(&content), None);
}

#[test]
fn empty_colon_prefix_is_rejected() {
    assert_eq!(derived(": leading separator"), None);
}

#[test]
fn colon_rule_beats_url_rule() {
    assert_eq!(
        derived("Bug: see below\nhttps://example.com/details"),
        Some("Bug".to_string())
    );
}

#[test]
fn separator_on_later_line_does_not_split_the_first() {
    assert_eq!(derived("plain first line\nnote: detail"), None);
}

#[test]
fn github_url_yields_second_path_segment() {
    assert_eq!(
        derived("https://github.com/ownerX/repoY/issues/3"),
        Some("repoY".to_string())
    );
}

#[test]
fn gitlab_url_yields_second_path_segment() {
    assert_eq!(
        derived("https://gitlab.com/groupZ/projectW"),
        Some("projectW".to_string())
    );
}

#[test]
fn github_url_with_one_segment_yields_nothing() {
    assert_eq!(derived("https://github.com/onlyowner"), None);
}

#[test]
fn single_segment_url_yields_the_segment() {
    assert_eq!(derived("https://example.com/onlyseg"), Some("onlyseg".to_string()));
}

#[test]
fn multi_segment_url_falls_back_to_host() {
    assert_eq!(derived("https://example.com/a/b"), Some("example.com".to_string()));
}

#[test]
fn url_without_path_segments_yields_host() {
    assert_eq!(derived("https://example.com"), Some("example.com".to_string()));
}

#[test]
fn trailing_slash_leaves_one_nonempty_segment() {
    assert_eq!(derived("https://example.com/seg/"), Some("seg".to_string()));
}

#[test]
fn malformed_url_lines_are_skipped() {
    assert_eq!(
        derived("not a url at all\nhttps://example.com/one"),
        Some("one".to_string())
    );
}

#[test]
fn content_without_separator_or_url_yields_nothing() {
    assert_eq!(derived("just words\nmore words"), None);
}

#[test]
fn empty_content_yields_nothing() {
    assert_eq!(derived(""), None);
}

fn segs(parts: &[&str]) -> Vec<String> {
    parts.iter().map(|p| p.to_string()).collect()
}

#[test]
fn parts_of_a_forge_host_pick_the_second_segment() {
    let r = url_title_from_parts("github.com".to_string(), &segs(&["ownerX", "repoY", "issues"]));
    assert_eq!(r, Some("repoY".to_string()));
    let r = url_title_from_parts("gitlab.com".to_string(), &segs(&["one"]));
    assert_eq!(r, None);
}

#[test]
fn parts_of_another_host_pick_the_single_nonempty_segment() {
    let r = url_title_from_parts("example.com".to_string(), &segs(&["", "only", ""]));
    assert_eq!(r, Some("only".to_string()));
}

#[test]
fn parts_with_several_nonempty_segments_fall_back_to_the_host() {
    let r = url_title_from_parts("example.com".to_string(), &segs(&["a", "b"]));
    assert_eq!(r, Some("example.com".to_string()));
    let r = url_title_from_parts("example.com".to_string(), &segs(&[""]));
    assert_eq!(r, Some("example.com".to_string()));
}
