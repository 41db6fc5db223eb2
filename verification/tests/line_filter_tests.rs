use grep_iced::line_filter::{filter, line_contains, split_lines};

fn strings(items: &[&str]) -> Vec<String> {
    items.iter().map(|s| s.to_string()).collect()
}

#[test]
fn empty_document_yields_no_lines() {
    assert_eq!(filter("", "a"), strings(&[]));
    assert_eq!(filter("", ""), strings(&[]));
    assert_eq!(filter("", "xyz"), strings(&[]));
    assert_eq!(split_lines(""), strings(&[]));
}

#[test]
fn empty_term_keeps_all_lines() {
    assert_eq!(
        filter("apple\nbanana\ncherry", ""),
        strings(&["apple", "banana", "cherry"])
    );
}

#[test]
fn substring_selects_matching_lines() {
    assert_eq!(filter("apple\nbanana\ncherry", "an"), strings(&["banana"]));
}

#[test]
fn unmatched_term_yields_nothing() {
    assert_eq!(filter("apple\nbanana\ncherry", "xyz"), strings(&[]));
}

#[test]
fn trailing_terminator_makes_no_phantom_line() {
    assert_eq!(filter("line1\nline2\n", "line"), strings(&["line1", "line2"]));
    assert_eq!(split_lines("a\nb\n"), strings(&["a", "b"]));
    assert_eq!(split_lines("a\nb"), strings(&["a", "b"]));
}

#[test]
fn carriage_return_before_newline_is_stripped() {
    assert_eq!(split_lines("a\r\nb\r\n"), strings(&["a", "b"]));
    assert_eq!(filter("one\r\ntwo\r\nthree", "t"), strings(&["two", "three"]));
}

#[test]
fn lone_carriage_return_stays_in_the_line() {
    assert_eq!(split_lines("a\rb"), strings(&["a\rb"]));
    assert_eq!(split_lines("a\r"), strings(&["a\r"]));
    assert_eq!(split_lines("a\r\r\n"), strings(&["a\r"]));
}

#[test]
fn blank_lines_are_kept_as_empty_lines() {
    assert_eq!(split_lines("a\n\nb\n\n"), strings(&["a", "", "b", ""]));
    assert_eq!(split_lines("\n"), strings(&[""]));
    assert_eq!(filter("a\n\nb", ""), strings(&["a", "", "b"]));
}

#[test]
fn matching_lines_keep_their_relative_order() {
    assert_eq!(filter("x1\ny\nx2\ny\nx3", "x"), strings(&["x1", "x2", "x3"]));
    assert_eq!(filter("x1\ny\nx2\ny\nx3", "y"), strings(&["y", "y"]));
}

#[test]
fn line_content_is_not_modified() {
    assert_eq!(filter("  spaced   words  \nplain", "words"), strings(&["  spaced   words  "]));
}

#[test]
fn contains_finds_inner_substrings() {
    assert!(line_contains("banana", "an"));
    assert!(line_contains("banana", "banana"));
    assert!(line_contains("hello", "he"));
    assert!(line_contains("hello", "lo"));
    assert!(!line_contains("hello", "ol"));
}

#[test]
fn contains_is_case_sensitive() {
    assert!(!line_contains("Apple", "apple"));
    assert!(line_contains("Apple", "pple"));
}

#[test]
fn every_line_contains_the_empty_term() {
    assert!(line_contains("", ""));
    assert!(line_contains("abc", ""));
}

#[test]
fn term_longer_than_line_never_matches() {
    assert!(!line_contains("ab", "abc"));
    assert!(!line_contains("", "x"));
}

#[test]
fn characters_outside_ascii_are_matched_by_character() {
    assert_eq!(filter("na\u{ef}ve\ncaf\u{e9}", "\u{e9}"), strings(&["caf\u{e9}"]));
    assert!(line_contains("na\u{ef}ve", "a\u{ef}v"));
}
