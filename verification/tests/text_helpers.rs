use docx_comment_json::anchors::heading_level_from_style;
use docx_comment_json::text::{parse_usize, split_context_window, trim_trailing_newlines};

#[test]
fn heading_levels_follow_the_style_name() {
    assert_eq!(heading_level_from_style("Title"), Some(0));
    assert_eq!(heading_level_from_style("Heading1"), Some(1));
    assert_eq!(heading_level_from_style("Heading12"), Some(12));
    assert_eq!(heading_level_from_style("Heading+2"), Some(2));
    assert_eq!(heading_level_from_style("Heading"), None);
    assert_eq!(heading_level_from_style("Heading2a"), None);
    assert_eq!(heading_level_from_style("Normal"), None);
    assert_eq!(heading_level_from_style("heading1"), None);
}

#[test]
fn parse_usize_reads_decimal_digits_from_an_offset() {
    let chars: Vec<char> = "x42".chars().collect();
    assert_eq!(parse_usize(&chars, 1), Some(42));
    assert_eq!(parse_usize(&chars, 0), None);
    assert_eq!(parse_usize(&chars, 3), None);
    let plus: Vec<char> = "+".chars().collect();
    assert_eq!(parse_usize(&plus, 0), None);
    let huge: Vec<char> = "99999999999999999999999".chars().collect();
    assert_eq!(parse_usize(&huge, 0), None);
}

#[test]
fn context_window_splits_around_the_first_occurrence() {
    assert_eq!(
        split_context_window("前導入の説明後", "導入の説明"),
        Some((Some("前".to_string()), Some("後".to_string())))
    );
    assert_eq!(split_context_window("同じ", "同じ"), Some((None, None)));
    assert_eq!(split_context_window("abc", ""), Some((None, None)));
    assert_eq!(split_context_window("abc", "x"), None);
    assert_eq!(split_context_window("abcab", "ab"), Some((None, Some("cab".to_string()))));
}

#[test]
fn context_window_keeps_at_most_eighty_characters_each_side() {
    let before = "b".repeat(100);
    let after = "a".repeat(90);
    let full = format!("{before}X{after}");
    let (left, right) = split_context_window(&full, "X").expect("snippet occurs");
    assert_eq!(left, Some("b".repeat(80)));
    assert_eq!(right, Some("a".repeat(80)));
}

#[test]
fn trailing_line_feeds_are_trimmed() {
    assert_eq!(trim_trailing_newlines("a\nb\n\n".to_string()), "a\nb");
    assert_eq!(trim_trailing_newlines("\n".to_string()), "");
    assert_eq!(trim_trailing_newlines("a\r\n".to_string()), "a\r");
}
