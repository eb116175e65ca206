use amble_lsp::chars::{from_chars, to_chars};
use amble_lsp::extract::{normalize_string_literal, unquote_literal};

fn unquote(literal: &str, decoded: Option<&str>) -> String {
    from_chars(&unquote_literal(&to_chars(literal), decoded.map(|s| s.to_string())))
}

#[test]
fn double_quoted_literals_are_decoded() {
    assert_eq!(normalize_string_literal("\"Test Room\""), "Test Room");
    assert_eq!(normalize_string_literal("\"a\\nb\""), "a\nb");
    assert_eq!(normalize_string_literal("\"quote \\\" inside\""), "quote \" inside");
    assert_eq!(normalize_string_literal("\"\\u00e9\""), "é");
    assert_eq!(normalize_string_literal("\"\""), "");
}

#[test]
fn undecodable_double_quoted_literals_lose_their_quotes() {
    assert_eq!(normalize_string_literal("\"bad \\q escape\""), "bad \\q escape");
    assert_eq!(normalize_string_literal("\"line\nbreak\""), "line\nbreak");
}

#[test]
fn triple_quoted_literals_keep_their_text() {
    assert_eq!(normalize_string_literal("\"\"\"line1\nline2\"\"\""), "line1\nline2");
    assert_eq!(normalize_string_literal("\"\"\"\"\"\""), "");
    assert_eq!(normalize_string_literal("\"\"\"\\n\"\"\""), "\\n");
}

#[test]
fn single_quoted_literals_lose_their_quotes() {
    assert_eq!(normalize_string_literal("'abc'"), "abc");
    assert_eq!(normalize_string_literal("''"), "");
    assert_eq!(normalize_string_literal("'''abc'''"), "''abc''");
}

#[test]
fn other_text_stands_for_itself() {
    assert_eq!(normalize_string_literal("plain"), "plain");
    assert_eq!(normalize_string_literal(""), "");
    assert_eq!(normalize_string_literal("'"), "'");
    assert_eq!(normalize_string_literal("\"open"), "\"open");
    assert_eq!(normalize_string_literal("r#\"{curly}\"#"), "r#\"{curly}\"#");
}

#[test]
fn a_lone_double_quote_stands_for_nothing() {
    assert_eq!(normalize_string_literal("\""), "");
}

#[test]
fn unquote_uses_the_decoded_text_only_between_double_quotes() {
    assert_eq!(unquote("\"a\"", Some("decoded")), "decoded");
    assert_eq!(unquote("\"a\"", None), "a");
    assert_eq!(unquote("'a'", Some("decoded")), "a");
    assert_eq!(unquote("\"\"\"a\"\"\"", Some("decoded")), "a");
    assert_eq!(unquote("a", Some("decoded")), "a");
}
