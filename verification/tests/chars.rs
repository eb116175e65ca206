use amble_lsp::chars::{
    char_is_whitespace, chars_contain, chars_eq_ignore_ascii_case,
    chars_parse_i64, chars_start_with, chars_to_ascii_lowercase, chars_to_ascii_uppercase,
    chars_utf16_len, find_char, from_chars, is_blank, join_chars, push_decimal,
    replace_in_chars, rfind_char, split_nonempty, str_eq, to_chars, trim_chars,
};
use amble_lsp::format::split_chars;

fn chars(s: &str) -> Vec<char> {
    s.chars().collect()
}

fn text(v: Vec<char>) -> String {
    v.into_iter().collect()
}

#[test]
fn strings_and_characters_convert_both_ways() {
    assert_eq!(to_chars("aé\u{1F600}"), vec!['a', 'é', '\u{1F600}']);
    assert_eq!(from_chars(&vec!['a', 'é', '\u{1F600}']), "aé\u{1F600}");
    assert_eq!(from_chars(&vec![]), "");
    assert!(str_eq("aé", "aé"));
    assert!(!str_eq("aé", "ae"));
    assert!(!str_eq("a", "ab"));
    assert!(str_eq("", ""));
}

#[test]
fn whitespace_is_what_unicode_says() {
    for c in [' ', '\t', '\n', '\u{b}', '\u{c}', '\r', '\u{85}', '\u{a0}', '\u{1680}',
        '\u{2000}', '\u{200a}', '\u{2028}', '\u{2029}', '\u{202f}', '\u{205f}', '\u{3000}'] {
        assert!(char_is_whitespace(c));
        assert!(c.is_whitespace());
    }
    for c in ['a', '\u{200b}', '\u{feff}', '\u{180e}', '\u{8}', '\u{e}', '_'] {
        assert!(!char_is_whitespace(c));
        assert!(!c.is_whitespace());
    }
}

#[test]
fn trimming_takes_whitespace_from_both_ends() {
    assert_eq!(text(trim_chars(&chars("  a b \n"))), "a b");
    assert_eq!(text(trim_chars(&chars("\u{a0}x\u{3000}"))), "x");
    assert_eq!(text(trim_chars(&chars(" \t "))), "");
    assert_eq!(text(trim_chars(&chars(""))), "");
    assert!(is_blank(&chars(" \n")));
    assert!(is_blank(&chars("")));
    assert!(!is_blank(&chars(" . ")));
}

#[test]
fn searching_finds_first_and_last() {
    assert_eq!(find_char(&chars("a#b#c"), '#'), Some(1));
    assert_eq!(rfind_char(&chars("a#b#c"), '#'), Some(3));
    assert_eq!(find_char(&chars("abc"), '#'), None);
    assert_eq!(rfind_char(&chars(""), '#'), None);
    assert!(chars_start_with(&chars("location x"), &chars("location")));
    assert!(!chars_start_with(&chars("loc"), &chars("location")));
    assert!(chars_start_with(&chars("x"), &chars("")));
    assert!(chars_contain(&chars("main hall"), &chars("n h")));
    assert!(chars_contain(&chars("main hall"), &chars("")));
    assert!(chars_contain(&chars("hall"), &chars("hall")));
    assert!(!chars_contain(&chars("hall"), &chars("halls")));
    assert!(!chars_contain(&chars("hall"), &chars("la")));
}

#[test]
fn replacing_and_joining() {
    assert_eq!(text(replace_in_chars(&chars("a|b||"), '|', &chars("\\|"))), "a\\|b\\|\\|");
    assert_eq!(text(replace_in_chars(&chars("abc"), 'x', &chars("yy"))), "abc");
    assert_eq!(text(replace_in_chars(&chars("aaa"), 'a', &chars(""))), "");
    assert_eq!(text(join_chars(&vec![chars("a"), chars(""), chars("b")], &chars(", "))), "a, , b");
    assert_eq!(text(join_chars(&vec![chars("a")], &chars(", "))), "a");
    assert_eq!(text(join_chars(&vec![], &chars(", "))), "");
}

#[test]
fn splitting_keeps_or_drops_empty_pieces() {
    let pieces: Vec<String> = split_chars(&chars("a//b/"), '/').into_iter().map(text).collect();
    assert_eq!(pieces, vec!["a", "", "b", ""]);
    let pieces: Vec<String> = split_chars(&chars(""), '/').into_iter().map(text).collect();
    assert_eq!(pieces, vec![""]);
    let pieces: Vec<String> = split_nonempty(&chars("/a//b/"), '/').into_iter().map(text).collect();
    assert_eq!(pieces, vec!["a", "b"]);
    assert!(split_nonempty(&chars("///"), '/').is_empty());
}

#[test]
fn ascii_case_leaves_other_letters_alone() {
    assert_eq!(text(chars_to_ascii_lowercase(&chars("FiXed Ä_9"))), "fixed Ä_9");
    assert_eq!(text(chars_to_ascii_uppercase(&chars("room ä-z"))), "ROOM ä-Z");
    assert!(chars_eq_ignore_ascii_case(&chars("DATA"), &chars("data")));
    assert!(chars_eq_ignore_ascii_case(&chars("Node_Modules"), &chars("node_modules")));
    assert!(!chars_eq_ignore_ascii_case(&chars("data"), &chars("dat")));
    assert!(!chars_eq_ignore_ascii_case(&chars("Ä"), &chars("ä")));
}

#[test]
fn whole_numbers_are_read_as_the_language_reads_them() {
    for s in ["0", "7", "-7", "+7", "007", "9223372036854775807", "-9223372036854775808",
        "9223372036854775808", "-9223372036854775809", "99999999999999999999999", "", "-", "+",
        " 1", "1 ", "1_0", "١", "--1", "+-1", "0x10", "1e3"] {
        assert_eq!(chars_parse_i64(&chars(s)), s.parse::<i64>().ok());
    }
}

#[test]
fn whole_numbers_are_written_in_decimal() {
    for n in [0i64, 1, 9, 10, 11, 99, 100, 12345, -1, -10, -12345, i64::MAX, i64::MIN] {
        let mut out = chars("n=");
        push_decimal(&mut out, n);
        assert_eq!(text(out), format!("n={}", n));
    }
}

#[test]
fn utf16_lengths_count_two_for_characters_beyond_the_basic_plane() {
    let v = chars("aé\u{ffff}\u{10000}\u{1F600}");
    assert_eq!(chars_utf16_len(&v, 0), 0);
    assert_eq!(chars_utf16_len(&v, 3), 3);
    assert_eq!(chars_utf16_len(&v, 4), 5);
    assert_eq!(chars_utf16_len(&v, 5), 7);
    let expected: usize = v.iter().map(|c| c.len_utf16()).sum();
    assert_eq!(chars_utf16_len(&v, v.len()), expected as u128);
}
