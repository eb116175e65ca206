use amble_lsp::spans::{
    flag_sequence_index, is_definition_parent_for_kind, normalize_flag_reference, range_contains,
};
use amble_lsp::symbols::SymbolKind;
use amble_lsp::text::{Position, Range};

fn range(start_line: u32, start_character: u32, end_line: u32, end_character: u32) -> Range {
    Range {
        start: Position { line: start_line, character: start_character },
        end: Position { line: end_line, character: end_character },
    }
}

#[test]
fn parses_flag_sequence_indices() {
    assert_eq!(flag_sequence_index("quest#3"), Some(3));
    assert_eq!(flag_sequence_index("quest#0"), Some(0));
    assert_eq!(flag_sequence_index("quest"), None);
    assert_eq!(flag_sequence_index("quest#x5"), None);
}

#[test]
fn flag_sequence_index_reads_the_leading_digits() {
    assert_eq!(flag_sequence_index("quest#12abc"), Some(12));
    assert_eq!(flag_sequence_index("quest#"), None);
    assert_eq!(flag_sequence_index("#7"), Some(7));
    assert_eq!(flag_sequence_index("a#1#2"), Some(1));
    assert_eq!(flag_sequence_index("q#9223372036854775807"), Some(i64::MAX));
    assert_eq!(flag_sequence_index("q#9223372036854775808"), None);
    assert_eq!(flag_sequence_index("q#-1"), None);
}

#[test]
fn flag_reference_is_indexed_under_its_base() {
    let (id, rename) = normalize_flag_reference("quest#3", &range(2, 4, 2, 11));
    assert_eq!(id, "quest");
    assert_eq!(rename, Some(range(2, 4, 2, 9)));
}

#[test]
fn flag_reference_without_step_keeps_its_name() {
    let (id, rename) = normalize_flag_reference("quest", &range(0, 0, 0, 5));
    assert_eq!(id, "quest");
    assert_eq!(rename, None);
    let (id, rename) = normalize_flag_reference("#3", &range(0, 0, 0, 2));
    assert_eq!(id, "#3");
    assert_eq!(rename, None);
}

#[test]
fn flag_reference_splits_on_the_last_hash() {
    let (id, rename) = normalize_flag_reference("a#b#3", &range(0, 10, 0, 15));
    assert_eq!(id, "a#b");
    assert_eq!(rename, Some(range(0, 10, 0, 13)));
}

#[test]
fn flag_rename_range_counts_utf16_units_and_stays_in_the_range() {
    let (id, rename) = normalize_flag_reference("q\u{1F600}#1", &range(0, 0, 0, 5));
    assert_eq!(id, "q\u{1F600}");
    assert_eq!(rename, Some(range(0, 0, 0, 3)));
    let (_, rename) = normalize_flag_reference("quest#1", &range(1, 2, 1, 4));
    assert_eq!(rename, Some(range(1, 2, 1, 4)));
    let (_, rename) = normalize_flag_reference("quest#1", &range(1, u32::MAX - 1, 1, u32::MAX));
    assert_eq!(rename, Some(range(1, u32::MAX - 1, 1, u32::MAX)));
}

#[test]
fn range_contains_counts_both_ends() {
    let r = range(1, 4, 3, 2);
    assert!(range_contains(&r, Position { line: 1, character: 4 }));
    assert!(range_contains(&r, Position { line: 3, character: 2 }));
    assert!(range_contains(&r, Position { line: 2, character: 0 }));
    assert!(range_contains(&r, Position { line: 2, character: 99 }));
    assert!(!range_contains(&r, Position { line: 1, character: 3 }));
    assert!(!range_contains(&r, Position { line: 3, character: 3 }));
    assert!(!range_contains(&r, Position { line: 0, character: 9 }));
    assert!(!range_contains(&r, Position { line: 4, character: 0 }));
}

#[test]
fn definition_parents_by_kind() {
    assert!(is_definition_parent_for_kind("room_def", SymbolKind::Room));
    assert!(!is_definition_parent_for_kind("room_def", SymbolKind::Item));
    assert!(is_definition_parent_for_kind("item_def", SymbolKind::Item));
    assert!(is_definition_parent_for_kind("npc_def", SymbolKind::Npc));
    assert!(is_definition_parent_for_kind("action_add_flag", SymbolKind::Flag));
    assert!(is_definition_parent_for_kind("action_add_seq", SymbolKind::Flag));
    assert!(!is_definition_parent_for_kind("action_advance", SymbolKind::Flag));
    assert!(is_definition_parent_for_kind("set_decl", SymbolKind::RoomSet));
}
