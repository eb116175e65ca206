use amble_lsp::text::{slice_text, Document, LineIndex, Position, Range};

fn pos(line: u32, character: u32) -> Position {
    Position { line, character }
}

#[test]
fn offsets_of_positions_on_plain_lines() {
    let doc = Document::new("ab\ncde\n".to_string());
    assert_eq!(doc.text(), "ab\ncde\n");
    assert_eq!(doc.offset(pos(0, 0)), Some(0));
    assert_eq!(doc.offset(pos(0, 2)), Some(2));
    assert_eq!(doc.offset(pos(0, 3)), None);
    assert_eq!(doc.offset(pos(1, 0)), Some(3));
    assert_eq!(doc.offset(pos(1, 3)), Some(6));
    assert_eq!(doc.offset(pos(1, 4)), None);
    assert_eq!(doc.offset(pos(2, 0)), Some(7));
    assert_eq!(doc.offset(pos(2, 1)), None);
    assert_eq!(doc.offset(pos(3, 0)), None);
}

#[test]
fn offsets_count_utf16_units() {
    // 'é' takes two bytes and one unit, the emoji four bytes and two units.
    let doc = Document::new("é\u{1F600}x".to_string());
    assert_eq!(doc.offset(pos(0, 0)), Some(0));
    assert_eq!(doc.offset(pos(0, 1)), Some(2));
    assert_eq!(doc.offset(pos(0, 2)), None);
    assert_eq!(doc.offset(pos(0, 3)), Some(6));
    assert_eq!(doc.offset(pos(0, 4)), Some(7));
    assert_eq!(doc.offset(pos(0, 5)), None);
}

#[test]
fn positions_of_offsets() {
    let doc = Document::new("ab\ncde\n".to_string());
    assert_eq!(doc.position_at(0), pos(0, 0));
    assert_eq!(doc.position_at(2), pos(0, 2));
    assert_eq!(doc.position_at(3), pos(1, 0));
    assert_eq!(doc.position_at(5), pos(1, 2));
    assert_eq!(doc.position_at(6), pos(1, 3));
    assert_eq!(doc.position_at(7), pos(2, 0));
    assert_eq!(doc.position_at(700), pos(2, 0));
}

#[test]
fn positions_count_utf16_units() {
    let doc = Document::new("a\né\u{1F600}x".to_string());
    assert_eq!(doc.position_at(2), pos(1, 0));
    assert_eq!(doc.position_at(4), pos(1, 1));
    assert_eq!(doc.position_at(8), pos(1, 3));
    assert_eq!(doc.position_at(9), pos(1, 4));
}

#[test]
fn position_and_offset_agree() {
    let text = "room a {\n    exit north -> \u{1F600}b\n}\n";
    let doc = Document::new(text.to_string());
    for (offset, _) in text.char_indices() {
        let p = doc.position_at(offset);
        assert_eq!(doc.offset(p), Some(offset));
    }
    assert_eq!(doc.offset(doc.position_at(text.len())), Some(text.len()));
}

#[test]
fn range_spans_the_whole_text() {
    assert_eq!(
        Document::new(String::new()).range(),
        Range { start: pos(0, 0), end: pos(0, 0) }
    );
    assert_eq!(
        Document::new("ab\ncd".to_string()).range(),
        Range { start: pos(0, 0), end: pos(1, 2) }
    );
    assert_eq!(
        Document::new("ab\ncd\n".to_string()).range(),
        Range { start: pos(0, 0), end: pos(2, 0) }
    );
    assert_eq!(
        Document::new("\u{1F600}".to_string()).range(),
        Range { start: pos(0, 0), end: pos(0, 2) }
    );
}

#[test]
fn line_index_finds_lines() {
    let index = LineIndex::new("ab\ncde\n\nx");
    assert_eq!(index.line_count(), 4);
    assert_eq!(index.line_start(0), Some(0));
    assert_eq!(index.line_start(1), Some(3));
    assert_eq!(index.line_start(2), Some(7));
    assert_eq!(index.line_start(3), Some(8));
    assert_eq!(index.line_start(4), None);
    assert_eq!(index.line_for_offset(0), 0);
    assert_eq!(index.line_for_offset(2), 0);
    assert_eq!(index.line_for_offset(3), 1);
    assert_eq!(index.line_for_offset(6), 1);
    assert_eq!(index.line_for_offset(7), 2);
    assert_eq!(index.line_for_offset(8), 3);
    assert_eq!(index.line_for_offset(1000), 3);
}

#[test]
fn cloned_document_keeps_its_text() {
    let doc = Document::new("a\nb".to_string());
    let copy = doc.clone();
    assert_eq!(copy.text(), "a\nb");
    assert_eq!(copy.position_at(2), pos(1, 0));
}

#[test]
fn slices_follow_byte_offsets() {
    let text = "aé\u{1F600}b";
    let all: String = slice_text(text, 0, text.len()).into_iter().collect();
    assert_eq!(all, text);
    let mid: String = slice_text(text, 1, 7).into_iter().collect();
    assert_eq!(mid, "é\u{1F600}");
    assert!(slice_text(text, 2, 3).is_empty());
    assert!(slice_text(text, 3, 1).is_empty());
    assert!(slice_text(text, 0, 99).is_empty());
    assert!(slice_text(text, 3, 3).is_empty());
}
