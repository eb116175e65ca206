//! Ranges of nodes, and the spelling of flag references.

use crate::chars::{
    chars_parse_i64, chars_utf16_len, find_char, first_index_of, from_chars, is_ascii_digit,
    last_index_of, lemma_first_index_of, lemma_last_index_of, lemma_utf16_len_bound, parse_i64,
    rfind_char, slice_chars, to_chars, utf16_len,
};
use crate::symbols::SymbolKind;
use crate::syntax::{SyntaxTree, TreeView};
use crate::text::{position_of, Document, Position, Range};
use vstd::prelude::*;
use vstd::utf8::encode_utf8;

verus! {

/// The range that node `i` spans in `text`.
pub open spec fn node_range(t: TreeView, text: Seq<char>, i: int) -> Range {
    Range {
        start: position_of(encode_utf8(text), t[i].start_byte),
        end: position_of(encode_utf8(text), t[i].end_byte),
    }
}

/// The range that node `node` spans in `document`.
pub fn range_from_node(document: &Document, tree: &SyntaxTree, node: usize) -> (r: Range)
    requires
        node < tree@.len(),
    ensures
        r == node_range(tree@, document@, node as int),
{
    let n = tree.node(node);
    Range { start: document.position_at(n.start_byte), end: document.position_at(n.end_byte) }
}

/// Whether `position` lies in `range`, both ends counted in.
pub open spec fn contains_position(range: Range, position: Position) -> bool {
    &&& range.start.line <= position.line <= range.end.line
    &&& (position.line == range.start.line ==> position.character >= range.start.character)
    &&& (position.line == range.end.line ==> position.character <= range.end.character)
}

/// Whether `position` lies in `range`, both ends counted in.
pub fn range_contains(range: &Range, position: Position) -> (r: bool)
    ensures
        r == contains_position(*range, position),
{
    if position.line < range.start.line || position.line > range.end.line {
        return false;
    }
    if position.line == range.start.line && position.character < range.start.character {
        return false;
    }
    if position.line == range.end.line && position.character > range.end.character {
        return false;
    }
    true
}

/// Whether a node of kind `parent_kind` is the construct that defines a
/// symbol of kind `kind`.
pub open spec fn is_definition_parent(parent_kind: Seq<char>, kind: SymbolKind) -> bool {
    match kind {
        SymbolKind::Room => parent_kind == "room_def"@,
        SymbolKind::Item => parent_kind == "item_def"@,
        SymbolKind::Npc => parent_kind == "npc_def"@,
        SymbolKind::Flag => parent_kind == "action_add_flag"@ || parent_kind == "action_add_seq"@,
        SymbolKind::RoomSet => parent_kind == "set_decl"@,
    }
}

/// Whether a node of kind `parent_kind` is the construct that defines a
/// symbol of kind `kind`.
pub fn is_definition_parent_for_kind(parent_kind: &str, kind: SymbolKind) -> (r: bool)
    ensures
        r == is_definition_parent(parent_kind@, kind),
{
    match kind {
        SymbolKind::Room => crate::chars::str_eq(parent_kind, "room_def"),
        SymbolKind::Item => crate::chars::str_eq(parent_kind, "item_def"),
        SymbolKind::Npc => crate::chars::str_eq(parent_kind, "npc_def"),
        SymbolKind::Flag => crate::chars::str_eq(parent_kind, "action_add_flag")
            || crate::chars::str_eq(parent_kind, "action_add_seq"),
        SymbolKind::RoomSet => crate::chars::str_eq(parent_kind, "set_decl"),
    }
}

// ---------------------------------------------------------------------------
// Flag references
// ---------------------------------------------------------------------------

/// The name of the flag in a reference that names a step: what stands
/// before the last `#`, where that is not empty.
pub open spec fn flag_base(name: Seq<char>) -> Option<Seq<char>> {
    let at = last_index_of(name, '#');
    if at > 0 {
        Some(name.take(at))
    } else {
        None
    }
}

/// The identifier under which a reference spelled `name` is indexed.
pub open spec fn normalized_flag(name: Seq<char>) -> Seq<char> {
    match flag_base(name) {
        Some(base) => base,
        None => name,
    }
}

/// The column at which a text of `units` UTF-16 code units ends that
/// begins at column `start`, kept within `limit`.
pub open spec fn end_column(start: u32, units: nat, limit: u32) -> u32 {
    if start + units <= limit {
        (start + units) as u32
    } else {
        limit
    }
}

/// The part of the range `range` of a reference spelled `name` that holds
/// the name of the flag, where the reference names a step.
pub open spec fn flag_rename_range(name: Seq<char>, range: Range) -> Option<Range> {
    match flag_base(name) {
        Some(base) => Some(
            Range {
                start: range.start,
                end: Position {
                    line: range.start.line,
                    character: end_column(
                        range.start.character,
                        utf16_len(base),
                        range.end.character,
                    ),
                },
            },
        ),
        None => None,
    }
}

/// The identifier under which a flag reference spelled `name` is indexed,
/// and the part of `range` that a rename replaces.
pub fn normalize_flag_chars(name: &Vec<char>, range: &Range) -> (r: (Vec<char>, Option<Range>))
    ensures
        r.0@ == normalized_flag(name@),
        r.1 == flag_rename_range(name@, *range),
{
    proof {
        lemma_last_index_of(name@, '#');
    }
    match rfind_char(name, '#') {
        Some(at) => {
            if at == 0 {
                return (slice_chars(name, 0, name.len()), None);
            }
            let base = slice_chars(name, 0, at);
            proof {
                assert(base@ =~= name@.take(at as int));
                assert(base@.take(base.len() as int) =~= base@);
                lemma_utf16_len_bound(base@);
            }
            let units: u128 = chars_utf16_len(&base, base.len());
            let start: u128 = range.start.character as u128;
            let limit: u128 = range.end.character as u128;
            let character: u32 = if start + units <= limit {
                (start + units) as u32
            } else {
                range.end.character
            };
            let rename = Range {
                start: range.start,
                end: Position { line: range.start.line, character },
            };
            (base, Some(rename))
        },
        None => (slice_chars(name, 0, name.len()), None),
    }
}

/// The identifier under which a flag reference spelled `name` is indexed,
/// and the part of `range` that a rename replaces.
pub fn normalize_flag_reference(name: &str, range: &Range) -> (r: (String, Option<Range>))
    ensures
        r.0@ == normalized_flag(name@),
        r.1 == flag_rename_range(name@, *range),
{
    let chars = to_chars(name);
    let (id, rename) = normalize_flag_chars(&chars, range);
    (from_chars(&id), rename)
}

/// The number of ASCII digits with which `s` begins.
pub open spec fn digit_run(s: Seq<char>) -> nat
    decreases s.len(),
{
    if s.len() > 0 && is_ascii_digit(s[0]) {
        1 + digit_run(s.drop_first())
    } else {
        0
    }
}

/// The step that a flag reference spelled `raw` names: the number written
/// by the digits that follow its first `#`. Nothing where there is no `#`,
/// no digit follows it, or the number does not fit 64 bits.
pub open spec fn sequence_index(raw: Seq<char>) -> Option<i64> {
    let at = first_index_of(raw, '#');
    if at < 0 {
        None
    } else {
        let suffix = raw.skip(at + 1);
        let digits = suffix.take(digit_run(suffix) as int);
        if digits.len() == 0 {
            None
        } else {
            parse_i64(digits)
        }
    }
}

/// The step that a flag reference spelled `raw` names.
pub fn sequence_index_of_chars(raw: &Vec<char>) -> (r: Option<i64>)
    ensures
        r == sequence_index(raw@),
{
    proof {
        lemma_first_index_of(raw@, '#');
    }
    match find_char(raw, '#') {
        Some(at) => {
            let n = raw.len();
            assert(at < n);
            let from = at + 1;
            let ghost suffix = raw@.skip(from as int);
            let mut k: usize = from;
            proof {
                assert(suffix.skip(0) =~= suffix);
            }
            while k < n && '0' <= raw[k] && raw[k] <= '9'
                invariant
                    from <= k <= n,
                    n == raw.len(),
                    suffix == raw@.skip(from as int),
                    digit_run(suffix) == (k - from) + digit_run(suffix.skip(k - from)),
                decreases n - k,
            {
                proof {
                    assert(suffix.skip(k - from)[0] == raw@[k as int]);
                    assert(suffix.skip(k - from).drop_first() =~= suffix.skip(k + 1 - from));
                }
                k += 1;
            }
            proof {
                if k < n {
                    assert(suffix.skip(k - from)[0] == raw@[k as int]);
                }
                assert(digit_run(suffix) == k - from);
            }
            if k == from {
                return None;
            }
            let digits = slice_chars(raw, from, k);
            proof {
                assert(digits@ =~= suffix.take(digit_run(suffix) as int));
            }
            chars_parse_i64(&digits)
        },
        None => None,
    }
}

/// The step that a flag reference spelled `raw_id` names.
pub fn flag_sequence_index(raw_id: &str) -> (r: Option<i64>)
    ensures
        r == sequence_index(raw_id@),
{
    let chars = to_chars(raw_id);
    sequence_index_of_chars(&chars)
}

} // verus!
