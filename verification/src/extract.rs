//! What the definitions of a document say: the metadata that is read off
//! the syntax tree around a definition.
//!
//! Nothing is made up: a field that the text does not give stays `None`,
//! a list stays empty.

use crate::chars::{
    chars_eq, chars_parse_i64, chars_start_with, chars_to_ascii_lowercase, extend_chars, extend_str,
    from_chars, parse_i64, slice_chars, starts_with, strings_view, to_ascii_lowercase, to_chars,
    trim, trim_chars,
};
use crate::symbols::{
    opt_movability, opt_text, sanitize_chars, sanitized, FlagMetadata, FlagMetadataView,
    ItemMetadata, ItemMetadataView, Movability, MovabilityView, NpcMetadata, NpcMetadataView,
    RoomMetadata, RoomMetadataView, SetMetadataView,
};
use crate::syntax::{child_by_field, named_child_of_kind, node_text, SyntaxTree, TreeView};
use vstd::prelude::*;

verus! {

// ---------------------------------------------------------------------------
// String literals
// ---------------------------------------------------------------------------

/// The error of the JSON reader `serde_json`. Trusted declaration of the
/// type `serde_json::Error`; nothing is read from a value of it.
#[verifier::external_type_specification]
#[verifier::external_body]
pub struct ExJsonError(serde_json::Error);

/// The string that `text` denotes when it is read as a JSON document that
/// consists of one string; `None` where `text` is no such document.
pub uninterp spec fn json_string_value(text: Seq<char>) -> Option<Seq<char>>;

/// Reads `text` as a JSON document that consists of one string.
///
/// Trusted: wraps `serde_json::from_str::<String>`, which deserializes the
/// text and fails where it is not valid JSON, is not a string, or is
/// followed by anything but whitespace. The result depends on the text
/// alone.
#[verifier::external_body]
fn parse_json_string(text: &str) -> (r: Result<String, serde_json::Error>)
    ensures
        match r {
            Ok(value) => json_string_value(text@) == Some(value@),
            Err(_) => json_string_value(text@) is None,
        },
{
    serde_json::from_str::<String>(text)
}

/// Three double quotes.
pub open spec fn triple_quote() -> Seq<char> {
    seq!['"', '"', '"']
}

/// Whether `literal` is written between triple double quotes.
pub open spec fn is_triple_quoted(literal: Seq<char>) -> bool {
    literal.len() >= 6 && literal.take(3) == triple_quote() && literal.skip(literal.len() - 3)
        == triple_quote()
}

/// Whether `literal` begins and ends with the character `quote`.
pub open spec fn is_quoted_with(literal: Seq<char>, quote: char) -> bool {
    literal.len() >= 1 && literal[0] == quote && literal.last() == quote
}

/// Whether the value of `literal` is asked of the JSON reader: it is
/// written between double quotes, and not between triple ones.
pub open spec fn reads_as_json(literal: Seq<char>) -> bool {
    !is_triple_quoted(literal) && is_quoted_with(literal, '"')
}

/// `literal` without its first and its last character; nothing where it
/// has fewer than two.
pub open spec fn inner_text(literal: Seq<char>) -> Seq<char> {
    if literal.len() >= 2 {
        literal.subrange(1, literal.len() - 1)
    } else {
        Seq::empty()
    }
}

/// The text that the string literal `literal` stands for, where `decoded`
/// is what the JSON reader makes of it.
///
/// A literal between triple double quotes stands for what lies between
/// them. One between double quotes stands for what the JSON reader makes
/// of it, or for what lies between the quotes where the reader fails. One
/// between single quotes stands for what lies between them. Any other text
/// stands for itself.
pub open spec fn unquoted(literal: Seq<char>, decoded: Option<Seq<char>>) -> Seq<char> {
    if is_triple_quoted(literal) {
        literal.subrange(3, literal.len() - 3)
    } else if is_quoted_with(literal, '"') {
        match decoded {
            Some(value) => value,
            None => inner_text(literal),
        }
    } else if literal.len() >= 2 && is_quoted_with(literal, '\'') {
        inner_text(literal)
    } else {
        literal
    }
}

/// The text that the string literal `literal` stands for.
pub open spec fn normalized_literal(literal: Seq<char>) -> Seq<char> {
    unquoted(
        literal,
        if reads_as_json(literal) {
            json_string_value(literal)
        } else {
            None
        },
    )
}

/// Whether `literal` is written between triple double quotes.
pub fn literal_is_triple_quoted(literal: &Vec<char>) -> (r: bool)
    ensures
        r == is_triple_quoted(literal@),
{
    let n = literal.len();
    if n < 6 {
        return false;
    }
    let r = literal[0] == '"' && literal[1] == '"' && literal[2] == '"' && literal[n - 3] == '"'
        && literal[n - 2] == '"' && literal[n - 1] == '"';
    proof {
        let head = literal@.take(3);
        let tail = literal@.skip(n - 3);
        if r {
            assert(head =~= triple_quote());
            assert(tail =~= triple_quote());
        } else {
            if head == triple_quote() && tail == triple_quote() {
                assert(head[0] == '"' && head[1] == '"' && head[2] == '"');
                assert(tail[0] == '"' && tail[1] == '"' && tail[2] == '"');
            }
        }
    }
    r
}

/// The text that the string literal `literal` stands for, where `decoded`
/// is what the JSON reader makes of it.
pub fn unquote_literal(literal: &Vec<char>, decoded: Option<String>) -> (r: Vec<char>)
    ensures
        r@ == unquoted(literal@, opt_text(decoded)),
{
    let n = literal.len();
    if literal_is_triple_quoted(literal) {
        slice_chars(literal, 3, n - 3)
    } else if n >= 1 && literal[0] == '"' && literal[n - 1] == '"' {
        match decoded {
            Some(value) => to_chars(value.as_str()),
            None => {
                if n >= 2 {
                    slice_chars(literal, 1, n - 1)
                } else {
                    Vec::new()
                }
            },
        }
    } else if n >= 2 && literal[0] == '\'' && literal[n - 1] == '\'' {
        slice_chars(literal, 1, n - 1)
    } else {
        slice_chars(literal, 0, n)
    }
}

/// The text that the string literal `literal` stands for.
pub fn normalize_chars(literal: &Vec<char>) -> (r: Vec<char>)
    ensures
        r@ == normalized_literal(literal@),
{
    let n = literal.len();
    let asks = !literal_is_triple_quoted(literal) && n >= 1 && literal[0] == '"' && literal[n
        - 1] == '"';
    let decoded = if asks {
        let source = from_chars(literal);
        match parse_json_string(source.as_str()) {
            Ok(value) => Some(value),
            Err(_) => None,
        }
    } else {
        None
    };
    unquote_literal(literal, decoded)
}

/// The text that the string literal `literal` stands for.
pub fn normalize_string_literal(literal: &str) -> (r: String)
    ensures
        r@ == normalized_literal(literal@),
{
    let chars = to_chars(literal);
    let out = normalize_chars(&chars);
    from_chars(&out)
}

// ---------------------------------------------------------------------------
// Texts of nodes
// ---------------------------------------------------------------------------

/// The text of node `i` without the whitespace around it.
pub open spec fn node_trimmed(t: TreeView, text: Seq<char>, i: int) -> Seq<char> {
    trim(node_text(t, text, i))
}

/// The text of node `i`, trimmed and made safe for markdown.
pub open spec fn node_clean(t: TreeView, text: Seq<char>, i: int) -> Seq<char> {
    sanitized(node_trimmed(t, text, i))
}

/// The text that node `i`, a string literal, stands for.
pub open spec fn node_literal(t: TreeView, text: Seq<char>, i: int) -> Seq<char> {
    normalized_literal(node_text(t, text, i))
}

/// `raw` without the word `location` in front of it, trimmed; `raw` itself
/// where it does not begin with that word.
pub open spec fn without_location_word(raw: Seq<char>) -> Seq<char> {
    if starts_with(raw, "location"@) {
        trim(raw.skip("location"@.len() as int))
    } else {
        raw
    }
}

fn trimmed_text(tree: &SyntaxTree, i: usize, text: &str) -> (r: Vec<char>)
    requires
        i < tree@.len(),
    ensures
        r@ == node_trimmed(tree@, text@, i as int),
{
    let raw = tree.text_of(i, text);
    trim_chars(&raw)
}

fn clean_text(tree: &SyntaxTree, i: usize, text: &str) -> (r: Vec<char>)
    requires
        i < tree@.len(),
    ensures
        r@ == node_clean(tree@, text@, i as int),
{
    let trimmed = trimmed_text(tree, i, text);
    sanitize_chars(&trimmed)
}

fn literal_text(tree: &SyntaxTree, i: usize, text: &str) -> (r: Vec<char>)
    requires
        i < tree@.len(),
    ensures
        r@ == node_literal(tree@, text@, i as int),
{
    let raw = tree.text_of(i, text);
    normalize_chars(&raw)
}

fn strip_location_word(raw: &Vec<char>) -> (r: Vec<char>)
    ensures
        r@ == without_location_word(raw@),
{
    let word = to_chars("location");
    if chars_start_with(raw, &word) {
        let rest = slice_chars(raw, word.len(), raw.len());
        proof {
            assert(rest@ =~= raw@.skip("location"@.len() as int));
        }
        trim_chars(&rest)
    } else {
        slice_chars(raw, 0, raw.len())
    }
}

// ---------------------------------------------------------------------------
// Rooms
// ---------------------------------------------------------------------------

/// The metadata of a room of which nothing is said.
pub open spec fn no_room_metadata() -> RoomMetadataView {
    RoomMetadataView { name: None, description: None, exits: Seq::empty() }
}

/// What the statement `c` of a room block adds to `acc`.
pub open spec fn room_step(t: TreeView, text: Seq<char>, acc: RoomMetadataView, c: int)
    -> RoomMetadataView {
    if !t[c].named {
        acc
    } else if t[c].kind == "room_name"@ {
        match child_by_field(t, c, "name"@) {
            Some(n) => RoomMetadataView { name: Some(node_literal(t, text, n)), ..acc },
            None => acc,
        }
    } else if t[c].kind == "room_desc"@ {
        match child_by_field(t, c, "description"@) {
            Some(n) => RoomMetadataView { description: Some(node_literal(t, text, n)), ..acc },
            None => acc,
        }
    } else if t[c].kind == "room_exit"@ {
        match child_by_field(t, c, "dest"@) {
            Some(n) => RoomMetadataView { exits: acc.exits.push(node_trimmed(t, text, n)), ..acc },
            None => acc,
        }
    } else {
        acc
    }
}

/// What the statements `list` of a room block say, taken in order.
pub open spec fn room_fold(t: TreeView, text: Seq<char>, list: Seq<int>) -> RoomMetadataView
    decreases list.len(),
{
    if list.len() == 0 {
        no_room_metadata()
    } else {
        room_step(t, text, room_fold(t, text, list.drop_last()), list.last())
    }
}

/// What the definition `room` says of its room: the name and the
/// description that its block states last, and the targets of its exits in
/// the order of the text.
pub open spec fn room_metadata_of(t: TreeView, text: Seq<char>, room: int) -> RoomMetadataView {
    match named_child_of_kind(t, room, "room_block"@) {
        Some(block) => room_fold(t, text, t[block].children),
        None => no_room_metadata(),
    }
}

/// What the definition `room_node` says of its room.
pub fn extract_room_metadata(tree: &SyntaxTree, room_node: usize, text: &str) -> (r: RoomMetadata)
    requires
        room_node < tree@.len(),
    ensures
        r@ == room_metadata_of(tree@, text@, room_node as int),
{
    let mut meta = RoomMetadata { name: None, description: None, exits: Vec::new() };
    proof {
        assert(meta@.exits =~= Seq::<Seq<char>>::empty());
    }
    match tree.named_child_by_kind(room_node, "room_block") {
        Some(block) => {
            let n = tree.child_count(block);
            let ghost list = tree@[block as int].children;
            let mut k: usize = 0;
            proof {
                assert(list.take(0) =~= Seq::<int>::empty());
            }
            while k < n
                invariant
                    k <= n,
                    block < tree@.len(),
                    n == list.len(),
                    list == tree@[block as int].children,
                    meta@ == room_fold(tree@, text@, list.take(k as int)),
                decreases n - k,
            {
                let child = tree.child(block, k);
                let ghost acc = meta@;
                proof {
                    assert(list.take(k + 1).drop_last() =~= list.take(k as int));
                    assert(list.take(k + 1).last() == child);
                }
                if tree.node(child).named {
                    if tree.kind_is(child, "room_name") {
                        match tree.child_by_field_name(child, "name") {
                            Some(n) => {
                                meta.name = Some(from_chars(&literal_text(tree, n, text)));
                            },
                            None => {},
                        }
                    } else if tree.kind_is(child, "room_desc") {
                        match tree.child_by_field_name(child, "description") {
                            Some(n) => {
                                meta.description = Some(from_chars(&literal_text(tree, n, text)));
                            },
                            None => {},
                        }
                    } else if tree.kind_is(child, "room_exit") {
                        match tree.child_by_field_name(child, "dest") {
                            Some(n) => {
                                meta.exits.push(from_chars(&trimmed_text(tree, n, text)));
                                proof {
                                    assert(meta@.exits =~= acc.exits.push(
                                        node_trimmed(tree@, text@, n as int),
                                    ));
                                }
                            },
                            None => {},
                        }
                    }
                }
                proof {
                    assert(meta@ == room_step(tree@, text@, acc, child as int));
                }
                k += 1;
            }
            proof {
                assert(list.take(n as int) =~= list);
            }
        },
        None => {},
    }
    meta
}

// ---------------------------------------------------------------------------
// Locations and movability
// ---------------------------------------------------------------------------

/// How the location `loc` of an item or a character is written out: the
/// kind of place and its identifier, or the rest of the statement where no
/// place is named.
pub open spec fn location_text(t: TreeView, text: Seq<char>, loc: int) -> Seq<char> {
    if named_child_of_kind(t, loc, "room_id"@) is Some {
        "room "@ + node_clean(t, text, named_child_of_kind(t, loc, "room_id"@)->0)
    } else if named_child_of_kind(t, loc, "_room_ref"@) is Some {
        "room "@ + node_clean(t, text, named_child_of_kind(t, loc, "_room_ref"@)->0)
    } else if named_child_of_kind(t, loc, "chest_id"@) is Some {
        "chest "@ + node_clean(t, text, named_child_of_kind(t, loc, "chest_id"@)->0)
    } else if named_child_of_kind(t, loc, "npc_id"@) is Some {
        "npc "@ + node_clean(t, text, named_child_of_kind(t, loc, "npc_id"@)->0)
    } else if named_child_of_kind(t, loc, "spawn_note"@) is Some {
        "nowhere "@ + sanitized(
            node_literal(t, text, named_child_of_kind(t, loc, "spawn_note"@)->0),
        )
    } else {
        sanitized(without_location_word(node_trimmed(t, text, loc)))
    }
}

fn prefixed(word: &str, rest: &Vec<char>) -> (r: Vec<char>)
    ensures
        r@ == word@ + rest@,
{
    let mut out: Vec<char> = Vec::new();
    extend_str(&mut out, word);
    extend_chars(&mut out, rest);
    proof {
        assert(out@ =~= word@ + rest@);
    }
    out
}

/// How the location `location_node` is written out.
pub fn format_location_node(tree: &SyntaxTree, location_node: usize, text: &str) -> (r: Vec<char>)
    requires
        location_node < tree@.len(),
    ensures
        r@ == location_text(tree@, text@, location_node as int),
{
    if let Some(room) = tree.named_child_by_kind(location_node, "room_id") {
        return prefixed("room ", &clean_text(tree, room, text));
    }
    if let Some(room) = tree.named_child_by_kind(location_node, "_room_ref") {
        return prefixed("room ", &clean_text(tree, room, text));
    }
    if let Some(chest) = tree.named_child_by_kind(location_node, "chest_id") {
        return prefixed("chest ", &clean_text(tree, chest, text));
    }
    if let Some(npc) = tree.named_child_by_kind(location_node, "npc_id") {
        return prefixed("npc ", &clean_text(tree, npc, text));
    }
    if let Some(note) = tree.named_child_by_kind(location_node, "spawn_note") {
        let literal = literal_text(tree, note, text);
        return prefixed("nowhere ", &sanitize_chars(&literal));
    }
    let raw = trimmed_text(tree, location_node, text);
    let rest = strip_location_word(&raw);
    sanitize_chars(&rest)
}

/// How the location statement `stmt` is written out, where `place` is the
/// kind of its location node.
pub open spec fn statement_location(t: TreeView, text: Seq<char>, stmt: int, place: Seq<char>)
    -> Seq<char> {
    match named_child_of_kind(t, stmt, place) {
        Some(loc) => location_text(t, text, loc),
        None => sanitized(without_location_word(node_trimmed(t, text, stmt))),
    }
}

fn statement_location_text(tree: &SyntaxTree, stmt: usize, text: &str, place: &str) -> (r: Vec<
    char,
>)
    requires
        stmt < tree@.len(),
    ensures
        r@ == statement_location(tree@, text@, stmt as int, place@),
{
    match tree.named_child_by_kind(stmt, place) {
        Some(loc) => format_location_node(tree, loc, text),
        None => {
            let raw = trimmed_text(tree, stmt, text);
            let rest = strip_location_word(&raw);
            sanitize_chars(&rest)
        },
    }
}

/// The note of the movability node `node`, if it has one.
pub open spec fn movability_note(t: TreeView, text: Seq<char>, node: int) -> Option<Seq<char>> {
    match child_by_field(t, node, "note"@) {
        Some(n) => Some(node_literal(t, text, n)),
        None => None,
    }
}

/// What the movability node `node` says: `free`, or `fixed` or
/// `restricted` with the note that goes with it; nothing where its text
/// begins with none of these words. Capital letters count as small ones.
pub open spec fn movability_of(t: TreeView, text: Seq<char>, node: int) -> Option<MovabilityView> {
    let lowered = to_ascii_lowercase(node_trimmed(t, text, node));
    if lowered == "free"@ {
        Some(MovabilityView::Free)
    } else if starts_with(lowered, "fixed"@) {
        Some(MovabilityView::Fixed(movability_note(t, text, node)))
    } else if starts_with(lowered, "restricted"@) {
        Some(MovabilityView::Restricted(movability_note(t, text, node)))
    } else {
        None
    }
}

/// What the movability node `node` says.
pub fn extract_movability(tree: &SyntaxTree, node: usize, text: &str) -> (r: Option<Movability>)
    requires
        node < tree@.len(),
    ensures
        opt_movability(r) == movability_of(tree@, text@, node as int),
{
    let raw = trimmed_text(tree, node, text);
    let lowered = chars_to_ascii_lowercase(&raw);
    if chars_eq(&lowered, &to_chars("free")) {
        return Some(Movability::Free);
    }
    let note = match tree.child_by_field_name(node, "note") {
        Some(n) => Some(from_chars(&literal_text(tree, n, text))),
        None => None,
    };
    if chars_start_with(&lowered, &to_chars("fixed")) {
        Some(Movability::Fixed(note))
    } else if chars_start_with(&lowered, &to_chars("restricted")) {
        Some(Movability::Restricted(note))
    } else {
        None
    }
}

// ---------------------------------------------------------------------------
// Items
// ---------------------------------------------------------------------------

/// The metadata of an item of which nothing is said.
pub open spec fn no_item_metadata() -> ItemMetadataView {
    ItemMetadataView {
        name: None,
        description: None,
        movability: None,
        location: None,
        container_state: None,
        abilities: Seq::empty(),
        requirements: Seq::empty(),
    }
}

/// How the ability statement `c` is written out: the ability, with its
/// target in brackets where it has one; the whole statement where no
/// ability is named.
pub open spec fn ability_text(t: TreeView, text: Seq<char>, c: int) -> Seq<char> {
    match child_by_field(t, c, "ability"@) {
        Some(ability) => match child_by_field(t, c, "target_id"@) {
            Some(target) => node_clean(t, text, ability) + " ("@ + node_clean(t, text, target)
                + ")"@,
            None => node_clean(t, text, ability),
        },
        None => node_clean(t, text, c),
    }
}

/// How the requirement statement `c` is written out: the ability and the
/// interaction that asks for it, with an arrow between them; the whole
/// statement where one of the two is not named.
pub open spec fn requirement_text(t: TreeView, text: Seq<char>, c: int) -> Seq<char> {
    match (child_by_field(t, c, "ability"@), child_by_field(t, c, "interaction"@)) {
        (Some(ability), Some(interaction)) => node_clean(t, text, ability) + " -> "@
            + node_clean(t, text, interaction),
        _ => node_clean(t, text, c),
    }
}

/// What the statement `c` of an item block adds to `acc`.
pub open spec fn item_step(t: TreeView, text: Seq<char>, acc: ItemMetadataView, c: int)
    -> ItemMetadataView {
    if !t[c].named {
        acc
    } else if t[c].kind == "item_name_stmt"@ {
        match child_by_field(t, c, "item_name"@) {
            Some(n) => ItemMetadataView { name: Some(node_literal(t, text, n)), ..acc },
            None => acc,
        }
    } else if t[c].kind == "item_desc_stmt"@ {
        match child_by_field(t, c, "item_description"@) {
            Some(n) => ItemMetadataView { description: Some(node_literal(t, text, n)), ..acc },
            None => acc,
        }
    } else if t[c].kind == "item_movability_stmt"@ {
        match child_by_field(t, c, "movability"@) {
            Some(n) => ItemMetadataView { movability: movability_of(t, text, n), ..acc },
            None => acc,
        }
    } else if t[c].kind == "item_loc_stmt"@ {
        ItemMetadataView {
            location: Some(statement_location(t, text, c, "item_location"@)),
            ..acc
        }
    } else if t[c].kind == "item_container_stmt"@ {
        match named_child_of_kind(t, c, "container_state"@) {
            Some(n) => ItemMetadataView {
                container_state: Some(node_trimmed(t, text, n)),
                ..acc
            },
            None => acc,
        }
    } else if t[c].kind == "item_ability_stmt"@ {
        ItemMetadataView { abilities: acc.abilities.push(ability_text(t, text, c)), ..acc }
    } else if t[c].kind == "item_requires_stmt"@ {
        ItemMetadataView {
            requirements: acc.requirements.push(requirement_text(t, text, c)),
            ..acc
        }
    } else {
        acc
    }
}

/// What the statements `list` of an item block say, taken in order.
pub open spec fn item_fold(t: TreeView, text: Seq<char>, list: Seq<int>) -> ItemMetadataView
    decreases list.len(),
{
    if list.len() == 0 {
        no_item_metadata()
    } else {
        item_step(t, text, item_fold(t, text, list.drop_last()), list.last())
    }
}

/// What the definition `item` says of its item: for each single field what
/// its block states last, and the abilities and requirements in the order
/// of the text.
pub open spec fn item_metadata_of(t: TreeView, text: Seq<char>, item: int) -> ItemMetadataView {
    match named_child_of_kind(t, item, "item_block"@) {
        Some(block) => item_fold(t, text, t[block].children),
        None => no_item_metadata(),
    }
}

fn ability_statement_text(tree: &SyntaxTree, c: usize, text: &str) -> (r: Vec<char>)
    requires
        c < tree@.len(),
    ensures
        r@ == ability_text(tree@, text@, c as int),
{
    match tree.child_by_field_name(c, "ability") {
        Some(ability) => {
            let mut out = clean_text(tree, ability, text);
            match tree.child_by_field_name(c, "target_id") {
                Some(target) => {
                    extend_str(&mut out, " (");
                    extend_chars(&mut out, &clean_text(tree, target, text));
                    extend_str(&mut out, ")");
                },
                None => {},
            }
            out
        },
        None => clean_text(tree, c, text),
    }
}

fn requirement_statement_text(tree: &SyntaxTree, c: usize, text: &str) -> (r: Vec<char>)
    requires
        c < tree@.len(),
    ensures
        r@ == requirement_text(tree@, text@, c as int),
{
    let ability = tree.child_by_field_name(c, "ability");
    let interaction = tree.child_by_field_name(c, "interaction");
    match (ability, interaction) {
        (Some(a), Some(b)) => {
            let mut out = clean_text(tree, a, text);
            extend_str(&mut out, " -> ");
            extend_chars(&mut out, &clean_text(tree, b, text));
            out
        },
        _ => clean_text(tree, c, text),
    }
}

/// What the definition `item_node` says of its item.
pub fn extract_item_metadata(tree: &SyntaxTree, item_node: usize, text: &str) -> (r: ItemMetadata)
    requires
        item_node < tree@.len(),
    ensures
        r@ == item_metadata_of(tree@, text@, item_node as int),
{
    let mut meta = ItemMetadata {
        name: None,
        description: None,
        movability: None,
        location: None,
        container_state: None,
        abilities: Vec::new(),
        requirements: Vec::new(),
    };
    proof {
        assert(meta@.abilities =~= Seq::<Seq<char>>::empty());
        assert(meta@.requirements =~= Seq::<Seq<char>>::empty());
    }
    match tree.named_child_by_kind(item_node, "item_block") {
        Some(block) => {
            let n = tree.child_count(block);
            let ghost list = tree@[block as int].children;
            let mut k: usize = 0;
            proof {
                assert(list.take(0) =~= Seq::<int>::empty());
            }
            while k < n
                invariant
                    k <= n,
                    block < tree@.len(),
                    n == list.len(),
                    list == tree@[block as int].children,
                    meta@ == item_fold(tree@, text@, list.take(k as int)),
                decreases n - k,
            {
                let child = tree.child(block, k);
                let ghost acc = meta@;
                proof {
                    assert(list.take(k + 1).drop_last() =~= list.take(k as int));
                    assert(list.take(k + 1).last() == child);
                }
                if tree.node(child).named {
                    if tree.kind_is(child, "item_name_stmt") {
                        match tree.child_by_field_name(child, "item_name") {
                            Some(n) => {
                                meta.name = Some(from_chars(&literal_text(tree, n, text)));
                            },
                            None => {},
                        }
                    } else if tree.kind_is(child, "item_desc_stmt") {
                        match tree.child_by_field_name(child, "item_description") {
                            Some(n) => {
                                meta.description = Some(from_chars(&literal_text(tree, n, text)));
                            },
                            None => {},
                        }
                    } else if tree.kind_is(child, "item_movability_stmt") {
                        match tree.child_by_field_name(child, "movability") {
                            Some(n) => {
                                meta.movability = extract_movability(tree, n, text);
                            },
                            None => {},
                        }
                    } else if tree.kind_is(child, "item_loc_stmt") {
                        meta.location = Some(
                            from_chars(
                                &statement_location_text(tree, child, text, "item_location"),
                            ),
                        );
                    } else if tree.kind_is(child, "item_container_stmt") {
                        match tree.named_child_by_kind(child, "container_state") {
                            Some(n) => {
                                meta.container_state = Some(
                                    from_chars(&trimmed_text(tree, n, text)),
                                );
                            },
                            None => {},
                        }
                    } else if tree.kind_is(child, "item_ability_stmt") {
                        meta.abilities.push(from_chars(&ability_statement_text(tree, child, text)));
                        proof {
                            assert(meta@.abilities =~= acc.abilities.push(
                                ability_text(tree@, text@, child as int),
                            ));
                        }
                    } else if tree.kind_is(child, "item_requires_stmt") {
                        meta.requirements.push(
                            from_chars(&requirement_statement_text(tree, child, text)),
                        );
                        proof {
                            assert(meta@.requirements =~= acc.requirements.push(
                                requirement_text(tree@, text@, child as int),
                            ));
                        }
                    }
                }
                proof {
                    assert(meta@ == item_step(tree@, text@, acc, child as int));
                }
                k += 1;
            }
            proof {
                assert(list.take(n as int) =~= list);
            }
        },
        None => {},
    }
    meta
}

// ---------------------------------------------------------------------------
// Characters
// ---------------------------------------------------------------------------

/// The metadata of a character of which nothing is said.
pub open spec fn no_npc_metadata() -> NpcMetadataView {
    NpcMetadataView { name: None, description: None, location: None, state: None }
}

/// What the statement `c` of a character block adds to `acc`.
pub open spec fn npc_step(t: TreeView, text: Seq<char>, acc: NpcMetadataView, c: int)
    -> NpcMetadataView {
    if !t[c].named {
        acc
    } else if t[c].kind == "npc_name_stmt"@ {
        match child_by_field(t, c, "npc_name"@) {
            Some(n) => NpcMetadataView { name: Some(node_literal(t, text, n)), ..acc },
            None => acc,
        }
    } else if t[c].kind == "npc_desc_stmt"@ {
        match child_by_field(t, c, "npc_description"@) {
            Some(n) => NpcMetadataView { description: Some(node_literal(t, text, n)), ..acc },
            None => acc,
        }
    } else if t[c].kind == "npc_loc_stmt"@ {
        NpcMetadataView { location: Some(statement_location(t, text, c, "npc_location"@)), ..acc }
    } else if t[c].kind == "npc_state_stmt"@ {
        match named_child_of_kind(t, c, "npc_state"@) {
            Some(n) => NpcMetadataView { state: Some(node_trimmed(t, text, n)), ..acc },
            None => acc,
        }
    } else {
        acc
    }
}

/// What the statements `list` of a character block say, taken in order.
pub open spec fn npc_fold(t: TreeView, text: Seq<char>, list: Seq<int>) -> NpcMetadataView
    decreases list.len(),
{
    if list.len() == 0 {
        no_npc_metadata()
    } else {
        npc_step(t, text, npc_fold(t, text, list.drop_last()), list.last())
    }
}

/// What the definition `npc` says of its character: for each field what
/// its block states last.
pub open spec fn npc_metadata_of(t: TreeView, text: Seq<char>, npc: int) -> NpcMetadataView {
    match named_child_of_kind(t, npc, "npc_block"@) {
        Some(block) => npc_fold(t, text, t[block].children),
        None => no_npc_metadata(),
    }
}

/// What the definition `npc_node` says of its character.
pub fn extract_npc_metadata(tree: &SyntaxTree, npc_node: usize, text: &str) -> (r: NpcMetadata)
    requires
        npc_node < tree@.len(),
    ensures
        r@ == npc_metadata_of(tree@, text@, npc_node as int),
{
    let mut meta = NpcMetadata { name: None, description: None, location: None, state: None };
    match tree.named_child_by_kind(npc_node, "npc_block") {
        Some(block) => {
            let n = tree.child_count(block);
            let ghost list = tree@[block as int].children;
            let mut k: usize = 0;
            proof {
                assert(list.take(0) =~= Seq::<int>::empty());
            }
            while k < n
                invariant
                    k <= n,
                    block < tree@.len(),
                    n == list.len(),
                    list == tree@[block as int].children,
                    meta@ == npc_fold(tree@, text@, list.take(k as int)),
                decreases n - k,
            {
                let child = tree.child(block, k);
                let ghost acc = meta@;
                proof {
                    assert(list.take(k + 1).drop_last() =~= list.take(k as int));
                    assert(list.take(k + 1).last() == child);
                }
                if tree.node(child).named {
                    if tree.kind_is(child, "npc_name_stmt") {
                        match tree.child_by_field_name(child, "npc_name") {
                            Some(n) => {
                                meta.name = Some(from_chars(&literal_text(tree, n, text)));
                            },
                            None => {},
                        }
                    } else if tree.kind_is(child, "npc_desc_stmt") {
                        match tree.child_by_field_name(child, "npc_description") {
                            Some(n) => {
                                meta.description = Some(from_chars(&literal_text(tree, n, text)));
                            },
                            None => {},
                        }
                    } else if tree.kind_is(child, "npc_loc_stmt") {
                        meta.location = Some(
                            from_chars(&statement_location_text(tree, child, text, "npc_location")),
                        );
                    } else if tree.kind_is(child, "npc_state_stmt") {
                        match tree.named_child_by_kind(child, "npc_state") {
                            Some(n) => {
                                meta.state = Some(from_chars(&trimmed_text(tree, n, text)));
                            },
                            None => {},
                        }
                    }
                }
                proof {
                    assert(meta@ == npc_step(tree@, text@, acc, child as int));
                }
                k += 1;
            }
            proof {
                assert(list.take(n as int) =~= list);
            }
        },
        None => {},
    }
    meta
}

// ---------------------------------------------------------------------------
// Flags
// ---------------------------------------------------------------------------

/// The trigger definition that encloses `node` most closely.
pub open spec fn enclosing_trigger(t: TreeView, node: int) -> Option<int>
    decreases node,
{
    if 0 < node < t.len() {
        match t[node].parent {
            Some(p) => if 0 <= p < node {
                if t[p].kind == "trigger_def"@ {
                    Some(p)
                } else {
                    enclosing_trigger(t, p)
                }
            } else {
                None
            },
            None => None,
        }
    } else {
        None
    }
}

/// The name of the trigger that encloses `node` most closely, if `node`
/// lies in a trigger and that trigger has a name.
pub open spec fn trigger_name_of(t: TreeView, text: Seq<char>, node: int) -> Option<Seq<char>> {
    match enclosing_trigger(t, node) {
        Some(trigger) => match child_by_field(t, trigger, "name"@) {
            Some(n) => Some(node_literal(t, text, n)),
            None => None,
        },
        None => None,
    }
}

/// The name of the trigger that encloses `node` most closely.
pub fn find_trigger_name(tree: &SyntaxTree, node: usize, text: &str) -> (r: Option<String>)
    requires
        node < tree@.len(),
    ensures
        opt_text(r) == trigger_name_of(tree@, text@, node as int),
{
    let mut current = node;
    loop
        invariant
            current < tree@.len(),
            enclosing_trigger(tree@, node as int) == enclosing_trigger(tree@, current as int),
        decreases current,
    {
        match tree.parent(current) {
            Some(p) => {
                if tree.kind_is(p, "trigger_def") {
                    return match tree.child_by_field_name(p, "name") {
                        Some(n) => Some(from_chars(&literal_text(tree, n, text))),
                        None => None,
                    };
                }
                current = p;
            },
            None => {
                return None;
            },
        }
    }
}

/// The value of the first named node of kind `number` in `list` whose text
/// is a whole number.
pub open spec fn first_number_value(t: TreeView, text: Seq<char>, list: Seq<int>) -> Option<i64>
    decreases list.len(),
{
    if list.len() == 0 {
        None
    } else {
        let c = list[0];
        let value = parse_i64(node_trimmed(t, text, c));
        if t[c].named && t[c].kind == "number"@ && value is Some {
            value
        } else {
            first_number_value(t, text, list.drop_first())
        }
    }
}

/// The number of steps that the action `action` gives to the flag it
/// defines: the first number of an action that adds a sequence, nothing for
/// any other action.
pub open spec fn sequence_limit_of(t: TreeView, text: Seq<char>, action: int) -> Option<i64> {
    if t[action].kind == "action_add_seq"@ {
        first_number_value(t, text, t[action].children)
    } else {
        None
    }
}

/// The number of steps that the action `action_node` gives to the flag it
/// defines.
pub fn extract_flag_sequence_limit(tree: &SyntaxTree, action_node: usize, text: &str) -> (r:
    Option<i64>)
    requires
        action_node < tree@.len(),
    ensures
        r == sequence_limit_of(tree@, text@, action_node as int),
{
    if !tree.kind_is(action_node, "action_add_seq") {
        return None;
    }
    let n = tree.child_count(action_node);
    let ghost list = tree@[action_node as int].children;
    let mut k: usize = 0;
    proof {
        assert(list.skip(0) =~= list);
    }
    while k < n
        invariant
            k <= n,
            action_node < tree@.len(),
            n == list.len(),
            list == tree@[action_node as int].children,
            tree@[action_node as int].kind == "action_add_seq"@,
            first_number_value(tree@, text@, list) == first_number_value(
                tree@,
                text@,
                list.skip(k as int),
            ),
        decreases n - k,
    {
        let child = tree.child(action_node, k);
        proof {
            assert(list.skip(k as int)[0] == child);
            assert(list.skip(k as int).drop_first() =~= list.skip(k + 1));
        }
        if tree.node(child).named && tree.kind_is(child, "number") {
            let value = chars_parse_i64(&trimmed_text(tree, child, text));
            if value.is_some() {
                return value;
            }
        }
        k += 1;
    }
    None
}

/// What the action `action` says of the flag it defines.
pub open spec fn flag_metadata_of(t: TreeView, text: Seq<char>, action: int) -> FlagMetadataView {
    FlagMetadataView {
        defined_in: trigger_name_of(t, text, action),
        sequence_limit: sequence_limit_of(t, text, action),
    }
}

/// What the action `action_node` says of the flag it defines: the trigger
/// in which it stands, and the number of steps of a sequence.
pub fn extract_flag_metadata(tree: &SyntaxTree, action_node: usize, text: &str) -> (r:
    FlagMetadata)
    requires
        action_node < tree@.len(),
    ensures
        r@ == flag_metadata_of(tree@, text@, action_node as int),
{
    FlagMetadata {
        defined_in: find_trigger_name(tree, action_node, text),
        sequence_limit: extract_flag_sequence_limit(tree, action_node, text),
    }
}

// ---------------------------------------------------------------------------
// Sets
// ---------------------------------------------------------------------------

/// The rooms that the nodes `list` name, in order.
pub open spec fn rooms_fold(t: TreeView, text: Seq<char>, list: Seq<int>) -> Seq<Seq<char>>
    decreases list.len(),
{
    if list.len() == 0 {
        Seq::empty()
    } else {
        let before = rooms_fold(t, text, list.drop_last());
        let c = list.last();
        if t[c].named && (t[c].kind == "room_id"@ || t[c].kind == "_room_ref"@) {
            before.push(node_clean(t, text, c))
        } else {
            before
        }
    }
}

/// The node that lists the rooms of the set declaration `set`.
pub open spec fn set_list_of(t: TreeView, set: int) -> Option<int> {
    match named_child_of_kind(t, set, "set_list"@) {
        Some(list) => Some(list),
        None => named_child_of_kind(t, set, "room_list"@),
    }
}

/// The rooms that the set declaration `set` names, in the order of the
/// text.
pub open spec fn set_rooms_of(t: TreeView, text: Seq<char>, set: int) -> Seq<Seq<char>> {
    match set_list_of(t, set) {
        Some(list) => rooms_fold(t, text, t[list].children),
        None => Seq::empty(),
    }
}

/// The rooms that the set declaration `set_node` names.
pub fn extract_set_rooms(tree: &SyntaxTree, set_node: usize, text: &str) -> (r: Vec<String>)
    requires
        set_node < tree@.len(),
    ensures
        strings_view(r@) == set_rooms_of(tree@, text@, set_node as int),
{
    let mut rooms: Vec<String> = Vec::new();
    proof {
        assert(strings_view(rooms@) =~= Seq::<Seq<char>>::empty());
    }
    let found = match tree.named_child_by_kind(set_node, "set_list") {
        Some(list) => Some(list),
        None => tree.named_child_by_kind(set_node, "room_list"),
    };
    match found {
        Some(list_node) => {
            let n = tree.child_count(list_node);
            let ghost list = tree@[list_node as int].children;
            let mut k: usize = 0;
            proof {
                assert(list.take(0) =~= Seq::<int>::empty());
            }
            while k < n
                invariant
                    k <= n,
                    list_node < tree@.len(),
                    n == list.len(),
                    list == tree@[list_node as int].children,
                    strings_view(rooms@) == rooms_fold(tree@, text@, list.take(k as int)),
                decreases n - k,
            {
                let child = tree.child(list_node, k);
                let ghost before = strings_view(rooms@);
                proof {
                    assert(list.take(k + 1).drop_last() =~= list.take(k as int));
                    assert(list.take(k + 1).last() == child);
                }
                if tree.node(child).named && (tree.kind_is(child, "room_id") || tree.kind_is(
                    child,
                    "_room_ref",
                )) {
                    rooms.push(from_chars(&clean_text(tree, child, text)));
                    proof {
                        assert(strings_view(rooms@) =~= before.push(
                            node_clean(tree@, text@, child as int),
                        ));
                    }
                }
                k += 1;
            }
            proof {
                assert(list.take(n as int) =~= list);
            }
        },
        None => {},
    }
    rooms
}

/// What the set declaration `set` says of its set.
pub open spec fn set_metadata_of(t: TreeView, text: Seq<char>, set: int) -> SetMetadataView {
    SetMetadataView { rooms: set_rooms_of(t, text, set) }
}

} // verus!
