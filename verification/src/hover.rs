//! The markdown that describes a definition when the author points at
//! one of its occurrences.

use crate::chars::{
    chars_eq, chars_eq_ignore_ascii_case, chars_to_ascii_uppercase, copy_chars, drop_empty,
    eq_ignore_ascii_case, extend_chars, extend_str, from_chars, is_blank, join, join_chars,
    lists_view, push_decimal, decimal, replace_char, replace_in_chars, slice_chars, split,
    split_nonempty, strings_view, to_ascii_uppercase, to_chars, trim, trim_chars,
};
use crate::symbols::{
    opt_movability, opt_text, sanitize_chars, sanitized, FlagMetadata, FlagMetadataView,
    ItemMetadata, ItemMetadataView, MetadataView, Movability, MovabilityView, NpcMetadata,
    NpcMetadataView, RoomMetadata, RoomMetadataView, SetMetadata, SetMetadataView, SymbolDefinition,
    SymbolMetadata,
};
use vstd::prelude::*;

verus! {

/// The number of characters of a description that a hover shows.
pub const HOVER_DESCRIPTION_MAX_CHARS: usize = 100;

/// The text that an optional string slice holds.
pub open spec fn opt_str(value: Option<&str>) -> Option<Seq<char>> {
    match value {
        Some(text) => Some(text@),
        None => None,
    }
}

/// `value` cut to `max` characters, with three dots where something was
/// cut off.
pub open spec fn truncated(value: Seq<char>, max: nat) -> Seq<char> {
    if value.len() <= max {
        value
    } else {
        value.take(max as int) + "..."@
    }
}

fn truncate_chars(value: &Vec<char>, max_chars: usize) -> (r: Vec<char>)
    ensures
        r@ == truncated(value@, max_chars as nat),
{
    if value.len() <= max_chars {
        copy_chars(value)
    } else {
        let mut out = slice_chars(value, 0, max_chars);
        extend_str(&mut out, "...");
        proof {
            assert(out@ =~= value@.take(max_chars as int) + "..."@);
        }
        out
    }
}

/// `value` cut to `max_chars` characters, with three dots where something
/// was cut off.
pub fn truncate_string(value: String, max_chars: usize) -> (r: String)
    ensures
        r@ == truncated(value@, max_chars as nat),
{
    let chars = to_chars(value.as_str());
    from_chars(&truncate_chars(&chars, max_chars))
}

/// How a description is shown: made safe for markdown and cut to a
/// hundred characters; `(missing)` where it is not there or blank.
pub open spec fn description_text(value: Option<Seq<char>>) -> Seq<char> {
    match value {
        Some(text) => if trim(text).len() > 0 {
            truncated(sanitized(text), HOVER_DESCRIPTION_MAX_CHARS as nat)
        } else {
            "(missing)"@
        },
        None => "(missing)"@,
    }
}

fn description_chars(value: &Option<String>) -> (r: Vec<char>)
    ensures
        r@ == description_text(opt_text(*value)),
{
    match value {
        Some(text) => {
            let chars = to_chars(text.as_str());
            if !is_blank(&chars) {
                truncate_chars(&sanitize_chars(&chars), HOVER_DESCRIPTION_MAX_CHARS)
            } else {
                to_chars("(missing)")
            }
        },
        None => to_chars("(missing)"),
    }
}

/// How a description is shown.
pub fn truncate_description(value: Option<&str>) -> (r: String)
    ensures
        r@ == description_text(opt_str(value)),
{
    match value {
        Some(text) => {
            let chars = to_chars(text);
            if !is_blank(&chars) {
                from_chars(&truncate_chars(&sanitize_chars(&chars), HOVER_DESCRIPTION_MAX_CHARS))
            } else {
                from_chars(&to_chars("(missing)"))
            }
        },
        None => from_chars(&to_chars("(missing)")),
    }
}

/// The word `word`, with the note in brackets where the note is there and
/// not blank.
pub open spec fn with_note(word: Seq<char>, note: Option<Seq<char>>) -> Seq<char> {
    match note {
        Some(text) => if trim(text).len() > 0 {
            word + " ("@ + sanitized(text) + ")"@
        } else {
            word
        },
        None => word,
    }
}

/// How a movability is shown.
pub open spec fn movability_text(movability: Option<MovabilityView>) -> Seq<char> {
    match movability {
        Some(MovabilityView::Free) => "free"@,
        Some(MovabilityView::Fixed(note)) => with_note("fixed"@, note),
        Some(MovabilityView::Restricted(note)) => with_note("restricted"@, note),
        None => "(none)"@,
    }
}

fn word_with_note(word: &str, note: &Option<String>) -> (r: Vec<char>)
    ensures
        r@ == with_note(word@, opt_text(*note)),
{
    let mut out = to_chars(word);
    match note {
        Some(text) => {
            let chars = to_chars(text.as_str());
            if !is_blank(&chars) {
                extend_str(&mut out, " (");
                extend_chars(&mut out, &sanitize_chars(&chars));
                extend_str(&mut out, ")");
            }
        },
        None => {},
    }
    out
}

fn movability_chars(movability: &Option<Movability>) -> (r: Vec<char>)
    ensures
        r@ == movability_text(opt_movability(*movability)),
{
    match movability {
        Some(Movability::Free) => to_chars("free"),
        Some(Movability::Fixed(note)) => word_with_note("fixed", note),
        Some(Movability::Restricted(note)) => word_with_note("restricted", note),
        None => to_chars("(none)"),
    }
}

/// How a movability is shown.
pub fn describe_movability(movability: Option<&Movability>) -> (r: String)
    ensures
        r@ == movability_text(
            match movability {
                Some(m) => Some(m@),
                None => None,
            },
        ),
{
    match movability {
        Some(Movability::Free) => from_chars(&to_chars("free")),
        Some(Movability::Fixed(note)) => from_chars(&word_with_note("fixed", note)),
        Some(Movability::Restricted(note)) => from_chars(&word_with_note("restricted", note)),
        None => from_chars(&to_chars("(none)")),
    }
}

// ---------------------------------------------------------------------------
// Paths
// ---------------------------------------------------------------------------

/// The index of the first component of `list` that is the word `data`,
/// whatever the case of its letters; `-1` where there is none.
pub open spec fn data_component(list: Seq<Seq<char>>) -> int
    decreases list.len(),
{
    if list.len() == 0 {
        -1
    } else if eq_ignore_ascii_case(list[0], "data"@) {
        0
    } else {
        let rest = data_component(list.drop_first());
        if rest < 0 {
            -1
        } else {
            rest + 1
        }
    }
}

/// [`data_component`] lies within the list.
pub proof fn lemma_data_component(list: Seq<Seq<char>>)
    ensures
        -1 <= data_component(list) < list.len(),
    decreases list.len(),
{
    if list.len() > 0 && !eq_ignore_ascii_case(list[0], "data"@) {
        lemma_data_component(list.drop_first());
    }
}

/// The components of `path`: what stands between its slashes, of either
/// kind, where that is not empty.
pub open spec fn path_components(path: Seq<char>) -> Seq<Seq<char>> {
    drop_empty(split(replace_char(path, '\\', seq!['/']), '/'))
}

/// `path` as it is shown: with forward slashes, and without what leads
/// to the world below a `data` directory, that is the components up to
/// and with the one that follows `data`, where something is left then.
pub open spec fn data_root_relative(path: Seq<char>) -> Seq<char> {
    let components = path_components(path);
    let at = data_component(components);
    if at >= 0 && at + 2 <= components.len() && join(components.skip(at + 2), "/"@).len() > 0 {
        join(components.skip(at + 2), "/"@)
    } else {
        join(components, "/"@)
    }
}

fn shorten_chars(path: &Vec<char>) -> (r: Vec<char>)
    ensures
        r@ == data_root_relative(path@),
{
    let mut slash: Vec<char> = Vec::new();
    slash.push('/');
    proof {
        assert(slash@ =~= seq!['/']);
        reveal_strlit("/");
        assert("/"@ =~= seq!['/']);
    }
    let normalized = replace_in_chars(path, '\\', &slash);
    let components = split_nonempty(&normalized, '/');
    let ghost list = lists_view(components@);
    match find_data_component(&components) {
        Some(at) => {
            if components.len() - at >= 2 {
                let mut rest: Vec<Vec<char>> = Vec::new();
                let mut j: usize = at + 2;
                proof {
                    assert(lists_view(rest@) =~= list.subrange(at + 2, j as int));
                }
                while j < components.len()
                    invariant
                        at + 2 <= j <= components.len(),
                        list == lists_view(components@),
                        lists_view(rest@) == list.subrange(at + 2, j as int),
                    decreases components.len() - j,
                {
                    let ghost so_far = lists_view(rest@);
                    rest.push(copy_chars(&components[j]));
                    proof {
                        assert(lists_view(rest@) =~= so_far.push(components@[j as int]@));
                        assert(list.subrange(at + 2, j + 1) =~= list.subrange(
                            at + 2,
                            j as int,
                        ).push(components@[j as int]@));
                    }
                    j += 1;
                }
                proof {
                    assert(list.subrange(at + 2, components.len() as int) =~= list.skip(at + 2));
                }
                let relative = join_chars(&rest, &slash);
                if relative.len() > 0 {
                    return relative;
                }
            }
        },
        None => {},
    }
    join_chars(&components, &slash)
}

fn find_data_component(components: &Vec<Vec<char>>) -> (r: Option<usize>)
    ensures
        match r {
            Some(at) => data_component(lists_view(components@)) == at && at < components.len(),
            None => data_component(lists_view(components@)) == -1,
        },
{
    let ghost list = lists_view(components@);
    let word = to_chars("data");
    let mut k: usize = 0;
    proof {
        assert(list.skip(0) =~= list);
    }
    while k < components.len()
        invariant
            k <= components.len(),
            list == lists_view(components@),
            word@ == "data"@,
            data_component(list) == (if data_component(list.skip(k as int)) < 0 {
                -1
            } else {
                k + data_component(list.skip(k as int))
            }),
        decreases components.len() - k,
    {
        proof {
            assert(list.skip(k as int)[0] == components@[k as int]@);
            assert(list.skip(k as int).drop_first() =~= list.skip(k + 1));
            lemma_data_component(list.skip(k + 1));
        }
        if chars_eq_ignore_ascii_case(&components[k], &word) {
            return Some(k);
        }
        k += 1;
    }
    proof {
        assert(list.skip(components.len() as int) =~= Seq::<Seq<char>>::empty());
    }
    None
}

/// `path` as it is shown: with forward slashes, and without what leads
/// to the world below a `data` directory.
pub fn shorten_to_data_root(path: &str) -> (r: String)
    ensures
        r@ == data_root_relative(path@),
{
    from_chars(&shorten_chars(&to_chars(path)))
}

/// The line that names the file of a definition.
pub open spec fn path_line(path: Option<Seq<char>>) -> Option<Seq<char>> {
    match path {
        Some(p) => Some("- **File:** "@ + sanitized(data_root_relative(p))),
        None => None,
    }
}

fn path_line_chars(relative_path: Option<&str>) -> (r: Option<Vec<char>>)
    ensures
        match r {
            Some(line) => path_line(opt_str(relative_path)) == Some(line@),
            None => path_line(opt_str(relative_path)) is None,
        },
{
    match relative_path {
        Some(path) => {
            let shortened = shorten_chars(&to_chars(path));
            let mut line = to_chars("- **File:** ");
            extend_chars(&mut line, &sanitize_chars(&shortened));
            Some(line)
        },
        None => None,
    }
}

/// The line that names the file of a definition.
pub fn definition_path_line(relative_path: Option<&str>) -> (r: Option<String>)
    ensures
        opt_text(r) == path_line(opt_str(relative_path)),
{
    match path_line_chars(relative_path) {
        Some(line) => Some(from_chars(&line)),
        None => None,
    }
}

// ---------------------------------------------------------------------------
// Titles
// ---------------------------------------------------------------------------

/// The name under which a symbol is shown in a title: its display name,
/// trimmed and made safe for markdown, where it has one that is not blank.
pub open spec fn shown_name(display_name: Option<Seq<char>>) -> Option<Seq<char>> {
    match display_name {
        Some(name) => if trim(name).len() > 0 {
            Some(sanitized(trim(name)))
        } else {
            None
        },
        None => None,
    }
}

/// The first line of a hover: the kind in capital letters, then the
/// display name with the identifier in brackets, or the identifier alone
/// where there is no display name or it is the identifier.
pub open spec fn title_line(kind: Seq<char>, display_name: Option<Seq<char>>, id: Seq<char>)
    -> Seq<char> {
    let head = "**"@ + to_ascii_uppercase(kind) + ":** "@;
    match shown_name(display_name) {
        Some(name) => if name == sanitized(id) {
            head + sanitized(id)
        } else {
            head + name + " ("@ + sanitized(id) + ")"@
        },
        None => head + sanitized(id),
    }
}

fn title_chars(kind: &str, display_name: &Option<String>, id: &str) -> (r: Vec<char>)
    ensures
        r@ == title_line(kind@, opt_text(*display_name), id@),
{
    let mut out = to_chars("**");
    extend_chars(&mut out, &chars_to_ascii_uppercase(&to_chars(kind)));
    extend_str(&mut out, ":** ");
    let sanitized_id = sanitize_chars(&to_chars(id));
    let shown = match display_name {
        Some(name) => {
            let trimmed = trim_chars(&to_chars(name.as_str()));
            if trimmed.len() > 0 {
                Some(sanitize_chars(&trimmed))
            } else {
                None
            }
        },
        None => None,
    };
    match shown {
        Some(name) => {
            if chars_eq(&name, &sanitized_id) {
                extend_chars(&mut out, &sanitized_id);
            } else {
                extend_chars(&mut out, &name);
                extend_str(&mut out, " (");
                extend_chars(&mut out, &sanitized_id);
                extend_str(&mut out, ")");
            }
        },
        None => {
            extend_chars(&mut out, &sanitized_id);
        },
    }
    out
}

/// The first line of a hover.
pub fn entity_title_line(kind: &str, display_name: Option<&str>, id: &str) -> (r: String)
    ensures
        r@ == title_line(kind@, opt_str(display_name), id@),
{
    let owned = match display_name {
        Some(name) => Some(from_chars(&to_chars(name))),
        None => None,
    };
    from_chars(&title_chars(kind, &owned, id))
}

// ---------------------------------------------------------------------------
// Lists and fields
// ---------------------------------------------------------------------------

/// Each text of `values` made safe for markdown.
pub open spec fn sanitized_all(values: Seq<Seq<char>>) -> Seq<Seq<char>> {
    Seq::new(values.len(), |i: int| sanitized(values[i]))
}

/// How a list is shown: its entries with commas between them, `(none)`
/// where it has none.
pub open spec fn list_text(values: Seq<Seq<char>>) -> Seq<char> {
    if values.len() == 0 {
        "(none)"@
    } else {
        join(sanitized_all(values), ", "@)
    }
}

/// How an optional field is shown: made safe for markdown, or `absent`
/// where it is not there.
pub open spec fn field_text(value: Option<Seq<char>>, absent: Seq<char>) -> Seq<char> {
    match value {
        Some(text) => sanitized(text),
        None => absent,
    }
}

fn list_chars(values: &Vec<String>) -> (r: Vec<char>)
    ensures
        r@ == list_text(strings_view(values@)),
{
    if values.len() == 0 {
        return to_chars("(none)");
    }
    let mut parts: Vec<Vec<char>> = Vec::new();
    let ghost all = sanitized_all(strings_view(values@));
    let mut k: usize = 0;
    proof {
        assert(lists_view(parts@) =~= all.take(0));
    }
    while k < values.len()
        invariant
            k <= values.len(),
            all == sanitized_all(strings_view(values@)),
            lists_view(parts@) == all.take(k as int),
        decreases values.len() - k,
    {
        let ghost so_far = lists_view(parts@);
        parts.push(sanitize_chars(&to_chars(values[k].as_str())));
        proof {
            assert(lists_view(parts@) =~= so_far.push(sanitized(values@[k as int]@)));
            assert(all.take(k + 1) =~= all.take(k as int).push(sanitized(values@[k as int]@)));
        }
        k += 1;
    }
    proof {
        assert(all.take(values.len() as int) =~= all);
    }
    join_chars(&parts, &to_chars(", "))
}

fn field_chars(value: &Option<String>, absent: &str) -> (r: Vec<char>)
    ensures
        r@ == field_text(opt_text(*value), absent@),
{
    match value {
        Some(text) => sanitize_chars(&to_chars(text.as_str())),
        None => to_chars(absent),
    }
}

fn labelled(label: &str, value: &Vec<char>) -> (r: Vec<char>)
    ensures
        r@ == label@ + value@,
{
    let mut out = to_chars(label);
    extend_chars(&mut out, value);
    out
}

/// The lines `lines`, one below the other.
pub open spec fn lines_text(lines: Seq<Seq<char>>) -> Seq<char> {
    join(lines, "\n"@)
}

/// A list of one line, or of none.
pub open spec fn opt_line(line: Option<Seq<char>>) -> Seq<Seq<char>> {
    match line {
        Some(text) => seq![text],
        None => Seq::empty(),
    }
}

fn push_opt_line(lines: &mut Vec<Vec<char>>, line: Option<Vec<char>>)
    ensures
        lists_view(final(lines)@) == lists_view(old(lines)@) + opt_line(
            match line {
                Some(text) => Some(text@),
                None => None,
            },
        ),
{
    let ghost before = lists_view(lines@);
    match line {
        Some(text) => {
            let ghost view = text@;
            lines.push(text);
            proof {
                assert(lists_view(lines@) =~= before + seq![view]);
            }
        },
        None => {
            proof {
                assert(lists_view(lines@) =~= before + Seq::<Seq<char>>::empty());
            }
        },
    }
}

fn push_line(lines: &mut Vec<Vec<char>>, line: Vec<char>)
    ensures
        lists_view(final(lines)@) == lists_view(old(lines)@).push(line@),
{
    let ghost before = lists_view(lines@);
    let ghost view = line@;
    lines.push(line);
    proof {
        assert(lists_view(lines@) =~= before.push(view));
    }
}

fn finish(lines: &Vec<Vec<char>>) -> (r: String)
    ensures
        r@ == lines_text(lists_view(lines@)),
{
    from_chars(&join_chars(lines, &to_chars("\n")))
}

// ---------------------------------------------------------------------------
// The hovers
// ---------------------------------------------------------------------------

/// The lines of the hover of a room.
pub open spec fn room_hover_lines(id: Seq<char>, meta: RoomMetadataView, path: Option<Seq<char>>)
    -> Seq<Seq<char>> {
    (seq![title_line("ROOM"@, meta.name, id)] + opt_line(path_line(path))).push(
        "- **Description:** "@ + description_text(meta.description),
    ).push("- **Exits:** "@ + list_text(meta.exits))
}

/// The hover of the room `id`: its title, the file of its definition
/// where that is known, its description and its exits.
pub fn format_room_hover(id: &str, meta: &RoomMetadata, relative_path: Option<&str>) -> (r: String)
    ensures
        r@ == lines_text(room_hover_lines(id@, meta@, opt_str(relative_path))),
{
    let mut lines: Vec<Vec<char>> = Vec::new();
    push_line(&mut lines, title_chars("ROOM", &meta.name, id));
    push_opt_line(&mut lines, path_line_chars(relative_path));
    push_line(&mut lines, labelled("- **Description:** ", &description_chars(&meta.description)));
    push_line(&mut lines, labelled("- **Exits:** ", &list_chars(&meta.exits)));
    proof {
        assert(lists_view(lines@) =~= room_hover_lines(id@, meta@, opt_str(relative_path)));
    }
    finish(&lines)
}

/// The lines of the hover of an item.
pub open spec fn item_hover_lines(id: Seq<char>, meta: ItemMetadataView, path: Option<Seq<char>>)
    -> Seq<Seq<char>> {
    (seq![title_line("ITEM"@, meta.name, id)] + opt_line(path_line(path))).push(
        "- **Description:** "@ + description_text(meta.description),
    ).push("- **Movability:** "@ + movability_text(meta.movability)).push(
        "- **Location:** "@ + field_text(meta.location, "(missing)"@),
    ).push("- **Container state:** "@ + field_text(meta.container_state, "(none)"@)).push(
        "- **Abilities:** "@ + list_text(meta.abilities),
    ).push("- **Requires:** "@ + list_text(meta.requirements))
}

/// The hover of the item `id`: its title, the file of its definition
/// where that is known, and what its definition says.
pub fn format_item_hover(id: &str, meta: &ItemMetadata, relative_path: Option<&str>) -> (r: String)
    ensures
        r@ == lines_text(item_hover_lines(id@, meta@, opt_str(relative_path))),
{
    let mut lines: Vec<Vec<char>> = Vec::new();
    push_line(&mut lines, title_chars("ITEM", &meta.name, id));
    push_opt_line(&mut lines, path_line_chars(relative_path));
    push_line(&mut lines, labelled("- **Description:** ", &description_chars(&meta.description)));
    push_line(&mut lines, labelled("- **Movability:** ", &movability_chars(&meta.movability)));
    push_line(&mut lines, labelled("- **Location:** ", &field_chars(&meta.location, "(missing)")));
    push_line(
        &mut lines,
        labelled("- **Container state:** ", &field_chars(&meta.container_state, "(none)")),
    );
    push_line(&mut lines, labelled("- **Abilities:** ", &list_chars(&meta.abilities)));
    push_line(&mut lines, labelled("- **Requires:** ", &list_chars(&meta.requirements)));
    proof {
        assert(lists_view(lines@) =~= item_hover_lines(id@, meta@, opt_str(relative_path)));
    }
    finish(&lines)
}

/// The lines of the hover of a character.
pub open spec fn npc_hover_lines(id: Seq<char>, meta: NpcMetadataView, path: Option<Seq<char>>)
    -> Seq<Seq<char>> {
    (seq![title_line("NPC"@, meta.name, id)] + opt_line(path_line(path))).push(
        "- **Description:** "@ + description_text(meta.description),
    ).push("- **Location:** "@ + field_text(meta.location, "(missing)"@)).push(
        "- **State:** "@ + field_text(meta.state, "(none)"@),
    )
}

/// The hover of the character `id`: its title, the file of its definition
/// where that is known, and what its definition says.
pub fn format_npc_hover(id: &str, meta: &NpcMetadata, relative_path: Option<&str>) -> (r: String)
    ensures
        r@ == lines_text(npc_hover_lines(id@, meta@, opt_str(relative_path))),
{
    let mut lines: Vec<Vec<char>> = Vec::new();
    push_line(&mut lines, title_chars("NPC", &meta.name, id));
    push_opt_line(&mut lines, path_line_chars(relative_path));
    push_line(&mut lines, labelled("- **Description:** ", &description_chars(&meta.description)));
    push_line(&mut lines, labelled("- **Location:** ", &field_chars(&meta.location, "(missing)")));
    push_line(&mut lines, labelled("- **State:** ", &field_chars(&meta.state, "(none)")));
    proof {
        assert(lists_view(lines@) =~= npc_hover_lines(id@, meta@, opt_str(relative_path)));
    }
    finish(&lines)
}

/// The lines of the hover of a flag.
pub open spec fn flag_hover_lines(id: Seq<char>, meta: FlagMetadataView, path: Option<Seq<char>>)
    -> Seq<Seq<char>> {
    let known = seq![title_line("FLAG"@, None, id)] + opt_line(path_line(path)) + opt_line(
        match meta.defined_in {
            Some(trigger) => Some("- **Defined in trigger:** "@ + sanitized(trigger)),
            None => None,
        },
    ) + opt_line(
        match meta.sequence_limit {
            Some(limit) => Some("- **Sequence limit:** "@ + decimal(limit as int)),
            None => None,
        },
    );
    if known.len() == 1 {
        known.push("- **Defined in trigger:** (unknown)"@)
    } else {
        known
    }
}

/// The hover of the flag `id`: its title, the file of its definition
/// where that is known, the trigger that defines it and the number of its
/// steps; where none of these is known, a line that says so.
pub fn format_flag_hover(id: &str, meta: &FlagMetadata, relative_path: Option<&str>) -> (r: String)
    ensures
        r@ == lines_text(flag_hover_lines(id@, meta@, opt_str(relative_path))),
{
    let mut lines: Vec<Vec<char>> = Vec::new();
    let none: Option<String> = None;
    push_line(&mut lines, title_chars("FLAG", &none, id));
    push_opt_line(&mut lines, path_line_chars(relative_path));
    let trigger_line = match &meta.defined_in {
        Some(trigger) => Some(
            labelled("- **Defined in trigger:** ", &sanitize_chars(&to_chars(trigger.as_str()))),
        ),
        None => None,
    };
    push_opt_line(&mut lines, trigger_line);
    let limit_line = match meta.sequence_limit {
        Some(limit) => {
            let mut line = to_chars("- **Sequence limit:** ");
            push_decimal(&mut line, limit);
            Some(line)
        },
        None => None,
    };
    push_opt_line(&mut lines, limit_line);
    if lines.len() == 1 {
        push_line(&mut lines, to_chars("- **Defined in trigger:** (unknown)"));
    }
    proof {
        assert(lists_view(lines@) =~= flag_hover_lines(id@, meta@, opt_str(relative_path)));
    }
    finish(&lines)
}

/// The lines of the hover of a set.
pub open spec fn set_hover_lines(id: Seq<char>, meta: SetMetadataView, path: Option<Seq<char>>)
    -> Seq<Seq<char>> {
    (seq![title_line("SET"@, None, id)] + opt_line(path_line(path))).push(
        "- **Rooms:** "@ + list_text(meta.rooms),
    )
}

/// The hover of the set `id`: its title, the file of its definition where
/// that is known, and its rooms.
pub fn format_set_hover(id: &str, meta: &SetMetadata, relative_path: Option<&str>) -> (r: String)
    ensures
        r@ == lines_text(set_hover_lines(id@, meta@, opt_str(relative_path))),
{
    let mut lines: Vec<Vec<char>> = Vec::new();
    let none: Option<String> = None;
    push_line(&mut lines, title_chars("SET", &none, id));
    push_opt_line(&mut lines, path_line_chars(relative_path));
    push_line(&mut lines, labelled("- **Rooms:** ", &list_chars(&meta.rooms)));
    proof {
        assert(lists_view(lines@) =~= set_hover_lines(id@, meta@, opt_str(relative_path)));
    }
    finish(&lines)
}

/// The hover of a definition of `id` with the metadata `metadata`.
pub open spec fn hover_text(id: Seq<char>, metadata: MetadataView, path: Option<Seq<char>>) -> Seq<
    char,
> {
    match metadata {
        MetadataView::Room(meta) => lines_text(room_hover_lines(id, meta, path)),
        MetadataView::Item(meta) => lines_text(item_hover_lines(id, meta, path)),
        MetadataView::Npc(meta) => lines_text(npc_hover_lines(id, meta, path)),
        MetadataView::Flag(meta) => lines_text(flag_hover_lines(id, meta, path)),
        MetadataView::RoomSet(meta) => lines_text(set_hover_lines(id, meta, path)),
    }
}

/// The hover of the definition `def` of `id`.
pub fn format_hover(id: &str, def: &SymbolDefinition, relative_path: Option<&str>) -> (r: String)
    ensures
        r@ == hover_text(id@, def@.metadata, opt_str(relative_path)),
{
    match &def.metadata {
        SymbolMetadata::Room(meta) => format_room_hover(id, meta, relative_path),
        SymbolMetadata::Item(meta) => format_item_hover(id, meta, relative_path),
        SymbolMetadata::Npc(meta) => format_npc_hover(id, meta, relative_path),
        SymbolMetadata::Flag(meta) => format_flag_hover(id, meta, relative_path),
        SymbolMetadata::RoomSet(meta) => format_set_hover(id, meta, relative_path),
    }
}

} // verus!
