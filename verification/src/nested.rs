//! What holds of a flag that is defined in the body of a scheduled action:
//! it is found like any other flag, and the place that is recorded for it
//! is the place in the document where its name stands.

use crate::analysis::{
    contributions_of, definitions_from, references_from, scheduled_definition,
    scheduled_definitions, scheduled_references, store_with, store_with_all, ContributionView,
};
use crate::backend::{analysed, BackendView};
use crate::encoding::{
    lemma_encode_utf8_concat, lemma_position_leads_back, lemma_remapped_span_holds_same_bytes,
    lemma_slice_bytes,
};
use crate::extract::node_trimmed;
use crate::index::{entry_at, StoreView};
use crate::schedule::{
    fragment_of, fragments_among, lemma_wrapper_prefix_len, remapped_span,
    schedule_definition_at, schedule_definitions_all, schedule_definitions_in,
    schedule_fragments_of, schedule_nodes_of, schedule_references_all, wrapper_prefix,
    FragmentView, ParsedView,
};
use crate::symbols::{
    DefinitionView, FlagMetadataView, LocationView, MetadataView, SymbolKind,
};
use crate::syntax::{node_text, TreeView};
use crate::text::{
    is_offset_of, line_of_offset, line_start_before, slice_of, utf16_units, valid_span,
};
use vstd::prelude::*;
use vstd::utf8::{encode_utf8, is_char_boundary, is_continuation_byte, valid_utf8};

verus! {

// ---------------------------------------------------------------------------
// The first definition is the current one
// ---------------------------------------------------------------------------

/// Whether the contribution `c` is a definition of `id` of kind `kind`.
pub open spec fn defines(c: ContributionView, kind: SymbolKind, id: Seq<char>) -> bool {
    match c {
        ContributionView::Definition { kind: k, id: i, .. } => k == kind && i == id,
        ContributionView::Reference { .. } => false,
    }
}

/// The definition that a contribution holds.
pub open spec fn definition_of(c: ContributionView) -> DefinitionView
    recommends
        c is Definition,
{
    c->definition
}

/// The first definition of `id` of kind `kind` in `list`.
pub open spec fn first_defining(list: Seq<ContributionView>, kind: SymbolKind, id: Seq<char>)
    -> Option<DefinitionView>
    decreases list.len(),
{
    if list.len() == 0 {
        None
    } else {
        match first_defining(list.drop_last(), kind, id) {
            Some(found) => Some(found),
            None => if defines(list.last(), kind, id) {
                Some(definition_of(list.last()))
            } else {
                None
            },
        }
    }
}

/// A list in which nothing defines `id` has no first definition of it.
pub proof fn lemma_nothing_defines(list: Seq<ContributionView>, kind: SymbolKind, id: Seq<char>)
    requires
        forall|i: int| 0 <= i < list.len() ==> !defines(#[trigger] list[i], kind, id),
    ensures
        first_defining(list, kind, id) is None,
    decreases list.len(),
{
    if list.len() > 0 {
        let shorter = list.drop_last();
        assert forall|i: int| 0 <= i < shorter.len() implies !defines(
            #[trigger] shorter[i],
            kind,
            id,
        ) by {
            assert(shorter[i] == list[i]);
        }
        lemma_nothing_defines(shorter, kind, id);
        assert(list.last() == list[list.len() - 1]);
    }
}

/// The first definition of `id` in `list` is the one at `k`, where that
/// one defines `id` and nothing before it does.
pub proof fn lemma_first_defining_at(
    list: Seq<ContributionView>,
    kind: SymbolKind,
    id: Seq<char>,
    k: int,
)
    requires
        0 <= k < list.len(),
        defines(list[k], kind, id),
        forall|j: int| 0 <= j < k ==> !defines(#[trigger] list[j], kind, id),
    ensures
        first_defining(list, kind, id) == Some(definition_of(list[k])),
    decreases list.len(),
{
    let shorter = list.drop_last();
    if k == list.len() - 1 {
        assert forall|i: int| 0 <= i < shorter.len() implies !defines(
            #[trigger] shorter[i],
            kind,
            id,
        ) by {
            assert(shorter[i] == list[i]);
        }
        lemma_nothing_defines(shorter, kind, id);
    } else {
        assert(shorter[k] == list[k]);
        assert forall|j: int| 0 <= j < k implies !defines(#[trigger] shorter[j], kind, id) by {
            assert(shorter[j] == list[j]);
        }
        lemma_first_defining_at(shorter, kind, id, k);
    }
}

/// The first definition in two lists, one after the other, is that of the
/// first list, or else that of the second.
pub proof fn lemma_first_defining_concat(
    first: Seq<ContributionView>,
    second: Seq<ContributionView>,
    kind: SymbolKind,
    id: Seq<char>,
)
    ensures
        first_defining(first + second, kind, id) == (match first_defining(first, kind, id) {
            Some(found) => Some(found),
            None => first_defining(second, kind, id),
        }),
    decreases second.len(),
{
    if second.len() == 0 {
        assert(first + second =~= first);
    } else {
        lemma_first_defining_concat(first, second.drop_last(), kind, id);
        assert((first + second).drop_last() =~= first + second.drop_last());
        assert((first + second).last() == second.last());
    }
}

/// The current definition of `id` after the contributions `list` were
/// added to `store` is the one that `store` had, or else the first one of
/// `list`.
pub proof fn lemma_first_definition_is_current(
    store: StoreView,
    list: Seq<ContributionView>,
    kind: SymbolKind,
    id: Seq<char>,
)
    ensures
        entry_at(store_with_all(store, list).of(kind), id).definition == (match entry_at(
            store.of(kind),
            id,
        ).definition {
            Some(current) => Some(current),
            None => first_defining(list, kind, id),
        }),
    decreases list.len(),
{
    if list.len() > 0 {
        lemma_first_definition_is_current(store, list.drop_last(), kind, id);
        let before = store_with_all(store, list.drop_last());
        let after = store_with(before, list.last());
        assert(store_with_all(store, list) == after);
        match list.last() {
            ContributionView::Definition { kind: k, id: i, definition } => {
                if k != kind {
                    assert(after.of(kind) == before.of(kind));
                } else if i != id {
                    assert(entry_at(after.of(kind), id) == entry_at(before.of(kind), id));
                }
            },
            ContributionView::Reference { kind: k, id: i, reference } => {
                if k != kind {
                    assert(after.of(kind) == before.of(kind));
                } else if i != id {
                    assert(entry_at(after.of(kind), id) == entry_at(before.of(kind), id));
                }
            },
        }
    }
}

// ---------------------------------------------------------------------------
// What the parts of an analysis define
// ---------------------------------------------------------------------------

/// The definitions that captures make are of their kind, and each is named
/// as one of the captures is written.
proof fn lemma_definitions_from_shape(
    kind: SymbolKind,
    t: TreeView,
    text: Seq<char>,
    uri: Seq<char>,
    captures: Seq<int>,
)
    ensures
        forall|i: int|
            0 <= i < definitions_from(kind, t, text, uri, captures).len() ==> {
                let c = #[trigger] definitions_from(kind, t, text, uri, captures)[i];
                &&& c is Definition
                &&& c->Definition_kind == kind
                &&& exists|j: int|
                    0 <= j < captures.len() && c->Definition_id == node_trimmed(
                        t,
                        text,
                        #[trigger] captures[j],
                    )
            },
    decreases captures.len(),
{
    if captures.len() > 0 {
        let shorter = captures.drop_last();
        lemma_definitions_from_shape(kind, t, text, uri, shorter);
        let before = definitions_from(kind, t, text, uri, shorter);
        let now = definitions_from(kind, t, text, uri, captures);
        assert forall|i: int| 0 <= i < now.len() implies {
            let c = #[trigger] now[i];
            &&& c is Definition
            &&& c->Definition_kind == kind
            &&& exists|j: int|
                0 <= j < captures.len() && c->Definition_id == node_trimmed(
                    t,
                    text,
                    #[trigger] captures[j],
                )
        } by {
            if i < before.len() {
                assert(now[i] == before[i]);
                let j = choose|j: int|
                    0 <= j < shorter.len() && before[i]->Definition_id == node_trimmed(
                        t,
                        text,
                        #[trigger] shorter[j],
                    );
                assert(captures[j] == shorter[j]);
            } else {
                assert(captures[captures.len() - 1] == captures.last());
            }
        }
    }
}

/// What captures give as references defines nothing.
proof fn lemma_references_from_shape(
    kind: SymbolKind,
    t: TreeView,
    text: Seq<char>,
    uri: Seq<char>,
    captures: Seq<int>,
)
    ensures
        forall|i: int|
            0 <= i < references_from(kind, t, text, uri, captures).len()
                ==> (#[trigger] references_from(kind, t, text, uri, captures)[i]) is Reference,
    decreases captures.len(),
{
    if captures.len() > 0 {
        lemma_references_from_shape(kind, t, text, uri, captures.drop_last());
        let before = references_from(kind, t, text, uri, captures.drop_last());
        let now = references_from(kind, t, text, uri, captures);
        assert forall|i: int| 0 <= i < now.len() implies (#[trigger] now[i]) is Reference by {
            if i < before.len() {
                assert(now[i] == before[i]);
            }
        }
    }
}

proof fn lemma_other_kind_defines_nothing(
    kind: SymbolKind,
    t: TreeView,
    text: Seq<char>,
    uri: Seq<char>,
    captures: Seq<int>,
    id: Seq<char>,
)
    requires
        kind != SymbolKind::Flag,
    ensures
        first_defining(definitions_from(kind, t, text, uri, captures), SymbolKind::Flag, id)
            is None,
{
    lemma_definitions_from_shape(kind, t, text, uri, captures);
    lemma_nothing_defines(definitions_from(kind, t, text, uri, captures), SymbolKind::Flag, id);
}

proof fn lemma_references_define_nothing(
    kind: SymbolKind,
    t: TreeView,
    text: Seq<char>,
    uri: Seq<char>,
    captures: Seq<int>,
    id: Seq<char>,
)
    ensures
        first_defining(references_from(kind, t, text, uri, captures), SymbolKind::Flag, id)
            is None,
{
    lemma_references_from_shape(kind, t, text, uri, captures);
    lemma_nothing_defines(references_from(kind, t, text, uri, captures), SymbolKind::Flag, id);
}

// ---------------------------------------------------------------------------
// A flag of a scheduled body is found
// ---------------------------------------------------------------------------

/// A flag that is defined only in the body of a scheduled action is found
/// like any other. Where `k` is the first of the definitions that the
/// scheduled bodies of the text make of its flag, no capture of the
/// text's own tree defines a flag of that name, and no other document
/// defines one, then after the analysis the flag has a current
/// definition: it lies in the analysed document, at the place that was
/// recorded for the definition `k`, and it holds the trigger and the
/// limit of that definition.
pub proof fn lemma_scheduled_flag_is_found(
    b: BackendView,
    uri: Seq<char>,
    text: Seq<char>,
    parsed: ParsedView,
    parses: Seq<Option<ParsedView>>,
    k: int,
)
    requires
        0 <= k < schedule_definitions_all(
            text,
            schedule_fragments_of(parsed.tree, text),
            parses,
        ).len(),
        ({
            let made = schedule_definitions_all(
                text,
                schedule_fragments_of(parsed.tree, text),
                parses,
            );
            &&& forall|j: int| 0 <= j < k ==> (#[trigger] made[j]).id != made[k].id
            &&& forall|i: int|
                0 <= i < parsed.captures.flag_definitions.len() ==> node_trimmed(
                    parsed.tree,
                    text,
                    #[trigger] parsed.captures.flag_definitions[i],
                ) != made[k].id
            &&& entry_at(b.symbols.cleared(uri).flags, made[k].id).definition is None
        }),
    ensures
        ({
            let made = schedule_definitions_all(
                text,
                schedule_fragments_of(parsed.tree, text),
                parses,
            );
            entry_at(analysed(b, uri, text, Some(parsed), parses).symbols.flags, made[k].id).definition
                == Some(
                DefinitionView {
                    location: LocationView { uri, range: made[k].range, rename_range: None },
                    metadata: MetadataView::Flag(
                        FlagMetadataView {
                            defined_in: made[k].defined_in,
                            sequence_limit: made[k].sequence_limit,
                        },
                    ),
                },
            )
        }),
{
    let t = parsed.tree;
    let c = parsed.captures;
    let fragments = schedule_fragments_of(t, text);
    let made = schedule_definitions_all(text, fragments, parses);
    let id = made[k].id;
    let flag = SymbolKind::Flag;
    let part1 = definitions_from(SymbolKind::Room, t, text, uri, c.room_definitions);
    let part2 = references_from(SymbolKind::Room, t, text, uri, c.room_references);
    let part3 = definitions_from(SymbolKind::Item, t, text, uri, c.item_definitions);
    let part4 = references_from(SymbolKind::Item, t, text, uri, c.item_references);
    let part5 = definitions_from(SymbolKind::Npc, t, text, uri, c.npc_definitions);
    let part6 = references_from(SymbolKind::Npc, t, text, uri, c.npc_references);
    let part7 = definitions_from(SymbolKind::Flag, t, text, uri, c.flag_definitions);
    let part8 = scheduled_definitions(uri, made);
    let part9 = scheduled_references(uri, schedule_references_all(text, fragments, parses));
    let part10 = references_from(SymbolKind::Flag, t, text, uri, c.flag_references);
    let part11 = definitions_from(SymbolKind::RoomSet, t, text, uri, c.set_definitions);
    let part12 = references_from(SymbolKind::RoomSet, t, text, uri, c.set_references);

    lemma_other_kind_defines_nothing(SymbolKind::Room, t, text, uri, c.room_definitions, id);
    lemma_references_define_nothing(SymbolKind::Room, t, text, uri, c.room_references, id);
    lemma_other_kind_defines_nothing(SymbolKind::Item, t, text, uri, c.item_definitions, id);
    lemma_references_define_nothing(SymbolKind::Item, t, text, uri, c.item_references, id);
    lemma_other_kind_defines_nothing(SymbolKind::Npc, t, text, uri, c.npc_definitions, id);
    lemma_references_define_nothing(SymbolKind::Npc, t, text, uri, c.npc_references, id);

    // The text's own tree defines no flag of that name.
    lemma_definitions_from_shape(flag, t, text, uri, c.flag_definitions);
    assert forall|i: int| 0 <= i < part7.len() implies !defines(#[trigger] part7[i], flag, id) by {
        let j = choose|j: int|
            0 <= j < c.flag_definitions.len() && part7[i]->Definition_id == node_trimmed(
                t,
                text,
                #[trigger] c.flag_definitions[j],
            );
        assert(node_trimmed(t, text, c.flag_definitions[j]) != id);
    }
    lemma_nothing_defines(part7, flag, id);

    // The scheduled bodies do, first at `k`.
    assert(part8[k] == scheduled_definition(uri, made[k]));
    assert forall|j: int| 0 <= j < k implies !defines(#[trigger] part8[j], flag, id) by {
        assert(part8[j] == scheduled_definition(uri, made[j]));
    }
    lemma_first_defining_at(part8, flag, id, k);

    let head = part1 + part2 + part3 + part4 + part5 + part6 + part7;
    lemma_first_defining_concat(part1, part2, flag, id);
    lemma_first_defining_concat(part1 + part2, part3, flag, id);
    lemma_first_defining_concat(part1 + part2 + part3, part4, flag, id);
    lemma_first_defining_concat(part1 + part2 + part3 + part4, part5, flag, id);
    lemma_first_defining_concat(part1 + part2 + part3 + part4 + part5, part6, flag, id);
    lemma_first_defining_concat(part1 + part2 + part3 + part4 + part5 + part6, part7, flag, id);
    assert(first_defining(head, flag, id) is None);
    lemma_first_defining_concat(head, part8, flag, id);
    lemma_first_defining_concat(head + part8, part9, flag, id);
    lemma_first_defining_concat(head + part8 + part9, part10, flag, id);
    lemma_first_defining_concat(head + part8 + part9 + part10, part11, flag, id);
    lemma_first_defining_concat(head + part8 + part9 + part10 + part11, part12, flag, id);
    let all = contributions_of(parsed, text, uri, parses);
    assert(all == head + part8 + part9 + part10 + part11 + part12);
    lemma_first_definition_is_current(b.symbols.cleared(uri), all, flag, id);
}

// ---------------------------------------------------------------------------
// The place of a definition of a scheduled body
// ---------------------------------------------------------------------------

/// A boundary between characters of the wrapped body is one of the
/// document, at the place to which it is carried back.
proof fn lemma_boundary_carried_back(text: Seq<char>, body_start: int, body_end: int, at: int)
    requires
        valid_span(encode_utf8(text), body_start, body_end),
        41 <= at <= 41 + (body_end - body_start),
        is_char_boundary(
            encode_utf8(wrapper_prefix() + slice_of(text, body_start, body_end)),
            at,
        ),
    ensures
        is_char_boundary(encode_utf8(text), body_start + at - 41),
        body_start + at - 41 == encode_utf8(text).len() || !is_continuation_byte(
            encode_utf8(text)[body_start + at - 41],
        ),
{
    broadcast use vstd::utf8::group_utf8_lib;

    let bytes = encode_utf8(text);
    let body = slice_of(text, body_start, body_end);
    let wrapped = encode_utf8(wrapper_prefix() + body);
    let place = body_start + at - 41;
    lemma_wrapper_prefix_len();
    lemma_slice_bytes(text, body_start, body_end);
    lemma_encode_utf8_concat(wrapper_prefix(), body);
    assert(wrapped == encode_utf8(wrapper_prefix()) + bytes.subrange(body_start, body_end));
    assert(valid_utf8(bytes));
    assert(valid_utf8(wrapped));
    if place < body_end {
        assert(wrapped[at] == bytes[place]);
        vstd::utf8::is_char_boundary_iff_not_is_continuation_byte(wrapped, at);
        vstd::utf8::is_char_boundary_iff_not_is_continuation_byte(bytes, place);
    } else {
        if place < bytes.len() {
            vstd::utf8::is_char_boundary_iff_not_is_continuation_byte(bytes, place);
        }
    }
}

/// The place that is recorded for a definition of a scheduled body is
/// where its name stands in the document. Where the capture `node` of the
/// parsed body of the scheduled action `schedule_node` makes a definition
/// and is written without whitespace around it, the recorded range begins
/// and ends at the offsets to which the span of the capture is carried
/// back, and the text of the document between these offsets is the name
/// of the flag. The lines and columns of the two offsets are taken to fit
/// the numbers of a position.
pub proof fn lemma_scheduled_definition_spans_its_name(
    t: TreeView,
    text: Seq<char>,
    schedule_node: int,
    body: int,
    parsed_body: TreeView,
    node: int,
)
    requires
        fragment_of(t, text, schedule_node, body) is Some,
        schedule_definition_at(
            text,
            fragment_of(t, text, schedule_node, body)->0,
            parsed_body,
            node,
        ) is Some,
        node_text(parsed_body, fragment_of(t, text, schedule_node, body)->0.wrapped, node)
            == node_trimmed(
            parsed_body,
            fragment_of(t, text, schedule_node, body)->0.wrapped,
            node,
        ),
        ({
            let f = fragment_of(t, text, schedule_node, body)->0;
            let place = remapped_span(
                f.body_start,
                f.body_len,
                parsed_body[node].start_byte,
                parsed_body[node].end_byte,
            )->0;
            let bytes = encode_utf8(text);
            &&& line_of_offset(bytes, place.0) < u32::MAX
            &&& line_of_offset(bytes, place.1) < u32::MAX
            &&& utf16_units(bytes.subrange(line_start_before(bytes, place.0), place.0))
                < u32::MAX
            &&& utf16_units(bytes.subrange(line_start_before(bytes, place.1), place.1))
                < u32::MAX
        }),
    ensures
        ({
            let f = fragment_of(t, text, schedule_node, body)->0;
            let made = schedule_definition_at(text, f, parsed_body, node)->0;
            let place = remapped_span(
                f.body_start,
                f.body_len,
                parsed_body[node].start_byte,
                parsed_body[node].end_byte,
            );
            let bytes = encode_utf8(text);
            let span = place->0;
            &&& place is Some
            &&& is_offset_of(bytes, made.range.start, span.0)
            &&& is_offset_of(bytes, made.range.end, span.1)
            &&& slice_of(text, span.0, span.1) == made.id
        }),
{
    broadcast use vstd::utf8::group_utf8_lib;

    let f = fragment_of(t, text, schedule_node, body)->0;
    let made = schedule_definition_at(text, f, parsed_body, node)->0;
    let bytes = encode_utf8(text);
    let body_start = t[body].start_byte;
    let body_end = t[body].end_byte;
    let inner = slice_of(text, body_start, body_end);
    let capture_start = parsed_body[node].start_byte;
    let capture_end = parsed_body[node].end_byte;
    let wrapped = encode_utf8(f.wrapped);

    // The body and the capture span whole characters: their texts are
    // not empty.
    assert(inner.len() > 0);
    assert(valid_span(bytes, body_start, body_end));
    assert(f.body_len == body_end - body_start);
    assert(made.id.len() > 0);
    assert(valid_span(wrapped, capture_start, capture_end));
    let place = remapped_span(f.body_start, f.body_len, capture_start, capture_end)->0;

    lemma_remapped_span_holds_same_bytes(text, body_start, body_end, capture_start, capture_end);
    lemma_boundary_carried_back(text, body_start, body_end, capture_start);
    lemma_boundary_carried_back(text, body_start, body_end, capture_end);
    assert(valid_span(bytes, place.0, place.1));
    assert(slice_of(text, place.0, place.1) == made.id);
    lemma_position_leads_back(bytes, place.0);
    lemma_position_leads_back(bytes, place.1);
}

// ---------------------------------------------------------------------------
// Where a definition of a scheduled body comes from
// ---------------------------------------------------------------------------

proof fn lemma_fragment_has_a_source(t: TreeView, text: Seq<char>, pairs: Seq<(int, int)>, i: int)
    requires
        0 <= i < fragments_among(t, text, pairs).len(),
    ensures
        exists|j: int|
            0 <= j < pairs.len() && #[trigger] fragment_of(t, text, pairs[j].0, pairs[j].1)
                == Some(fragments_among(t, text, pairs)[i]),
    decreases pairs.len(),
{
    let before = fragments_among(t, text, pairs.drop_last());
    if i < before.len() {
        lemma_fragment_has_a_source(t, text, pairs.drop_last(), i);
        let j = choose|j: int|
            0 <= j < pairs.drop_last().len() && #[trigger] fragment_of(
                t,
                text,
                pairs.drop_last()[j].0,
                pairs.drop_last()[j].1,
            ) == Some(before[i]);
        assert(pairs.drop_last()[j] == pairs[j]);
        assert(fragment_of(t, text, pairs[j].0, pairs[j].1) == Some(
            fragments_among(t, text, pairs)[i],
        ));
    } else {
        let j = pairs.len() - 1;
        assert(pairs[j] == pairs.last());
        assert(fragment_of(t, text, pairs[j].0, pairs[j].1) == Some(
            fragments_among(t, text, pairs)[i],
        ));
    }
}

proof fn lemma_definition_in_has_a_source(
    text: Seq<char>,
    f: FragmentView,
    parsed_body: TreeView,
    captures: Seq<int>,
    i: int,
)
    requires
        0 <= i < schedule_definitions_in(text, f, parsed_body, captures).len(),
    ensures
        exists|node: int| #[trigger]
            schedule_definition_at(text, f, parsed_body, node) == Some(
                schedule_definitions_in(text, f, parsed_body, captures)[i],
            ),
    decreases captures.len(),
{
    let before = schedule_definitions_in(text, f, parsed_body, captures.drop_last());
    if i < before.len() {
        lemma_definition_in_has_a_source(text, f, parsed_body, captures.drop_last(), i);
        let node = choose|node: int| #[trigger]
            schedule_definition_at(text, f, parsed_body, node) == Some(before[i]);
        assert(schedule_definition_at(text, f, parsed_body, node) == Some(
            schedule_definitions_in(text, f, parsed_body, captures)[i],
        ));
    } else {
        assert(schedule_definition_at(text, f, parsed_body, captures.last()) == Some(
            schedule_definitions_in(text, f, parsed_body, captures)[i],
        ));
    }
}

proof fn lemma_definition_all_has_a_source(
    text: Seq<char>,
    fragments: Seq<FragmentView>,
    parses: Seq<Option<ParsedView>>,
    k: int,
)
    requires
        0 <= k < schedule_definitions_all(text, fragments, parses).len(),
    ensures
        exists|at: int, parsed_body: TreeView, node: int|
            0 <= at < fragments.len() && #[trigger] schedule_definition_at(
                text,
                fragments[at],
                parsed_body,
                node,
            ) == Some(schedule_definitions_all(text, fragments, parses)[k]),
    decreases fragments.len(),
{
    let last = fragments.len() - 1;
    let before = schedule_definitions_all(text, fragments.drop_last(), parses);
    let made = schedule_definitions_all(text, fragments, parses)[k];
    if k < before.len() {
        lemma_definition_all_has_a_source(text, fragments.drop_last(), parses, k);
        let (at, parsed_body, node) = choose|at: int, parsed_body: TreeView, node: int|
            0 <= at < fragments.drop_last().len() && #[trigger] schedule_definition_at(
                text,
                fragments.drop_last()[at],
                parsed_body,
                node,
            ) == Some(before[k]);
        assert(fragments.drop_last()[at] == fragments[at]);
        assert(schedule_definition_at(text, fragments[at], parsed_body, node) == Some(made));
    } else {
        let parsed_body = parses[last]->0.tree;
        let captures = parses[last]->0.captures.flag_definitions;
        lemma_definition_in_has_a_source(
            text,
            fragments[last],
            parsed_body,
            captures,
            k - before.len(),
        );
        let node = choose|node: int| #[trigger]
            schedule_definition_at(text, fragments[last], parsed_body, node) == Some(
                schedule_definitions_in(text, fragments[last], parsed_body, captures)[k
                    - before.len()],
            );
        assert(schedule_definition_at(text, fragments[last], parsed_body, node) == Some(made));
    }
}

/// Every definition that the scheduled bodies of a text make comes from a
/// capture of the parsed body of one of its scheduled actions.
pub proof fn lemma_scheduled_definition_has_a_source(
    t: TreeView,
    text: Seq<char>,
    parses: Seq<Option<ParsedView>>,
    k: int,
)
    requires
        0 <= k < schedule_definitions_all(text, schedule_fragments_of(t, text), parses).len(),
    ensures
        exists|schedule_node: int, body: int, parsed_body: TreeView, node: int|
            fragment_of(t, text, schedule_node, body) is Some && #[trigger] schedule_definition_at(
                text,
                fragment_of(t, text, schedule_node, body)->0,
                parsed_body,
                node,
            ) == Some(
                schedule_definitions_all(text, schedule_fragments_of(t, text), parses)[k],
            ),
{
    let fragments = schedule_fragments_of(t, text);
    let pairs = schedule_nodes_of(t);
    let made = schedule_definitions_all(text, fragments, parses)[k];
    lemma_definition_all_has_a_source(text, fragments, parses, k);
    let (at, parsed_body, node) = choose|at: int, parsed_body: TreeView, node: int|
        0 <= at < fragments.len() && #[trigger] schedule_definition_at(
            text,
            fragments[at],
            parsed_body,
            node,
        ) == Some(made);
    lemma_fragment_has_a_source(t, text, pairs, at);
    let j = choose|j: int|
        0 <= j < pairs.len() && #[trigger] fragment_of(t, text, pairs[j].0, pairs[j].1) == Some(
            fragments[at],
        );
    assert(schedule_definition_at(
        text,
        fragment_of(t, text, pairs[j].0, pairs[j].1)->0,
        parsed_body,
        node,
    ) == Some(made));
}

// ---------------------------------------------------------------------------
// Found, and at its name
// ---------------------------------------------------------------------------

/// A flag that is defined only in the body of a scheduled action is found
/// by the lookup of definitions, in the analysed document and at its name.
/// Where `k` is the first of the definitions that the scheduled bodies of
/// the text make of its flag, no capture of the text's own tree and no
/// other document defines a flag of that name, and the definition comes
/// from the capture `node` of the parsed body of the action
/// `schedule_node`, written without whitespace around it, then after the
/// analysis the flag has a current definition in the document `uri`, and
/// the text of the document between the two ends of the range of that
/// definition is the name of the flag. The lines and columns of the two
/// ends are taken to fit the numbers of a position.
pub proof fn lemma_scheduled_flag_is_found_at_its_name(
    b: BackendView,
    uri: Seq<char>,
    text: Seq<char>,
    parsed: ParsedView,
    parses: Seq<Option<ParsedView>>,
    k: int,
    schedule_node: int,
    body: int,
    parsed_body: TreeView,
    node: int,
)
    requires
        0 <= k < schedule_definitions_all(
            text,
            schedule_fragments_of(parsed.tree, text),
            parses,
        ).len(),
        ({
            let made = schedule_definitions_all(
                text,
                schedule_fragments_of(parsed.tree, text),
                parses,
            );
            &&& forall|j: int| 0 <= j < k ==> (#[trigger] made[j]).id != made[k].id
            &&& forall|i: int|
                0 <= i < parsed.captures.flag_definitions.len() ==> node_trimmed(
                    parsed.tree,
                    text,
                    #[trigger] parsed.captures.flag_definitions[i],
                ) != made[k].id
            &&& entry_at(b.symbols.cleared(uri).flags, made[k].id).definition is None
            &&& fragment_of(parsed.tree, text, schedule_node, body) is Some
            &&& schedule_definition_at(
                text,
                fragment_of(parsed.tree, text, schedule_node, body)->0,
                parsed_body,
                node,
            ) == Some(made[k])
        }),
        node_text(
            parsed_body,
            fragment_of(parsed.tree, text, schedule_node, body)->0.wrapped,
            node,
        ) == node_trimmed(
            parsed_body,
            fragment_of(parsed.tree, text, schedule_node, body)->0.wrapped,
            node,
        ),
        ({
            let f = fragment_of(parsed.tree, text, schedule_node, body)->0;
            let place = remapped_span(
                f.body_start,
                f.body_len,
                parsed_body[node].start_byte,
                parsed_body[node].end_byte,
            )->0;
            let bytes = encode_utf8(text);
            &&& line_of_offset(bytes, place.0) < u32::MAX
            &&& line_of_offset(bytes, place.1) < u32::MAX
            &&& utf16_units(bytes.subrange(line_start_before(bytes, place.0), place.0))
                < u32::MAX
            &&& utf16_units(bytes.subrange(line_start_before(bytes, place.1), place.1))
                < u32::MAX
        }),
    ensures
        ({
            let id = schedule_definitions_all(
                text,
                schedule_fragments_of(parsed.tree, text),
                parses,
            )[k].id;
            let found = entry_at(
                analysed(b, uri, text, Some(parsed), parses).symbols.flags,
                id,
            ).definition;
            let bytes = encode_utf8(text);
            &&& found is Some
            &&& found->0.location.uri == uri
            &&& exists|start: int, end: int|
                is_offset_of(bytes, found->0.location.range.start, start) && is_offset_of(
                    bytes,
                    found->0.location.range.end,
                    end,
                ) && #[trigger] slice_of(text, start, end) == id
        }),
{
    lemma_scheduled_flag_is_found(b, uri, text, parsed, parses, k);
    lemma_scheduled_definition_spans_its_name(
        parsed.tree,
        text,
        schedule_node,
        body,
        parsed_body,
        node,
    );
    let f = fragment_of(parsed.tree, text, schedule_node, body)->0;
    let place = remapped_span(
        f.body_start,
        f.body_len,
        parsed_body[node].start_byte,
        parsed_body[node].end_byte,
    )->0;
    let id = schedule_definitions_all(
        text,
        schedule_fragments_of(parsed.tree, text),
        parses,
    )[k].id;
    assert(slice_of(text, place.0, place.1) == id);
}

} // verus!
