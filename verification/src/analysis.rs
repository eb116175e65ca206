//! The analysis of one document: what it contributes to the symbol store,
//! and how that replaces what the document contributed before.

use crate::chars::{copy_chars, from_chars, to_chars, trim_chars};
use crate::extract::{
    extract_flag_metadata, extract_item_metadata, extract_npc_metadata, extract_room_metadata,
    extract_set_rooms, flag_metadata_of, item_metadata_of, no_item_metadata, no_npc_metadata,
    no_room_metadata, node_trimmed, npc_metadata_of, room_metadata_of, set_metadata_of,
};
use crate::index::{index_with_definition, index_with_reference, StoreView, SymbolStore};
use crate::schedule::{
    ids_view, reference_key, reference_rename_range, schedule_definitions_all,
    schedule_fragments_of, schedule_references_all, stands_in_definition, ParsedView,
    ScheduleFlagDefinitionView, ScheduleSymbolReferenceView,
};
use crate::spans::{
    is_definition_parent_for_kind, node_range, normalize_flag_chars, range_from_node,
};
use crate::symbols::{
    occurrences_view, DefinitionView, FlagMetadata, FlagMetadataView, ItemMetadata, LocationView,
    MetadataView, NpcMetadata, OccurrenceView, ReferenceView, RoomMetadata, SetMetadata,
    SetMetadataView, SymbolDefinition, SymbolKind, SymbolLocation, SymbolMetadata, SymbolOccurrence,
    SymbolReference,
};
use crate::syntax::{SyntaxTree, TreeView};
use crate::text::Document;
use vstd::prelude::*;

verus! {

// ---------------------------------------------------------------------------
// Contributions
// ---------------------------------------------------------------------------

/// One thing that a document gives to the symbol store.
pub enum ContributionView {
    Definition { kind: SymbolKind, id: Seq<char>, definition: DefinitionView },
    Reference { kind: SymbolKind, id: Seq<char>, reference: ReferenceView },
}

impl ContributionView {
    /// The document from which the contribution comes.
    pub open spec fn uri(self) -> Seq<char> {
        match self {
            ContributionView::Definition { definition, .. } => definition.location.uri,
            ContributionView::Reference { reference, .. } => reference.location.uri,
        }
    }

    /// The occurrence that the contribution leaves in its document.
    pub open spec fn occurrence(self) -> OccurrenceView {
        match self {
            ContributionView::Definition { kind, id, definition } => OccurrenceView {
                kind,
                id,
                range: definition.location.range,
            },
            ContributionView::Reference { kind, id, reference } => OccurrenceView {
                kind,
                id,
                range: reference.location.range,
            },
        }
    }
}

/// The store `store` with the contribution `c` added.
pub open spec fn store_with(store: StoreView, c: ContributionView) -> StoreView {
    match c {
        ContributionView::Definition { kind, id, definition } => store.with(
            kind,
            index_with_definition(store.of(kind), id, definition),
        ),
        ContributionView::Reference { kind, id, reference } => store.with(
            kind,
            index_with_reference(store.of(kind), id, reference),
        ),
    }
}

/// The store `store` with the contributions `list` added, one after the
/// other.
pub open spec fn store_with_all(store: StoreView, list: Seq<ContributionView>) -> StoreView
    decreases list.len(),
{
    if list.len() == 0 {
        store
    } else {
        store_with(store_with_all(store, list.drop_last()), list.last())
    }
}

/// The occurrences that the contributions `list` leave, in order.
pub open spec fn occurrences_of(list: Seq<ContributionView>) -> Seq<OccurrenceView> {
    Seq::new(list.len(), |i: int| list[i].occurrence())
}

/// Adding two lists of contributions one after the other is adding the
/// joined list.
pub proof fn lemma_store_with_all_concat(
    store: StoreView,
    first: Seq<ContributionView>,
    second: Seq<ContributionView>,
)
    ensures
        store_with_all(store, first + second) == store_with_all(
            store_with_all(store, first),
            second,
        ),
    decreases second.len(),
{
    if second.len() == 0 {
        assert(first + second =~= first);
    } else {
        lemma_store_with_all_concat(store, first, second.drop_last());
        assert((first + second).drop_last() =~= first + second.drop_last());
        assert((first + second).last() == second.last());
    }
}

/// Adding one contribution after a list is adding the list with the
/// contribution at its end.
pub proof fn lemma_store_with_all_push(
    store: StoreView,
    list: Seq<ContributionView>,
    c: ContributionView,
)
    ensures
        store_with_all(store, list.push(c)) == store_with(store_with_all(store, list), c),
{
    assert(list.push(c).drop_last() =~= list);
}

/// The metadata of a definition of kind `kind` whose node has no parent.
pub open spec fn no_metadata(kind: SymbolKind) -> MetadataView {
    match kind {
        SymbolKind::Room => MetadataView::Room(no_room_metadata()),
        SymbolKind::Item => MetadataView::Item(no_item_metadata()),
        SymbolKind::Npc => MetadataView::Npc(no_npc_metadata()),
        SymbolKind::Flag => MetadataView::Flag(
            FlagMetadataView { defined_in: None, sequence_limit: None },
        ),
        SymbolKind::RoomSet => MetadataView::RoomSet(SetMetadataView { rooms: Seq::empty() }),
    }
}

/// The metadata of the definition of kind `kind` that the node `parent`
/// makes.
pub open spec fn metadata_at(kind: SymbolKind, t: TreeView, text: Seq<char>, parent: int)
    -> MetadataView {
    match kind {
        SymbolKind::Room => MetadataView::Room(room_metadata_of(t, text, parent)),
        SymbolKind::Item => MetadataView::Item(item_metadata_of(t, text, parent)),
        SymbolKind::Npc => MetadataView::Npc(npc_metadata_of(t, text, parent)),
        SymbolKind::Flag => MetadataView::Flag(flag_metadata_of(t, text, parent)),
        SymbolKind::RoomSet => MetadataView::RoomSet(set_metadata_of(t, text, parent)),
    }
}

/// The metadata of the definition of kind `kind` whose identifier is the
/// node `node`: what the parent of the node says.
pub open spec fn metadata_for(kind: SymbolKind, t: TreeView, text: Seq<char>, node: int)
    -> MetadataView {
    match t[node].parent {
        Some(parent) => metadata_at(kind, t, text, parent),
        None => no_metadata(kind),
    }
}

/// The definition of kind `kind` that the capture `node` makes. Nothing
/// where the capture is no node of the tree or is blank.
pub open spec fn definition_at(
    kind: SymbolKind,
    t: TreeView,
    text: Seq<char>,
    uri: Seq<char>,
    node: int,
) -> Option<ContributionView> {
    let id = node_trimmed(t, text, node);
    if !(0 <= node < t.len()) || id.len() == 0 {
        None
    } else {
        Some(
            ContributionView::Definition {
                kind,
                id,
                definition: DefinitionView {
                    location: LocationView {
                        uri,
                        range: node_range(t, text, node),
                        rename_range: None,
                    },
                    metadata: metadata_for(kind, t, text, node),
                },
            },
        )
    }
}

/// The definitions of kind `kind` that the captures `captures` make, in
/// order.
pub open spec fn definitions_from(
    kind: SymbolKind,
    t: TreeView,
    text: Seq<char>,
    uri: Seq<char>,
    captures: Seq<int>,
) -> Seq<ContributionView>
    decreases captures.len(),
{
    if captures.len() == 0 {
        Seq::empty()
    } else {
        let before = definitions_from(kind, t, text, uri, captures.drop_last());
        match definition_at(kind, t, text, uri, captures.last()) {
            Some(c) => before.push(c),
            None => before,
        }
    }
}

/// The reference of kind `kind` that the capture `node` makes. Nothing
/// where the capture is no node of the tree, is blank, or stands in the
/// construct that defines its kind. A flag reference is indexed under the
/// name of the flag, and keeps its spelling.
pub open spec fn reference_at(
    kind: SymbolKind,
    t: TreeView,
    text: Seq<char>,
    uri: Seq<char>,
    node: int,
) -> Option<ContributionView> {
    let raw = node_trimmed(t, text, node);
    if !(0 <= node < t.len()) || raw.len() == 0 || stands_in_definition(t, node, kind) {
        None
    } else {
        Some(
            ContributionView::Reference {
                kind,
                id: reference_key(kind, raw),
                reference: ReferenceView {
                    location: LocationView {
                        uri,
                        range: node_range(t, text, node),
                        rename_range: reference_rename_range(
                            kind,
                            raw,
                            node_range(t, text, node),
                        ),
                    },
                    raw_id: raw,
                },
            },
        )
    }
}

/// The references of kind `kind` that the captures `captures` make, in
/// order.
pub open spec fn references_from(
    kind: SymbolKind,
    t: TreeView,
    text: Seq<char>,
    uri: Seq<char>,
    captures: Seq<int>,
) -> Seq<ContributionView>
    decreases captures.len(),
{
    if captures.len() == 0 {
        Seq::empty()
    } else {
        let before = references_from(kind, t, text, uri, captures.drop_last());
        match reference_at(kind, t, text, uri, captures.last()) {
            Some(c) => before.push(c),
            None => before,
        }
    }
}

/// The contribution that a flag definition of a scheduled body makes.
pub open spec fn scheduled_definition(uri: Seq<char>, d: ScheduleFlagDefinitionView)
    -> ContributionView {
    ContributionView::Definition {
        kind: SymbolKind::Flag,
        id: d.id,
        definition: DefinitionView {
            location: LocationView { uri, range: d.range, rename_range: None },
            metadata: MetadataView::Flag(
                FlagMetadataView { defined_in: d.defined_in, sequence_limit: d.sequence_limit },
            ),
        },
    }
}

/// The contribution that a reference of a scheduled body makes.
pub open spec fn scheduled_reference(uri: Seq<char>, r: ScheduleSymbolReferenceView)
    -> ContributionView {
    ContributionView::Reference {
        kind: r.kind,
        id: r.id,
        reference: ReferenceView {
            location: LocationView { uri, range: r.range, rename_range: r.rename_range },
            raw_id: r.raw_id,
        },
    }
}

/// The contributions that the flag definitions `list` of scheduled bodies
/// make.
pub open spec fn scheduled_definitions(uri: Seq<char>, list: Seq<ScheduleFlagDefinitionView>)
    -> Seq<ContributionView> {
    Seq::new(list.len(), |i: int| scheduled_definition(uri, list[i]))
}

/// The contributions that the references `list` of scheduled bodies make.
pub open spec fn scheduled_references(uri: Seq<char>, list: Seq<ScheduleSymbolReferenceView>)
    -> Seq<ContributionView> {
    Seq::new(list.len(), |i: int| scheduled_reference(uri, list[i]))
}

/// Everything that the document `uri` with the text `text` contributes,
/// in the order in which it is added: for rooms, items and characters the
/// definitions and then the references; the flag definitions, those of
/// the scheduled bodies, the references of the scheduled bodies, the flag
/// references; the definitions of sets and the references to them.
pub open spec fn contributions_of(
    parsed: ParsedView,
    text: Seq<char>,
    uri: Seq<char>,
    parses: Seq<Option<ParsedView>>,
) -> Seq<ContributionView> {
    let t = parsed.tree;
    let c = parsed.captures;
    let fragments = schedule_fragments_of(t, text);
    definitions_from(SymbolKind::Room, t, text, uri, c.room_definitions) + references_from(
        SymbolKind::Room,
        t,
        text,
        uri,
        c.room_references,
    ) + definitions_from(SymbolKind::Item, t, text, uri, c.item_definitions) + references_from(
        SymbolKind::Item,
        t,
        text,
        uri,
        c.item_references,
    ) + definitions_from(SymbolKind::Npc, t, text, uri, c.npc_definitions) + references_from(
        SymbolKind::Npc,
        t,
        text,
        uri,
        c.npc_references,
    ) + definitions_from(SymbolKind::Flag, t, text, uri, c.flag_definitions)
        + scheduled_definitions(uri, schedule_definitions_all(text, fragments, parses))
        + scheduled_references(uri, schedule_references_all(text, fragments, parses))
        + references_from(SymbolKind::Flag, t, text, uri, c.flag_references) + definitions_from(
        SymbolKind::RoomSet,
        t,
        text,
        uri,
        c.set_definitions,
    ) + references_from(SymbolKind::RoomSet, t, text, uri, c.set_references)
}

// ---------------------------------------------------------------------------
// Adding to the store
// ---------------------------------------------------------------------------

fn store_insert_definition(
    symbols: &mut SymbolStore,
    kind: SymbolKind,
    id: String,
    definition: SymbolDefinition,
)
    ensures
        final(symbols)@ == store_with(
            old(symbols)@,
            (ContributionView::Definition { kind, id: id@, definition: definition@ }),
        ),
        old(symbols)@.wf() ==> final(symbols)@.wf(),
{
    match kind {
        SymbolKind::Room => symbols.rooms.insert_definition(id, definition),
        SymbolKind::Item => symbols.items.insert_definition(id, definition),
        SymbolKind::Npc => symbols.npcs.insert_definition(id, definition),
        SymbolKind::Flag => symbols.flags.insert_definition(id, definition),
        SymbolKind::RoomSet => symbols.sets.insert_definition(id, definition),
    }
}

fn store_add_reference(
    symbols: &mut SymbolStore,
    kind: SymbolKind,
    id: String,
    reference: SymbolReference,
)
    ensures
        final(symbols)@ == store_with(
            old(symbols)@,
            (ContributionView::Reference { kind, id: id@, reference: reference@ }),
        ),
        old(symbols)@.wf() ==> final(symbols)@.wf(),
{
    match kind {
        SymbolKind::Room => symbols.rooms.add_reference(id, reference),
        SymbolKind::Item => symbols.items.add_reference(id, reference),
        SymbolKind::Npc => symbols.npcs.add_reference(id, reference),
        SymbolKind::Flag => symbols.flags.add_reference(id, reference),
        SymbolKind::RoomSet => symbols.sets.add_reference(id, reference),
    }
}

fn extract_metadata(kind: SymbolKind, tree: &SyntaxTree, node: usize, text: &str) -> (r:
    SymbolMetadata)
    requires
        node < tree@.len(),
    ensures
        r@ == metadata_for(kind, tree@, text@, node as int),
{
    match tree.parent(node) {
        Some(parent) => match kind {
            SymbolKind::Room => SymbolMetadata::Room(extract_room_metadata(tree, parent, text)),
            SymbolKind::Item => SymbolMetadata::Item(extract_item_metadata(tree, parent, text)),
            SymbolKind::Npc => SymbolMetadata::Npc(extract_npc_metadata(tree, parent, text)),
            SymbolKind::Flag => SymbolMetadata::Flag(extract_flag_metadata(tree, parent, text)),
            SymbolKind::RoomSet => SymbolMetadata::RoomSet(
                SetMetadata { rooms: extract_set_rooms(tree, parent, text) },
            ),
        },
        None => match kind {
            SymbolKind::Room => {
                let meta = RoomMetadata { name: None, description: None, exits: Vec::new() };
                proof {
                    assert(meta@.exits =~= Seq::<Seq<char>>::empty());
                }
                SymbolMetadata::Room(meta)
            },
            SymbolKind::Item => {
                let meta = ItemMetadata {
                    name: None,
                    description: None,
                    movability: None,
                    location: None,
                    container_state: None,
                    abilities: Vec::new(),
                    requirements: Vec::new(),
                };
                proof {
                    assert(meta@.abilities =~= Seq::<Seq<char>>::empty());
                    assert(meta@.requirements =~= Seq::<Seq<char>>::empty());
                }
                SymbolMetadata::Item(meta)
            },
            SymbolKind::Npc => SymbolMetadata::Npc(
                NpcMetadata { name: None, description: None, location: None, state: None },
            ),
            SymbolKind::Flag => SymbolMetadata::Flag(
                FlagMetadata { defined_in: None, sequence_limit: None },
            ),
            SymbolKind::RoomSet => {
                let meta = SetMetadata { rooms: Vec::new() };
                proof {
                    assert(meta@.rooms =~= Seq::<Seq<char>>::empty());
                }
                SymbolMetadata::RoomSet(meta)
            },
        },
    }
}

/// Adds to `symbols` the definitions of kind `kind` that the captures
/// make, and to `occurrences` the occurrences that they leave.
pub fn insert_definitions(
    symbols: &mut SymbolStore,
    occurrences: &mut Vec<SymbolOccurrence>,
    kind: SymbolKind,
    document: &Document,
    tree: &SyntaxTree,
    uri: &str,
    captures: &Vec<usize>,
)
    ensures
        final(symbols)@ == store_with_all(
            old(symbols)@,
            definitions_from(kind, tree@, document@, uri@, ids_view(captures@)),
        ),
        occurrences_view(final(occurrences)@) == occurrences_view(old(occurrences)@)
            + occurrences_of(definitions_from(kind, tree@, document@, uri@, ids_view(captures@))),
        old(symbols)@.wf() ==> final(symbols)@.wf(),
{
    let text = document.text();
    let ghost list = ids_view(captures@);
    let ghost store0 = symbols@;
    let ghost occ0 = occurrences_view(occurrences@);
    let n = tree.len();
    let mut k: usize = 0;
    proof {
        assert(list.take(0) =~= Seq::<int>::empty());
        assert(occurrences_view(occurrences@) =~= occ0 + occurrences_of(
            Seq::<ContributionView>::empty(),
        ));
    }
    while k < captures.len()
        invariant
            k <= captures.len(),
            n == tree@.len(),
            text@ == document@,
            list == ids_view(captures@),
            symbols@ == store_with_all(
                store0,
                definitions_from(kind, tree@, text@, uri@, list.take(k as int)),
            ),
            occurrences_view(occurrences@) == occ0 + occurrences_of(
                definitions_from(kind, tree@, text@, uri@, list.take(k as int)),
            ),
            store0.wf() ==> symbols@.wf(),
        decreases captures.len() - k,
    {
        let node = captures[k];
        let ghost done = definitions_from(kind, tree@, text@, uri@, list.take(k as int));
        let ghost occ_before = occurrences_view(occurrences@);
        proof {
            assert(list.take(k + 1).drop_last() =~= list.take(k as int));
            assert(list.take(k + 1).last() == node);
        }
        if node < n {
            let raw = tree.text_of(node, text);
            let id = trim_chars(&raw);
            if id.len() > 0 {
                let range = range_from_node(document, tree, node);
                let metadata = extract_metadata(kind, tree, node, text);
                let location = SymbolLocation {
                    uri: from_chars(&to_chars(uri)),
                    range,
                    rename_range: None,
                };
                let definition = SymbolDefinition { location, metadata };
                let ghost made = definition_at(kind, tree@, text@, uri@, node as int)->0;
                store_insert_definition(symbols, kind, from_chars(&id), definition);
                occurrences.push(SymbolOccurrence { kind, id: from_chars(&id), range });
                proof {
                    lemma_store_with_all_push(store0, done, made);
                    assert(occurrences_view(occurrences@) =~= occ_before.push(made.occurrence()));
                    assert(occ_before.push(made.occurrence()) =~= occ0 + occurrences_of(
                        done.push(made),
                    ));
                }
            }
        }
        k += 1;
    }
    proof {
        assert(list.take(captures.len() as int) =~= list);
    }
}

/// Adds to `symbols` the references of kind `kind` that the captures make,
/// and to `occurrences` the occurrences that they leave.
pub fn insert_references(
    symbols: &mut SymbolStore,
    occurrences: &mut Vec<SymbolOccurrence>,
    kind: SymbolKind,
    document: &Document,
    tree: &SyntaxTree,
    uri: &str,
    captures: &Vec<usize>,
)
    ensures
        final(symbols)@ == store_with_all(
            old(symbols)@,
            references_from(kind, tree@, document@, uri@, ids_view(captures@)),
        ),
        occurrences_view(final(occurrences)@) == occurrences_view(old(occurrences)@)
            + occurrences_of(references_from(kind, tree@, document@, uri@, ids_view(captures@))),
        old(symbols)@.wf() ==> final(symbols)@.wf(),
{
    let text = document.text();
    let ghost list = ids_view(captures@);
    let ghost store0 = symbols@;
    let ghost occ0 = occurrences_view(occurrences@);
    let n = tree.len();
    let mut k: usize = 0;
    proof {
        assert(list.take(0) =~= Seq::<int>::empty());
        assert(occurrences_view(occurrences@) =~= occ0 + occurrences_of(
            Seq::<ContributionView>::empty(),
        ));
    }
    while k < captures.len()
        invariant
            k <= captures.len(),
            n == tree@.len(),
            text@ == document@,
            list == ids_view(captures@),
            symbols@ == store_with_all(
                store0,
                references_from(kind, tree@, text@, uri@, list.take(k as int)),
            ),
            occurrences_view(occurrences@) == occ0 + occurrences_of(
                references_from(kind, tree@, text@, uri@, list.take(k as int)),
            ),
            store0.wf() ==> symbols@.wf(),
        decreases captures.len() - k,
    {
        let node = captures[k];
        let ghost done = references_from(kind, tree@, text@, uri@, list.take(k as int));
        let ghost occ_before = occurrences_view(occurrences@);
        proof {
            assert(list.take(k + 1).drop_last() =~= list.take(k as int));
            assert(list.take(k + 1).last() == node);
        }
        if node < n {
            let raw = tree.text_of(node, text);
            let raw_id = trim_chars(&raw);
            let in_definition = match tree.parent(node) {
                Some(p) => is_definition_parent_for_kind(tree.node(p).kind.as_str(), kind),
                None => false,
            };
            if raw_id.len() > 0 && !in_definition {
                let range = range_from_node(document, tree, node);
                let (id, rename_range) = match kind {
                    SymbolKind::Flag => normalize_flag_chars(&raw_id, &range),
                    _ => (copy_chars(&raw_id), None),
                };
                proof {
                    assert(raw_id@.subrange(0, raw_id@.len() as int) =~= raw_id@);
                }
                let location = SymbolLocation {
                    uri: from_chars(&to_chars(uri)),
                    range,
                    rename_range,
                };
                let reference = SymbolReference { location, raw_id: from_chars(&raw_id) };
                let ghost made = reference_at(kind, tree@, text@, uri@, node as int)->0;
                store_add_reference(symbols, kind, from_chars(&id), reference);
                occurrences.push(SymbolOccurrence { kind, id: from_chars(&id), range });
                proof {
                    lemma_store_with_all_push(store0, done, made);
                    assert(occurrences_view(occurrences@) =~= occ_before.push(made.occurrence()));
                    assert(occ_before.push(made.occurrence()) =~= occ0 + occurrences_of(
                        done.push(made),
                    ));
                }
            }
        }
        k += 1;
    }
    proof {
        assert(list.take(captures.len() as int) =~= list);
    }
}

} // verus!
