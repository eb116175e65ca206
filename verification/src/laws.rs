//! What holds of every analysis: analysing a document again changes
//! nothing, and an analysis leaves nothing behind of what the document
//! contributed before.

use crate::analysis::{
    contributions_of, definitions_from, references_from, scheduled_definitions,
    scheduled_references, store_with, store_with_all, ContributionView,
};
use crate::backend::{analysed, analysed_document, BackendView};
use crate::index::{
    cleared_entry, cleared_index, entry_at, index_wf, index_with_definition, index_with_reference,
    keep_definitions, keep_references, lemma_cleared_index_idempotent, lemma_cleared_index_wf,
    lemma_keep_definitions, lemma_keep_references, with_definition, with_reference, EntryView,
    IndexView, StoreView,
};
use crate::schedule::{
    schedule_definitions_all, schedule_fragments_of, schedule_references_all, ParsedView,
};
use crate::symbols::{DefinitionView, ReferenceView, SymbolKind};
use vstd::prelude::*;

verus! {

// ---------------------------------------------------------------------------
// Every contribution of a document lies in that document
// ---------------------------------------------------------------------------

/// Whether every contribution of `list` comes from the document `uri`.
pub open spec fn all_from(list: Seq<ContributionView>, uri: Seq<char>) -> bool {
    forall|i: int| 0 <= i < list.len() ==> (#[trigger] list[i]).uri() == uri
}

/// Two lists from one document make a list from that document.
pub proof fn lemma_all_from_concat(
    first: Seq<ContributionView>,
    second: Seq<ContributionView>,
    uri: Seq<char>,
)
    requires
        all_from(first, uri),
        all_from(second, uri),
    ensures
        all_from(first + second, uri),
{
    assert forall|i: int| 0 <= i < (first + second).len() implies (#[trigger] (first
        + second)[i]).uri() == uri by {
        if i < first.len() {
            assert((first + second)[i] == first[i]);
        } else {
            assert((first + second)[i] == second[i - first.len()]);
        }
    }
}

/// The definitions that captures make lie in the analysed document.
pub proof fn lemma_definitions_from_uri(
    kind: SymbolKind,
    t: crate::syntax::TreeView,
    text: Seq<char>,
    uri: Seq<char>,
    captures: Seq<int>,
)
    ensures
        all_from(definitions_from(kind, t, text, uri, captures), uri),
    decreases captures.len(),
{
    if captures.len() > 0 {
        lemma_definitions_from_uri(kind, t, text, uri, captures.drop_last());
        let before = definitions_from(kind, t, text, uri, captures.drop_last());
        let now = definitions_from(kind, t, text, uri, captures);
        assert forall|i: int| 0 <= i < now.len() implies (#[trigger] now[i]).uri() == uri by {
            if i < before.len() {
                assert(now[i] == before[i]);
            }
        }
    }
}

/// The references that captures make lie in the analysed document.
pub proof fn lemma_references_from_uri(
    kind: SymbolKind,
    t: crate::syntax::TreeView,
    text: Seq<char>,
    uri: Seq<char>,
    captures: Seq<int>,
)
    ensures
        all_from(references_from(kind, t, text, uri, captures), uri),
    decreases captures.len(),
{
    if captures.len() > 0 {
        lemma_references_from_uri(kind, t, text, uri, captures.drop_last());
        let before = references_from(kind, t, text, uri, captures.drop_last());
        let now = references_from(kind, t, text, uri, captures);
        assert forall|i: int| 0 <= i < now.len() implies (#[trigger] now[i]).uri() == uri by {
            if i < before.len() {
                assert(now[i] == before[i]);
            }
        }
    }
}

/// Everything that a document contributes lies in that document.
pub proof fn lemma_contributions_uri(
    parsed: ParsedView,
    text: Seq<char>,
    uri: Seq<char>,
    parses: Seq<Option<ParsedView>>,
)
    ensures
        all_from(contributions_of(parsed, text, uri, parses), uri),
{
    let t = parsed.tree;
    let c = parsed.captures;
    let fragments = schedule_fragments_of(t, text);
    let part1 = definitions_from(SymbolKind::Room, t, text, uri, c.room_definitions);
    let part2 = references_from(SymbolKind::Room, t, text, uri, c.room_references);
    let part3 = definitions_from(SymbolKind::Item, t, text, uri, c.item_definitions);
    let part4 = references_from(SymbolKind::Item, t, text, uri, c.item_references);
    let part5 = definitions_from(SymbolKind::Npc, t, text, uri, c.npc_definitions);
    let part6 = references_from(SymbolKind::Npc, t, text, uri, c.npc_references);
    let part7 = definitions_from(SymbolKind::Flag, t, text, uri, c.flag_definitions);
    let part8 = scheduled_definitions(uri, schedule_definitions_all(text, fragments, parses));
    let part9 = scheduled_references(uri, schedule_references_all(text, fragments, parses));
    let part10 = references_from(SymbolKind::Flag, t, text, uri, c.flag_references);
    let part11 = definitions_from(SymbolKind::RoomSet, t, text, uri, c.set_definitions);
    let part12 = references_from(SymbolKind::RoomSet, t, text, uri, c.set_references);
    lemma_definitions_from_uri(SymbolKind::Room, t, text, uri, c.room_definitions);
    lemma_references_from_uri(SymbolKind::Room, t, text, uri, c.room_references);
    lemma_definitions_from_uri(SymbolKind::Item, t, text, uri, c.item_definitions);
    lemma_references_from_uri(SymbolKind::Item, t, text, uri, c.item_references);
    lemma_definitions_from_uri(SymbolKind::Npc, t, text, uri, c.npc_definitions);
    lemma_references_from_uri(SymbolKind::Npc, t, text, uri, c.npc_references);
    lemma_definitions_from_uri(SymbolKind::Flag, t, text, uri, c.flag_definitions);
    lemma_references_from_uri(SymbolKind::Flag, t, text, uri, c.flag_references);
    lemma_definitions_from_uri(SymbolKind::RoomSet, t, text, uri, c.set_definitions);
    lemma_references_from_uri(SymbolKind::RoomSet, t, text, uri, c.set_references);
    assert(all_from(part8, uri));
    assert(all_from(part9, uri));
    lemma_all_from_concat(part1, part2, uri);
    lemma_all_from_concat(part1 + part2, part3, uri);
    lemma_all_from_concat(part1 + part2 + part3, part4, uri);
    lemma_all_from_concat(part1 + part2 + part3 + part4, part5, uri);
    lemma_all_from_concat(part1 + part2 + part3 + part4 + part5, part6, uri);
    lemma_all_from_concat(part1 + part2 + part3 + part4 + part5 + part6, part7, uri);
    lemma_all_from_concat(part1 + part2 + part3 + part4 + part5 + part6 + part7, part8, uri);
    lemma_all_from_concat(part1 + part2 + part3 + part4 + part5 + part6 + part7 + part8, part9, uri);
    lemma_all_from_concat(part1 + part2 + part3 + part4 + part5 + part6 + part7 + part8 + part9, part10, uri);
    lemma_all_from_concat(part1 + part2 + part3 + part4 + part5 + part6 + part7 + part8 + part9 + part10, part11, uri);
    lemma_all_from_concat(part1 + part2 + part3 + part4 + part5 + part6 + part7 + part8 + part9 + part10 + part11, part12, uri);
}

// ---------------------------------------------------------------------------
// Clearing undoes what a document gave
// ---------------------------------------------------------------------------

/// A definition from the document `uri` that is inserted into a well
/// formed index is gone when the document is cleared, and the index stays
/// well formed.
pub proof fn lemma_clear_undoes_definition(
    m: IndexView,
    id: Seq<char>,
    def: DefinitionView,
    uri: Seq<char>,
)
    requires
        index_wf(m),
        def.location.uri == uri,
    ensures
        index_wf(index_with_definition(m, id, def)),
        cleared_index(index_with_definition(m, id, def), uri) == cleared_index(m, uri),
{
    let after = index_with_definition(m, id, def);
    let e = entry_at(m, id);
    let e2 = with_definition(e, def);
    assert(after[id] == e2);
    assert(keep_definitions(Seq::<DefinitionView>::empty(), uri) =~= Seq::<
        DefinitionView,
    >::empty());
    assert(keep_references(Seq::<ReferenceView>::empty(), uri) =~= Seq::<ReferenceView>::empty());
    assert(cleared_entry(EntryView::empty(), uri).is_empty());
    if e.definition is Some {
        let longer = e.duplicates.push(def);
        assert(longer.drop_last() =~= e.duplicates);
        assert(longer.last() == def);
        assert(keep_definitions(longer, uri) == keep_definitions(e.duplicates, uri));
    } else {
        if m.contains_key(id) {
            assert(m[id].wf());
        }
        assert(e.duplicates =~= Seq::<DefinitionView>::empty());
        assert(e2.duplicates =~= Seq::<DefinitionView>::empty());
    }
    assert(cleared_entry(e2, uri) == cleared_entry(e, uri));
    assert forall|k: Seq<char>| cleared_index(after, uri).contains_key(k) <==> cleared_index(
        m,
        uri,
    ).contains_key(k) by {
        if k != id {
            assert(after.contains_key(k) == m.contains_key(k));
            if m.contains_key(k) {
                assert(after[k] == m[k]);
            }
        }
    }
    assert forall|k: Seq<char>| cleared_index(m, uri).contains_key(k) implies cleared_index(
        after,
        uri,
    )[k] == cleared_index(m, uri)[k] by {
        if k != id {
            assert(after[k] == m[k]);
        }
    }
    assert(cleared_index(after, uri) =~= cleared_index(m, uri));
    assert forall|k: Seq<char>| #[trigger] after.contains_key(k) implies !after[k].is_empty()
        && after[k].wf() by {
        if k != id {
            assert(m.contains_key(k));
            assert(after[k] == m[k]);
        }
    }
}

/// A reference from the document `uri` that is added to a well formed
/// index is gone when the document is cleared, and the index stays well
/// formed.
pub proof fn lemma_clear_undoes_reference(
    m: IndexView,
    id: Seq<char>,
    reference: ReferenceView,
    uri: Seq<char>,
)
    requires
        index_wf(m),
        reference.location.uri == uri,
    ensures
        index_wf(index_with_reference(m, id, reference)),
        cleared_index(index_with_reference(m, id, reference), uri) == cleared_index(m, uri),
{
    let after = index_with_reference(m, id, reference);
    let e = entry_at(m, id);
    let e2 = with_reference(e, reference);
    assert(after[id] == e2);
    assert(e.references.push(reference).drop_last() =~= e.references);
    assert(cleared_entry(e2, uri) == cleared_entry(e, uri));
    assert(keep_definitions(Seq::<DefinitionView>::empty(), uri) =~= Seq::<
        DefinitionView,
    >::empty());
    assert(keep_references(Seq::<ReferenceView>::empty(), uri) =~= Seq::<ReferenceView>::empty());
    assert(cleared_entry(EntryView::empty(), uri).is_empty());
    assert forall|k: Seq<char>| cleared_index(after, uri).contains_key(k) <==> cleared_index(
        m,
        uri,
    ).contains_key(k) by {
        if k != id {
            assert(after.contains_key(k) == m.contains_key(k));
            if m.contains_key(k) {
                assert(after[k] == m[k]);
            }
        }
    }
    assert forall|k: Seq<char>| cleared_index(m, uri).contains_key(k) implies cleared_index(
        after,
        uri,
    )[k] == cleared_index(m, uri)[k] by {
        if k != id {
            assert(after[k] == m[k]);
        }
    }
    assert(cleared_index(after, uri) =~= cleared_index(m, uri));
    assert forall|k: Seq<char>| #[trigger] after.contains_key(k) implies !after[k].is_empty()
        && after[k].wf() by {
        if k != id {
            assert(m.contains_key(k));
            assert(after[k] == m[k]);
        }
    }
}

/// One contribution from the document `uri` is gone when the document is
/// cleared.
pub proof fn lemma_clear_undoes_contribution(store: StoreView, c: ContributionView, uri: Seq<char>)
    requires
        store.wf(),
        c.uri() == uri,
    ensures
        store_with(store, c).wf(),
        store_with(store, c).cleared(uri) == store.cleared(uri),
{
    match c {
        ContributionView::Definition { kind, id, definition } => {
            lemma_clear_undoes_definition(store.of(kind), id, definition, uri);
        },
        ContributionView::Reference { kind, id, reference } => {
            lemma_clear_undoes_reference(store.of(kind), id, reference, uri);
        },
    }
}

/// What a document gave is gone when the document is cleared.
pub proof fn lemma_clear_undoes_contributions(
    store: StoreView,
    list: Seq<ContributionView>,
    uri: Seq<char>,
)
    requires
        store.wf(),
        all_from(list, uri),
    ensures
        store_with_all(store, list).wf(),
        store_with_all(store, list).cleared(uri) == store.cleared(uri),
    decreases list.len(),
{
    if list.len() > 0 {
        assert forall|i: int| 0 <= i < list.drop_last().len() implies (#[trigger] list.drop_last()[i]).uri()
            == uri by {
            assert(list.drop_last()[i] == list[i]);
        }
        lemma_clear_undoes_contributions(store, list.drop_last(), uri);
        assert(list[list.len() - 1].uri() == uri);
        lemma_clear_undoes_contribution(store_with_all(store, list.drop_last()), list.last(), uri);
    }
}

/// Clearing a document keeps a store well formed, and clearing it twice
/// is clearing it once.
pub proof fn lemma_cleared_store(store: StoreView, uri: Seq<char>)
    requires
        store.wf(),
    ensures
        store.cleared(uri).wf(),
        store.cleared(uri).cleared(uri) == store.cleared(uri),
{
    lemma_cleared_index_wf(store.rooms, uri);
    lemma_cleared_index_wf(store.items, uri);
    lemma_cleared_index_wf(store.npcs, uri);
    lemma_cleared_index_wf(store.flags, uri);
    lemma_cleared_index_wf(store.sets, uri);
    lemma_cleared_index_idempotent(store.rooms, uri);
    lemma_cleared_index_idempotent(store.items, uri);
    lemma_cleared_index_idempotent(store.npcs, uri);
    lemma_cleared_index_idempotent(store.flags, uri);
    lemma_cleared_index_idempotent(store.sets, uri);
}

/// Analysing a document twice in a row with the same text leaves the
/// engine in the state in which analysing it once leaves it.
pub proof fn lemma_analysis_idempotent(
    b: BackendView,
    uri: Seq<char>,
    text: Seq<char>,
    parsed: Option<ParsedView>,
    parses: Seq<Option<ParsedView>>,
)
    requires
        b.symbols.wf(),
    ensures
        analysed(analysed(b, uri, text, parsed, parses), uri, text, parsed, parses) == analysed(
            b,
            uri,
            text,
            parsed,
            parses,
        ),
{
    match parsed {
        Some(p) => {
            let list = contributions_of(p, text, uri, parses);
            let cleared = b.symbols.cleared(uri);
            let once = analysed(b, uri, text, parsed, parses);
            let twice = analysed(once, uri, text, parsed, parses);
            lemma_contributions_uri(p, text, uri, parses);
            lemma_cleared_store(b.symbols, uri);
            lemma_clear_undoes_contributions(cleared, list, uri);
            assert(once.symbols.cleared(uri) == cleared);
            assert(twice.symbols == once.symbols);
            assert(twice.documents =~= once.documents);
        },
        None => {},
    }
}

// ---------------------------------------------------------------------------
// An analysis leaves nothing of the earlier text behind
// ---------------------------------------------------------------------------

/// Whether `list` holds the definition `d` of `id`.
pub open spec fn gives_definition(
    list: Seq<ContributionView>,
    kind: SymbolKind,
    id: Seq<char>,
    d: DefinitionView,
) -> bool {
    exists|i: int|
        0 <= i < list.len() && #[trigger] list[i] == (ContributionView::Definition {
            kind,
            id,
            definition: d,
        })
}

/// Whether `list` holds the reference `r` to `id`.
pub open spec fn gives_reference(
    list: Seq<ContributionView>,
    kind: SymbolKind,
    id: Seq<char>,
    r: ReferenceView,
) -> bool {
    exists|i: int|
        0 <= i < list.len() && #[trigger] list[i] == (ContributionView::Reference {
            kind,
            id,
            reference: r,
        })
}

/// Whether everything in the entry `e` of `id` that lies in the document
/// `uri` is a contribution of `list`.
pub open spec fn entry_stems_from(
    e: EntryView,
    kind: SymbolKind,
    id: Seq<char>,
    uri: Seq<char>,
    list: Seq<ContributionView>,
) -> bool {
    &&& (e.definition is Some && e.definition->0.location.uri == uri ==> gives_definition(
        list,
        kind,
        id,
        e.definition->0,
    ))
    &&& forall|j: int|
        0 <= j < e.duplicates.len() && (#[trigger] e.duplicates[j]).location.uri == uri
            ==> gives_definition(list, kind, id, e.duplicates[j])
    &&& forall|j: int|
        0 <= j < e.references.len() && (#[trigger] e.references[j]).location.uri == uri
            ==> gives_reference(list, kind, id, e.references[j])
}

/// Whether every definition and every reference of `store` that lies in
/// the document `uri` is a contribution of `list`.
pub open spec fn stems_from(store: StoreView, uri: Seq<char>, list: Seq<ContributionView>) -> bool {
    forall|kind: SymbolKind, id: Seq<char>| #[trigger]
        entry_stems_from(entry_at(store.of(kind), id), kind, id, uri, list)
}

/// A cleared entry holds nothing of the cleared document.
pub proof fn lemma_cleared_entry_holds_nothing(e: EntryView, uri: Seq<char>)
    ensures
        cleared_entry(e, uri).definition is Some ==> cleared_entry(e, uri).definition->0.location.uri
            != uri,
        forall|j: int|
            0 <= j < cleared_entry(e, uri).duplicates.len() ==> (#[trigger] cleared_entry(
                e,
                uri,
            ).duplicates[j]).location.uri != uri,
        forall|j: int|
            0 <= j < cleared_entry(e, uri).references.len() ==> (#[trigger] cleared_entry(
                e,
                uri,
            ).references[j]).location.uri != uri,
{
    lemma_keep_definitions(e.duplicates, uri);
    lemma_keep_references(e.references, uri);
    let once = cleared_entry(e, uri);
    let kept = keep_definitions(e.duplicates, uri);
    assert forall|j: int| 0 <= j < once.duplicates.len() implies (#[trigger] once.duplicates[j])
        .location.uri != uri by {
        if once.duplicates != kept {
            assert(once.duplicates[j] == kept[j + 1]);
        }
    }
    if once.definition is Some && e.definition is Some && e.definition->0.location.uri == uri {
        assert(once.definition->0 == kept[0]);
    }
}

/// A cleared store holds nothing of the cleared document.
pub proof fn lemma_cleared_store_holds_nothing(store: StoreView, uri: Seq<char>)
    ensures
        stems_from(store.cleared(uri), uri, Seq::empty()),
{
    let cleared = store.cleared(uri);
    assert forall|kind: SymbolKind, id: Seq<char>| #[trigger]
        entry_stems_from(
            entry_at(cleared.of(kind), id),
            kind,
            id,
            uri,
            Seq::empty(),
        ) by {
        let m = store.of(kind);
        assert(cleared.of(kind) == cleared_index(m, uri));
        if cleared_index(m, uri).contains_key(id) {
            lemma_cleared_entry_holds_nothing(m[id], uri);
        }
    }
}

/// Adding a contribution keeps what the store holds of the document
/// within the contributions.
pub proof fn lemma_stems_from_step(
    store: StoreView,
    uri: Seq<char>,
    list: Seq<ContributionView>,
    c: ContributionView,
)
    requires
        stems_from(store, uri, list),
    ensures
        stems_from(store_with(store, c), uri, list.push(c)),
{
    let after = store_with(store, c);
    let longer = list.push(c);
    assert(longer[list.len() as int] == c);
    assert forall|kind: SymbolKind, id: Seq<char>| #[trigger]
        entry_stems_from(entry_at(after.of(kind), id), kind, id, uri, longer) by {
        let old_e = entry_at(store.of(kind), id);
        let new_e = entry_at(after.of(kind), id);
        assert(entry_stems_from(old_e, kind, id, uri, list));
        assert forall|d: DefinitionView| gives_definition(list, kind, id, d) implies gives_definition(
            longer,
            kind,
            id,
            d,
        ) by {
            let i = choose|i: int|
                0 <= i < list.len() && #[trigger] list[i] == (ContributionView::Definition {
                    kind,
                    id,
                    definition: d,
                });
            assert(longer[i] == list[i]);
        }
        assert forall|r: ReferenceView| gives_reference(list, kind, id, r) implies gives_reference(
            longer,
            kind,
            id,
            r,
        ) by {
            let i = choose|i: int|
                0 <= i < list.len() && #[trigger] list[i] == (ContributionView::Reference {
                    kind,
                    id,
                    reference: r,
                });
            assert(longer[i] == list[i]);
        }
        match c {
            ContributionView::Definition { kind: ck, id: cid, definition } => {
                if ck == kind && cid == id {
                    assert(new_e == with_definition(old_e, definition));
                    assert(gives_definition(longer, kind, id, definition));
                    assert forall|j: int|
                        0 <= j < new_e.duplicates.len() && (#[trigger] new_e.duplicates[j])
                            .location.uri == uri implies gives_definition(
                        longer,
                        kind,
                        id,
                        new_e.duplicates[j],
                    ) by {
                        if j < old_e.duplicates.len() {
                            assert(new_e.duplicates[j] == old_e.duplicates[j]);
                        }
                    }
                } else {
                    assert(new_e == old_e);
                }
            },
            ContributionView::Reference { kind: ck, id: cid, reference } => {
                if ck == kind && cid == id {
                    assert(new_e == with_reference(old_e, reference));
                    assert(gives_reference(longer, kind, id, reference));
                    assert forall|j: int|
                        0 <= j < new_e.references.len() && (#[trigger] new_e.references[j])
                            .location.uri == uri implies gives_reference(
                        longer,
                        kind,
                        id,
                        new_e.references[j],
                    ) by {
                        if j < old_e.references.len() {
                            assert(new_e.references[j] == old_e.references[j]);
                        }
                    }
                } else {
                    assert(new_e == old_e);
                }
            },
        }
    }
}

/// After the contributions `list` were added to a store that was cleared
/// of the document `uri`, everything that the store holds of the document
/// is one of them.
pub proof fn lemma_stems_from_all(store: StoreView, uri: Seq<char>, list: Seq<ContributionView>)
    ensures
        stems_from(store_with_all(store.cleared(uri), list), uri, list),
    decreases list.len(),
{
    if list.len() == 0 {
        lemma_cleared_store_holds_nothing(store, uri);
        assert(list =~= Seq::<ContributionView>::empty());
    } else {
        lemma_stems_from_all(store, uri, list.drop_last());
        lemma_stems_from_step(
            store_with_all(store.cleared(uri), list.drop_last()),
            uri,
            list.drop_last(),
            list.last(),
        );
        assert(list.drop_last().push(list.last()) =~= list);
    }
}

/// After a document was analysed, whatever the engine held of it before,
/// every definition and every reference in the store that lies in the
/// document is one that the analysed text contributes, and what is kept of
/// the document is what the analysed text gives. Nothing of an earlier
/// text of the document is left.
pub proof fn lemma_analysis_replaces(
    b: BackendView,
    uri: Seq<char>,
    text: Seq<char>,
    parsed: ParsedView,
    parses: Seq<Option<ParsedView>>,
)
    ensures
        stems_from(
            analysed(b, uri, text, Some(parsed), parses).symbols,
            uri,
            contributions_of(parsed, text, uri, parses),
        ),
        analysed(b, uri, text, Some(parsed), parses).documents[uri] == analysed_document(
            parsed,
            text,
            uri,
            parses,
        ),
{
    lemma_stems_from_all(b.symbols, uri, contributions_of(parsed, text, uri, parses));
}

} // verus!
