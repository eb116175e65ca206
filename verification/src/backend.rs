//! The state of the analysis engine: the symbol store, and for each
//! analysed document its text, its occurrences and its declarations of the
//! room in which the player starts.

use crate::analysis::{
    contributions_of, definitions_from, insert_definitions, insert_references,
    lemma_store_with_all_concat, lemma_store_with_all_push, occurrences_of, references_from,
    scheduled_definition, scheduled_definitions, scheduled_reference, scheduled_references,
    store_with_all, ContributionView,
};
use crate::chars::{from_chars, strings_view, to_chars};
use crate::index::{StoreView, SymbolStore};
use crate::schedule::{
    clone_player_starts, collect_player_starts, collect_schedule_flag_definitions,
    collect_schedule_symbol_references, opt_parsed, parses_view, player_starts_of,
    player_starts_view, schedule_definitions_all, schedule_definitions_view, schedule_fragments,
    schedule_fragments_of, schedule_references_all, schedule_references_view, ParsedSource,
    ParsedView, PlayerStart, PlayerStartView, ScheduleFlagDefinition, ScheduleSymbolReference,
};
use crate::spans::{contains_position, range_contains};
use crate::symbols::{
    clone_occurrences, clone_opt_string, occurrences_view, FlagMetadata, OccurrenceView,
    SymbolDefinition, SymbolKind, SymbolLocation, SymbolMetadata, SymbolOccurrence, SymbolReference,
};
use crate::text::{Document, Position};
use dashmap::DashMap;
use vstd::prelude::*;

verus! {

// ---------------------------------------------------------------------------
// What is kept of a document
// ---------------------------------------------------------------------------

/// What the engine keeps of an analysed document.
#[derive(Debug)]
pub struct DocumentState {
    /// The text, with its line index.
    pub document: Document,
    /// The occurrences of symbols, in the order in which they were found.
    pub occurrences: Vec<SymbolOccurrence>,
    /// The declarations of the room in which the player starts.
    pub player_starts: Vec<PlayerStart>,
}

/// What a [`DocumentState`] holds.
pub struct DocumentStateView {
    pub text: Seq<char>,
    pub occurrences: Seq<OccurrenceView>,
    pub player_starts: Seq<PlayerStartView>,
}

impl View for DocumentState {
    type V = DocumentStateView;

    open spec fn view(&self) -> DocumentStateView {
        DocumentStateView {
            text: self.document@,
            occurrences: occurrences_view(self.occurrences@),
            player_starts: player_starts_view(self.player_starts@),
        }
    }
}

impl Clone for DocumentState {
    fn clone(&self) -> (r: DocumentState)
        ensures
            r@ == self@,
    {
        DocumentState {
            document: self.document.clone(),
            occurrences: clone_occurrences(&self.occurrences),
            player_starts: clone_player_starts(&self.player_starts),
        }
    }
}

/// What a map of documents holds, by the URI of the document.
pub type DocumentsView = Map<Seq<char>, DocumentStateView>;

/// The documents that a map of document states holds, by key.
pub uninterp spec fn document_entries(map: DashMap<String, DocumentState>) -> Map<
    Seq<char>,
    DocumentStateView,
>;

/// A map without documents.
///
/// Trusted: wraps `DashMap::new`, which creates an empty map.
#[verifier::external_body]
fn documents_new() -> (r: DashMap<String, DocumentState>)
    ensures
        (document_entries(r) == Map::<Seq<char>, DocumentStateView>::empty()),
{
    DashMap::new()
}

/// A copy of what is kept under `uri`, if the map has it.
///
/// Trusted: wraps `DashMap::get`, which returns a reference to the value
/// stored under the key, or `None` where the map does not hold the key.
#[verifier::external_body]
fn documents_get(map: &DashMap<String, DocumentState>, uri: &str) -> (r: Option<DocumentState>)
    ensures
        match r {
            Some(state) => document_entries(*map).contains_key(uri@) && state@
                == document_entries(*map)[uri@],
            None => !document_entries(*map).contains_key(uri@),
        },
{
    match map.get(uri) {
        Some(found) => Some(found.value().clone()),
        None => None,
    }
}

/// Whether the map keeps something under `uri`.
///
/// Trusted: wraps `DashMap::contains_key`, which says whether the map
/// holds the key.
#[verifier::external_body]
fn documents_contains_key(map: &DashMap<String, DocumentState>, uri: &str) -> (r: bool)
    ensures
        r == document_entries(*map).contains_key(uri@),
{
    map.contains_key(uri)
}

/// Stores `state` under `uri`, in place of what was there.
///
/// Trusted: wraps `DashMap::insert`, which inserts the key and the value,
/// replacing the value that the key had.
#[verifier::external_body]
fn documents_insert(map: &mut DashMap<String, DocumentState>, uri: String, state: DocumentState)
    ensures
        document_entries(*final(map)) == document_entries(*old(map)).insert(uri@, state@),
{
    map.insert(uri, state);
}

/// The keys of the map, each once, in the order in which the map is walked.
///
/// Trusted: wraps `DashMap::iter`, which visits every entry of the map
/// once. In which order is not stated.
#[verifier::external_body]
fn documents_keys(map: &DashMap<String, DocumentState>) -> (r: Vec<String>)
    ensures
        strings_view(r@).no_duplicates(),
        forall|uri: Seq<char>|
            strings_view(r@).contains(uri) <==> document_entries(*map).contains_key(uri),
{
    map.iter().map(|entry| entry.key().clone()).collect()
}

// ---------------------------------------------------------------------------
// The model of an analysis
// ---------------------------------------------------------------------------

/// What a [`Backend`] holds.
pub struct BackendView {
    pub symbols: StoreView,
    pub documents: DocumentsView,
}

/// What is kept of the document `uri` after it was analysed with the text
/// `text`.
pub open spec fn analysed_document(
    parsed: ParsedView,
    text: Seq<char>,
    uri: Seq<char>,
    parses: Seq<Option<ParsedView>>,
) -> DocumentStateView {
    DocumentStateView {
        text,
        occurrences: occurrences_of(contributions_of(parsed, text, uri, parses)),
        player_starts: player_starts_of(parsed.tree, text, uri),
    }
}

/// The state `b` after the document `uri` was analysed with the text
/// `text`. Where the parser made nothing of the text, the state stays as
/// it is. Otherwise what the document gave to the store before is taken
/// out, what it gives now is put in, and what is kept of the document is
/// replaced.
pub open spec fn analysed(
    b: BackendView,
    uri: Seq<char>,
    text: Seq<char>,
    parsed: Option<ParsedView>,
    parses: Seq<Option<ParsedView>>,
) -> BackendView {
    match parsed {
        Some(p) => BackendView {
            symbols: store_with_all(
                b.symbols.cleared(uri),
                contributions_of(p, text, uri, parses),
            ),
            documents: b.documents.insert(uri, analysed_document(p, text, uri, parses)),
        },
        None => b,
    }
}

/// The first occurrence of `list` that holds `position`.
pub open spec fn first_occurrence_at(list: Seq<OccurrenceView>, position: Position) -> Option<
    OccurrenceView,
>
    decreases list.len(),
{
    if list.len() == 0 {
        None
    } else if contains_position(list[0].range, position) {
        Some(list[0])
    } else {
        first_occurrence_at(list.drop_first(), position)
    }
}

/// The occurrence at `position` in the document `uri`: the first one that
/// was found there; nothing where the document was not analysed.
pub open spec fn occurrence_at(b: BackendView, uri: Seq<char>, position: Position) -> Option<
    OccurrenceView,
> {
    if b.documents.contains_key(uri) {
        first_occurrence_at(b.documents[uri].occurrences, position)
    } else {
        None
    }
}

/// What an optional occurrence holds.
pub open spec fn opt_occurrence(value: Option<SymbolOccurrence>) -> Option<OccurrenceView> {
    match value {
        Some(occurrence) => Some(occurrence@),
        None => None,
    }
}

fn insert_scheduled_definitions(
    symbols: &mut SymbolStore,
    occurrences: &mut Vec<SymbolOccurrence>,
    uri: &str,
    list: &Vec<ScheduleFlagDefinition>,
)
    ensures
        final(symbols)@ == store_with_all(
            old(symbols)@,
            scheduled_definitions(uri@, schedule_definitions_view(list@)),
        ),
        occurrences_view(final(occurrences)@) == occurrences_view(old(occurrences)@)
            + occurrences_of(scheduled_definitions(uri@, schedule_definitions_view(list@))),
        old(symbols)@.wf() ==> final(symbols)@.wf(),
{
    let ghost all = scheduled_definitions(uri@, schedule_definitions_view(list@));
    let ghost store0 = symbols@;
    let ghost occ0 = occurrences_view(occurrences@);
    let mut k: usize = 0;
    proof {
        assert(all.take(0) =~= Seq::<ContributionView>::empty());
        assert(occurrences_view(occurrences@) =~= occ0 + occurrences_of(all.take(0)));
    }
    while k < list.len()
        invariant
            k <= list.len(),
            all == scheduled_definitions(uri@, schedule_definitions_view(list@)),
            symbols@ == store_with_all(store0, all.take(k as int)),
            occurrences_view(occurrences@) == occ0 + occurrences_of(all.take(k as int)),
            store0.wf() ==> symbols@.wf(),
        decreases list.len() - k,
    {
        let item = &list[k];
        let ghost occ_before = occurrences_view(occurrences@);
        let ghost made = all[k as int];
        proof {
            assert(made == scheduled_definition(uri@, list@[k as int]@));
            assert(all.take(k + 1) =~= all.take(k as int).push(made));
            lemma_store_with_all_push(store0, all.take(k as int), made);
        }
        let definition = SymbolDefinition {
            location: SymbolLocation {
                uri: from_chars(&to_chars(uri)),
                range: item.range,
                rename_range: None,
            },
            metadata: SymbolMetadata::Flag(
                FlagMetadata {
                    defined_in: clone_opt_string(&item.defined_in),
                    sequence_limit: item.sequence_limit,
                },
            ),
        };
        symbols.flags.insert_definition(item.id.clone(), definition);
        occurrences.push(
            SymbolOccurrence { kind: SymbolKind::Flag, id: item.id.clone(), range: item.range },
        );
        proof {
            assert(occurrences_view(occurrences@) =~= occ_before.push(made.occurrence()));
            assert(occ_before.push(made.occurrence()) =~= occ0 + occurrences_of(
                all.take(k + 1),
            ));
        }
        k += 1;
    }
    proof {
        assert(all.take(list.len() as int) =~= all);
    }
}

fn insert_scheduled_references(
    symbols: &mut SymbolStore,
    occurrences: &mut Vec<SymbolOccurrence>,
    uri: &str,
    list: &Vec<ScheduleSymbolReference>,
)
    ensures
        final(symbols)@ == store_with_all(
            old(symbols)@,
            scheduled_references(uri@, schedule_references_view(list@)),
        ),
        occurrences_view(final(occurrences)@) == occurrences_view(old(occurrences)@)
            + occurrences_of(scheduled_references(uri@, schedule_references_view(list@))),
        old(symbols)@.wf() ==> final(symbols)@.wf(),
{
    let ghost all = scheduled_references(uri@, schedule_references_view(list@));
    let ghost store0 = symbols@;
    let ghost occ0 = occurrences_view(occurrences@);
    let mut k: usize = 0;
    proof {
        assert(all.take(0) =~= Seq::<ContributionView>::empty());
        assert(occurrences_view(occurrences@) =~= occ0 + occurrences_of(all.take(0)));
    }
    while k < list.len()
        invariant
            k <= list.len(),
            all == scheduled_references(uri@, schedule_references_view(list@)),
            symbols@ == store_with_all(store0, all.take(k as int)),
            occurrences_view(occurrences@) == occ0 + occurrences_of(all.take(k as int)),
            store0.wf() ==> symbols@.wf(),
        decreases list.len() - k,
    {
        let item = &list[k];
        let ghost occ_before = occurrences_view(occurrences@);
        let ghost made = all[k as int];
        proof {
            assert(made == scheduled_reference(uri@, list@[k as int]@));
            assert(all.take(k + 1) =~= all.take(k as int).push(made));
            lemma_store_with_all_push(store0, all.take(k as int), made);
        }
        let reference = SymbolReference {
            location: SymbolLocation {
                uri: from_chars(&to_chars(uri)),
                range: item.range,
                rename_range: item.rename_range,
            },
            raw_id: item.raw_id.clone(),
        };
        match item.kind {
            SymbolKind::Room => symbols.rooms.add_reference(item.id.clone(), reference),
            SymbolKind::Item => symbols.items.add_reference(item.id.clone(), reference),
            SymbolKind::Npc => symbols.npcs.add_reference(item.id.clone(), reference),
            SymbolKind::Flag => symbols.flags.add_reference(item.id.clone(), reference),
            SymbolKind::RoomSet => symbols.sets.add_reference(item.id.clone(), reference),
        }
        occurrences.push(
            SymbolOccurrence { kind: item.kind, id: item.id.clone(), range: item.range },
        );
        proof {
            assert(occurrences_view(occurrences@) =~= occ_before.push(made.occurrence()));
            assert(occ_before.push(made.occurrence()) =~= occ0 + occurrences_of(
                all.take(k + 1),
            ));
        }
        k += 1;
    }
    proof {
        assert(all.take(list.len() as int) =~= all);
    }
}

// ---------------------------------------------------------------------------
// The engine
// ---------------------------------------------------------------------------

/// The analysis engine.
pub struct Backend {
    symbols: SymbolStore,
    documents: DashMap<String, DocumentState>,
}

impl View for Backend {
    type V = BackendView;

    closed spec fn view(&self) -> BackendView {
        BackendView { symbols: self.symbols@, documents: document_entries(self.documents) }
    }
}

impl Backend {
    /// An engine that has analysed nothing.
    pub fn new() -> (r: Backend)
        ensures
            r@.symbols.wf(),
            forall|kind: SymbolKind| (#[trigger] r@.symbols.of(kind)).dom() =~= Set::empty(),
            r@.documents.dom() =~= Set::empty(),
    {
        Backend { symbols: SymbolStore::new(), documents: documents_new() }
    }

    /// The symbols of all analysed documents.
    pub fn symbols(&self) -> (r: &SymbolStore)
        ensures
            r@ == self@.symbols,
    {
        &self.symbols
    }

    /// Analyses the document `uri` with the text `text`. `parsed` is what
    /// the parser made of the text, and `fragment_parses` holds, for each
    /// of the bodies that [`schedule_fragments`] finds in it, in order,
    /// what the parser made of the wrapped body. Where `parsed` is `None`
    /// nothing changes.
    pub fn analyze_document(
        &mut self,
        uri: &str,
        text: &str,
        parsed: &Option<ParsedSource>,
        fragment_parses: &Vec<Option<ParsedSource>>,
    )
        ensures
            final(self)@ == analysed(
                old(self)@,
                uri@,
                text@,
                opt_parsed(*parsed),
                parses_view(fragment_parses@),
            ),
            old(self)@.symbols.wf() ==> final(self)@.symbols.wf(),
    {
        let parsed = match parsed {
            Some(p) => p,
            None => {
                return ;
            },
        };
        let tree = &parsed.tree;
        let captures = &parsed.captures;
        let document = Document::new(from_chars(&to_chars(text)));
        let ghost before = self@;
        let ghost t = tree@;
        let ghost c = captures@;
        let ghost parses = parses_view(fragment_parses@);
        let ghost cleared = before.symbols.cleared(uri@);

        self.symbols.clear_document(uri);
        let mut occurrences: Vec<SymbolOccurrence> = Vec::new();
        let ghost mut done: Seq<ContributionView> = Seq::empty();
        proof {
            assert(occurrences_view(occurrences@) =~= occurrences_of(done));
        }

        let ghost part = definitions_from(SymbolKind::Room, t, text@, uri@, c.room_definitions);
        insert_definitions(
            &mut self.symbols,
            &mut occurrences,
            SymbolKind::Room,
            &document,
            tree,
            uri,
            &captures.room_definitions,
        );
        proof {
            lemma_store_with_all_concat(cleared, done, part);
            assert(occurrences_of(done + part) =~= occurrences_of(done) + occurrences_of(part));
            done = done + part;
        }

        let ghost part = references_from(SymbolKind::Room, t, text@, uri@, c.room_references);
        insert_references(
            &mut self.symbols,
            &mut occurrences,
            SymbolKind::Room,
            &document,
            tree,
            uri,
            &captures.room_references,
        );
        proof {
            lemma_store_with_all_concat(cleared, done, part);
            assert(occurrences_of(done + part) =~= occurrences_of(done) + occurrences_of(part));
            done = done + part;
        }

        let ghost part = definitions_from(SymbolKind::Item, t, text@, uri@, c.item_definitions);
        insert_definitions(
            &mut self.symbols,
            &mut occurrences,
            SymbolKind::Item,
            &document,
            tree,
            uri,
            &captures.item_definitions,
        );
        proof {
            lemma_store_with_all_concat(cleared, done, part);
            assert(occurrences_of(done + part) =~= occurrences_of(done) + occurrences_of(part));
            done = done + part;
        }

        let ghost part = references_from(SymbolKind::Item, t, text@, uri@, c.item_references);
        insert_references(
            &mut self.symbols,
            &mut occurrences,
            SymbolKind::Item,
            &document,
            tree,
            uri,
            &captures.item_references,
        );
        proof {
            lemma_store_with_all_concat(cleared, done, part);
            assert(occurrences_of(done + part) =~= occurrences_of(done) + occurrences_of(part));
            done = done + part;
        }

        let ghost part = definitions_from(SymbolKind::Npc, t, text@, uri@, c.npc_definitions);
        insert_definitions(
            &mut self.symbols,
            &mut occurrences,
            SymbolKind::Npc,
            &document,
            tree,
            uri,
            &captures.npc_definitions,
        );
        proof {
            lemma_store_with_all_concat(cleared, done, part);
            assert(occurrences_of(done + part) =~= occurrences_of(done) + occurrences_of(part));
            done = done + part;
        }

        let ghost part = references_from(SymbolKind::Npc, t, text@, uri@, c.npc_references);
        insert_references(
            &mut self.symbols,
            &mut occurrences,
            SymbolKind::Npc,
            &document,
            tree,
            uri,
            &captures.npc_references,
        );
        proof {
            lemma_store_with_all_concat(cleared, done, part);
            assert(occurrences_of(done + part) =~= occurrences_of(done) + occurrences_of(part));
            done = done + part;
        }

        let ghost part = definitions_from(SymbolKind::Flag, t, text@, uri@, c.flag_definitions);
        insert_definitions(
            &mut self.symbols,
            &mut occurrences,
            SymbolKind::Flag,
            &document,
            tree,
            uri,
            &captures.flag_definitions,
        );
        proof {
            lemma_store_with_all_concat(cleared, done, part);
            assert(occurrences_of(done + part) =~= occurrences_of(done) + occurrences_of(part));
            done = done + part;
        }

        let fragments = schedule_fragments(tree, text);
        let schedule_definitions = collect_schedule_flag_definitions(
            &document,
            &fragments,
            fragment_parses,
        );
        let schedule_references = collect_schedule_symbol_references(
            &document,
            &fragments,
            fragment_parses,
        );

        let ghost part = scheduled_definitions(
            uri@,
            schedule_definitions_all(text@, schedule_fragments_of(t, text@), parses),
        );
        insert_scheduled_definitions(
            &mut self.symbols,
            &mut occurrences,
            uri,
            &schedule_definitions,
        );
        proof {
            lemma_store_with_all_concat(cleared, done, part);
            assert(occurrences_of(done + part) =~= occurrences_of(done) + occurrences_of(part));
            done = done + part;
        }

        let ghost part = scheduled_references(
            uri@,
            schedule_references_all(text@, schedule_fragments_of(t, text@), parses),
        );
        insert_scheduled_references(&mut self.symbols, &mut occurrences, uri, &schedule_references);
        proof {
            lemma_store_with_all_concat(cleared, done, part);
            assert(occurrences_of(done + part) =~= occurrences_of(done) + occurrences_of(part));
            done = done + part;
        }

        let ghost part = references_from(SymbolKind::Flag, t, text@, uri@, c.flag_references);
        insert_references(
            &mut self.symbols,
            &mut occurrences,
            SymbolKind::Flag,
            &document,
            tree,
            uri,
            &captures.flag_references,
        );
        proof {
            lemma_store_with_all_concat(cleared, done, part);
            assert(occurrences_of(done + part) =~= occurrences_of(done) + occurrences_of(part));
            done = done + part;
        }

        let ghost part = definitions_from(SymbolKind::RoomSet, t, text@, uri@, c.set_definitions);
        insert_definitions(
            &mut self.symbols,
            &mut occurrences,
            SymbolKind::RoomSet,
            &document,
            tree,
            uri,
            &captures.set_definitions,
        );
        proof {
            lemma_store_with_all_concat(cleared, done, part);
            assert(occurrences_of(done + part) =~= occurrences_of(done) + occurrences_of(part));
            done = done + part;
        }

        let ghost part = references_from(SymbolKind::RoomSet, t, text@, uri@, c.set_references);
        insert_references(
            &mut self.symbols,
            &mut occurrences,
            SymbolKind::RoomSet,
            &document,
            tree,
            uri,
            &captures.set_references,
        );
        proof {
            lemma_store_with_all_concat(cleared, done, part);
            assert(occurrences_of(done + part) =~= occurrences_of(done) + occurrences_of(part));
            done = done + part;
            assert(done =~= contributions_of(parsed@, text@, uri@, parses));
        }

        let player_starts = collect_player_starts(&document, tree, uri);
        documents_insert(
            &mut self.documents,
            from_chars(&to_chars(uri)),
            DocumentState { document, occurrences, player_starts },
        );
    }

    /// Whether the document `uri` was analysed.
    pub fn has_document(&self, uri: &str) -> (r: bool)
        ensures
            r == self@.documents.contains_key(uri@),
    {
        documents_contains_key(&self.documents, uri)
    }

    /// A copy of what is kept of the document `uri`.
    pub fn document_state(&self, uri: &str) -> (r: Option<DocumentState>)
        ensures
            match r {
                Some(state) => self@.documents.contains_key(uri@) && state@
                    == self@.documents[uri@],
                None => !self@.documents.contains_key(uri@),
            },
    {
        documents_get(&self.documents, uri)
    }

    /// The URIs of the analysed documents, each once. The order is that in
    /// which the underlying map is walked, and may differ from one call to
    /// the next.
    pub fn document_uris(&self) -> (r: Vec<String>)
        ensures
            strings_view(r@).no_duplicates(),
            forall|uri: Seq<char>|
                strings_view(r@).contains(uri) <==> self@.documents.contains_key(uri),
    {
        documents_keys(&self.documents)
    }

    /// The occurrence at `position` in the document `uri`.
    pub fn get_symbol_occurrence_at_position(&self, uri: &str, position: Position) -> (r: Option<
        SymbolOccurrence,
    >)
        ensures
            opt_occurrence(r) == occurrence_at(self@, uri@, position),
    {
        let state = match documents_get(&self.documents, uri) {
            Some(state) => state,
            None => {
                return None;
            },
        };
        let ghost list = occurrences_view(state.occurrences@);
        let mut k: usize = 0;
        proof {
            assert(list.skip(0) =~= list);
        }
        while k < state.occurrences.len()
            invariant
                k <= state.occurrences.len(),
                list == occurrences_view(state.occurrences@),
                self@.documents.contains_key(uri@),
                list == self@.documents[uri@].occurrences,
                first_occurrence_at(list, position) == first_occurrence_at(
                    list.skip(k as int),
                    position,
                ),
            decreases state.occurrences.len() - k,
        {
            let occurrence = &state.occurrences[k];
            proof {
                assert(list.skip(k as int)[0] == occurrence@);
                assert(list.skip(k as int).drop_first() =~= list.skip(k + 1));
            }
            if range_contains(&occurrence.range, position) {
                return Some(occurrence.clone());
            }
            k += 1;
        }
        None
    }

    /// The kind and the identifier of the symbol at `position` in the
    /// document `uri`.
    pub fn get_symbol_at_position(&self, uri: &str, position: Position) -> (r: Option<
        (SymbolKind, String),
    >)
        ensures
            match r {
                Some((kind, id)) => occurrence_at(self@, uri@, position) matches Some(found)
                    && found.kind == kind && found.id == id@,
                None => occurrence_at(self@, uri@, position) is None,
            },
    {
        match self.get_symbol_occurrence_at_position(uri, position) {
            Some(occurrence) => Some((occurrence.kind, occurrence.id)),
            None => None,
        }
    }
}

} // verus!
