//! The symbol index of one kind, and the store of the five indices.
//!
//! An index maps an identifier to its entry: the current definition, the
//! further definitions of the same identifier, and the references to it.
//! The entries live in a concurrent map of the `dashmap` crate; the
//! contracts speak of the mathematical map that it holds.

use crate::chars::{str_eq, strings_view};
use crate::symbols::{
    clone_definitions, clone_references, definitions_view, references_view, DefinitionView,
    ReferenceView, SymbolDefinition, SymbolKind, SymbolReference,
};
use dashmap::DashMap;
use vstd::prelude::*;

verus! {

// ---------------------------------------------------------------------------
// The model
// ---------------------------------------------------------------------------

/// What an index knows of one identifier.
pub struct EntryView {
    /// The current definition.
    pub definition: Option<DefinitionView>,
    /// The further definitions, oldest first.
    pub duplicates: Seq<DefinitionView>,
    /// The references, in the order in which they were added.
    pub references: Seq<ReferenceView>,
}

/// What an index holds: the entries by identifier.
pub type IndexView = Map<Seq<char>, EntryView>;

impl EntryView {
    /// The entry of an identifier of which nothing is known.
    pub open spec fn empty() -> EntryView {
        EntryView { definition: None, duplicates: Seq::empty(), references: Seq::empty() }
    }

    /// Whether the entry knows nothing.
    pub open spec fn is_empty(self) -> bool {
        self.definition is None && self.duplicates.len() == 0 && self.references.len() == 0
    }

    /// Whether the entry keeps no definition aside while it has no current
    /// one.
    pub open spec fn wf(self) -> bool {
        self.definition is None ==> self.duplicates.len() == 0
    }
}

/// The definitions of `list` that do not lie in the document `uri`.
pub open spec fn keep_definitions(list: Seq<DefinitionView>, uri: Seq<char>) -> Seq<
    DefinitionView,
>
    decreases list.len(),
{
    if list.len() == 0 {
        list
    } else if list.last().location.uri == uri {
        keep_definitions(list.drop_last(), uri)
    } else {
        keep_definitions(list.drop_last(), uri).push(list.last())
    }
}

/// The references of `list` that do not lie in the document `uri`.
pub open spec fn keep_references(list: Seq<ReferenceView>, uri: Seq<char>) -> Seq<ReferenceView>
    decreases list.len(),
{
    if list.len() == 0 {
        list
    } else if list.last().location.uri == uri {
        keep_references(list.drop_last(), uri)
    } else {
        keep_references(list.drop_last(), uri).push(list.last())
    }
}

/// The entry `e` without what the document `uri` gave to it. Where the
/// current definition goes, the oldest definition that stays takes its
/// place.
pub open spec fn cleared_entry(e: EntryView, uri: Seq<char>) -> EntryView {
    let duplicates = keep_definitions(e.duplicates, uri);
    let references = keep_references(e.references, uri);
    match e.definition {
        Some(current) => if current.location.uri != uri {
            EntryView { definition: Some(current), duplicates, references }
        } else if duplicates.len() > 0 {
            EntryView {
                definition: Some(duplicates[0]),
                duplicates: duplicates.drop_first(),
                references,
            }
        } else {
            EntryView { definition: None, duplicates, references }
        },
        None => EntryView { definition: None, duplicates, references },
    }
}

/// The entry `e` with one more definition: the current one if there was
/// none, otherwise the newest of the further ones.
pub open spec fn with_definition(e: EntryView, def: DefinitionView) -> EntryView {
    match e.definition {
        Some(current) => EntryView {
            definition: Some(current),
            duplicates: e.duplicates.push(def),
            references: e.references,
        },
        None => EntryView {
            definition: Some(def),
            duplicates: Seq::empty(),
            references: e.references,
        },
    }
}

/// The entry `e` with one more reference.
pub open spec fn with_reference(e: EntryView, reference: ReferenceView) -> EntryView {
    EntryView {
        definition: e.definition,
        duplicates: e.duplicates,
        references: e.references.push(reference),
    }
}

/// What the index `m` knows of `id`.
pub open spec fn entry_at(m: IndexView, id: Seq<char>) -> EntryView {
    if m.contains_key(id) {
        m[id]
    } else {
        EntryView::empty()
    }
}

/// The index `m` after the definition `def` of `id` was inserted.
pub open spec fn index_with_definition(m: IndexView, id: Seq<char>, def: DefinitionView)
    -> IndexView {
    m.insert(id, with_definition(entry_at(m, id), def))
}

/// The index `m` after the reference `reference` to `id` was added.
pub open spec fn index_with_reference(m: IndexView, id: Seq<char>, reference: ReferenceView)
    -> IndexView {
    m.insert(id, with_reference(entry_at(m, id), reference))
}

/// The index `m` without what the document `uri` gave to it.
pub open spec fn cleared_index(m: IndexView, uri: Seq<char>) -> IndexView {
    Map::new(
        |id: Seq<char>| m.contains_key(id) && !cleared_entry(m[id], uri).is_empty(),
        |id: Seq<char>| cleared_entry(m[id], uri),
    )
}

/// Whether every entry of `m` knows something and is well formed.
pub open spec fn index_wf(m: IndexView) -> bool {
    forall|id: Seq<char>| #[trigger] m.contains_key(id) ==> !m[id].is_empty() && m[id].wf()
}

/// Whether `ids` names each identifier of `m` once.
pub open spec fn enumerates(ids: Seq<Seq<char>>, m: IndexView) -> bool {
    &&& ids.no_duplicates()
    &&& forall|id: Seq<char>| ids.contains(id) <==> m.contains_key(id)
}

/// What an optional definition holds.
pub open spec fn opt_definition(value: Option<SymbolDefinition>) -> Option<DefinitionView> {
    match value {
        Some(def) => Some(def@),
        None => None,
    }
}

// ---------------------------------------------------------------------------
// Laws of the model
// ---------------------------------------------------------------------------

/// What [`keep_definitions`] keeps does not lie in `uri`, and keeping once
/// more changes nothing.
pub proof fn lemma_keep_definitions(list: Seq<DefinitionView>, uri: Seq<char>)
    ensures
        keep_definitions(list, uri).len() <= list.len(),
        forall|i: int|
            0 <= i < keep_definitions(list, uri).len() ==> (#[trigger] keep_definitions(
                list,
                uri,
            )[i]).location.uri != uri,
        keep_definitions(keep_definitions(list, uri), uri) == keep_definitions(list, uri),
    decreases list.len(),
{
    if list.len() > 0 {
        lemma_keep_definitions(list.drop_last(), uri);
        let kept = keep_definitions(list.drop_last(), uri);
        if list.last().location.uri != uri {
            assert(kept.push(list.last()).drop_last() =~= kept);
        }
    }
}

/// What [`keep_references`] keeps does not lie in `uri`, and keeping once
/// more changes nothing.
pub proof fn lemma_keep_references(list: Seq<ReferenceView>, uri: Seq<char>)
    ensures
        keep_references(list, uri).len() <= list.len(),
        forall|i: int|
            0 <= i < keep_references(list, uri).len() ==> (#[trigger] keep_references(
                list,
                uri,
            )[i]).location.uri != uri,
        keep_references(keep_references(list, uri), uri) == keep_references(list, uri),
    decreases list.len(),
{
    if list.len() > 0 {
        lemma_keep_references(list.drop_last(), uri);
        let kept = keep_references(list.drop_last(), uri);
        if list.last().location.uri != uri {
            assert(kept.push(list.last()).drop_last() =~= kept);
        }
    }
}

/// A list of which no definition lies in `uri` is kept whole.
pub proof fn lemma_keep_definitions_all(list: Seq<DefinitionView>, uri: Seq<char>)
    requires
        forall|i: int| 0 <= i < list.len() ==> (#[trigger] list[i]).location.uri != uri,
    ensures
        keep_definitions(list, uri) == list,
    decreases list.len(),
{
    if list.len() > 0 {
        lemma_keep_definitions_all(list.drop_last(), uri);
        assert(list.drop_last().push(list.last()) =~= list);
    }
}

/// A list of which no reference lies in `uri` is kept whole.
pub proof fn lemma_keep_references_all(list: Seq<ReferenceView>, uri: Seq<char>)
    requires
        forall|i: int| 0 <= i < list.len() ==> (#[trigger] list[i]).location.uri != uri,
    ensures
        keep_references(list, uri) == list,
    decreases list.len(),
{
    if list.len() > 0 {
        lemma_keep_references_all(list.drop_last(), uri);
        assert(list.drop_last().push(list.last()) =~= list);
    }
}

/// Clearing a document leaves a well-formed entry well formed, and leaves
/// nothing of that document in it.
pub proof fn lemma_cleared_entry(e: EntryView, uri: Seq<char>)
    requires
        e.wf(),
    ensures
        cleared_entry(e, uri).wf(),
        cleared_entry(e, uri).definition matches Some(d) ==> d.location.uri != uri,
        forall|i: int|
            0 <= i < cleared_entry(e, uri).duplicates.len() ==> (#[trigger] cleared_entry(
                e,
                uri,
            ).duplicates[i]).location.uri != uri,
        forall|i: int|
            0 <= i < cleared_entry(e, uri).references.len() ==> (#[trigger] cleared_entry(
                e,
                uri,
            ).references[i]).location.uri != uri,
        cleared_entry(cleared_entry(e, uri), uri) == cleared_entry(e, uri),
{
    lemma_keep_definitions(e.duplicates, uri);
    lemma_keep_references(e.references, uri);
    let once = cleared_entry(e, uri);
    let kept = keep_definitions(e.duplicates, uri);
    assert forall|i: int| 0 <= i < once.duplicates.len() implies (#[trigger] once.duplicates[i])
        .location.uri != uri by {
        if once.duplicates != kept {
            assert(once.duplicates[i] == kept[i + 1]);
        }
    }
    lemma_keep_definitions_all(once.duplicates, uri);
    lemma_keep_references_all(once.references, uri);
}

/// Clearing a document keeps an index well formed.
pub proof fn lemma_cleared_index_wf(m: IndexView, uri: Seq<char>)
    requires
        index_wf(m),
    ensures
        index_wf(cleared_index(m, uri)),
{
    assert forall|id: Seq<char>| #[trigger] cleared_index(m, uri).contains_key(id) implies
        !cleared_index(m, uri)[id].is_empty() && cleared_index(m, uri)[id].wf() by {
        lemma_cleared_entry(m[id], uri);
    }
}

/// Clearing a document twice is clearing it once.
pub proof fn lemma_cleared_index_idempotent(m: IndexView, uri: Seq<char>)
    requires
        index_wf(m),
    ensures
        cleared_index(cleared_index(m, uri), uri) == cleared_index(m, uri),
{
    let once = cleared_index(m, uri);
    let twice = cleared_index(once, uri);
    assert forall|id: Seq<char>| once.contains_key(id) implies #[trigger] twice.contains_key(id)
        && twice[id] == once[id] by {
        assert(m.contains_key(id));
        lemma_cleared_entry(m[id], uri);
    }
    assert(twice =~= once);
}

/// Where two documents define the same identifier and the one that came
/// first is cleared, the definition of the other becomes the current one;
/// the identifier has a definition before and after.
pub proof fn lemma_clearing_promotes_duplicate(
    m: IndexView,
    id: Seq<char>,
    first: DefinitionView,
    second: DefinitionView,
)
    requires
        entry_at(m, id).definition is None,
        first.location.uri != second.location.uri,
    ensures
        ({
            let both = index_with_definition(index_with_definition(m, id, first), id, second);
            &&& entry_at(both, id).definition == Some(first)
            &&& entry_at(cleared_index(both, first.location.uri), id).definition == Some(second)
        }),
{
    let one = index_with_definition(m, id, first);
    let both = index_with_definition(one, id, second);
    let uri = first.location.uri;
    assert(both[id].duplicates =~= seq![second]);
    assert(seq![second].drop_last() =~= Seq::<DefinitionView>::empty());
    assert(keep_definitions(Seq::<DefinitionView>::empty(), uri) =~= Seq::<
        DefinitionView,
    >::empty());
    assert(keep_definitions(seq![second], uri) =~= seq![second]);
    assert(cleared_entry(both[id], uri).definition == Some(second));
}

// ---------------------------------------------------------------------------
// The entries, as held
// ---------------------------------------------------------------------------

/// What an index knows of one identifier.
#[derive(Debug)]
pub struct SymbolEntry {
    pub definition: Option<SymbolDefinition>,
    pub duplicates: Vec<SymbolDefinition>,
    pub references: Vec<SymbolReference>,
}

impl View for SymbolEntry {
    type V = EntryView;

    open spec fn view(&self) -> EntryView {
        EntryView {
            definition: opt_definition(self.definition),
            duplicates: definitions_view(self.duplicates@),
            references: references_view(self.references@),
        }
    }
}

impl Clone for SymbolEntry {
    fn clone(&self) -> (r: SymbolEntry)
        ensures
            r@ == self@,
    {
        let definition = match &self.definition {
            Some(def) => Some(def.clone()),
            None => None,
        };
        SymbolEntry {
            definition,
            duplicates: clone_definitions(&self.duplicates),
            references: clone_references(&self.references),
        }
    }
}

impl SymbolEntry {
    /// The entry of an identifier of which nothing is known.
    pub fn empty() -> (r: SymbolEntry)
        ensures
            r@ == EntryView::empty(),
    {
        let r = SymbolEntry { definition: None, duplicates: Vec::new(), references: Vec::new() };
        proof {
            assert(r@.duplicates =~= Seq::<DefinitionView>::empty());
            assert(r@.references =~= Seq::<ReferenceView>::empty());
        }
        r
    }

    /// Whether the entry knows nothing.
    pub fn is_empty(&self) -> (r: bool)
        ensures
            r == self@.is_empty(),
    {
        self.definition.is_none() && self.duplicates.len() == 0 && self.references.len() == 0
    }
}

/// The definitions of `list` that do not lie in the document `uri`.
pub fn definitions_outside(list: &Vec<SymbolDefinition>, uri: &str) -> (r: Vec<SymbolDefinition>)
    ensures
        definitions_view(r@) == keep_definitions(definitions_view(list@), uri@),
{
    let mut out: Vec<SymbolDefinition> = Vec::new();
    let mut i: usize = 0;
    proof {
        assert(definitions_view(list@).take(0) =~= Seq::<DefinitionView>::empty());
        assert(definitions_view(out@) =~= Seq::<DefinitionView>::empty());
    }
    while i < list.len()
        invariant
            i <= list.len(),
            definitions_view(out@) == keep_definitions(
                definitions_view(list@).take(i as int),
                uri@,
            ),
        decreases list.len() - i,
    {
        proof {
            assert(definitions_view(list@).take(i + 1).drop_last() =~= definitions_view(
                list@,
            ).take(i as int));
        }
        if !str_eq(list[i].location.uri.as_str(), uri) {
            let ghost before = definitions_view(out@);
            out.push(list[i].clone());
            proof {
                assert(definitions_view(out@) =~= before.push(list@[i as int]@));
            }
        }
        i += 1;
    }
    proof {
        assert(definitions_view(list@).take(list.len() as int) =~= definitions_view(list@));
    }
    out
}

/// The references of `list` that do not lie in the document `uri`.
pub fn references_outside(list: &Vec<SymbolReference>, uri: &str) -> (r: Vec<SymbolReference>)
    ensures
        references_view(r@) == keep_references(references_view(list@), uri@),
{
    let mut out: Vec<SymbolReference> = Vec::new();
    let mut i: usize = 0;
    proof {
        assert(references_view(list@).take(0) =~= Seq::<ReferenceView>::empty());
        assert(references_view(out@) =~= Seq::<ReferenceView>::empty());
    }
    while i < list.len()
        invariant
            i <= list.len(),
            references_view(out@) == keep_references(references_view(list@).take(i as int), uri@),
        decreases list.len() - i,
    {
        proof {
            assert(references_view(list@).take(i + 1).drop_last() =~= references_view(
                list@,
            ).take(i as int));
        }
        if !str_eq(list[i].location.uri.as_str(), uri) {
            let ghost before = references_view(out@);
            out.push(list[i].clone());
            proof {
                assert(references_view(out@) =~= before.push(list@[i as int]@));
            }
        }
        i += 1;
    }
    proof {
        assert(references_view(list@).take(list.len() as int) =~= references_view(list@));
    }
    out
}

/// The entry without what the document `uri` gave to it.
pub fn clear_entry(entry: &SymbolEntry, uri: &str) -> (r: SymbolEntry)
    ensures
        r@ == cleared_entry(entry@, uri@),
{
    let mut duplicates = definitions_outside(&entry.duplicates, uri);
    let references = references_outside(&entry.references, uri);
    let definition = match &entry.definition {
        Some(current) => {
            if !str_eq(current.location.uri.as_str(), uri) {
                Some(current.clone())
            } else if duplicates.len() > 0 {
                let ghost kept = definitions_view(duplicates@);
                let promoted = duplicates.remove(0);
                proof {
                    assert(definitions_view(duplicates@) =~= kept.drop_first());
                }
                Some(promoted)
            } else {
                None
            }
        },
        None => None,
    };
    SymbolEntry { definition, duplicates, references }
}

// ---------------------------------------------------------------------------
// The concurrent map
// ---------------------------------------------------------------------------

/// The concurrent map of the crate `dashmap`. Trusted declaration of the
/// type `dashmap::DashMap`; what a map holds is known only through the
/// functions below.
#[verifier::external_type_specification]
#[verifier::external_body]
#[verifier::reject_recursive_types(K)]
#[verifier::reject_recursive_types(V)]
#[verifier::reject_recursive_types(S)]
pub struct ExDashMap<K, V, S>(DashMap<K, V, S>);

/// The entries that a map of symbol entries holds, by key.
pub uninterp spec fn symbol_entries(map: DashMap<String, SymbolEntry>) -> Map<Seq<char>, EntryView>;

/// A map without entries.
///
/// Trusted: wraps `DashMap::new`, which creates an empty map.
#[verifier::external_body]
fn entries_new() -> (r: DashMap<String, SymbolEntry>)
    ensures
        (symbol_entries(r) == Map::<Seq<char>, EntryView>::empty()),
{
    DashMap::new()
}

/// A copy of the entry under `id`, if the map has one.
///
/// Trusted: wraps `DashMap::get`, which returns a reference to the value
/// stored under the key, or `None` where the map does not hold the key.
#[verifier::external_body]
fn entries_get(map: &DashMap<String, SymbolEntry>, id: &str) -> (r: Option<SymbolEntry>)
    ensures
        match r {
            Some(entry) => symbol_entries(*map).contains_key(id@) && entry@ == symbol_entries(
                *map,
            )[id@],
            None => !symbol_entries(*map).contains_key(id@),
        },
{
    match map.get(id) {
        Some(found) => Some(found.value().clone()),
        None => None,
    }
}

/// Stores `entry` under `id`, in place of what was there.
///
/// Trusted: wraps `DashMap::insert`, which inserts the key and the value,
/// replacing the value that the key had.
#[verifier::external_body]
fn entries_insert(map: &mut DashMap<String, SymbolEntry>, id: String, entry: SymbolEntry)
    ensures
        symbol_entries(*final(map)) == symbol_entries(*old(map)).insert(id@, entry@),
{
    map.insert(id, entry);
}

/// Removes what is stored under `id`.
///
/// Trusted: wraps `DashMap::remove`, which removes the entry of the key if
/// there is one and leaves the other entries as they are.
#[verifier::external_body]
fn entries_remove(map: &mut DashMap<String, SymbolEntry>, id: &str)
    ensures
        symbol_entries(*final(map)) == symbol_entries(*old(map)).remove(id@),
{
    map.remove(id);
}

/// The keys of the map, each once, in the order in which the map is walked.
///
/// Trusted: wraps `DashMap::iter`, which visits every entry of the map
/// once. In which order is not stated.
#[verifier::external_body]
fn entries_keys(map: &DashMap<String, SymbolEntry>) -> (r: Vec<String>)
    ensures
        strings_view(r@).no_duplicates(),
        forall|id: Seq<char>|
            strings_view(r@).contains(id) <==> symbol_entries(*map).contains_key(id),
{
    map.iter().map(|entry| entry.key().clone()).collect()
}

// ---------------------------------------------------------------------------
// The index
// ---------------------------------------------------------------------------

/// The definitions and references of the symbols of one kind.
pub struct SymbolIndex {
    entries: DashMap<String, SymbolEntry>,
}

impl View for SymbolIndex {
    type V = IndexView;

    closed spec fn view(&self) -> IndexView {
        symbol_entries(self.entries)
    }
}

impl Default for SymbolIndex {
    fn default() -> (r: SymbolIndex)
        ensures
            (r@ == Map::<Seq<char>, EntryView>::empty()),
    {
        SymbolIndex::new()
    }
}

impl SymbolIndex {
    /// An index that knows nothing.
    pub fn new() -> (r: SymbolIndex)
        ensures
            (r@ == Map::<Seq<char>, EntryView>::empty()),
            index_wf(r@),
    {
        SymbolIndex { entries: entries_new() }
    }

    /// A copy of what the index knows of `id`.
    pub fn entry(&self, id: &str) -> (r: SymbolEntry)
        ensures
            r@ == entry_at(self@, id@),
    {
        match entries_get(&self.entries, id) {
            Some(entry) => entry,
            None => SymbolEntry::empty(),
        }
    }

    /// The identifiers of which the index knows something, each once. The
    /// order is that in which the underlying map is walked, and may differ
    /// from one call to the next.
    pub fn ids(&self) -> (r: Vec<String>)
        ensures
            enumerates(strings_view(r@), self@),
    {
        entries_keys(&self.entries)
    }

    /// Removes what the document `uri` gave to the index. Where a current
    /// definition goes, the oldest definition of the same identifier that
    /// stays takes its place.
    pub fn clear_document(&mut self, uri: &str)
        ensures
            final(self)@ == cleared_index(old(self)@, uri@),
            index_wf(old(self)@) ==> index_wf(final(self)@),
    {
        let ghost before = self@;
        let ids = entries_keys(&self.entries);
        let mut i: usize = 0;
        proof {
            assert forall|j: int| 0 <= j < ids.len() implies before.contains_key(
                #[trigger] ids@[j]@,
            ) by {
                assert(strings_view(ids@)[j] == ids@[j]@);
            }
        }
        while i < ids.len()
            invariant
                i <= ids.len(),
                enumerates(strings_view(ids@), before),
                forall|id: Seq<char>| #[trigger] self@.contains_key(id) ==> before.contains_key(id),
                forall|j: int|
                    0 <= j < i ==> (self@.contains_key(#[trigger] ids@[j]@) <==> !cleared_entry(
                        before[ids@[j]@],
                        uri@,
                    ).is_empty()),
                forall|j: int|
                    0 <= j < i && self@.contains_key(#[trigger] ids@[j]@) ==> self@[ids@[j]@]
                        == cleared_entry(before[ids@[j]@], uri@),
                forall|j: int|
                    i <= j < ids.len() ==> self@.contains_key(#[trigger] ids@[j]@)
                        && self@[ids@[j]@] == before[ids@[j]@],
            decreases ids.len() - i,
        {
            let id = &ids[i];
            let ghost key = ids@[i as int]@;
            proof {
                assert(strings_view(ids@)[i as int] == key);
                assert forall|j: int| 0 <= j < ids.len() && j != i implies ids@[j]@ != key by {
                    assert(strings_view(ids@)[j] == ids@[j]@);
                }
            }
            let entry = self.entry(id.as_str());
            let cleared = clear_entry(&entry, uri);
            if cleared.is_empty() {
                entries_remove(&mut self.entries, id.as_str());
            } else {
                entries_insert(&mut self.entries, id.clone(), cleared);
            }
            i += 1;
        }
        proof {
            let target = cleared_index(before, uri@);
            assert forall|id: Seq<char>| target.contains_key(id) <==> self@.contains_key(id) by {
                if before.contains_key(id) {
                    assert(strings_view(ids@).contains(id));
                    let j = choose|j: int|
                        0 <= j < strings_view(ids@).len() && strings_view(ids@)[j] == id;
                    assert(ids@[j]@ == id);
                }
            }
            assert forall|id: Seq<char>| target.contains_key(id) implies target[id] == self@[id] by {
                assert(strings_view(ids@).contains(id));
                let j = choose|j: int|
                    0 <= j < strings_view(ids@).len() && strings_view(ids@)[j] == id;
                assert(ids@[j]@ == id);
            }
            assert(self@ =~= target);
            if index_wf(before) {
                lemma_cleared_index_wf(before, uri@);
            }
        }
    }

    /// Records the definition `def` of `id`: as the current one if `id` had
    /// none, otherwise after the definitions it has.
    pub fn insert_definition(&mut self, id: String, def: SymbolDefinition)
        ensures
            final(self)@ == index_with_definition(old(self)@, id@, def@),
            index_wf(old(self)@) ==> index_wf(final(self)@),
    {
        let mut entry = self.entry(id.as_str());
        let ghost before = entry@;
        if entry.definition.is_some() {
            entry.duplicates.push(def);
            proof {
                assert(entry@.duplicates =~= before.duplicates.push(def@));
            }
        } else {
            entry.definition = Some(def);
            entry.duplicates = Vec::new();
            proof {
                assert(entry@.duplicates =~= Seq::<DefinitionView>::empty());
            }
        }
        entries_insert(&mut self.entries, id, entry);
    }

    /// Records the reference `reference` to `id`, after those it has.
    pub fn add_reference(&mut self, id: String, reference: SymbolReference)
        ensures
            final(self)@ == index_with_reference(old(self)@, id@, reference@),
            index_wf(old(self)@) ==> index_wf(final(self)@),
    {
        let mut entry = self.entry(id.as_str());
        let ghost before = entry@;
        entry.references.push(reference);
        proof {
            assert(entry@.references =~= before.references.push(reference@));
        }
        entries_insert(&mut self.entries, id, entry);
    }

    /// The current definition of `id`.
    pub fn definition(&self, id: &str) -> (r: Option<SymbolDefinition>)
        ensures
            opt_definition(r) == entry_at(self@, id@).definition,
    {
        self.entry(id).definition
    }

    /// The further definitions of `id`, oldest first.
    pub fn duplicates(&self, id: &str) -> (r: Vec<SymbolDefinition>)
        ensures
            definitions_view(r@) == entry_at(self@, id@).duplicates,
    {
        self.entry(id).duplicates
    }

    /// The references to `id`, or `None` where there is none.
    pub fn references(&self, id: &str) -> (r: Option<Vec<SymbolReference>>)
        ensures
            match r {
                Some(list) => list.len() > 0 && references_view(list@) == entry_at(
                    self@,
                    id@,
                ).references,
                None => entry_at(self@, id@).references.len() == 0,
            },
    {
        let entry = self.entry(id);
        if entry.references.len() > 0 {
            Some(entry.references)
        } else {
            None
        }
    }

    /// Whether `id` has a current definition.
    pub fn has_definition(&self, id: &str) -> (r: bool)
        ensures
            r == (entry_at(self@, id@).definition is Some),
    {
        self.entry(id).definition.is_some()
    }

    /// Each identifier that has a definition, with its current definition.
    /// The order is that in which the underlying map is walked.
    pub fn definitions_iter(&self) -> (r: Vec<(String, SymbolDefinition)>)
        ensures
            forall|i: int|
                0 <= i < r.len() ==> entry_at(self@, (#[trigger] r@[i]).0@).definition == Some(
                    r@[i].1@,
                ),
            forall|i: int, j: int| 0 <= i < j < r.len() ==> r@[i].0@ != r@[j].0@,
            forall|id: Seq<char>|
                entry_at(self@, id).definition is Some ==> exists|i: int|
                    0 <= i < r.len() && (#[trigger] r@[i]).0@ == id,
    {
        let ids = self.ids();
        let mut out: Vec<(String, SymbolDefinition)> = Vec::new();
        let mut k: usize = 0;
        while k < ids.len()
            invariant
                k <= ids.len(),
                enumerates(strings_view(ids@), self@),
                forall|i: int|
                    0 <= i < out.len() ==> entry_at(self@, (#[trigger] out@[i]).0@).definition
                        == Some(out@[i].1@),
                forall|i: int|
                    0 <= i < out.len() ==> exists|j: int|
                        0 <= j < k && ids@[j]@ == (#[trigger] out@[i]).0@,
                forall|i: int, j: int| 0 <= i < j < out.len() ==> out@[i].0@ != out@[j].0@,
                forall|j: int|
                    0 <= j < k && entry_at(self@, #[trigger] ids@[j]@).definition is Some
                        ==> exists|i: int| 0 <= i < out.len() && (#[trigger] out@[i]).0@ == ids@[j]@,
            decreases ids.len() - k,
        {
            let ghost key = ids@[k as int]@;
            proof {
                assert(strings_view(ids@)[k as int] == key);
                assert forall|j: int| 0 <= j < k implies ids@[j]@ != key by {
                    assert(strings_view(ids@)[j] == ids@[j]@);
                }
            }
            match self.definition(ids[k].as_str()) {
                Some(def) => {
                    let ghost before = out@;
                    out.push((ids[k].clone(), def));
                    proof {
                        assert(out@[before.len() as int].0@ == key);
                        assert forall|i: int| 0 <= i < before.len() implies out@[i] == before[i] by {}
                        assert forall|j: int|
                            0 <= j < k + 1 && entry_at(
                                self@,
                                #[trigger] ids@[j]@,
                            ).definition is Some implies exists|i: int|
                            0 <= i < out.len() && (#[trigger] out@[i]).0@ == ids@[j]@ by {
                            if j < k {
                                let i0 = choose|i: int|
                                    0 <= i < before.len() && (#[trigger] before[i]).0@
                                        == ids@[j]@;
                                assert(out@[i0].0@ == ids@[j]@);
                            } else {
                                assert(out@[before.len() as int].0@ == ids@[j]@);
                            }
                        }
                    }
                },
                None => {},
            }
            k += 1;
        }
        proof {
            assert forall|id: Seq<char>| entry_at(self@, id).definition is Some implies exists|
                i: int,
            |
                0 <= i < out.len() && (#[trigger] out@[i]).0@ == id by {
                assert(self@.contains_key(id));
                assert(strings_view(ids@).contains(id));
                let j = choose|j: int|
                    0 <= j < strings_view(ids@).len() && strings_view(ids@)[j] == id;
                assert(ids@[j]@ == id);
            }
        }
        out
    }

    /// Each identifier that has references, with its references. The order
    /// is that in which the underlying map is walked.
    pub fn references_iter(&self) -> (r: Vec<(String, Vec<SymbolReference>)>)
        ensures
            forall|i: int|
                0 <= i < r.len() ==> (#[trigger] r@[i]).1.len() > 0 && references_view(r@[i].1@)
                    == entry_at(self@, r@[i].0@).references,
            forall|i: int, j: int| 0 <= i < j < r.len() ==> r@[i].0@ != r@[j].0@,
            forall|id: Seq<char>|
                entry_at(self@, id).references.len() > 0 ==> exists|i: int|
                    0 <= i < r.len() && (#[trigger] r@[i]).0@ == id,
    {
        let ids = self.ids();
        let mut out: Vec<(String, Vec<SymbolReference>)> = Vec::new();
        let mut k: usize = 0;
        while k < ids.len()
            invariant
                k <= ids.len(),
                enumerates(strings_view(ids@), self@),
                forall|i: int|
                    0 <= i < out.len() ==> (#[trigger] out@[i]).1.len() > 0 && references_view(
                        out@[i].1@,
                    ) == entry_at(self@, out@[i].0@).references,
                forall|i: int|
                    0 <= i < out.len() ==> exists|j: int|
                        0 <= j < k && ids@[j]@ == (#[trigger] out@[i]).0@,
                forall|i: int, j: int| 0 <= i < j < out.len() ==> out@[i].0@ != out@[j].0@,
                forall|j: int|
                    0 <= j < k && entry_at(self@, #[trigger] ids@[j]@).references.len() > 0
                        ==> exists|i: int| 0 <= i < out.len() && (#[trigger] out@[i]).0@ == ids@[j]@,
            decreases ids.len() - k,
        {
            let ghost key = ids@[k as int]@;
            proof {
                assert(strings_view(ids@)[k as int] == key);
                assert forall|j: int| 0 <= j < k implies ids@[j]@ != key by {
                    assert(strings_view(ids@)[j] == ids@[j]@);
                }
            }
            match self.references(ids[k].as_str()) {
                Some(list) => {
                    let ghost before = out@;
                    out.push((ids[k].clone(), list));
                    proof {
                        assert(out@[before.len() as int].0@ == key);
                        assert forall|i: int| 0 <= i < before.len() implies out@[i] == before[i] by {}
                        assert forall|j: int|
                            0 <= j < k + 1 && entry_at(
                                self@,
                                #[trigger] ids@[j]@,
                            ).references.len() > 0 implies exists|i: int|
                            0 <= i < out.len() && (#[trigger] out@[i]).0@ == ids@[j]@ by {
                            if j < k {
                                let i0 = choose|i: int|
                                    0 <= i < before.len() && (#[trigger] before[i]).0@
                                        == ids@[j]@;
                                assert(out@[i0].0@ == ids@[j]@);
                            } else {
                                assert(out@[before.len() as int].0@ == ids@[j]@);
                            }
                        }
                    }
                },
                None => {},
            }
            k += 1;
        }
        proof {
            assert forall|id: Seq<char>| entry_at(self@, id).references.len() > 0 implies exists|
                i: int,
            |
                0 <= i < out.len() && (#[trigger] out@[i]).0@ == id by {
                assert(self@.contains_key(id));
                assert(strings_view(ids@).contains(id));
                let j = choose|j: int|
                    0 <= j < strings_view(ids@).len() && strings_view(ids@)[j] == id;
                assert(ids@[j]@ == id);
            }
        }
        out
    }

    /// Each identifier that has further definitions, with these. The order
    /// is that in which the underlying map is walked.
    pub fn duplicate_definitions_iter(&self) -> (r: Vec<(String, Vec<SymbolDefinition>)>)
        ensures
            forall|i: int|
                0 <= i < r.len() ==> (#[trigger] r@[i]).1.len() > 0 && definitions_view(r@[i].1@)
                    == entry_at(self@, r@[i].0@).duplicates,
            forall|i: int, j: int| 0 <= i < j < r.len() ==> r@[i].0@ != r@[j].0@,
            forall|id: Seq<char>|
                entry_at(self@, id).duplicates.len() > 0 ==> exists|i: int|
                    0 <= i < r.len() && (#[trigger] r@[i]).0@ == id,
    {
        let ids = self.ids();
        let mut out: Vec<(String, Vec<SymbolDefinition>)> = Vec::new();
        let mut k: usize = 0;
        while k < ids.len()
            invariant
                k <= ids.len(),
                enumerates(strings_view(ids@), self@),
                forall|i: int|
                    0 <= i < out.len() ==> (#[trigger] out@[i]).1.len() > 0 && definitions_view(
                        out@[i].1@,
                    ) == entry_at(self@, out@[i].0@).duplicates,
                forall|i: int|
                    0 <= i < out.len() ==> exists|j: int|
                        0 <= j < k && ids@[j]@ == (#[trigger] out@[i]).0@,
                forall|i: int, j: int| 0 <= i < j < out.len() ==> out@[i].0@ != out@[j].0@,
                forall|j: int|
                    0 <= j < k && entry_at(self@, #[trigger] ids@[j]@).duplicates.len() > 0
                        ==> exists|i: int| 0 <= i < out.len() && (#[trigger] out@[i]).0@ == ids@[j]@,
            decreases ids.len() - k,
        {
            let ghost key = ids@[k as int]@;
            proof {
                assert(strings_view(ids@)[k as int] == key);
                assert forall|j: int| 0 <= j < k implies ids@[j]@ != key by {
                    assert(strings_view(ids@)[j] == ids@[j]@);
                }
            }
            let list = self.duplicates(ids[k].as_str());
            if list.len() > 0 {
                let ghost before = out@;
                out.push((ids[k].clone(), list));
                proof {
                    assert(out@[before.len() as int].0@ == key);
                    assert forall|i: int| 0 <= i < before.len() implies out@[i] == before[i] by {}
                    assert forall|j: int|
                        0 <= j < k + 1 && entry_at(self@, #[trigger] ids@[j]@).duplicates.len()
                            > 0 implies exists|i: int|
                        0 <= i < out.len() && (#[trigger] out@[i]).0@ == ids@[j]@ by {
                        if j < k {
                            let i0 = choose|i: int|
                                0 <= i < before.len() && (#[trigger] before[i]).0@ == ids@[j]@;
                            assert(out@[i0].0@ == ids@[j]@);
                        } else {
                            assert(out@[before.len() as int].0@ == ids@[j]@);
                        }
                    }
                }
            }
            k += 1;
        }
        proof {
            assert forall|id: Seq<char>| entry_at(self@, id).duplicates.len() > 0 implies exists|
                i: int,
            |
                0 <= i < out.len() && (#[trigger] out@[i]).0@ == id by {
                assert(self@.contains_key(id));
                assert(strings_view(ids@).contains(id));
                let j = choose|j: int|
                    0 <= j < strings_view(ids@).len() && strings_view(ids@)[j] == id;
                assert(ids@[j]@ == id);
            }
        }
        out
    }
}

// ---------------------------------------------------------------------------
// The store
// ---------------------------------------------------------------------------

/// The five indices, one for each kind of symbol.
pub struct SymbolStore {
    pub rooms: SymbolIndex,
    pub items: SymbolIndex,
    pub npcs: SymbolIndex,
    pub flags: SymbolIndex,
    pub sets: SymbolIndex,
}

/// What a [`SymbolStore`] holds.
pub struct StoreView {
    pub rooms: IndexView,
    pub items: IndexView,
    pub npcs: IndexView,
    pub flags: IndexView,
    pub sets: IndexView,
}

impl StoreView {
    /// The index of `kind`.
    pub open spec fn of(self, kind: SymbolKind) -> IndexView {
        match kind {
            SymbolKind::Room => self.rooms,
            SymbolKind::Item => self.items,
            SymbolKind::Npc => self.npcs,
            SymbolKind::Flag => self.flags,
            SymbolKind::RoomSet => self.sets,
        }
    }

    /// The store without what the document `uri` gave to it.
    pub open spec fn cleared(self, uri: Seq<char>) -> StoreView {
        StoreView {
            rooms: cleared_index(self.rooms, uri),
            items: cleared_index(self.items, uri),
            npcs: cleared_index(self.npcs, uri),
            flags: cleared_index(self.flags, uri),
            sets: cleared_index(self.sets, uri),
        }
    }

    /// Whether each of the five indices is well formed.
    pub open spec fn wf(self) -> bool {
        &&& index_wf(self.rooms)
        &&& index_wf(self.items)
        &&& index_wf(self.npcs)
        &&& index_wf(self.flags)
        &&& index_wf(self.sets)
    }

    /// The store with `index` in the place of the index of `kind`.
    pub open spec fn with(self, kind: SymbolKind, index: IndexView) -> StoreView {
        match kind {
            SymbolKind::Room => StoreView { rooms: index, ..self },
            SymbolKind::Item => StoreView { items: index, ..self },
            SymbolKind::Npc => StoreView { npcs: index, ..self },
            SymbolKind::Flag => StoreView { flags: index, ..self },
            SymbolKind::RoomSet => StoreView { sets: index, ..self },
        }
    }
}

impl View for SymbolStore {
    type V = StoreView;

    open spec fn view(&self) -> StoreView {
        StoreView {
            rooms: self.rooms@,
            items: self.items@,
            npcs: self.npcs@,
            flags: self.flags@,
            sets: self.sets@,
        }
    }
}

impl Default for SymbolStore {
    fn default() -> (r: SymbolStore)
        ensures
            r@.wf(),
            forall|kind: SymbolKind| (#[trigger] r@.of(kind)) == Map::<Seq<char>, EntryView>::empty(),
    {
        SymbolStore::new()
    }
}

impl SymbolStore {
    /// A store that knows nothing.
    pub fn new() -> (r: SymbolStore)
        ensures
            r@.wf(),
            forall|kind: SymbolKind| (#[trigger] r@.of(kind)) == Map::<Seq<char>, EntryView>::empty(),
    {
        SymbolStore {
            rooms: SymbolIndex::new(),
            items: SymbolIndex::new(),
            npcs: SymbolIndex::new(),
            flags: SymbolIndex::new(),
            sets: SymbolIndex::new(),
        }
    }

    /// The index of `kind`.
    pub fn index(&self, kind: SymbolKind) -> (r: &SymbolIndex)
        ensures
            r@ == self@.of(kind),
    {
        match kind {
            SymbolKind::Room => &self.rooms,
            SymbolKind::Item => &self.items,
            SymbolKind::Npc => &self.npcs,
            SymbolKind::Flag => &self.flags,
            SymbolKind::RoomSet => &self.sets,
        }
    }

    /// Removes what the document `uri` gave to the five indices.
    pub fn clear_document(&mut self, uri: &str)
        ensures
            final(self)@ == old(self)@.cleared(uri@),
            old(self)@.wf() ==> final(self)@.wf(),
    {
        self.rooms.clear_document(uri);
        self.items.clear_document(uri);
        self.npcs.clear_document(uri);
        self.flags.clear_document(uri);
        self.sets.clear_document(uri);
    }
}

} // verus!
