//! The diagnostics of a document: what the symbol store and the
//! declarations of the player's start say is wrong with it.
//!
//! The maps of the store are walked in an order that they do not state.
//! Every function here that walks one takes the order as an argument, and
//! says exactly what it returns for that order.

use crate::backend::DocumentsView;
use crate::chars::{
    decimal, extend_chars, extend_str, from_chars, is_blank, join, join_chars, lists_view,
    push_decimal, str_eq, strings_view, to_chars, trim,
};
use crate::index::{entry_at, EntryView, IndexView, StoreView, SymbolIndex, SymbolStore};
use crate::schedule::{player_starts_view, PlayerStart, PlayerStartView};
use crate::spans::{flag_sequence_index, sequence_index};
use crate::symbols::{
    definitions_view, label_text, opt_text, references_view, DefinitionView, MetadataView,
    ReferenceView, SymbolDefinition, SymbolKind, SymbolMetadata, SymbolReference,
};
use crate::text::{Position, Range};
use vstd::prelude::*;

verus! {

/// How grave a diagnostic is.
#[derive(Debug, Clone, Copy, PartialEq, Eq, Structural)]
pub enum DiagnosticSeverity {
    Error,
    Warning,
    Hint,
}

/// Something to tell the author about a place in a document.
#[derive(Debug)]
pub struct Diagnostic {
    pub range: Range,
    pub severity: DiagnosticSeverity,
    /// Who says so.
    pub source: String,
    pub message: String,
    /// Whether the diagnostic marks something that is not needed.
    pub unnecessary: bool,
}

/// What a [`Diagnostic`] holds.
pub struct DiagnosticView {
    pub range: Range,
    pub severity: DiagnosticSeverity,
    pub source: Seq<char>,
    pub message: Seq<char>,
    pub unnecessary: bool,
}

impl View for Diagnostic {
    type V = DiagnosticView;

    open spec fn view(&self) -> DiagnosticView {
        DiagnosticView {
            range: self.range,
            severity: self.severity,
            source: self.source@,
            message: self.message@,
            unnecessary: self.unnecessary,
        }
    }
}

/// What the diagnostics of a list hold.
pub open spec fn diagnostics_view(list: Seq<Diagnostic>) -> Seq<DiagnosticView> {
    Seq::new(list.len(), |i: int| list[i]@)
}

/// The name under which the diagnostics are published.
pub open spec fn source_name() -> Seq<char> {
    "amble-lsp"@
}

/// The diagnostic of severity `severity` at `range` that says `message`.
pub open spec fn diagnostic(
    range: Range,
    severity: DiagnosticSeverity,
    message: Seq<char>,
    unnecessary: bool,
) -> DiagnosticView {
    DiagnosticView { range, severity, source: source_name(), message, unnecessary }
}

fn make_diagnostic(
    range: Range,
    severity: DiagnosticSeverity,
    message: &Vec<char>,
    unnecessary: bool,
) -> (r: Diagnostic)
    ensures
        r@ == diagnostic(range, severity, message@, unnecessary),
{
    Diagnostic {
        range,
        severity,
        source: from_chars(&to_chars("amble-lsp")),
        message: from_chars(message),
        unnecessary,
    }
}

fn append_diagnostics(out: &mut Vec<Diagnostic>, part: Vec<Diagnostic>)
    ensures
        diagnostics_view(final(out)@) == diagnostics_view(old(out)@) + diagnostics_view(part@),
{
    let mut part = part;
    let ghost a = out@;
    let ghost b = part@;
    out.append(&mut part);
    proof {
        assert(out@ == a + b);
        assert(diagnostics_view(out@) =~= diagnostics_view(a) + diagnostics_view(b));
    }
}

// ---------------------------------------------------------------------------
// References to what is not defined
// ---------------------------------------------------------------------------

/// The word by which the message about an undefined symbol calls its kind.
pub open spec fn undefined_word(kind: SymbolKind) -> Seq<char> {
    match kind {
        SymbolKind::Room => "room"@,
        SymbolKind::Item => "item"@,
        SymbolKind::Npc => "NPC"@,
        SymbolKind::Flag => "flag"@,
        SymbolKind::RoomSet => "set"@,
    }
}

/// What is said of a reference spelled `raw` to a symbol of kind `kind`
/// that is not defined.
pub open spec fn undefined_message(kind: SymbolKind, raw: Seq<char>) -> Seq<char> {
    "Undefined "@ + undefined_word(kind) + ": '"@ + raw + "'"@
}

/// Whether a reference of kind `kind` to `id` finds a definition: one of
/// its own kind, or, for a room, a set of that name.
pub open spec fn is_defined(store: StoreView, kind: SymbolKind, id: Seq<char>) -> bool {
    entry_at(store.of(kind), id).definition is Some || (kind == SymbolKind::Room && entry_at(
        store.sets,
        id,
    ).definition is Some)
}

/// An error for each reference of `list` that lies in the document `uri`.
pub open spec fn undefined_among(kind: SymbolKind, list: Seq<ReferenceView>, uri: Seq<char>)
    -> Seq<DiagnosticView>
    decreases list.len(),
{
    if list.len() == 0 {
        Seq::empty()
    } else {
        let before = undefined_among(kind, list.drop_last(), uri);
        let reference = list.last();
        if reference.location.uri == uri {
            before.push(
                diagnostic(
                    reference.location.range,
                    DiagnosticSeverity::Error,
                    undefined_message(kind, reference.raw_id),
                    false,
                ),
            )
        } else {
            before
        }
    }
}

/// The errors for the references to `id` in the document `uri`: one for
/// each, where `id` is not defined.
pub open spec fn undefined_for_id(store: StoreView, kind: SymbolKind, id: Seq<char>, uri: Seq<char>)
    -> Seq<DiagnosticView> {
    if is_defined(store, kind, id) {
        Seq::empty()
    } else {
        undefined_among(kind, entry_at(store.of(kind), id).references, uri)
    }
}

/// The errors for undefined references of kind `kind`, identifier by
/// identifier in the order `ids`.
pub open spec fn undefined_in_order(
    store: StoreView,
    kind: SymbolKind,
    ids: Seq<Seq<char>>,
    uri: Seq<char>,
) -> Seq<DiagnosticView>
    decreases ids.len(),
{
    if ids.len() == 0 {
        Seq::empty()
    } else {
        undefined_in_order(store, kind, ids.drop_last(), uri) + undefined_for_id(
            store,
            kind,
            ids.last(),
            uri,
        )
    }
}

/// A room reference whose identifier names a declared set is no undefined
/// reference, whether or not a room of that name exists.
pub proof fn lemma_set_satisfies_room_reference(store: StoreView, id: Seq<char>, uri: Seq<char>)
    requires
        entry_at(store.sets, id).definition is Some,
    ensures
        undefined_for_id(store, SymbolKind::Room, id, uri) == Seq::<DiagnosticView>::empty(),
{
}

/// A reference to an identifier that nothing defines is an error: where
/// `reference` is the one reference to `id` and lies in the document `uri`,
/// the document has exactly one error for `id`, at the place of the
/// reference and with its spelling.
pub proof fn lemma_undefined_reference_is_one_error(
    store: StoreView,
    kind: SymbolKind,
    id: Seq<char>,
    uri: Seq<char>,
    reference: ReferenceView,
)
    requires
        !is_defined(store, kind, id),
        entry_at(store.of(kind), id).references == seq![reference],
        reference.location.uri == uri,
    ensures
        undefined_for_id(store, kind, id, uri) == seq![
            diagnostic(
                reference.location.range,
                DiagnosticSeverity::Error,
                undefined_message(kind, reference.raw_id),
                false,
            ),
        ],
{
    let list = seq![reference];
    assert(list.drop_last() =~= Seq::<ReferenceView>::empty());
    assert(undefined_among(kind, list.drop_last(), uri) =~= Seq::<DiagnosticView>::empty());
    assert(undefined_among(kind, list, uri) =~= seq![
        diagnostic(
            reference.location.range,
            DiagnosticSeverity::Error,
            undefined_message(kind, reference.raw_id),
            false,
        ),
    ]);
}

/// Every reference to an identifier that nothing defines is reported in
/// its document: the errors for `id` in the document `uri` hold one at the
/// place of each reference to `id` that lies there.
pub proof fn lemma_undefined_references_are_reported(
    store: StoreView,
    kind: SymbolKind,
    id: Seq<char>,
    uri: Seq<char>,
    k: int,
)
    requires
        !is_defined(store, kind, id),
        0 <= k < entry_at(store.of(kind), id).references.len(),
        entry_at(store.of(kind), id).references[k].location.uri == uri,
    ensures
        undefined_for_id(store, kind, id, uri).contains(
            diagnostic(
                entry_at(store.of(kind), id).references[k].location.range,
                DiagnosticSeverity::Error,
                undefined_message(kind, entry_at(store.of(kind), id).references[k].raw_id),
                false,
            ),
        ),
{
    lemma_undefined_among_holds(kind, entry_at(store.of(kind), id).references, uri, k);
}

proof fn lemma_undefined_among_holds(
    kind: SymbolKind,
    list: Seq<ReferenceView>,
    uri: Seq<char>,
    k: int,
)
    requires
        0 <= k < list.len(),
        list[k].location.uri == uri,
    ensures
        undefined_among(kind, list, uri).contains(
            diagnostic(
                list[k].location.range,
                DiagnosticSeverity::Error,
                undefined_message(kind, list[k].raw_id),
                false,
            ),
        ),
    decreases list.len(),
{
    let wanted = diagnostic(
        list[k].location.range,
        DiagnosticSeverity::Error,
        undefined_message(kind, list[k].raw_id),
        false,
    );
    let before = undefined_among(kind, list.drop_last(), uri);
    if k == list.len() - 1 {
        assert(before.push(wanted)[before.len() as int] == wanted);
    } else {
        lemma_undefined_among_holds(kind, list.drop_last(), uri, k);
        let at = choose|i: int| 0 <= i < before.len() && before[i] == wanted;
        if list.last().location.uri == uri {
            assert(undefined_among(kind, list, uri)[at] == wanted);
        }
    }
}

fn undefined_word_of(kind: SymbolKind) -> (r: &'static str)
    ensures
        r@ == undefined_word(kind),
{
    match kind {
        SymbolKind::Room => "room",
        SymbolKind::Item => "item",
        SymbolKind::Npc => "NPC",
        SymbolKind::Flag => "flag",
        SymbolKind::RoomSet => "set",
    }
}

fn undefined_reference_diagnostics(kind: SymbolKind, list: &Vec<SymbolReference>, uri: &str) -> (r:
    Vec<Diagnostic>)
    ensures
        diagnostics_view(r@) == undefined_among(kind, references_view(list@), uri@),
{
    let mut out: Vec<Diagnostic> = Vec::new();
    let ghost all = references_view(list@);
    let mut k: usize = 0;
    proof {
        assert(all.take(0) =~= Seq::<ReferenceView>::empty());
        assert(diagnostics_view(out@) =~= Seq::<DiagnosticView>::empty());
    }
    while k < list.len()
        invariant
            k <= list.len(),
            all == references_view(list@),
            diagnostics_view(out@) == undefined_among(kind, all.take(k as int), uri@),
        decreases list.len() - k,
    {
        let reference = &list[k];
        let ghost before = diagnostics_view(out@);
        proof {
            assert(all.take(k + 1).drop_last() =~= all.take(k as int));
            assert(all.take(k + 1).last() == reference@);
        }
        if str_eq(reference.location.uri.as_str(), uri) {
            let mut message: Vec<char> = Vec::new();
            extend_str(&mut message, "Undefined ");
            extend_str(&mut message, undefined_word_of(kind));
            extend_str(&mut message, ": '");
            extend_str(&mut message, reference.raw_id.as_str());
            extend_str(&mut message, "'");
            proof {
                assert(message@ =~= undefined_message(kind, reference@.raw_id));
            }
            out.push(
                make_diagnostic(reference.location.range, DiagnosticSeverity::Error, &message, false),
            );
            proof {
                assert(diagnostics_view(out@) =~= before.push(
                    diagnostic(
                        reference@.location.range,
                        DiagnosticSeverity::Error,
                        undefined_message(kind, reference@.raw_id),
                        false,
                    ),
                ));
            }
        }
        k += 1;
    }
    proof {
        assert(all.take(list.len() as int) =~= all);
    }
    out
}

/// Adds to `out` the errors for undefined references of kind `kind` in the
/// document `uri`, walking the identifiers in the order `ids`.
pub fn append_undefined_reference_diagnostics(
    out: &mut Vec<Diagnostic>,
    store: &SymbolStore,
    kind: SymbolKind,
    ids: &Vec<String>,
    uri: &str,
)
    ensures
        diagnostics_view(final(out)@) == diagnostics_view(old(out)@) + undefined_in_order(
            store@,
            kind,
            strings_view(ids@),
            uri@,
        ),
{
    let ghost start = diagnostics_view(out@);
    let ghost order = strings_view(ids@);
    let mut k: usize = 0;
    proof {
        assert(order.take(0) =~= Seq::<Seq<char>>::empty());
        assert(diagnostics_view(out@) =~= start + Seq::<DiagnosticView>::empty());
    }
    while k < ids.len()
        invariant
            k <= ids.len(),
            order == strings_view(ids@),
            diagnostics_view(out@) == start + undefined_in_order(
                store@,
                kind,
                order.take(k as int),
                uri@,
            ),
        decreases ids.len() - k,
    {
        let id = ids[k].as_str();
        proof {
            assert(order.take(k + 1).drop_last() =~= order.take(k as int));
            assert(order.take(k + 1).last() == id@);
        }
        let defined = store.index(kind).has_definition(id) || (match kind {
            SymbolKind::Room => store.sets.has_definition(id),
            _ => false,
        });
        let part = if defined {
            Vec::new()
        } else {
            let entry = store.index(kind).entry(id);
            undefined_reference_diagnostics(kind, &entry.references, uri)
        };
        proof {
            assert(diagnostics_view(part@) =~= undefined_for_id(store@, kind, id@, uri@));
        }
        let ghost before = diagnostics_view(out@);
        append_diagnostics(out, part);
        proof {
            assert(diagnostics_view(out@) =~= start + (undefined_in_order(
                store@,
                kind,
                order.take(k as int),
                uri@,
            ) + undefined_for_id(store@, kind, id@, uri@)));
        }
        k += 1;
    }
    proof {
        assert(order.take(ids.len() as int) =~= order);
    }
}

// ---------------------------------------------------------------------------
// Identifiers defined more than once
// ---------------------------------------------------------------------------

/// What is said of a definition of `id` where `id` is defined more than
/// once.
pub open spec fn duplicate_message(kind: SymbolKind, id: Seq<char>) -> Seq<char> {
    if kind == SymbolKind::Flag {
        "Flag '"@ + id + "' is defined in multiple triggers; ensure these paths stay in sync"@
    } else {
        "Duplicate "@ + label_text(kind) + " definition: '"@ + id + "'"@
    }
}

/// The diagnostic for a definition of `id` at `range` where `id` is
/// defined more than once: an error, but for a flag a hint, since several
/// triggers may well set the same flag.
pub open spec fn duplicate_diagnostic(kind: SymbolKind, id: Seq<char>, range: Range)
    -> DiagnosticView {
    if kind == SymbolKind::Flag {
        diagnostic(range, DiagnosticSeverity::Hint, duplicate_message(kind, id), true)
    } else {
        diagnostic(range, DiagnosticSeverity::Error, duplicate_message(kind, id), false)
    }
}

/// A diagnostic for each definition of `list` that lies in the document
/// `uri`.
pub open spec fn duplicates_among(
    kind: SymbolKind,
    id: Seq<char>,
    list: Seq<DefinitionView>,
    uri: Seq<char>,
) -> Seq<DiagnosticView>
    decreases list.len(),
{
    if list.len() == 0 {
        Seq::empty()
    } else {
        let before = duplicates_among(kind, id, list.drop_last(), uri);
        if list.last().location.uri == uri {
            before.push(duplicate_diagnostic(kind, id, list.last().location.range))
        } else {
            before
        }
    }
}

/// All definitions of an entry: the current one, then the further ones.
pub open spec fn all_definitions(e: EntryView) -> Seq<DefinitionView> {
    match e.definition {
        Some(current) => seq![current] + e.duplicates,
        None => e.duplicates,
    }
}

/// The diagnostics for `id` being defined more than once: one for each of
/// its definitions in the document `uri`, where it has further
/// definitions.
pub open spec fn duplicates_for_id(index: IndexView, kind: SymbolKind, id: Seq<char>, uri: Seq<char>)
    -> Seq<DiagnosticView> {
    let e = entry_at(index, id);
    if e.duplicates.len() == 0 {
        Seq::empty()
    } else {
        duplicates_among(kind, id, all_definitions(e), uri)
    }
}

/// The diagnostics for identifiers of kind `kind` that are defined more
/// than once, identifier by identifier in the order `ids`.
pub open spec fn duplicates_in_order(
    index: IndexView,
    kind: SymbolKind,
    ids: Seq<Seq<char>>,
    uri: Seq<char>,
) -> Seq<DiagnosticView>
    decreases ids.len(),
{
    if ids.len() == 0 {
        Seq::empty()
    } else {
        duplicates_in_order(index, kind, ids.drop_last(), uri) + duplicates_for_id(
            index,
            kind,
            ids.last(),
            uri,
        )
    }
}

fn duplicate_definition_diagnostics(
    kind: SymbolKind,
    id: &str,
    list: &Vec<SymbolDefinition>,
    uri: &str,
) -> (r: Vec<Diagnostic>)
    ensures
        diagnostics_view(r@) == duplicates_among(kind, id@, definitions_view(list@), uri@),
{
    let mut out: Vec<Diagnostic> = Vec::new();
    let ghost all = definitions_view(list@);
    let mut k: usize = 0;
    proof {
        assert(all.take(0) =~= Seq::<DefinitionView>::empty());
        assert(diagnostics_view(out@) =~= Seq::<DiagnosticView>::empty());
    }
    while k < list.len()
        invariant
            k <= list.len(),
            all == definitions_view(list@),
            diagnostics_view(out@) == duplicates_among(kind, id@, all.take(k as int), uri@),
        decreases list.len() - k,
    {
        let definition = &list[k];
        let ghost before = diagnostics_view(out@);
        proof {
            assert(all.take(k + 1).drop_last() =~= all.take(k as int));
            assert(all.take(k + 1).last() == definition@);
        }
        if str_eq(definition.location.uri.as_str(), uri) {
            let mut message: Vec<char> = Vec::new();
            let made = match kind {
                SymbolKind::Flag => {
                    extend_str(&mut message, "Flag '");
                    extend_str(&mut message, id);
                    extend_str(
                        &mut message,
                        "' is defined in multiple triggers; ensure these paths stay in sync",
                    );
                    proof {
                        assert(message@ =~= duplicate_message(kind, id@));
                    }
                    make_diagnostic(
                        definition.location.range,
                        DiagnosticSeverity::Hint,
                        &message,
                        true,
                    )
                },
                _ => {
                    extend_str(&mut message, "Duplicate ");
                    extend_str(&mut message, kind.label());
                    extend_str(&mut message, " definition: '");
                    extend_str(&mut message, id);
                    extend_str(&mut message, "'");
                    proof {
                        assert(message@ =~= duplicate_message(kind, id@));
                    }
                    make_diagnostic(
                        definition.location.range,
                        DiagnosticSeverity::Error,
                        &message,
                        false,
                    )
                },
            };
            out.push(made);
            proof {
                assert(diagnostics_view(out@) =~= before.push(
                    duplicate_diagnostic(kind, id@, definition@.location.range),
                ));
            }
        }
        k += 1;
    }
    proof {
        assert(all.take(list.len() as int) =~= all);
    }
    out
}

/// Adds to `out` the diagnostics for identifiers of `index` that are
/// defined more than once, walking the identifiers in the order `ids`.
pub fn append_duplicate_diagnostics_for_index(
    out: &mut Vec<Diagnostic>,
    uri: &str,
    kind: SymbolKind,
    index: &SymbolIndex,
    ids: &Vec<String>,
)
    ensures
        diagnostics_view(final(out)@) == diagnostics_view(old(out)@) + duplicates_in_order(
            index@,
            kind,
            strings_view(ids@),
            uri@,
        ),
{
    let ghost start = diagnostics_view(out@);
    let ghost order = strings_view(ids@);
    let mut k: usize = 0;
    proof {
        assert(order.take(0) =~= Seq::<Seq<char>>::empty());
        assert(diagnostics_view(out@) =~= start + Seq::<DiagnosticView>::empty());
    }
    while k < ids.len()
        invariant
            k <= ids.len(),
            order == strings_view(ids@),
            diagnostics_view(out@) == start + duplicates_in_order(
                index@,
                kind,
                order.take(k as int),
                uri@,
            ),
        decreases ids.len() - k,
    {
        let id = ids[k].as_str();
        proof {
            assert(order.take(k + 1).drop_last() =~= order.take(k as int));
            assert(order.take(k + 1).last() == id@);
        }
        let entry = index.entry(id);
        let part = if entry.duplicates.len() == 0 {
            Vec::new()
        } else {
            let mut definitions: Vec<SymbolDefinition> = Vec::new();
            match &entry.definition {
                Some(current) => {
                    definitions.push(current.clone());
                },
                None => {},
            }
            let mut j: usize = 0;
            let ghost head = definitions_view(definitions@);
            proof {
                assert(entry@.duplicates.take(0) =~= Seq::<DefinitionView>::empty());
                assert(definitions_view(definitions@) =~= head + entry@.duplicates.take(0));
            }
            while j < entry.duplicates.len()
                invariant
                    j <= entry.duplicates.len(),
                    definitions_view(definitions@) == head + entry@.duplicates.take(j as int),
                decreases entry.duplicates.len() - j,
            {
                let ghost so_far = definitions_view(definitions@);
                definitions.push(entry.duplicates[j].clone());
                proof {
                    assert(definitions_view(definitions@) =~= so_far.push(
                        entry.duplicates@[j as int]@,
                    ));
                    assert(entry@.duplicates.take(j + 1) =~= entry@.duplicates.take(j as int).push(
                        entry.duplicates@[j as int]@,
                    ));
                }
                j += 1;
            }
            proof {
                assert(entry@.duplicates.take(entry.duplicates.len() as int) =~= entry@.duplicates);
                assert(definitions_view(definitions@) =~= all_definitions(entry@));
            }
            duplicate_definition_diagnostics(kind, id, &definitions, uri)
        };
        proof {
            assert(diagnostics_view(part@) =~= duplicates_for_id(index@, kind, id@, uri@));
        }
        append_diagnostics(out, part);
        proof {
            assert(diagnostics_view(out@) =~= start + (duplicates_in_order(
                index@,
                kind,
                order.take(k as int),
                uri@,
            ) + duplicates_for_id(index@, kind, id@, uri@)));
        }
        k += 1;
    }
    proof {
        assert(order.take(ids.len() as int) =~= order);
    }
}

// ---------------------------------------------------------------------------
// Definitions that nothing refers to
// ---------------------------------------------------------------------------

/// What is said of a definition of `id` to which nothing refers.
pub open spec fn unused_message(kind: SymbolKind, id: Seq<char>) -> Seq<char> {
    label_text(kind) + " '"@ + id + "' is never referenced"@
}

/// The hint for the definition of `id`, where it lies in the document
/// `uri` and nothing in the workspace refers to `id`.
pub open spec fn unused_for_id(index: IndexView, kind: SymbolKind, id: Seq<char>, uri: Seq<char>)
    -> Seq<DiagnosticView> {
    let e = entry_at(index, id);
    match e.definition {
        Some(definition) => if definition.location.uri == uri && e.references.len() == 0 {
            seq![
                diagnostic(
                    definition.location.range,
                    DiagnosticSeverity::Hint,
                    unused_message(kind, id),
                    true,
                ),
            ]
        } else {
            Seq::empty()
        },
        None => Seq::empty(),
    }
}

/// The hints for definitions of kind `kind` to which nothing refers,
/// identifier by identifier in the order `ids`.
pub open spec fn unused_in_order(
    index: IndexView,
    kind: SymbolKind,
    ids: Seq<Seq<char>>,
    uri: Seq<char>,
) -> Seq<DiagnosticView>
    decreases ids.len(),
{
    if ids.len() == 0 {
        Seq::empty()
    } else {
        unused_in_order(index, kind, ids.drop_last(), uri) + unused_for_id(
            index,
            kind,
            ids.last(),
            uri,
        )
    }
}

/// Adds to `out` the hints for definitions of `index` in the document
/// `uri` to which nothing refers, walking the identifiers in the order
/// `ids`.
pub fn append_unused_for_index(
    out: &mut Vec<Diagnostic>,
    uri: &str,
    kind: SymbolKind,
    index: &SymbolIndex,
    ids: &Vec<String>,
)
    ensures
        diagnostics_view(final(out)@) == diagnostics_view(old(out)@) + unused_in_order(
            index@,
            kind,
            strings_view(ids@),
            uri@,
        ),
{
    let ghost start = diagnostics_view(out@);
    let ghost order = strings_view(ids@);
    let mut k: usize = 0;
    proof {
        assert(order.take(0) =~= Seq::<Seq<char>>::empty());
        assert(diagnostics_view(out@) =~= start + Seq::<DiagnosticView>::empty());
    }
    while k < ids.len()
        invariant
            k <= ids.len(),
            order == strings_view(ids@),
            diagnostics_view(out@) == start + unused_in_order(
                index@,
                kind,
                order.take(k as int),
                uri@,
            ),
        decreases ids.len() - k,
    {
        let id = ids[k].as_str();
        proof {
            assert(order.take(k + 1).drop_last() =~= order.take(k as int));
            assert(order.take(k + 1).last() == id@);
        }
        let entry = index.entry(id);
        let mut part: Vec<Diagnostic> = Vec::new();
        match &entry.definition {
            Some(definition) => {
                if str_eq(definition.location.uri.as_str(), uri) && entry.references.len() == 0 {
                    let mut message: Vec<char> = Vec::new();
                    extend_str(&mut message, kind.label());
                    extend_str(&mut message, " '");
                    extend_str(&mut message, id);
                    extend_str(&mut message, "' is never referenced");
                    proof {
                        assert(message@ =~= unused_message(kind, id@));
                    }
                    part.push(
                        make_diagnostic(
                            definition.location.range,
                            DiagnosticSeverity::Hint,
                            &message,
                            true,
                        ),
                    );
                }
            },
            None => {},
        }
        proof {
            assert(diagnostics_view(part@) =~= unused_for_id(index@, kind, id@, uri@));
        }
        append_diagnostics(out, part);
        proof {
            assert(diagnostics_view(out@) =~= start + (unused_in_order(
                index@,
                kind,
                order.take(k as int),
                uri@,
            ) + unused_for_id(index@, kind, id@, uri@)));
        }
        k += 1;
    }
    proof {
        assert(order.take(ids.len() as int) =~= order);
    }
}

// ---------------------------------------------------------------------------
// Metadata that is missing
// ---------------------------------------------------------------------------

/// Whether a text is missing: it is not there, or it is blank.
pub open spec fn is_missing(value: Option<Seq<char>>) -> bool {
    match value {
        Some(text) => trim(text).len() == 0,
        None => true,
    }
}

/// Whether a text is missing: it is not there, or it is blank.
pub fn text_missing(value: &Option<String>) -> (r: bool)
    ensures
        r == is_missing(opt_text(*value)),
{
    match value {
        Some(text) => is_blank(&to_chars(text.as_str())),
        None => true,
    }
}

/// What is said of the definition of `id` that lacks `what`.
pub open spec fn missing_message(word: Seq<char>, id: Seq<char>, what: Seq<char>) -> Seq<char> {
    word + " '"@ + id + "' is missing "@ + what
}

/// What the metadata `metadata` of the definition of `id` lacks: for a
/// room a name and a description, for an item a location and a movability
/// setting, for a character a location and a starting state.
pub open spec fn metadata_issues(id: Seq<char>, metadata: MetadataView) -> Seq<Seq<char>> {
    match metadata {
        MetadataView::Room(meta) => (if is_missing(meta.name) {
            seq![missing_message("Room"@, id, "a name"@)]
        } else {
            Seq::empty()
        }) + (if is_missing(meta.description) {
            seq![missing_message("Room"@, id, "a description"@)]
        } else {
            Seq::empty()
        }),
        MetadataView::Item(meta) => (if is_missing(meta.location) {
            seq![missing_message("Item"@, id, "a location"@)]
        } else {
            Seq::empty()
        }) + (if meta.movability is None {
            seq![missing_message("Item"@, id, "a movability setting"@)]
        } else {
            Seq::empty()
        }),
        MetadataView::Npc(meta) => (if is_missing(meta.location) {
            seq![missing_message("NPC"@, id, "a location"@)]
        } else {
            Seq::empty()
        }) + (if is_missing(meta.state) {
            seq![missing_message("NPC"@, id, "a starting state"@)]
        } else {
            Seq::empty()
        }),
        _ => Seq::empty(),
    }
}

fn missing_text(word: &str, id: &str, what: &str) -> (r: String)
    ensures
        r@ == missing_message(word@, id@, what@),
{
    let mut message: Vec<char> = Vec::new();
    extend_str(&mut message, word);
    extend_str(&mut message, " '");
    extend_str(&mut message, id);
    extend_str(&mut message, "' is missing ");
    extend_str(&mut message, what);
    proof {
        assert(message@ =~= missing_message(word@, id@, what@));
    }
    from_chars(&message)
}

/// What the metadata of the definition `def` of `id` lacks, one message
/// for each thing.
pub fn metadata_issues_for_definition(id: &str, def: &SymbolDefinition) -> (r: Vec<String>)
    ensures
        strings_view(r@) == metadata_issues(id@, def@.metadata),
{
    let mut issues: Vec<String> = Vec::new();
    proof {
        assert(strings_view(issues@) =~= Seq::<Seq<char>>::empty());
    }
    match &def.metadata {
        SymbolMetadata::Room(meta) => {
            if text_missing(&meta.name) {
                issues.push(missing_text("Room", id, "a name"));
            }
            if text_missing(&meta.description) {
                issues.push(missing_text("Room", id, "a description"));
            }
            proof {
                assert(strings_view(issues@) =~= metadata_issues(id@, def@.metadata));
            }
        },
        SymbolMetadata::Item(meta) => {
            if text_missing(&meta.location) {
                issues.push(missing_text("Item", id, "a location"));
            }
            if meta.movability.is_none() {
                issues.push(missing_text("Item", id, "a movability setting"));
            }
            proof {
                assert(strings_view(issues@) =~= metadata_issues(id@, def@.metadata));
            }
        },
        SymbolMetadata::Npc(meta) => {
            if text_missing(&meta.location) {
                issues.push(missing_text("NPC", id, "a location"));
            }
            if text_missing(&meta.state) {
                issues.push(missing_text("NPC", id, "a starting state"));
            }
            proof {
                assert(strings_view(issues@) =~= metadata_issues(id@, def@.metadata));
            }
        },
        _ => {},
    }
    issues
}

/// A warning at `range` for each message of `messages`.
pub open spec fn warnings_at(range: Range, messages: Seq<Seq<char>>) -> Seq<DiagnosticView> {
    Seq::new(
        messages.len(),
        |i: int| diagnostic(range, DiagnosticSeverity::Warning, messages[i], false),
    )
}

/// The warnings for what the definition of `id` lacks, where it lies in
/// the document `uri`.
pub open spec fn metadata_for_id(index: IndexView, id: Seq<char>, uri: Seq<char>) -> Seq<
    DiagnosticView,
> {
    match entry_at(index, id).definition {
        Some(definition) => if definition.location.uri == uri {
            warnings_at(definition.location.range, metadata_issues(id, definition.metadata))
        } else {
            Seq::empty()
        },
        None => Seq::empty(),
    }
}

/// The warnings for missing metadata, identifier by identifier in the
/// order `ids`.
pub open spec fn metadata_in_order(index: IndexView, ids: Seq<Seq<char>>, uri: Seq<char>) -> Seq<
    DiagnosticView,
>
    decreases ids.len(),
{
    if ids.len() == 0 {
        Seq::empty()
    } else {
        metadata_in_order(index, ids.drop_last(), uri) + metadata_for_id(index, ids.last(), uri)
    }
}

/// Adds to `out` the warnings for what the definitions of `index` in the
/// document `uri` lack, walking the identifiers in the order `ids`.
pub fn append_metadata_for_index(
    out: &mut Vec<Diagnostic>,
    uri: &str,
    index: &SymbolIndex,
    ids: &Vec<String>,
)
    ensures
        diagnostics_view(final(out)@) == diagnostics_view(old(out)@) + metadata_in_order(
            index@,
            strings_view(ids@),
            uri@,
        ),
{
    let ghost start = diagnostics_view(out@);
    let ghost order = strings_view(ids@);
    let mut k: usize = 0;
    proof {
        assert(order.take(0) =~= Seq::<Seq<char>>::empty());
        assert(diagnostics_view(out@) =~= start + Seq::<DiagnosticView>::empty());
    }
    while k < ids.len()
        invariant
            k <= ids.len(),
            order == strings_view(ids@),
            diagnostics_view(out@) == start + metadata_in_order(index@, order.take(k as int), uri@),
        decreases ids.len() - k,
    {
        let id = ids[k].as_str();
        proof {
            assert(order.take(k + 1).drop_last() =~= order.take(k as int));
            assert(order.take(k + 1).last() == id@);
        }
        let mut part: Vec<Diagnostic> = Vec::new();
        match index.definition(id) {
            Some(definition) => {
                if str_eq(definition.location.uri.as_str(), uri) {
                    let issues = metadata_issues_for_definition(id, &definition);
                    let ghost messages = strings_view(issues@);
                    let mut j: usize = 0;
                    proof {
                        assert(diagnostics_view(part@) =~= warnings_at(
                            definition@.location.range,
                            messages.take(0),
                        ));
                    }
                    while j < issues.len()
                        invariant
                            j <= issues.len(),
                            part@.len() == j,
                            messages == strings_view(issues@),
                            diagnostics_view(part@) == warnings_at(
                                definition@.location.range,
                                messages.take(j as int),
                            ),
                        decreases issues.len() - j,
                    {
                        let ghost so_far = diagnostics_view(part@);
                        part.push(
                            make_diagnostic(
                                definition.location.range,
                                DiagnosticSeverity::Warning,
                                &to_chars(issues[j].as_str()),
                                false,
                            ),
                        );
                        proof {
                            let made = diagnostic(
                                definition@.location.range,
                                DiagnosticSeverity::Warning,
                                issues@[j as int]@,
                                false,
                            );
                            assert(part@[j as int]@ == made);
                            assert(messages[j as int] == issues@[j as int]@);
                            assert(diagnostics_view(part@) =~= so_far.push(made));
                            assert forall|i: int| 0 <= i < j + 1 implies #[trigger] diagnostics_view(
                                part@,
                            )[i] == warnings_at(
                                definition@.location.range,
                                messages.take(j + 1),
                            )[i] by {
                                if i < j {
                                    assert(so_far[i] == warnings_at(
                                        definition@.location.range,
                                        messages.take(j as int),
                                    )[i]);
                                }
                            }
                            assert(diagnostics_view(part@) =~= warnings_at(
                                definition@.location.range,
                                messages.take(j + 1),
                            ));
                        }
                        j += 1;
                    }
                    proof {
                        assert(messages.take(issues.len() as int) =~= messages);
                    }
                }
            },
            None => {},
        }
        proof {
            assert(diagnostics_view(part@) =~= metadata_for_id(index@, id@, uri@));
        }
        append_diagnostics(out, part);
        proof {
            assert(diagnostics_view(out@) =~= start + (metadata_in_order(
                index@,
                order.take(k as int),
                uri@,
            ) + metadata_for_id(index@, id@, uri@)));
        }
        k += 1;
    }
    proof {
        assert(order.take(ids.len() as int) =~= order);
    }
}

// ---------------------------------------------------------------------------
// Where the player starts
// ---------------------------------------------------------------------------

/// The declarations of the player's start of the documents `uris`, in
/// that order.
pub open spec fn starts_in_order(documents: DocumentsView, uris: Seq<Seq<char>>) -> Seq<
    PlayerStartView,
>
    decreases uris.len(),
{
    if uris.len() == 0 {
        Seq::empty()
    } else {
        let before = starts_in_order(documents, uris.drop_last());
        if documents.contains_key(uris.last()) {
            before + documents[uris.last()].player_starts
        } else {
            before
        }
    }
}

/// The rooms that the declarations `starts` name.
pub open spec fn start_rooms(starts: Seq<PlayerStartView>) -> Seq<Seq<char>> {
    Seq::new(starts.len(), |i: int| starts[i].room_id)
}

/// What is said where the player is given more than one start.
pub open spec fn multiple_starts_message(starts: Seq<PlayerStartView>) -> Seq<char> {
    "Multiple player starts defined (rooms: "@ + join(start_rooms(starts), ", "@) + ")"@
}

/// What is said where the player is given no start.
pub open spec fn no_start_message() -> Seq<char> {
    "No player start room defined in this workspace"@
}

/// A warning at each declaration of `list` that lies in the document
/// `uri`.
pub open spec fn start_warnings(list: Seq<PlayerStartView>, uri: Seq<char>, message: Seq<char>)
    -> Seq<DiagnosticView>
    decreases list.len(),
{
    if list.len() == 0 {
        Seq::empty()
    } else {
        let before = start_warnings(list.drop_last(), uri, message);
        if list.last().uri == uri {
            before.push(diagnostic(list.last().range, DiagnosticSeverity::Warning, message, false))
        } else {
            before
        }
    }
}

/// The warnings about the start of the player. Where the workspace
/// declares none, one warning at the very beginning of the document. Where
/// it declares more than one, a warning at each declaration in the document
/// `uri` that names the rooms of all declarations. Otherwise none.
pub open spec fn world_consistency(starts: Seq<PlayerStartView>, uri: Seq<char>) -> Seq<
    DiagnosticView,
> {
    if starts.len() == 0 {
        seq![
            diagnostic(
                Range {
                    start: Position { line: 0, character: 0 },
                    end: Position { line: 0, character: 0 },
                },
                DiagnosticSeverity::Warning,
                no_start_message(),
                false,
            ),
        ]
    } else if starts.len() > 1 {
        start_warnings(starts, uri, multiple_starts_message(starts))
    } else {
        Seq::empty()
    }
}

/// A workspace that declares no start of the player has exactly one
/// warning about it in each document, at the very beginning.
pub proof fn lemma_no_start_warns_at_the_origin(uri: Seq<char>)
    ensures
        world_consistency(Seq::empty(), uri).len() == 1,
        world_consistency(Seq::empty(), uri)[0].severity == DiagnosticSeverity::Warning,
        world_consistency(Seq::empty(), uri)[0].range == (Range {
            start: Position { line: 0, character: 0 },
            end: Position { line: 0, character: 0 },
        }),
        world_consistency(Seq::empty(), uri)[0].message == no_start_message(),
{
}

/// A workspace that declares two starts of the player has a warning at
/// each declaration, and each warning names both rooms: where both
/// declarations lie in the document `uri`, the document has these two
/// warnings, at the places of the declarations.
pub proof fn lemma_two_starts_warn_at_each(
    first: PlayerStartView,
    second: PlayerStartView,
    uri: Seq<char>,
)
    requires
        first.uri == uri,
        second.uri == uri,
    ensures
        ({
            let message = "Multiple player starts defined (rooms: "@ + first.room_id + ", "@
                + second.room_id + ")"@;
            world_consistency(seq![first, second], uri) == seq![
                diagnostic(first.range, DiagnosticSeverity::Warning, message, false),
                diagnostic(second.range, DiagnosticSeverity::Warning, message, false),
            ]
        }),
{
    let starts = seq![first, second];
    let rooms = start_rooms(starts);
    assert(rooms.drop_last() =~= seq![first.room_id]);
    assert(join(rooms.drop_last(), ", "@) == first.room_id);
    assert(join(rooms, ", "@) == first.room_id + ", "@ + second.room_id);
    let message = multiple_starts_message(starts);
    assert(message =~= "Multiple player starts defined (rooms: "@ + first.room_id + ", "@
        + second.room_id + ")"@);
    assert(starts.drop_last() =~= seq![first]);
    assert(starts.drop_last().drop_last() =~= Seq::<PlayerStartView>::empty());
    assert(start_warnings(starts.drop_last().drop_last(), uri, message) =~= Seq::<
        DiagnosticView,
    >::empty());
    assert(start_warnings(starts.drop_last(), uri, message) =~= seq![
        diagnostic(first.range, DiagnosticSeverity::Warning, message, false),
    ]);
    assert(start_warnings(starts, uri, message) =~= seq![
        diagnostic(first.range, DiagnosticSeverity::Warning, message, false),
        diagnostic(second.range, DiagnosticSeverity::Warning, message, false),
    ]);
}

/// The warnings about the start of the player, for the declarations
/// `starts` of the whole workspace.
pub fn world_consistency_diagnostics(starts: &Vec<PlayerStart>, uri: &str) -> (r: Vec<Diagnostic>)
    ensures
        diagnostics_view(r@) == world_consistency(player_starts_view(starts@), uri@),
{
    let mut out: Vec<Diagnostic> = Vec::new();
    let ghost all = player_starts_view(starts@);
    if starts.len() == 0 {
        out.push(
            make_diagnostic(
                Range {
                    start: Position { line: 0, character: 0 },
                    end: Position { line: 0, character: 0 },
                },
                DiagnosticSeverity::Warning,
                &to_chars("No player start room defined in this workspace"),
                false,
            ),
        );
        proof {
            assert(diagnostics_view(out@) =~= world_consistency(all, uri@));
        }
        return out;
    }
    if starts.len() > 1 {
        let mut rooms: Vec<Vec<char>> = Vec::new();
        let mut i: usize = 0;
        while i < starts.len()
            invariant
                i <= starts.len(),
                all == player_starts_view(starts@),
                lists_view(rooms@) == start_rooms(all).take(i as int),
            decreases starts.len() - i,
        {
            let ghost so_far = lists_view(rooms@);
            rooms.push(to_chars(starts[i].room_id.as_str()));
            proof {
                assert(lists_view(rooms@) =~= so_far.push(starts@[i as int]@.room_id));
                assert(start_rooms(all).take(i + 1) =~= start_rooms(all).take(i as int).push(
                    starts@[i as int]@.room_id,
                ));
            }
            i += 1;
        }
        proof {
            assert(start_rooms(all).take(starts.len() as int) =~= start_rooms(all));
        }
        let mut message: Vec<char> = Vec::new();
        extend_str(&mut message, "Multiple player starts defined (rooms: ");
        extend_chars(&mut message, &join_chars(&rooms, &to_chars(", ")));
        extend_str(&mut message, ")");
        proof {
            assert(message@ =~= multiple_starts_message(all));
        }
        let mut k: usize = 0;
        proof {
            assert(all.take(0) =~= Seq::<PlayerStartView>::empty());
            assert(diagnostics_view(out@) =~= Seq::<DiagnosticView>::empty());
        }
        while k < starts.len()
            invariant
                k <= starts.len(),
                all == player_starts_view(starts@),
                diagnostics_view(out@) == start_warnings(all.take(k as int), uri@, message@),
            decreases starts.len() - k,
        {
            let start = &starts[k];
            let ghost before = diagnostics_view(out@);
            proof {
                assert(all.take(k + 1).drop_last() =~= all.take(k as int));
                assert(all.take(k + 1).last() == start@);
            }
            if str_eq(start.uri.as_str(), uri) {
                out.push(make_diagnostic(start.range, DiagnosticSeverity::Warning, &message, false));
                proof {
                    assert(diagnostics_view(out@) =~= before.push(
                        diagnostic(start@.range, DiagnosticSeverity::Warning, message@, false),
                    ));
                }
            }
            k += 1;
        }
        proof {
            assert(all.take(starts.len() as int) =~= all);
        }
        return out;
    }
    proof {
        assert(diagnostics_view(out@) =~= Seq::<DiagnosticView>::empty());
    }
    out
}

// ---------------------------------------------------------------------------
// Steps of flags
// ---------------------------------------------------------------------------

/// What is said of a reference to step `index` of the flag `id` that has
/// `limit` steps.
pub open spec fn beyond_limit_message(id: Seq<char>, limit: i64, index: i64) -> Seq<char> {
    "Flag '"@ + id + "' sequence limit is "@ + decimal(limit as int)
        + " but reference uses index "@ + decimal(index as int)
}

/// What is said of a reference spelled `raw` that names a step of the
/// flag `id`, which has no steps.
pub open spec fn single_flag_message(id: Seq<char>, raw: Seq<char>) -> Seq<char> {
    "Flag '"@ + id + "' is defined as a single flag but referenced as '"@ + raw + "'"@
}

/// The warning for the reference `reference` to the flag `id` with the
/// limit `limit`, if it misuses the sequence: it names a step of a flag
/// that has none, or a step that is not less than the limit.
pub open spec fn sequence_warning(id: Seq<char>, limit: Option<i64>, reference: ReferenceView)
    -> Option<DiagnosticView> {
    match sequence_index(reference.raw_id) {
        Some(index) => match limit {
            Some(limit) => if index >= limit {
                Some(
                    diagnostic(
                        reference.location.range,
                        DiagnosticSeverity::Warning,
                        beyond_limit_message(id, limit, index),
                        false,
                    ),
                )
            } else {
                None
            },
            None => Some(
                diagnostic(
                    reference.location.range,
                    DiagnosticSeverity::Warning,
                    single_flag_message(id, reference.raw_id),
                    false,
                ),
            ),
        },
        None => None,
    }
}

/// The steps of a flag with a limit are counted from zero: a reference
/// that names a step is warned about exactly where the step is not less
/// than the limit, so that the step just below the limit passes and the
/// step that equals the limit does not.
pub proof fn lemma_sequence_limit_is_exclusive(
    id: Seq<char>,
    limit: i64,
    reference: ReferenceView,
    index: i64,
)
    requires
        sequence_index(reference.raw_id) == Some(index),
    ensures
        sequence_warning(id, Some(limit), reference) is Some <==> index >= limit,
        index == limit ==> sequence_warning(id, Some(limit), reference) == Some(
            diagnostic(
                reference.location.range,
                DiagnosticSeverity::Warning,
                beyond_limit_message(id, limit, index),
                false,
            ),
        ),
        index == limit - 1 ==> sequence_warning(id, Some(limit), reference) is None,
{
}

/// The warnings for the references of `list` in the document `uri` that
/// misuse the sequence of the flag `id`.
pub open spec fn sequence_among(
    id: Seq<char>,
    limit: Option<i64>,
    list: Seq<ReferenceView>,
    uri: Seq<char>,
) -> Seq<DiagnosticView>
    decreases list.len(),
{
    if list.len() == 0 {
        Seq::empty()
    } else {
        let before = sequence_among(id, limit, list.drop_last(), uri);
        let reference = list.last();
        if reference.location.uri == uri && sequence_warning(id, limit, reference) is Some {
            before.push(sequence_warning(id, limit, reference)->0)
        } else {
            before
        }
    }
}

/// The warnings for the references to the flag `id`, where it is defined.
pub open spec fn sequence_for_id(flags: IndexView, id: Seq<char>, uri: Seq<char>) -> Seq<
    DiagnosticView,
> {
    let e = entry_at(flags, id);
    match e.definition {
        Some(definition) => match definition.metadata {
            MetadataView::Flag(meta) => sequence_among(id, meta.sequence_limit, e.references, uri),
            _ => Seq::empty(),
        },
        None => Seq::empty(),
    }
}

/// The warnings for references that misuse the sequence of a flag, flag
/// by flag in the order `ids`.
pub open spec fn sequence_in_order(flags: IndexView, ids: Seq<Seq<char>>, uri: Seq<char>) -> Seq<
    DiagnosticView,
>
    decreases ids.len(),
{
    if ids.len() == 0 {
        Seq::empty()
    } else {
        sequence_in_order(flags, ids.drop_last(), uri) + sequence_for_id(flags, ids.last(), uri)
    }
}

fn sequence_reference_diagnostics(
    id: &str,
    limit: Option<i64>,
    list: &Vec<SymbolReference>,
    uri: &str,
) -> (r: Vec<Diagnostic>)
    ensures
        diagnostics_view(r@) == sequence_among(id@, limit, references_view(list@), uri@),
{
    let mut out: Vec<Diagnostic> = Vec::new();
    let ghost all = references_view(list@);
    let mut k: usize = 0;
    proof {
        assert(all.take(0) =~= Seq::<ReferenceView>::empty());
        assert(diagnostics_view(out@) =~= Seq::<DiagnosticView>::empty());
    }
    while k < list.len()
        invariant
            k <= list.len(),
            all == references_view(list@),
            diagnostics_view(out@) == sequence_among(id@, limit, all.take(k as int), uri@),
        decreases list.len() - k,
    {
        let reference = &list[k];
        let ghost before = diagnostics_view(out@);
        proof {
            assert(all.take(k + 1).drop_last() =~= all.take(k as int));
            assert(all.take(k + 1).last() == reference@);
        }
        if str_eq(reference.location.uri.as_str(), uri) {
            match flag_sequence_index(reference.raw_id.as_str()) {
                Some(index) => {
                    match limit {
                        Some(limit_value) => {
                            if index >= limit_value {
                                let mut message: Vec<char> = Vec::new();
                                extend_str(&mut message, "Flag '");
                                extend_str(&mut message, id);
                                extend_str(&mut message, "' sequence limit is ");
                                push_decimal(&mut message, limit_value);
                                extend_str(&mut message, " but reference uses index ");
                                push_decimal(&mut message, index);
                                proof {
                                    assert(message@ =~= beyond_limit_message(
                                        id@,
                                        limit_value,
                                        index,
                                    ));
                                }
                                out.push(
                                    make_diagnostic(
                                        reference.location.range,
                                        DiagnosticSeverity::Warning,
                                        &message,
                                        false,
                                    ),
                                );
                                proof {
                                    assert(diagnostics_view(out@) =~= before.push(
                                        sequence_warning(id@, limit, reference@)->0,
                                    ));
                                }
                            }
                        },
                        None => {
                            let mut message: Vec<char> = Vec::new();
                            extend_str(&mut message, "Flag '");
                            extend_str(&mut message, id);
                            extend_str(
                                &mut message,
                                "' is defined as a single flag but referenced as '",
                            );
                            extend_str(&mut message, reference.raw_id.as_str());
                            extend_str(&mut message, "'");
                            proof {
                                assert(message@ =~= single_flag_message(id@, reference@.raw_id));
                            }
                            out.push(
                                make_diagnostic(
                                    reference.location.range,
                                    DiagnosticSeverity::Warning,
                                    &message,
                                    false,
                                ),
                            );
                            proof {
                                assert(diagnostics_view(out@) =~= before.push(
                                    sequence_warning(id@, limit, reference@)->0,
                                ));
                            }
                        },
                    }
                },
                None => {},
            }
        }
        k += 1;
    }
    proof {
        assert(all.take(list.len() as int) =~= all);
    }
    out
}

/// Adds to `out` the warnings for references in the document `uri` that
/// misuse the sequence of a flag, walking the flags in the order `ids`.
pub fn append_flag_sequence_diagnostics(
    out: &mut Vec<Diagnostic>,
    uri: &str,
    flags: &SymbolIndex,
    ids: &Vec<String>,
)
    ensures
        diagnostics_view(final(out)@) == diagnostics_view(old(out)@) + sequence_in_order(
            flags@,
            strings_view(ids@),
            uri@,
        ),
{
    let ghost start = diagnostics_view(out@);
    let ghost order = strings_view(ids@);
    let mut k: usize = 0;
    proof {
        assert(order.take(0) =~= Seq::<Seq<char>>::empty());
        assert(diagnostics_view(out@) =~= start + Seq::<DiagnosticView>::empty());
    }
    while k < ids.len()
        invariant
            k <= ids.len(),
            order == strings_view(ids@),
            diagnostics_view(out@) == start + sequence_in_order(flags@, order.take(k as int), uri@),
        decreases ids.len() - k,
    {
        let id = ids[k].as_str();
        proof {
            assert(order.take(k + 1).drop_last() =~= order.take(k as int));
            assert(order.take(k + 1).last() == id@);
        }
        let entry = flags.entry(id);
        let part = match &entry.definition {
            Some(definition) => match &definition.metadata {
                SymbolMetadata::Flag(meta) => sequence_reference_diagnostics(
                    id,
                    meta.sequence_limit,
                    &entry.references,
                    uri,
                ),
                _ => Vec::new(),
            },
            None => Vec::new(),
        };
        proof {
            assert(diagnostics_view(part@) =~= sequence_for_id(flags@, id@, uri@));
        }
        append_diagnostics(out, part);
        proof {
            assert(diagnostics_view(out@) =~= start + (sequence_in_order(
                flags@,
                order.take(k as int),
                uri@,
            ) + sequence_for_id(flags@, id@, uri@)));
        }
        k += 1;
    }
    proof {
        assert(order.take(ids.len() as int) =~= order);
    }
}

} // verus!
