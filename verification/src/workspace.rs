//! What the engine answers to the editor besides diagnostics: the edits
//! of a rename, the symbols of a document and of the workspace, the
//! entries of a completion, and the path under which a file is shown.

use crate::backend::Backend;
use crate::chars::{
    chars_contain, contains_seq, extend_chars, from_chars, join, join_chars, lists_view, str_eq,
    strings_view, to_chars,
};
use crate::hover::{format_hover, hover_text, opt_str, truncated};
use crate::index::{entry_at, enumerates, EntryView, IndexView, SymbolIndex};
use crate::spans::{contains_position, range_contains};
use crate::symbols::{
    clone_opt_string, opt_text, DefinitionView, LocationView, MetadataView, ReferenceView,
    SymbolDefinition, SymbolKind, SymbolLocation, SymbolMetadata,
};
use crate::text::{Position, Range};
use vstd::prelude::*;

verus! {

/// The number of characters of a detail that a completion shows.
pub const COMPLETION_DETAIL_MAX_CHARS: usize = 80;

// ---------------------------------------------------------------------------
// Details
// ---------------------------------------------------------------------------

/// The text `first` where it is there, else `second`.
pub open spec fn or_text(first: Option<Seq<char>>, second: Option<Seq<char>>) -> Option<
    Seq<char>,
> {
    match first {
        Some(_) => first,
        None => second,
    }
}

/// The short text that says what a definition is about: for a room its
/// name or else its description, for an item or a character the name, the
/// location or the description, for a flag the trigger that defines it,
/// for a set its rooms.
pub open spec fn detail_of(metadata: MetadataView) -> Option<Seq<char>> {
    match metadata {
        MetadataView::Room(meta) => or_text(meta.name, meta.description),
        MetadataView::Item(meta) => or_text(meta.name, or_text(meta.location, meta.description)),
        MetadataView::Npc(meta) => or_text(meta.name, or_text(meta.location, meta.description)),
        MetadataView::Flag(meta) => meta.defined_in,
        MetadataView::RoomSet(meta) => if meta.rooms.len() == 0 {
            Some("No rooms assigned"@)
        } else {
            Some("Rooms: "@ + join(meta.rooms, ", "@))
        },
    }
}

fn first_of_two(a: &Option<String>, b: &Option<String>) -> (r: Option<String>)
    ensures
        opt_text(r) == or_text(opt_text(*a), opt_text(*b)),
{
    match a {
        Some(_) => clone_opt_string(a),
        None => clone_opt_string(b),
    }
}

fn first_of_three(a: &Option<String>, b: &Option<String>, c: &Option<String>) -> (r: Option<
    String,
>)
    ensures
        opt_text(r) == or_text(opt_text(*a), or_text(opt_text(*b), opt_text(*c))),
{
    match a {
        Some(_) => clone_opt_string(a),
        None => match b {
            Some(_) => clone_opt_string(b),
            None => clone_opt_string(c),
        },
    }
}

/// The short text that says what the definition is about.
pub fn definition_detail(definition: &SymbolDefinition) -> (r: Option<String>)
    ensures
        opt_text(r) == detail_of(definition@.metadata),
{
    match &definition.metadata {
        SymbolMetadata::Room(meta) => first_of_two(&meta.name, &meta.description),
        SymbolMetadata::Item(meta) => first_of_three(&meta.name, &meta.location, &meta.description),
        SymbolMetadata::Npc(meta) => first_of_three(&meta.name, &meta.location, &meta.description),
        SymbolMetadata::Flag(meta) => clone_opt_string(&meta.defined_in),
        SymbolMetadata::RoomSet(meta) => {
            if meta.rooms.len() == 0 {
                Some(from_chars(&to_chars("No rooms assigned")))
            } else {
                let mut parts: Vec<Vec<char>> = Vec::new();
                let ghost all = strings_view(meta.rooms@);
                let mut k: usize = 0;
                proof {
                    assert(lists_view(parts@) =~= all.take(0));
                }
                while k < meta.rooms.len()
                    invariant
                        k <= meta.rooms.len(),
                        all == strings_view(meta.rooms@),
                        lists_view(parts@) == all.take(k as int),
                    decreases meta.rooms.len() - k,
                {
                    let ghost so_far = lists_view(parts@);
                    parts.push(to_chars(meta.rooms[k].as_str()));
                    proof {
                        assert(lists_view(parts@) =~= so_far.push(meta.rooms@[k as int]@));
                        assert(all.take(k + 1) =~= all.take(k as int).push(meta.rooms@[k as int]@));
                    }
                    k += 1;
                }
                proof {
                    assert(all.take(meta.rooms.len() as int) =~= all);
                }
                let mut out = to_chars("Rooms: ");
                extend_chars(&mut out, &join_chars(&parts, &to_chars(", ")));
                Some(from_chars(&out))
            }
        },
    }
}

/// A detail cut to eighty characters, with three dots where something was
/// cut off.
pub fn truncate_completion_detail(detail: Option<String>) -> (r: Option<String>)
    ensures
        opt_text(r) == match opt_text(detail) {
            Some(text) => Some(truncated(text, COMPLETION_DETAIL_MAX_CHARS as nat)),
            None => None,
        },
{
    match detail {
        Some(value) => Some(crate::hover::truncate_string(value, COMPLETION_DETAIL_MAX_CHARS)),
        None => None,
    }
}

// ---------------------------------------------------------------------------
// Searching the workspace
// ---------------------------------------------------------------------------

/// `text` in small letters, as the Unicode standard maps them.
pub uninterp spec fn lowercase_of(text: Seq<char>) -> Seq<char>;

/// `text` in small letters.
///
/// Trusted: wraps `str::to_lowercase`, which returns the lowercase
/// equivalent of the string as the Unicode standard defines it. The result
/// depends on the text alone.
#[verifier::external_body]
fn lowercase(text: &str) -> (r: String)
    ensures
        r@ == lowercase_of(text@),
{
    text.to_lowercase()
}

/// Whether a symbol whose name and detail are, in small letters, `name`
/// and `detail` answers the query `query`: the query is empty, or occurs
/// in the name or in the detail.
pub open spec fn answers_query(name: Seq<char>, detail: Option<Seq<char>>, query: Seq<char>)
    -> bool {
    query.len() == 0 || contains_seq(name, query) || (detail matches Some(text) && contains_seq(
        text,
        query,
    ))
}

/// Whether a symbol whose name and detail are, in small letters,
/// `lowered_name` and `lowered_detail` answers the query `query`.
pub fn matches_lowered(lowered_name: &str, lowered_detail: Option<&str>, query: &str) -> (r: bool)
    ensures
        r == answers_query(lowered_name@, opt_str(lowered_detail), query@),
{
    let q = to_chars(query);
    if q.len() == 0 {
        return true;
    }
    if chars_contain(&to_chars(lowered_name), &q) {
        return true;
    }
    match lowered_detail {
        Some(text) => chars_contain(&to_chars(text), &q),
        None => false,
    }
}

/// Whether the symbol `name` with the detail `detail` answers the query
/// `query`, which is given in small letters: the query is empty, or occurs
/// in the name or the detail when these are put in small letters.
pub fn query_matches_symbol(name: &str, detail: Option<&str>, query: &str) -> (r: bool)
    ensures
        r == answers_query(
            lowercase_of(name@),
            match opt_str(detail) {
                Some(text) => Some(lowercase_of(text)),
                None => None,
            },
            query@,
        ),
{
    let lowered_name = lowercase(name);
    match detail {
        Some(text) => {
            let lowered = lowercase(text);
            matches_lowered(lowered_name.as_str(), Some(lowered.as_str()), query)
        },
        None => matches_lowered(lowered_name.as_str(), None, query),
    }
}

// ---------------------------------------------------------------------------
// Kinds, as the editor knows them
// ---------------------------------------------------------------------------

/// The kinds under which the editor lists symbols.
#[derive(Debug, Clone, Copy, PartialEq, Eq, Structural)]
pub enum OutlineKind {
    Class,
    Struct,
    Interface,
    EnumMember,
    Namespace,
}

/// The kinds under which the editor lists the entries of a completion.
#[derive(Debug, Clone, Copy, PartialEq, Eq, Structural)]
pub enum CompletionKind {
    Class,
    Struct,
    Field,
    EnumMember,
    Module,
}

/// The kind under which the editor lists a symbol of kind `kind`.
pub open spec fn outline_kind(kind: SymbolKind) -> OutlineKind {
    match kind {
        SymbolKind::Room => OutlineKind::Class,
        SymbolKind::Item => OutlineKind::Struct,
        SymbolKind::Npc => OutlineKind::Interface,
        SymbolKind::Flag => OutlineKind::EnumMember,
        SymbolKind::RoomSet => OutlineKind::Namespace,
    }
}

/// The kind under which the editor lists a symbol of kind `kind`.
pub fn lsp_symbol_kind(kind: SymbolKind) -> (r: OutlineKind)
    ensures
        r == outline_kind(kind),
{
    match kind {
        SymbolKind::Room => OutlineKind::Class,
        SymbolKind::Item => OutlineKind::Struct,
        SymbolKind::Npc => OutlineKind::Interface,
        SymbolKind::Flag => OutlineKind::EnumMember,
        SymbolKind::RoomSet => OutlineKind::Namespace,
    }
}

/// The kind under which the editor lists a completion of kind `kind`.
pub open spec fn completion_kind_of(kind: SymbolKind) -> CompletionKind {
    match kind {
        SymbolKind::Room => CompletionKind::Class,
        SymbolKind::Item => CompletionKind::Struct,
        SymbolKind::Npc => CompletionKind::Field,
        SymbolKind::Flag => CompletionKind::EnumMember,
        SymbolKind::RoomSet => CompletionKind::Module,
    }
}

/// The kind under which the editor lists a completion of kind `kind`.
pub fn completion_item_kind(kind: SymbolKind) -> (r: CompletionKind)
    ensures
        r == completion_kind_of(kind),
{
    match kind {
        SymbolKind::Room => CompletionKind::Class,
        SymbolKind::Item => CompletionKind::Struct,
        SymbolKind::Npc => CompletionKind::Field,
        SymbolKind::Flag => CompletionKind::EnumMember,
        SymbolKind::RoomSet => CompletionKind::Module,
    }
}

// ---------------------------------------------------------------------------
// Symbols of a document and of the workspace
// ---------------------------------------------------------------------------

/// A symbol in the outline of a document.
#[derive(Debug)]
pub struct DocumentSymbol {
    pub name: String,
    pub detail: Option<String>,
    pub kind: OutlineKind,
    pub range: Range,
    pub selection_range: Range,
}

/// What a [`DocumentSymbol`] holds.
pub struct DocumentSymbolView {
    pub name: Seq<char>,
    pub detail: Option<Seq<char>>,
    pub kind: OutlineKind,
    pub range: Range,
    pub selection_range: Range,
}

impl View for DocumentSymbol {
    type V = DocumentSymbolView;

    open spec fn view(&self) -> DocumentSymbolView {
        DocumentSymbolView {
            name: self.name@,
            detail: opt_text(self.detail),
            kind: self.kind,
            range: self.range,
            selection_range: self.selection_range,
        }
    }
}

/// The entry of the definition `definition` of `name` in the outline of
/// its document.
pub open spec fn document_symbol_of(name: Seq<char>, kind: SymbolKind, definition: DefinitionView)
    -> DocumentSymbolView {
    DocumentSymbolView {
        name,
        detail: detail_of(definition.metadata),
        kind: outline_kind(kind),
        range: definition.location.range,
        selection_range: definition.location.rename_span(),
    }
}

/// The entry of the definition `definition` of `name` in the outline of
/// its document.
pub fn document_symbol_from_definition(name: &str, kind: SymbolKind, definition: &SymbolDefinition)
    -> (r: DocumentSymbol)
    ensures
        r@ == document_symbol_of(name@, kind, definition@),
{
    DocumentSymbol {
        name: from_chars(&to_chars(name)),
        detail: definition_detail(definition),
        kind: lsp_symbol_kind(kind),
        range: definition.location.range,
        selection_range: definition.location.rename_range(),
    }
}

/// A symbol in the list of the symbols of the workspace.
#[derive(Debug)]
pub struct SymbolInformation {
    pub name: String,
    pub kind: OutlineKind,
    pub uri: String,
    pub range: Range,
}

/// What a [`SymbolInformation`] holds.
pub struct SymbolInformationView {
    pub name: Seq<char>,
    pub kind: OutlineKind,
    pub uri: Seq<char>,
    pub range: Range,
}

impl View for SymbolInformation {
    type V = SymbolInformationView;

    open spec fn view(&self) -> SymbolInformationView {
        SymbolInformationView {
            name: self.name@,
            kind: self.kind,
            uri: self.uri@,
            range: self.range,
        }
    }
}

/// The entry of the definition `definition` of `name` in the list of the
/// symbols of the workspace.
pub open spec fn workspace_symbol_of(name: Seq<char>, kind: SymbolKind, definition: DefinitionView)
    -> SymbolInformationView {
    SymbolInformationView {
        name,
        kind: outline_kind(kind),
        uri: definition.location.uri,
        range: definition.location.range,
    }
}

/// The entry of the definition `definition` of `name` in the list of the
/// symbols of the workspace.
pub fn workspace_symbol_from_definition(
    name: &str,
    kind: SymbolKind,
    definition: &SymbolDefinition,
) -> (r: SymbolInformation)
    ensures
        r@ == workspace_symbol_of(name@, kind, definition@),
{
    SymbolInformation {
        name: from_chars(&to_chars(name)),
        kind: lsp_symbol_kind(kind),
        uri: definition.location.uri.clone(),
        range: definition.location.range,
    }
}

/// An entry of a completion.
#[derive(Debug)]
pub struct CompletionItem {
    pub label: String,
    pub kind: CompletionKind,
    pub detail: Option<String>,
    /// The markdown that describes the symbol.
    pub documentation: String,
    pub sort_text: String,
}

/// What a [`CompletionItem`] holds.
pub struct CompletionItemView {
    pub label: Seq<char>,
    pub kind: CompletionKind,
    pub detail: Option<Seq<char>>,
    pub documentation: Seq<char>,
    pub sort_text: Seq<char>,
}

impl View for CompletionItem {
    type V = CompletionItemView;

    open spec fn view(&self) -> CompletionItemView {
        CompletionItemView {
            label: self.label@,
            kind: self.kind,
            detail: opt_text(self.detail),
            documentation: self.documentation@,
            sort_text: self.sort_text@,
        }
    }
}

/// The entry that offers `id` in a completion: its detail cut to eighty
/// characters, and its hover as documentation.
pub open spec fn completion_item_of(
    kind: SymbolKind,
    id: Seq<char>,
    definition: DefinitionView,
    path: Option<Seq<char>>,
) -> CompletionItemView {
    CompletionItemView {
        label: id,
        kind: completion_kind_of(kind),
        detail: match detail_of(definition.metadata) {
            Some(text) => Some(truncated(text, COMPLETION_DETAIL_MAX_CHARS as nat)),
            None => None,
        },
        documentation: hover_text(id, definition.metadata, path),
        sort_text: id,
    }
}

/// The entry that offers `id` in a completion. `path_hint` is the path
/// under which the file of the definition is shown.
pub fn completion_item_from_definition(
    kind: SymbolKind,
    id: &str,
    definition: &SymbolDefinition,
    path_hint: Option<&str>,
) -> (r: CompletionItem)
    ensures
        r@ == completion_item_of(kind, id@, definition@, opt_str(path_hint)),
{
    CompletionItem {
        label: from_chars(&to_chars(id)),
        kind: completion_item_kind(kind),
        detail: truncate_completion_detail(definition_detail(definition)),
        documentation: format_hover(id, definition, path_hint),
        sort_text: from_chars(&to_chars(id)),
    }
}

/// What the document symbols of a list hold.
pub open spec fn document_symbols_view(list: Seq<DocumentSymbol>) -> Seq<DocumentSymbolView> {
    Seq::new(list.len(), |i: int| list[i]@)
}

/// The outline entries of the definitions of `index` in the document
/// `uri`, identifier by identifier in the order `ids`.
pub open spec fn outline_in_order(
    index: IndexView,
    kind: SymbolKind,
    ids: Seq<Seq<char>>,
    uri: Seq<char>,
) -> Seq<DocumentSymbolView>
    decreases ids.len(),
{
    if ids.len() == 0 {
        Seq::empty()
    } else {
        let before = outline_in_order(index, kind, ids.drop_last(), uri);
        match entry_at(index, ids.last()).definition {
            Some(definition) => if definition.location.uri == uri {
                before.push(document_symbol_of(ids.last(), kind, definition))
            } else {
                before
            },
            None => before,
        }
    }
}

/// Adds to `output` the outline entries of the definitions of `index` in
/// the document `uri`, walking the identifiers in the order `ids`.
pub fn push_document_symbols_for_index(
    uri: &str,
    kind: SymbolKind,
    index: &SymbolIndex,
    ids: &Vec<String>,
    output: &mut Vec<DocumentSymbol>,
)
    ensures
        document_symbols_view(final(output)@) == document_symbols_view(old(output)@)
            + outline_in_order(index@, kind, strings_view(ids@), uri@),
{
    let ghost start = document_symbols_view(output@);
    let ghost order = strings_view(ids@);
    let mut k: usize = 0;
    proof {
        assert(order.take(0) =~= Seq::<Seq<char>>::empty());
        assert(document_symbols_view(output@) =~= start + Seq::<DocumentSymbolView>::empty());
    }
    while k < ids.len()
        invariant
            k <= ids.len(),
            order == strings_view(ids@),
            document_symbols_view(output@) == start + outline_in_order(
                index@,
                kind,
                order.take(k as int),
                uri@,
            ),
        decreases ids.len() - k,
    {
        let id = ids[k].as_str();
        let ghost before = document_symbols_view(output@);
        let ghost done = outline_in_order(index@, kind, order.take(k as int), uri@);
        proof {
            assert(order.take(k + 1).drop_last() =~= order.take(k as int));
            assert(order.take(k + 1).last() == id@);
        }
        match index.definition(id) {
            Some(definition) => {
                if str_eq(definition.location.uri.as_str(), uri) {
                    output.push(document_symbol_from_definition(id, kind, &definition));
                    proof {
                        let made = document_symbol_of(id@, kind, definition@);
                        assert(document_symbols_view(output@) =~= before.push(made));
                        assert(before.push(made) =~= start + done.push(made));
                    }
                }
            },
            None => {},
        }
        k += 1;
    }
    proof {
        assert(order.take(ids.len() as int) =~= order);
    }
}

/// What the symbol informations of a list hold.
pub open spec fn symbol_informations_view(list: Seq<SymbolInformation>) -> Seq<
    SymbolInformationView,
> {
    Seq::new(list.len(), |i: int| list[i]@)
}

/// Whether the definition `definition` of `name` answers the query.
pub open spec fn definition_answers(name: Seq<char>, definition: DefinitionView, query: Seq<char>)
    -> bool {
    answers_query(
        lowercase_of(name),
        match detail_of(definition.metadata) {
            Some(text) => Some(lowercase_of(text)),
            None => None,
        },
        query,
    )
}

/// The workspace entries of the definitions of `index` that answer the
/// query, identifier by identifier in the order `ids`.
pub open spec fn found_in_order(
    index: IndexView,
    kind: SymbolKind,
    ids: Seq<Seq<char>>,
    query: Seq<char>,
) -> Seq<SymbolInformationView>
    decreases ids.len(),
{
    if ids.len() == 0 {
        Seq::empty()
    } else {
        let before = found_in_order(index, kind, ids.drop_last(), query);
        match entry_at(index, ids.last()).definition {
            Some(definition) => if definition_answers(ids.last(), definition, query) {
                before.push(workspace_symbol_of(ids.last(), kind, definition))
            } else {
                before
            },
            None => before,
        }
    }
}

/// Adds to `output` the workspace entries of the definitions of `index`
/// that answer the query `query`, which is given in small letters,
/// walking the identifiers in the order `ids`.
pub fn push_workspace_symbols_for_index(
    query: &str,
    kind: SymbolKind,
    index: &SymbolIndex,
    ids: &Vec<String>,
    output: &mut Vec<SymbolInformation>,
)
    ensures
        symbol_informations_view(final(output)@) == symbol_informations_view(old(output)@)
            + found_in_order(index@, kind, strings_view(ids@), query@),
{
    let ghost start = symbol_informations_view(output@);
    let ghost order = strings_view(ids@);
    let mut k: usize = 0;
    proof {
        assert(order.take(0) =~= Seq::<Seq<char>>::empty());
        assert(symbol_informations_view(output@) =~= start + Seq::<SymbolInformationView>::empty());
    }
    while k < ids.len()
        invariant
            k <= ids.len(),
            order == strings_view(ids@),
            symbol_informations_view(output@) == start + found_in_order(
                index@,
                kind,
                order.take(k as int),
                query@,
            ),
        decreases ids.len() - k,
    {
        let id = ids[k].as_str();
        let ghost before = symbol_informations_view(output@);
        let ghost done = found_in_order(index@, kind, order.take(k as int), query@);
        proof {
            assert(order.take(k + 1).drop_last() =~= order.take(k as int));
            assert(order.take(k + 1).last() == id@);
        }
        match index.definition(id) {
            Some(definition) => {
                let detail = definition_detail(&definition);
                let answers = match &detail {
                    Some(text) => query_matches_symbol(id, Some(text.as_str()), query),
                    None => query_matches_symbol(id, None, query),
                };
                if answers {
                    output.push(workspace_symbol_from_definition(id, kind, &definition));
                    proof {
                        let made = workspace_symbol_of(id@, kind, definition@);
                        assert(symbol_informations_view(output@) =~= before.push(made));
                        assert(before.push(made) =~= start + done.push(made));
                    }
                }
            },
            None => {},
        }
        k += 1;
    }
    proof {
        assert(order.take(ids.len() as int) =~= order);
    }
}

// ---------------------------------------------------------------------------
// Rename
// ---------------------------------------------------------------------------

/// The replacement of a stretch of a document by a text.
#[derive(Debug)]
pub struct RenameEdit {
    pub uri: String,
    pub range: Range,
    pub new_text: String,
}

/// What a [`RenameEdit`] holds.
pub struct RenameEditView {
    pub uri: Seq<char>,
    pub range: Range,
    pub new_text: Seq<char>,
}

impl View for RenameEdit {
    type V = RenameEditView;

    open spec fn view(&self) -> RenameEditView {
        RenameEditView { uri: self.uri@, range: self.range, new_text: self.new_text@ }
    }
}

/// What the edits of a list hold.
pub open spec fn rename_edits_view(list: Seq<RenameEdit>) -> Seq<RenameEditView> {
    Seq::new(list.len(), |i: int| list[i]@)
}

/// The edit that puts `new_name` at the location `location`: it replaces
/// the part of the occurrence that holds the name.
pub open spec fn edit_at(location: LocationView, new_name: Seq<char>) -> RenameEditView {
    RenameEditView { uri: location.uri, range: location.rename_span(), new_text: new_name }
}

/// The edits that rename what the entry `e` knows: one for the current
/// definition, then one for each reference in order.
pub open spec fn rename_edits_of(e: EntryView, new_name: Seq<char>) -> Seq<RenameEditView> {
    (match e.definition {
        Some(definition) => seq![edit_at(definition.location, new_name)],
        None => Seq::empty(),
    }) + Seq::new(e.references.len(), |i: int| edit_at(e.references[i].location, new_name))
}

fn edit_for(location: &SymbolLocation, new_name: &str) -> (r: RenameEdit)
    ensures
        r@ == edit_at(location@, new_name@),
{
    RenameEdit {
        uri: location.uri.clone(),
        range: location.rename_range(),
        new_text: from_chars(&to_chars(new_name)),
    }
}

/// The range that a rename replaces for the occurrence of `id` at
/// `position` in the document `uri`: the rename range of the current
/// definition if that is the occurrence, else that of the first reference
/// that is, else `fallback`.
pub open spec fn rename_range_at(
    e: EntryView,
    uri: Seq<char>,
    position: Position,
    fallback: Range,
) -> Range {
    if e.definition is Some && e.definition->0.location.uri == uri && contains_position(
        e.definition->0.location.range,
        position,
    ) {
        e.definition->0.location.rename_span()
    } else {
        first_reference_range(e.references, uri, position, fallback)
    }
}

/// The rename range of the first reference of `list` that lies at
/// `position` in the document `uri`; `fallback` where there is none.
pub open spec fn first_reference_range(
    list: Seq<ReferenceView>,
    uri: Seq<char>,
    position: Position,
    fallback: Range,
) -> Range
    decreases list.len(),
{
    if list.len() == 0 {
        fallback
    } else if list[0].location.uri == uri && contains_position(list[0].location.range, position) {
        list[0].location.rename_span()
    } else {
        first_reference_range(list.drop_first(), uri, position, fallback)
    }
}

impl Backend {
    /// The edits that rename `id` to `new_name` everywhere: at its current
    /// definition and at each reference to it.
    pub fn collect_rename_edits(&self, symbol_type: SymbolKind, id: &str, new_name: &str) -> (r:
        Vec<RenameEdit>)
        ensures
            rename_edits_view(r@) == rename_edits_of(
                entry_at(self@.symbols.of(symbol_type), id@),
                new_name@,
            ),
    {
        let entry = self.symbols().index(symbol_type).entry(id);
        let mut edits: Vec<RenameEdit> = Vec::new();
        match &entry.definition {
            Some(definition) => {
                edits.push(edit_for(&definition.location, new_name));
            },
            None => {},
        }
        let ghost head = rename_edits_view(edits@);
        let ghost references = entry@.references;
        let mut k: usize = 0;
        proof {
            assert(rename_edits_view(edits@) =~= head + Seq::new(
                0,
                |i: int| edit_at(references[i].location, new_name@),
            ));
        }
        while k < entry.references.len()
            invariant
                k <= entry.references.len(),
                references == entry@.references,
                rename_edits_view(edits@) == head + Seq::new(
                    k as nat,
                    |i: int| edit_at(references[i].location, new_name@),
                ),
            decreases entry.references.len() - k,
        {
            let ghost before = rename_edits_view(edits@);
            edits.push(edit_for(&entry.references[k].location, new_name));
            proof {
                assert(rename_edits_view(edits@) =~= before.push(
                    edit_at(references[k as int].location, new_name@),
                ));
                assert(before.push(edit_at(references[k as int].location, new_name@)) =~= head
                    + Seq::new(
                    (k + 1) as nat,
                    |i: int| edit_at(references[i].location, new_name@),
                ));
            }
            k += 1;
        }
        proof {
            assert(rename_edits_view(edits@) =~= rename_edits_of(entry@, new_name@));
        }
        edits
    }

    /// The range that a rename replaces for the occurrence of `id` at
    /// `position` in the document `uri`.
    pub fn rename_range_for_occurrence(
        &self,
        uri: &str,
        position: Position,
        kind: SymbolKind,
        id: &str,
        fallback: Range,
    ) -> (r: Range)
        ensures
            r == rename_range_at(
                entry_at(self@.symbols.of(kind), id@),
                uri@,
                position,
                fallback,
            ),
    {
        let entry = self.symbols().index(kind).entry(id);
        match &entry.definition {
            Some(definition) => {
                if str_eq(definition.location.uri.as_str(), uri) && range_contains(
                    &definition.location.range,
                    position,
                ) {
                    return definition.location.rename_range();
                }
            },
            None => {},
        }
        let ghost list = entry@.references;
        let mut k: usize = 0;
        proof {
            assert(list.skip(0) =~= list);
        }
        while k < entry.references.len()
            invariant
                k <= entry.references.len(),
                list == entry@.references,
                entry@ == entry_at(self@.symbols.of(kind), id@),
                rename_range_at(entry@, uri@, position, fallback) == first_reference_range(
                    list,
                    uri@,
                    position,
                    fallback,
                ),
                first_reference_range(list, uri@, position, fallback) == first_reference_range(
                    list.skip(k as int),
                    uri@,
                    position,
                    fallback,
                ),
            decreases entry.references.len() - k,
        {
            let reference = &entry.references[k];
            proof {
                assert(list.skip(k as int)[0] == reference@);
                assert(list.skip(k as int).drop_first() =~= list.skip(k + 1));
            }
            if str_eq(reference.location.uri.as_str(), uri) && range_contains(
                &reference.location.range,
                position,
            ) {
                return reference.location.rename_range();
            }
            k += 1;
        }
        fallback
    }

    /// The outline of the document `uri`, where the indices are walked in
    /// the orders `orders`: its rooms, items, characters, flags and sets.
    pub fn collect_document_symbols_in_order(
        &self,
        uri: &str,
        orders: &crate::report::WalkOrders,
    ) -> (r: Vec<DocumentSymbol>)
        ensures
            document_symbols_view(r@) == outline_in_order(
                self@.symbols.rooms,
                SymbolKind::Room,
                orders@.rooms,
                uri@,
            ) + outline_in_order(self@.symbols.items, SymbolKind::Item, orders@.items, uri@)
                + outline_in_order(self@.symbols.npcs, SymbolKind::Npc, orders@.npcs, uri@)
                + outline_in_order(self@.symbols.flags, SymbolKind::Flag, orders@.flags, uri@)
                + outline_in_order(self@.symbols.sets, SymbolKind::RoomSet, orders@.sets, uri@),
    {
        let symbols = self.symbols();
        let mut out: Vec<DocumentSymbol> = Vec::new();
        proof {
            assert(document_symbols_view(out@) =~= Seq::<DocumentSymbolView>::empty());
        }
        push_document_symbols_for_index(
            uri,
            SymbolKind::Room,
            &symbols.rooms,
            &orders.rooms,
            &mut out,
        );
        proof {
            assert(document_symbols_view(out@) =~= outline_in_order(
                self@.symbols.rooms,
                SymbolKind::Room,
                orders@.rooms,
                uri@,
            ));
        }
        push_document_symbols_for_index(
            uri,
            SymbolKind::Item,
            &symbols.items,
            &orders.items,
            &mut out,
        );
        push_document_symbols_for_index(uri, SymbolKind::Npc, &symbols.npcs, &orders.npcs, &mut out);
        push_document_symbols_for_index(
            uri,
            SymbolKind::Flag,
            &symbols.flags,
            &orders.flags,
            &mut out,
        );
        push_document_symbols_for_index(
            uri,
            SymbolKind::RoomSet,
            &symbols.sets,
            &orders.sets,
            &mut out,
        );
        out
    }

    /// The outline of the document `uri`. The indices are walked in an
    /// order that they do not state.
    pub fn collect_document_symbols(&self, uri: &str) -> (r: Vec<DocumentSymbol>)
        ensures
            exists|o: crate::report::OrdersView| #[trigger]
                o.enumerates(self@) && document_symbols_view(r@) == outline_in_order(
                    self@.symbols.rooms,
                    SymbolKind::Room,
                    o.rooms,
                    uri@,
                ) + outline_in_order(self@.symbols.items, SymbolKind::Item, o.items, uri@)
                    + outline_in_order(self@.symbols.npcs, SymbolKind::Npc, o.npcs, uri@)
                    + outline_in_order(self@.symbols.flags, SymbolKind::Flag, o.flags, uri@)
                    + outline_in_order(self@.symbols.sets, SymbolKind::RoomSet, o.sets, uri@),
    {
        let orders = self.walk_orders();
        let r = self.collect_document_symbols_in_order(uri, &orders);
        proof {
            assert(orders@.enumerates(self@));
        }
        r
    }

    /// The symbols of the workspace that answer the query `query`, which
    /// is given in small letters, where the indices are walked in the
    /// orders `orders`.
    pub fn collect_workspace_symbols_in_order(
        &self,
        query: &str,
        orders: &crate::report::WalkOrders,
    ) -> (r: Vec<SymbolInformation>)
        ensures
            symbol_informations_view(r@) == found_in_order(
                self@.symbols.rooms,
                SymbolKind::Room,
                orders@.rooms,
                query@,
            ) + found_in_order(self@.symbols.items, SymbolKind::Item, orders@.items, query@)
                + found_in_order(self@.symbols.npcs, SymbolKind::Npc, orders@.npcs, query@)
                + found_in_order(self@.symbols.flags, SymbolKind::Flag, orders@.flags, query@)
                + found_in_order(self@.symbols.sets, SymbolKind::RoomSet, orders@.sets, query@),
    {
        let symbols = self.symbols();
        let mut out: Vec<SymbolInformation> = Vec::new();
        proof {
            assert(symbol_informations_view(out@) =~= Seq::<SymbolInformationView>::empty());
        }
        push_workspace_symbols_for_index(
            query,
            SymbolKind::Room,
            &symbols.rooms,
            &orders.rooms,
            &mut out,
        );
        proof {
            assert(symbol_informations_view(out@) =~= found_in_order(
                self@.symbols.rooms,
                SymbolKind::Room,
                orders@.rooms,
                query@,
            ));
        }
        push_workspace_symbols_for_index(
            query,
            SymbolKind::Item,
            &symbols.items,
            &orders.items,
            &mut out,
        );
        push_workspace_symbols_for_index(
            query,
            SymbolKind::Npc,
            &symbols.npcs,
            &orders.npcs,
            &mut out,
        );
        push_workspace_symbols_for_index(
            query,
            SymbolKind::Flag,
            &symbols.flags,
            &orders.flags,
            &mut out,
        );
        push_workspace_symbols_for_index(
            query,
            SymbolKind::RoomSet,
            &symbols.sets,
            &orders.sets,
            &mut out,
        );
        out
    }

    /// The symbols of the workspace that answer the query `query`, which
    /// is given in small letters. The indices are walked in an order that
    /// they do not state.
    pub fn collect_workspace_symbols(&self, query: &str) -> (r: Vec<SymbolInformation>)
        ensures
            exists|o: crate::report::OrdersView| #[trigger]
                o.enumerates(self@) && symbol_informations_view(r@) == found_in_order(
                    self@.symbols.rooms,
                    SymbolKind::Room,
                    o.rooms,
                    query@,
                ) + found_in_order(self@.symbols.items, SymbolKind::Item, o.items, query@)
                    + found_in_order(self@.symbols.npcs, SymbolKind::Npc, o.npcs, query@)
                    + found_in_order(self@.symbols.flags, SymbolKind::Flag, o.flags, query@)
                    + found_in_order(self@.symbols.sets, SymbolKind::RoomSet, o.sets, query@),
    {
        let orders = self.walk_orders();
        let r = self.collect_workspace_symbols_in_order(query, &orders);
        proof {
            assert(orders@.enumerates(self@));
        }
        r
    }
}

} // verus!
