//! The answers to the requests of an editor that are read off the symbol
//! at a position: where it is defined, where it is used, what a rename
//! changes, what is offered for completion, and what a formatting
//! replaces.

use crate::backend::{occurrence_at, Backend, BackendView};
use crate::chars::str_eq;
use crate::context::completion_kind;
use crate::index::{entry_at, EntryView, IndexView};
use crate::lists::{format_lists, lists_formatted};
use crate::scanner::{
    distinct, edit_uris, edits_in, group_rename_edits, pairs_text, DocumentEdits,
};
use crate::symbols::{
    DefinitionView, LocationView, SymbolDefinition, SymbolKind, SymbolLocation,
};
use crate::syntax::{SyntaxTree, TreeView};
use crate::text::{full_range_of, is_offset_of, Position, Range};
use crate::workspace::{rename_edits_of, rename_range_at, RenameEditView};
use vstd::prelude::*;
use vstd::utf8::encode_utf8;

verus! {

// ---------------------------------------------------------------------------
// The symbol at a position
// ---------------------------------------------------------------------------

/// What the store knows of the symbol at `position` in the document `uri`;
/// nothing where no symbol stands there.
pub open spec fn entry_under(b: BackendView, uri: Seq<char>, position: Position) -> Option<
    EntryView,
> {
    match occurrence_at(b, uri, position) {
        Some(found) => Some(entry_at(b.symbols.of(found.kind), found.id)),
        None => None,
    }
}

/// What an optional location holds.
pub open spec fn opt_location(value: Option<SymbolLocation>) -> Option<LocationView> {
    match value {
        Some(location) => Some(location@),
        None => None,
    }
}

/// What the locations of a list hold.
pub open spec fn locations_view(list: Seq<SymbolLocation>) -> Seq<LocationView> {
    Seq::new(list.len(), |i: int| list[i]@)
}

/// What an optional list of locations holds.
pub open spec fn opt_locations(value: Option<Vec<SymbolLocation>>) -> Option<Seq<LocationView>> {
    match value {
        Some(list) => Some(locations_view(list@)),
        None => None,
    }
}

// ---------------------------------------------------------------------------
// Definition and references
// ---------------------------------------------------------------------------

/// Where the symbol at `position` in the document `uri` is defined: the
/// location of its current definition.
pub open spec fn definition_place(b: BackendView, uri: Seq<char>, position: Position) -> Option<
    LocationView,
> {
    match entry_under(b, uri, position) {
        Some(e) => match e.definition {
            Some(definition) => Some(definition.location),
            None => None,
        },
        None => None,
    }
}

/// The places of what the entry `e` knows: that of the current definition
/// if the declaration is asked for, then those of the references in order.
pub open spec fn places_of(e: EntryView, include_declaration: bool) -> Seq<LocationView> {
    (match e.definition {
        Some(definition) => if include_declaration {
            seq![definition.location]
        } else {
            Seq::empty()
        },
        None => Seq::empty(),
    }) + Seq::new(e.references.len(), |i: int| e.references[i].location)
}

/// Where the symbol at `position` in the document `uri` is used.
pub open spec fn reference_places(
    b: BackendView,
    uri: Seq<char>,
    position: Position,
    include_declaration: bool,
) -> Option<Seq<LocationView>> {
    match entry_under(b, uri, position) {
        Some(e) => Some(places_of(e, include_declaration)),
        None => None,
    }
}

/// The identifier of the symbol at `position` in the document `uri` with
/// its current definition, which is what a hover describes.
pub open spec fn described_at(b: BackendView, uri: Seq<char>, position: Position) -> Option<
    (Seq<char>, DefinitionView),
> {
    match occurrence_at(b, uri, position) {
        Some(found) => match entry_at(b.symbols.of(found.kind), found.id).definition {
            Some(definition) => Some((found.id, definition)),
            None => None,
        },
        None => None,
    }
}

/// What an optional pair of an identifier and a definition holds.
pub open spec fn opt_described(value: Option<(String, SymbolDefinition)>) -> Option<
    (Seq<char>, DefinitionView),
> {
    match value {
        Some((id, definition)) => Some((id@, definition@)),
        None => None,
    }
}

// ---------------------------------------------------------------------------
// Rename
// ---------------------------------------------------------------------------

/// What a rename is offered to replace at `position` in the document
/// `uri`: the range that holds the name, and the identifier that stands
/// there.
pub open spec fn rename_target(b: BackendView, uri: Seq<char>, position: Position) -> Option<
    (Range, Seq<char>),
> {
    match occurrence_at(b, uri, position) {
        Some(found) => Some(
            (
                rename_range_at(
                    entry_at(b.symbols.of(found.kind), found.id),
                    uri,
                    position,
                    found.range,
                ),
                found.id,
            ),
        ),
        None => None,
    }
}

/// What an optional pair of a range and a text holds.
pub open spec fn opt_target(value: Option<(Range, String)>) -> Option<(Range, Seq<char>)> {
    match value {
        Some((range, text)) => Some((range, text@)),
        None => None,
    }
}

/// The edits that rename the symbol at `position` in the document `uri`
/// to `new_name`. Nothing where the new name is empty or no symbol stands
/// at the position.
pub open spec fn renamed(b: BackendView, uri: Seq<char>, position: Position, new_name: Seq<char>)
    -> Option<Seq<RenameEditView>> {
    if new_name.len() == 0 {
        None
    } else {
        match entry_under(b, uri, position) {
            Some(e) => Some(rename_edits_of(e, new_name)),
            None => None,
        }
    }
}

/// Whether `groups` holds the edits `edits` document by document: the
/// documents in the order in which they first occur, each once, and for
/// each document its edits in their order.
pub open spec fn groups_edits(groups: Seq<DocumentEdits>, edits: Seq<RenameEditView>) -> bool {
    &&& groups.len() == distinct(edit_uris(edits)).len()
    &&& forall|i: int|
        0 <= i < groups.len() ==> (#[trigger] groups[i]).uri@ == distinct(edit_uris(edits))[i]
            && pairs_text(groups[i].edits@) == edits_in(edits, groups[i].uri@)
}

// ---------------------------------------------------------------------------
// Completion
// ---------------------------------------------------------------------------

/// Whether `kind` is the kind of symbol that is expected at `position` in
/// the document `uri`, of whose text `t` is the syntax tree. Nothing is
/// expected where the document was not analysed or does not have the
/// position.
pub open spec fn expects(
    b: BackendView,
    uri: Seq<char>,
    position: Position,
    t: TreeView,
    kind: Option<SymbolKind>,
) -> bool {
    if b.documents.contains_key(uri) {
        let bytes = encode_utf8(b.documents[uri].text);
        (exists|off: int| is_offset_of(bytes, position, off) && kind == completion_kind(t, off))
            || (kind is None && forall|off: int| !is_offset_of(bytes, position, off))
    } else {
        kind is None
    }
}

/// Whether `list` holds each identifier of `m` that has a definition
/// once, with its current definition.
pub open spec fn lists_definitions(list: Seq<(String, SymbolDefinition)>, m: IndexView) -> bool {
    &&& forall|i: int|
        0 <= i < list.len() ==> entry_at(m, (#[trigger] list[i]).0@).definition == Some(
            list[i].1@,
        )
    &&& forall|i: int, j: int| 0 <= i < j < list.len() ==> list[i].0@ != list[j].0@
    &&& forall|id: Seq<char>|
        entry_at(m, id).definition is Some ==> exists|i: int|
            0 <= i < list.len() && (#[trigger] list[i]).0@ == id
}

/// Whether the index `m` holds no definition.
pub open spec fn defines_nothing(m: IndexView) -> bool {
    forall|id: Seq<char>| entry_at(m, id).definition is None
}

// ---------------------------------------------------------------------------
// Formatting
// ---------------------------------------------------------------------------

/// What a formatting of the document `uri` replaces, where `formatted` is
/// its text after formatting: nothing where the text stays as it is, else
/// the whole text. No answer where the document was not analysed.
pub open spec fn formatting_edits_of(b: BackendView, uri: Seq<char>, formatted: Seq<char>)
    -> Option<Seq<(Range, Seq<char>)>> {
    if !b.documents.contains_key(uri) {
        None
    } else if formatted == b.documents[uri].text {
        Some(Seq::empty())
    } else {
        Some(seq![(full_range_of(encode_utf8(b.documents[uri].text)), formatted)])
    }
}

/// What an optional list of pairs of a range and a text holds.
pub open spec fn opt_pairs(value: Option<Vec<(Range, String)>>) -> Option<
    Seq<(Range, Seq<char>)>,
> {
    match value {
        Some(list) => Some(pairs_text(list@)),
        None => None,
    }
}

/// The indented text `indented` with its lists written anew, where `tree`
/// is its syntax tree; the text as it is where the parser made nothing of
/// it.
pub open spec fn with_lists(indented: Seq<char>, tree: Option<TreeView>) -> Seq<char> {
    match tree {
        Some(t) => lists_formatted(t, indented),
        None => indented,
    }
}

/// The second step of a formatting: the indented text `indented` with its
/// lists written anew. `tree` is the syntax tree of `indented`, or `None`
/// where the parser made nothing of it.
pub fn format_indented(indented: String, tree: &Option<SyntaxTree>) -> (r: String)
    ensures
        r@ == with_lists(indented@, crate::format::opt_tree(*tree)),
{
    match tree {
        Some(t) => format_lists(t, indented.as_str()),
        None => indented,
    }
}

impl Backend {
    /// Where the symbol at `position` in the document `uri` is defined.
    pub fn definition_location(&self, uri: &str, position: Position) -> (r: Option<
        SymbolLocation,
    >)
        ensures
            opt_location(r) == definition_place(self@, uri@, position),
    {
        match self.get_symbol_at_position(uri, position) {
            Some((kind, id)) => match self.symbols().index(kind).definition(id.as_str()) {
                Some(definition) => Some(definition.location),
                None => None,
            },
            None => None,
        }
    }

    /// Where the symbol at `position` in the document `uri` is used: the
    /// place of its current definition first, if `include_declaration`
    /// asks for it, then the places of the references to it in the order
    /// in which they were added. `None` where no symbol stands at the
    /// position.
    pub fn reference_locations(
        &self,
        uri: &str,
        position: Position,
        include_declaration: bool,
    ) -> (r: Option<Vec<SymbolLocation>>)
        ensures
            opt_locations(r) == reference_places(self@, uri@, position, include_declaration),
    {
        let (kind, id) = match self.get_symbol_at_position(uri, position) {
            Some(found) => found,
            None => {
                return None;
            },
        };
        let entry = self.symbols().index(kind).entry(id.as_str());
        let mut places: Vec<SymbolLocation> = Vec::new();
        if include_declaration {
            match &entry.definition {
                Some(definition) => {
                    places.push(definition.location.clone());
                },
                None => {},
            }
        }
        let ghost head = locations_view(places@);
        let ghost references = entry@.references;
        let mut k: usize = 0;
        proof {
            assert(locations_view(places@) =~= head + Seq::new(
                0,
                |i: int| references[i].location,
            ));
        }
        while k < entry.references.len()
            invariant
                k <= entry.references.len(),
                references == entry@.references,
                locations_view(places@) == head + Seq::new(
                    k as nat,
                    |i: int| references[i].location,
                ),
            decreases entry.references.len() - k,
        {
            let ghost before = locations_view(places@);
            places.push(entry.references[k].location.clone());
            proof {
                assert(locations_view(places@) =~= before.push(references[k as int].location));
                assert(before.push(references[k as int].location) =~= head + Seq::new(
                    (k + 1) as nat,
                    |i: int| references[i].location,
                ));
            }
            k += 1;
        }
        proof {
            assert(locations_view(places@) =~= places_of(entry@, include_declaration));
        }
        Some(places)
    }

    /// The identifier of the symbol at `position` in the document `uri`
    /// with its current definition: what a hover describes. `None` where
    /// no symbol stands at the position or the symbol has no definition.
    pub fn hover_definition(&self, uri: &str, position: Position) -> (r: Option<
        (String, SymbolDefinition),
    >)
        ensures
            opt_described(r) == described_at(self@, uri@, position),
    {
        match self.get_symbol_at_position(uri, position) {
            Some((kind, id)) => match self.symbols().index(kind).definition(id.as_str()) {
                Some(definition) => Some((id, definition)),
                None => None,
            },
            None => None,
        }
    }

    /// What a rename is offered to replace at `position` in the document
    /// `uri`: the range that holds the name, and the identifier that
    /// stands there. `None` where no symbol stands at the position.
    pub fn rename_target_at(&self, uri: &str, position: Position) -> (r: Option<(Range, String)>)
        ensures
            opt_target(r) == rename_target(self@, uri@, position),
    {
        match self.get_symbol_occurrence_at_position(uri, position) {
            Some(occurrence) => {
                let range = self.rename_range_for_occurrence(
                    uri,
                    position,
                    occurrence.kind,
                    occurrence.id.as_str(),
                    occurrence.range,
                );
                Some((range, occurrence.id))
            },
            None => None,
        }
    }

    /// The edits that rename the symbol at `position` in the document
    /// `uri` to `new_name`, document by document. `None` where the new
    /// name is empty or no symbol stands at the position.
    pub fn rename_at(&self, uri: &str, position: Position, new_name: &str) -> (r: Option<
        Vec<DocumentEdits>,
    >)
        ensures
            match r {
                Some(groups) => renamed(self@, uri@, position, new_name@) is Some
                    && groups_edits(groups@, renamed(self@, uri@, position, new_name@)->0),
                None => renamed(self@, uri@, position, new_name@) is None,
            },
    {
        if str_eq(new_name, "") {
            proof {
                reveal_strlit("");
            }
            return None;
        }
        proof {
            reveal_strlit("");
            assert(new_name@.len() != 0) by {
                if new_name@.len() == 0 {
                    assert(new_name@ =~= ""@);
                }
            }
        }
        match self.get_symbol_at_position(uri, position) {
            Some((kind, id)) => {
                let edits = self.collect_rename_edits(kind, id.as_str(), new_name);
                Some(group_rename_edits(&edits))
            },
            None => None,
        }
    }

    /// The kind of symbol that is expected at `position` in the document
    /// `uri`, of whose text `tree` is the syntax tree, with the
    /// definitions of that kind: what a completion offers. The
    /// definitions stand in the order in which the underlying map is
    /// walked. `None` where nothing is expected there or nothing of the
    /// expected kind is defined.
    pub fn completion_definitions(&self, uri: &str, position: Position, tree: &SyntaxTree) -> (r:
        Option<(SymbolKind, Vec<(String, SymbolDefinition)>)>)
        ensures
            match r {
                Some((kind, list)) => expects(self@, uri@, position, tree@, Some(kind))
                    && list.len() > 0 && lists_definitions(list@, self@.symbols.of(kind)),
                None => exists|kind: Option<SymbolKind>|
                    #[trigger] expects(self@, uri@, position, tree@, kind) && (kind matches Some(
                        k,
                    ) ==> defines_nothing(self@.symbols.of(k))),
            },
    {
        match self.get_completion_context(uri, position, tree) {
            Some(kind) => {
                let list = self.symbols().index(kind).definitions_iter();
                if list.len() > 0 {
                    proof {
                        assert(expects(self@, uri@, position, tree@, Some(kind)));
                    }
                    Some((kind, list))
                } else {
                    proof {
                        assert(expects(self@, uri@, position, tree@, Some(kind)));
                        assert(defines_nothing(self@.symbols.of(kind)));
                    }
                    None
                }
            },
            None => {
                proof {
                    assert(expects(self@, uri@, position, tree@, None::<SymbolKind>));
                }
                None
            },
        }
    }

    /// What a formatting of the document `uri` replaces, where `formatted`
    /// is its text after formatting: nothing where the text stays as it
    /// is, else the whole text. `None` where the document was not
    /// analysed.
    pub fn formatting_edits(&self, uri: &str, formatted: String) -> (r: Option<
        Vec<(Range, String)>,
    >)
        ensures
            opt_pairs(r) == formatting_edits_of(self@, uri@, formatted@),
    {
        let state = match self.document_state(uri) {
            Some(state) => state,
            None => {
                return None;
            },
        };
        let mut edits: Vec<(Range, String)> = Vec::new();
        if str_eq(formatted.as_str(), state.document.text()) {
            proof {
                assert(pairs_text(edits@) =~= Seq::<(Range, Seq<char>)>::empty());
            }
            return Some(edits);
        }
        let range = state.document.range();
        edits.push((range, formatted));
        proof {
            assert(pairs_text(edits@) =~= seq![
                (full_range_of(encode_utf8(self@.documents[uri@].text)), formatted@),
            ]);
        }
        Some(edits)
    }
}

} // verus!
