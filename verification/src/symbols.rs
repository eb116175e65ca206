//! The symbols of a world: their kinds, where they occur, and what their
//! definitions say about them.
//!
//! Each type has a view that holds its texts as `Seq<char>`; the contracts
//! of the crate speak of these views.

use crate::chars::{
    from_chars, replace_char, replace_in_chars, strings_view, to_chars, trim, trim_chars,
};
use crate::text::Range;
use vstd::prelude::*;

verus! {

/// What a symbol names.
#[derive(Debug, Clone, Copy, PartialEq, Eq, Hash, Structural)]
pub enum SymbolKind {
    Room,
    Item,
    Npc,
    Flag,
    RoomSet,
}

/// The word by which messages call a kind.
pub open spec fn label_text(kind: SymbolKind) -> Seq<char> {
    match kind {
        SymbolKind::Room => "Room"@,
        SymbolKind::Item => "Item"@,
        SymbolKind::Npc => "NPC"@,
        SymbolKind::Flag => "Flag"@,
        SymbolKind::RoomSet => "Set"@,
    }
}

impl SymbolKind {
    /// The word by which messages call this kind.
    pub fn label(self) -> (r: &'static str)
        ensures
            r@ == label_text(self),
    {
        match self {
            SymbolKind::Room => "Room",
            SymbolKind::Item => "Item",
            SymbolKind::Npc => "NPC",
            SymbolKind::Flag => "Flag",
            SymbolKind::RoomSet => "Set",
        }
    }
}

/// The text that an optional string holds.
pub open spec fn opt_text(value: Option<String>) -> Option<Seq<char>> {
    match value {
        Some(text) => Some(text@),
        None => None,
    }
}

/// A copy of an optional string.
pub fn clone_opt_string(value: &Option<String>) -> (r: Option<String>)
    ensures
        opt_text(r) == opt_text(*value),
{
    match value {
        Some(text) => Some(text.clone()),
        None => None,
    }
}

/// A copy of a list of strings.
pub fn clone_strings(list: &Vec<String>) -> (r: Vec<String>)
    ensures
        strings_view(r@) == strings_view(list@),
{
    let mut out: Vec<String> = Vec::new();
    let mut i: usize = 0;
    while i < list.len()
        invariant
            i <= list.len(),
            strings_view(out@) == strings_view(list@).take(i as int),
        decreases list.len() - i,
    {
        let ghost before = strings_view(out@);
        out.push(list[i].clone());
        proof {
            assert(strings_view(out@) =~= before.push(list@[i as int]@));
            assert(strings_view(list@).take(i + 1) =~= strings_view(list@).take(i as int).push(
                list@[i as int]@,
            ));
        }
        i += 1;
    }
    proof {
        assert(strings_view(list@).take(list.len() as int) =~= strings_view(list@));
    }
    out
}

// ---------------------------------------------------------------------------
// Locations
// ---------------------------------------------------------------------------

/// Where a symbol occurs.
#[derive(Debug)]
pub struct SymbolLocation {
    /// The document.
    pub uri: String,
    /// The whole occurrence.
    pub range: Range,
    /// The part of the occurrence that a rename replaces, where that is
    /// less than the whole.
    pub rename_range: Option<Range>,
}

/// What a [`SymbolLocation`] holds.
pub struct LocationView {
    pub uri: Seq<char>,
    pub range: Range,
    pub rename_range: Option<Range>,
}

impl LocationView {
    /// The part of the occurrence that a rename replaces.
    pub open spec fn rename_span(self) -> Range {
        match self.rename_range {
            Some(range) => range,
            None => self.range,
        }
    }
}

impl View for SymbolLocation {
    type V = LocationView;

    open spec fn view(&self) -> LocationView {
        LocationView { uri: self.uri@, range: self.range, rename_range: self.rename_range }
    }
}

impl Clone for SymbolLocation {
    fn clone(&self) -> (r: SymbolLocation)
        ensures
            r@ == self@,
    {
        SymbolLocation {
            uri: self.uri.clone(),
            range: self.range,
            rename_range: self.rename_range,
        }
    }
}

impl SymbolLocation {
    /// The part of the occurrence that a rename replaces.
    pub fn rename_range(&self) -> (r: Range)
        ensures
            r == self@.rename_span(),
    {
        match self.rename_range {
            Some(range) => range,
            None => self.range,
        }
    }
}

// ---------------------------------------------------------------------------
// Metadata
// ---------------------------------------------------------------------------

/// Whether, and how far, an item can be moved.
#[derive(Debug)]
pub enum Movability {
    Free,
    Fixed(Option<String>),
    Restricted(Option<String>),
}

/// What a [`Movability`] holds.
pub enum MovabilityView {
    Free,
    Fixed(Option<Seq<char>>),
    Restricted(Option<Seq<char>>),
}

impl View for Movability {
    type V = MovabilityView;

    open spec fn view(&self) -> MovabilityView {
        match self {
            Movability::Free => MovabilityView::Free,
            Movability::Fixed(note) => MovabilityView::Fixed(opt_text(*note)),
            Movability::Restricted(note) => MovabilityView::Restricted(opt_text(*note)),
        }
    }
}

impl Clone for Movability {
    fn clone(&self) -> (r: Movability)
        ensures
            r@ == self@,
    {
        match self {
            Movability::Free => Movability::Free,
            Movability::Fixed(note) => Movability::Fixed(clone_opt_string(note)),
            Movability::Restricted(note) => Movability::Restricted(clone_opt_string(note)),
        }
    }
}

/// What an optional [`Movability`] holds.
pub open spec fn opt_movability(value: Option<Movability>) -> Option<MovabilityView> {
    match value {
        Some(m) => Some(m@),
        None => None,
    }
}

/// What the definition of a room says.
#[derive(Debug)]
pub struct RoomMetadata {
    pub name: Option<String>,
    pub description: Option<String>,
    pub exits: Vec<String>,
}

/// What a [`RoomMetadata`] holds.
pub struct RoomMetadataView {
    pub name: Option<Seq<char>>,
    pub description: Option<Seq<char>>,
    pub exits: Seq<Seq<char>>,
}

impl View for RoomMetadata {
    type V = RoomMetadataView;

    open spec fn view(&self) -> RoomMetadataView {
        RoomMetadataView {
            name: opt_text(self.name),
            description: opt_text(self.description),
            exits: strings_view(self.exits@),
        }
    }
}

impl Clone for RoomMetadata {
    fn clone(&self) -> (r: RoomMetadata)
        ensures
            r@ == self@,
    {
        RoomMetadata {
            name: clone_opt_string(&self.name),
            description: clone_opt_string(&self.description),
            exits: clone_strings(&self.exits),
        }
    }
}

/// What the definition of an item says.
#[derive(Debug)]
pub struct ItemMetadata {
    pub name: Option<String>,
    pub description: Option<String>,
    pub movability: Option<Movability>,
    pub location: Option<String>,
    pub container_state: Option<String>,
    pub abilities: Vec<String>,
    pub requirements: Vec<String>,
}

/// What an [`ItemMetadata`] holds.
pub struct ItemMetadataView {
    pub name: Option<Seq<char>>,
    pub description: Option<Seq<char>>,
    pub movability: Option<MovabilityView>,
    pub location: Option<Seq<char>>,
    pub container_state: Option<Seq<char>>,
    pub abilities: Seq<Seq<char>>,
    pub requirements: Seq<Seq<char>>,
}

impl View for ItemMetadata {
    type V = ItemMetadataView;

    open spec fn view(&self) -> ItemMetadataView {
        ItemMetadataView {
            name: opt_text(self.name),
            description: opt_text(self.description),
            movability: opt_movability(self.movability),
            location: opt_text(self.location),
            container_state: opt_text(self.container_state),
            abilities: strings_view(self.abilities@),
            requirements: strings_view(self.requirements@),
        }
    }
}

impl Clone for ItemMetadata {
    fn clone(&self) -> (r: ItemMetadata)
        ensures
            r@ == self@,
    {
        let movability = match &self.movability {
            Some(m) => Some(m.clone()),
            None => None,
        };
        ItemMetadata {
            name: clone_opt_string(&self.name),
            description: clone_opt_string(&self.description),
            movability,
            location: clone_opt_string(&self.location),
            container_state: clone_opt_string(&self.container_state),
            abilities: clone_strings(&self.abilities),
            requirements: clone_strings(&self.requirements),
        }
    }
}

/// What the definition of a character says.
#[derive(Debug)]
pub struct NpcMetadata {
    pub name: Option<String>,
    pub description: Option<String>,
    pub location: Option<String>,
    pub state: Option<String>,
}

/// What an [`NpcMetadata`] holds.
pub struct NpcMetadataView {
    pub name: Option<Seq<char>>,
    pub description: Option<Seq<char>>,
    pub location: Option<Seq<char>>,
    pub state: Option<Seq<char>>,
}

impl View for NpcMetadata {
    type V = NpcMetadataView;

    open spec fn view(&self) -> NpcMetadataView {
        NpcMetadataView {
            name: opt_text(self.name),
            description: opt_text(self.description),
            location: opt_text(self.location),
            state: opt_text(self.state),
        }
    }
}

impl Clone for NpcMetadata {
    fn clone(&self) -> (r: NpcMetadata)
        ensures
            r@ == self@,
    {
        NpcMetadata {
            name: clone_opt_string(&self.name),
            description: clone_opt_string(&self.description),
            location: clone_opt_string(&self.location),
            state: clone_opt_string(&self.state),
        }
    }
}

/// What is known of a flag: the trigger that sets it, and how many steps
/// it has if it is a sequence.
#[derive(Debug)]
pub struct FlagMetadata {
    pub defined_in: Option<String>,
    pub sequence_limit: Option<i64>,
}

/// What a [`FlagMetadata`] holds.
pub struct FlagMetadataView {
    pub defined_in: Option<Seq<char>>,
    pub sequence_limit: Option<i64>,
}

impl View for FlagMetadata {
    type V = FlagMetadataView;

    open spec fn view(&self) -> FlagMetadataView {
        FlagMetadataView {
            defined_in: opt_text(self.defined_in),
            sequence_limit: self.sequence_limit,
        }
    }
}

impl Clone for FlagMetadata {
    fn clone(&self) -> (r: FlagMetadata)
        ensures
            r@ == self@,
    {
        FlagMetadata {
            defined_in: clone_opt_string(&self.defined_in),
            sequence_limit: self.sequence_limit,
        }
    }
}

/// The rooms that a named set holds.
#[derive(Debug)]
pub struct SetMetadata {
    pub rooms: Vec<String>,
}

/// What a [`SetMetadata`] holds.
pub struct SetMetadataView {
    pub rooms: Seq<Seq<char>>,
}

impl View for SetMetadata {
    type V = SetMetadataView;

    open spec fn view(&self) -> SetMetadataView {
        SetMetadataView { rooms: strings_view(self.rooms@) }
    }
}

impl Clone for SetMetadata {
    fn clone(&self) -> (r: SetMetadata)
        ensures
            r@ == self@,
    {
        SetMetadata { rooms: clone_strings(&self.rooms) }
    }
}

/// What a definition says, by kind.
#[derive(Debug)]
pub enum SymbolMetadata {
    Room(RoomMetadata),
    Item(ItemMetadata),
    Npc(NpcMetadata),
    Flag(FlagMetadata),
    RoomSet(SetMetadata),
}

/// What a [`SymbolMetadata`] holds.
pub enum MetadataView {
    Room(RoomMetadataView),
    Item(ItemMetadataView),
    Npc(NpcMetadataView),
    Flag(FlagMetadataView),
    RoomSet(SetMetadataView),
}

impl View for SymbolMetadata {
    type V = MetadataView;

    open spec fn view(&self) -> MetadataView {
        match self {
            SymbolMetadata::Room(meta) => MetadataView::Room(meta@),
            SymbolMetadata::Item(meta) => MetadataView::Item(meta@),
            SymbolMetadata::Npc(meta) => MetadataView::Npc(meta@),
            SymbolMetadata::Flag(meta) => MetadataView::Flag(meta@),
            SymbolMetadata::RoomSet(meta) => MetadataView::RoomSet(meta@),
        }
    }
}

impl Clone for SymbolMetadata {
    fn clone(&self) -> (r: SymbolMetadata)
        ensures
            r@ == self@,
    {
        match self {
            SymbolMetadata::Room(meta) => SymbolMetadata::Room(meta.clone()),
            SymbolMetadata::Item(meta) => SymbolMetadata::Item(meta.clone()),
            SymbolMetadata::Npc(meta) => SymbolMetadata::Npc(meta.clone()),
            SymbolMetadata::Flag(meta) => SymbolMetadata::Flag(meta.clone()),
            SymbolMetadata::RoomSet(meta) => SymbolMetadata::RoomSet(meta.clone()),
        }
    }
}

// ---------------------------------------------------------------------------
// Definitions, references, occurrences
// ---------------------------------------------------------------------------

/// An occurrence that points at a definition.
#[derive(Debug)]
pub struct SymbolReference {
    pub location: SymbolLocation,
    /// The identifier as it is spelled at the occurrence.
    pub raw_id: String,
}

/// What a [`SymbolReference`] holds.
pub struct ReferenceView {
    pub location: LocationView,
    pub raw_id: Seq<char>,
}

impl View for SymbolReference {
    type V = ReferenceView;

    open spec fn view(&self) -> ReferenceView {
        ReferenceView { location: self.location@, raw_id: self.raw_id@ }
    }
}

impl Clone for SymbolReference {
    fn clone(&self) -> (r: SymbolReference)
        ensures
            r@ == self@,
    {
        SymbolReference { location: self.location.clone(), raw_id: self.raw_id.clone() }
    }
}

/// The occurrence that declares an identifier.
#[derive(Debug)]
pub struct SymbolDefinition {
    pub location: SymbolLocation,
    pub metadata: SymbolMetadata,
}

/// What a [`SymbolDefinition`] holds.
pub struct DefinitionView {
    pub location: LocationView,
    pub metadata: MetadataView,
}

impl View for SymbolDefinition {
    type V = DefinitionView;

    open spec fn view(&self) -> DefinitionView {
        DefinitionView { location: self.location@, metadata: self.metadata@ }
    }
}

impl Clone for SymbolDefinition {
    fn clone(&self) -> (r: SymbolDefinition)
        ensures
            r@ == self@,
    {
        SymbolDefinition { location: self.location.clone(), metadata: self.metadata.clone() }
    }
}

/// One occurrence of a symbol in a document, for finding the symbol at a
/// position.
#[derive(Debug)]
pub struct SymbolOccurrence {
    pub kind: SymbolKind,
    pub id: String,
    pub range: Range,
}

/// What a [`SymbolOccurrence`] holds.
pub struct OccurrenceView {
    pub kind: SymbolKind,
    pub id: Seq<char>,
    pub range: Range,
}

impl View for SymbolOccurrence {
    type V = OccurrenceView;

    open spec fn view(&self) -> OccurrenceView {
        OccurrenceView { kind: self.kind, id: self.id@, range: self.range }
    }
}

impl Clone for SymbolOccurrence {
    fn clone(&self) -> (r: SymbolOccurrence)
        ensures
            r@ == self@,
    {
        SymbolOccurrence { kind: self.kind, id: self.id.clone(), range: self.range }
    }
}

/// What the definitions of a list hold.
pub open spec fn definitions_view(list: Seq<SymbolDefinition>) -> Seq<DefinitionView> {
    Seq::new(list.len(), |i: int| list[i]@)
}

/// What the references of a list hold.
pub open spec fn references_view(list: Seq<SymbolReference>) -> Seq<ReferenceView> {
    Seq::new(list.len(), |i: int| list[i]@)
}

/// What the occurrences of a list hold.
pub open spec fn occurrences_view(list: Seq<SymbolOccurrence>) -> Seq<OccurrenceView> {
    Seq::new(list.len(), |i: int| list[i]@)
}

/// A copy of a list of definitions.
pub fn clone_definitions(list: &Vec<SymbolDefinition>) -> (r: Vec<SymbolDefinition>)
    ensures
        definitions_view(r@) == definitions_view(list@),
{
    let mut out: Vec<SymbolDefinition> = Vec::new();
    let mut i: usize = 0;
    while i < list.len()
        invariant
            i <= list.len(),
            definitions_view(out@) == definitions_view(list@).take(i as int),
        decreases list.len() - i,
    {
        let ghost before = definitions_view(out@);
        out.push(list[i].clone());
        proof {
            assert(definitions_view(out@) =~= before.push(list@[i as int]@));
            assert(definitions_view(list@).take(i + 1) =~= definitions_view(list@).take(
                i as int,
            ).push(list@[i as int]@));
        }
        i += 1;
    }
    proof {
        assert(definitions_view(list@).take(list.len() as int) =~= definitions_view(list@));
    }
    out
}

/// A copy of a list of references.
pub fn clone_references(list: &Vec<SymbolReference>) -> (r: Vec<SymbolReference>)
    ensures
        references_view(r@) == references_view(list@),
{
    let mut out: Vec<SymbolReference> = Vec::new();
    let mut i: usize = 0;
    while i < list.len()
        invariant
            i <= list.len(),
            references_view(out@) == references_view(list@).take(i as int),
        decreases list.len() - i,
    {
        let ghost before = references_view(out@);
        out.push(list[i].clone());
        proof {
            assert(references_view(out@) =~= before.push(list@[i as int]@));
            assert(references_view(list@).take(i + 1) =~= references_view(list@).take(
                i as int,
            ).push(list@[i as int]@));
        }
        i += 1;
    }
    proof {
        assert(references_view(list@).take(list.len() as int) =~= references_view(list@));
    }
    out
}

/// A copy of a list of occurrences.
pub fn clone_occurrences(list: &Vec<SymbolOccurrence>) -> (r: Vec<SymbolOccurrence>)
    ensures
        occurrences_view(r@) == occurrences_view(list@),
{
    let mut out: Vec<SymbolOccurrence> = Vec::new();
    let mut i: usize = 0;
    while i < list.len()
        invariant
            i <= list.len(),
            occurrences_view(out@) == occurrences_view(list@).take(i as int),
        decreases list.len() - i,
    {
        let ghost before = occurrences_view(out@);
        out.push(list[i].clone());
        proof {
            assert(occurrences_view(out@) =~= before.push(list@[i as int]@));
            assert(occurrences_view(list@).take(i + 1) =~= occurrences_view(list@).take(
                i as int,
            ).push(list@[i as int]@));
        }
        i += 1;
    }
    proof {
        assert(occurrences_view(list@).take(list.len() as int) =~= occurrences_view(list@));
    }
    out
}

// ---------------------------------------------------------------------------
// Markdown
// ---------------------------------------------------------------------------

/// `value` made safe for a line of markdown: trimmed, with `|` escaped and
/// each line break written as `<br>`.
pub open spec fn sanitized(value: Seq<char>) -> Seq<char> {
    replace_char(replace_char(trim(value), '|', seq!['\\', '|']), '\n', seq!['<', 'b', 'r', '>'])
}

/// `value` made safe for a line of markdown.
pub fn sanitize_chars(value: &Vec<char>) -> (r: Vec<char>)
    ensures
        r@ == sanitized(value@),
{
    let trimmed = trim_chars(value);
    let mut bar: Vec<char> = Vec::new();
    bar.push('\\');
    bar.push('|');
    let mut br: Vec<char> = Vec::new();
    br.push('<');
    br.push('b');
    br.push('r');
    br.push('>');
    proof {
        assert(bar@ =~= seq!['\\', '|']);
        assert(br@ =~= seq!['<', 'b', 'r', '>']);
    }
    let escaped = replace_in_chars(&trimmed, '|', &bar);
    replace_in_chars(&escaped, '\n', &br)
}

/// `value` made safe for a line of markdown: trimmed, with `|` escaped and
/// each line break written as `<br>`.
pub fn sanitize_markdown(value: &str) -> (r: String)
    ensures
        r@ == sanitized(value@),
{
    let chars = to_chars(value);
    let out = sanitize_chars(&chars);
    from_chars(&out)
}

} // verus!
