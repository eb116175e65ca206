//! What a walk over a syntax tree gathers: the declarations of the room in
//! which the player starts, and the bodies of scheduled actions.
//!
//! The body of a scheduled action is kept by the grammar as text that is
//! run later. To find the symbols in it, the body is put behind a fixed
//! prefix that makes it a whole trigger, the result is parsed on its own,
//! and what is found there is carried back to the place of the body in the
//! document.

use crate::chars::{extend_chars, extend_str, from_chars, to_chars, is_blank, trim};
use crate::extract::{
    extract_flag_sequence_limit, find_trigger_name, node_trimmed, sequence_limit_of,
    trigger_name_of,
};
use crate::spans::{
    flag_rename_range, is_definition_parent, is_definition_parent_for_kind, node_range,
    normalize_flag_chars, normalized_flag, range_from_node,
};
use crate::symbols::{clone_opt_string, opt_text, SymbolKind};
use crate::syntax::{child_by_field, node_text, subtree_walk, SyntaxTree, TreeView};
use crate::text::{position_of, Document, Range};
use vstd::prelude::*;
use vstd::utf8::encode_utf8;

verus! {

/// The nodes that a list of node numbers names.
pub open spec fn ids_view(list: Seq<usize>) -> Seq<int> {
    Seq::new(list.len(), |i: int| list[i] as int)
}

// ---------------------------------------------------------------------------
// Where the player starts
// ---------------------------------------------------------------------------

/// A declaration of the room in which the player starts.
#[derive(Debug)]
pub struct PlayerStart {
    pub room_id: String,
    pub range: Range,
    pub uri: String,
}

/// What a [`PlayerStart`] holds.
pub struct PlayerStartView {
    pub room_id: Seq<char>,
    pub range: Range,
    pub uri: Seq<char>,
}

impl View for PlayerStart {
    type V = PlayerStartView;

    open spec fn view(&self) -> PlayerStartView {
        PlayerStartView { room_id: self.room_id@, range: self.range, uri: self.uri@ }
    }
}

impl Clone for PlayerStart {
    fn clone(&self) -> (r: PlayerStart)
        ensures
            r@ == self@,
    {
        PlayerStart { room_id: self.room_id.clone(), range: self.range, uri: self.uri.clone() }
    }
}

/// What the declarations of a list hold.
pub open spec fn player_starts_view(list: Seq<PlayerStart>) -> Seq<PlayerStartView> {
    Seq::new(list.len(), |i: int| list[i]@)
}

/// A copy of a list of declarations.
pub fn clone_player_starts(list: &Vec<PlayerStart>) -> (r: Vec<PlayerStart>)
    ensures
        player_starts_view(r@) == player_starts_view(list@),
{
    let mut out: Vec<PlayerStart> = Vec::new();
    let mut i: usize = 0;
    while i < list.len()
        invariant
            i <= list.len(),
            player_starts_view(out@) == player_starts_view(list@).take(i as int),
        decreases list.len() - i,
    {
        let ghost before = player_starts_view(out@);
        out.push(list[i].clone());
        proof {
            assert(player_starts_view(out@) =~= before.push(list@[i as int]@));
            assert(player_starts_view(list@).take(i + 1) =~= player_starts_view(list@).take(
                i as int,
            ).push(list@[i as int]@));
        }
        i += 1;
    }
    proof {
        assert(player_starts_view(list@).take(list.len() as int) =~= player_starts_view(list@));
    }
    out
}

/// The declaration that node `node` makes, if it is a `player_start` that
/// names a room.
pub open spec fn player_start_at(t: TreeView, text: Seq<char>, uri: Seq<char>, node: int)
    -> Option<PlayerStartView> {
    if t[node].kind == "player_start"@ {
        match child_by_field(t, node, "room_id"@) {
            Some(room) => if node_trimmed(t, text, room).len() > 0 {
                Some(
                    PlayerStartView {
                        room_id: node_trimmed(t, text, room),
                        range: node_range(t, text, room),
                        uri,
                    },
                )
            } else {
                None
            },
            None => None,
        }
    } else {
        None
    }
}

/// The declarations that the nodes `nodes` make, in order.
pub open spec fn player_starts_among(
    t: TreeView,
    text: Seq<char>,
    uri: Seq<char>,
    nodes: Seq<int>,
) -> Seq<PlayerStartView>
    decreases nodes.len(),
{
    if nodes.len() == 0 {
        Seq::empty()
    } else {
        let before = player_starts_among(t, text, uri, nodes.drop_last());
        match player_start_at(t, text, uri, nodes.last()) {
            Some(start) => before.push(start),
            None => before,
        }
    }
}

/// The declarations of the tree `t`, in the order of the walk.
pub open spec fn player_starts_of(t: TreeView, text: Seq<char>, uri: Seq<char>) -> Seq<
    PlayerStartView,
> {
    player_starts_among(t, text, uri, subtree_walk(t, 0))
}

/// Every declaration of the room in which the player starts that the tree
/// of `document` holds.
pub fn collect_player_starts(document: &Document, tree: &SyntaxTree, uri: &str) -> (r: Vec<
    PlayerStart,
>)
    ensures
        player_starts_view(r@) == player_starts_of(tree@, document@, uri@),
{
    let text = document.text();
    let n = tree.len();
    let order = tree.walk(0);
    let ghost walk = subtree_walk(tree@, 0);
    let mut out: Vec<PlayerStart> = Vec::new();
    let mut k: usize = 0;
    proof {
        assert(walk.take(0) =~= Seq::<int>::empty());
        assert(player_starts_view(out@) =~= Seq::<PlayerStartView>::empty());
    }
    while k < order.len()
        invariant
            k <= order.len(),
            order@.len() == walk.len(),
            walk == subtree_walk(tree@, 0),
            text@ == document@,
            forall|j: int| 0 <= j < order@.len() ==> order@[j] as int == walk[j],
            forall|j: int| 0 <= j < order@.len() ==> (#[trigger] order@[j]) < tree@.len(),
            player_starts_view(out@) == player_starts_among(
                tree@,
                text@,
                uri@,
                walk.take(k as int),
            ),
        decreases order.len() - k,
    {
        let node = order[k];
        let ghost before = player_starts_view(out@);
        proof {
            assert(walk.take(k + 1).drop_last() =~= walk.take(k as int));
            assert(walk.take(k + 1).last() == node);
        }
        if tree.kind_is(node, "player_start") {
            match tree.child_by_field_name(node, "room_id") {
                Some(room) => {
                    let raw = tree.text_of(room, text);
                    let id = crate::chars::trim_chars(&raw);
                    if id.len() > 0 {
                        let range = range_from_node(document, tree, room);
                        out.push(
                            PlayerStart {
                                room_id: from_chars(&id),
                                range,
                                uri: from_chars(&to_chars(uri)),
                            },
                        );
                        proof {
                            assert(player_starts_view(out@) =~= before.push(
                                player_start_at(tree@, text@, uri@, node as int)->0,
                            ));
                        }
                    }
                },
                None => {},
            }
        }
        k += 1;
    }
    proof {
        assert(walk.take(order.len() as int) =~= walk);
    }
    out
}

// ---------------------------------------------------------------------------
// Scheduled bodies
// ---------------------------------------------------------------------------

/// The text that is put before the body of a scheduled action to make it
/// a trigger that can be parsed on its own.
pub open spec fn wrapper_prefix() -> Seq<char> {
    "trigger \"__amble_schedule__\" when always "@
}

/// The number of bytes of [`wrapper_prefix`].
pub const WRAPPER_PREFIX_LEN: usize = 41;

/// The prefix is as long as [`WRAPPER_PREFIX_LEN`] says, in characters and
/// in bytes.
pub proof fn lemma_wrapper_prefix_len()
    ensures
        wrapper_prefix().len() == WRAPPER_PREFIX_LEN,
        encode_utf8(wrapper_prefix()).len() == WRAPPER_PREFIX_LEN,
{
    reveal_strlit("trigger \"__amble_schedule__\" when always ");
    let s = wrapper_prefix();
    assert(s.len() == 41);
    assert(vstd::utf8::is_ascii_chars(s)) by {
        assert forall|i: int| 0 <= i < s.len() implies '\0' <= #[trigger] s[i] <= '\u{7f}' by {
            reveal_strlit("trigger \"__amble_schedule__\" when always ");
        }
    }
    vstd::utf8::is_ascii_chars_encode_utf8(s);
}

/// The scheduled actions among `nodes` that have a body, each with its
/// body.
pub open spec fn schedule_nodes_among(t: TreeView, nodes: Seq<int>) -> Seq<(int, int)>
    decreases nodes.len(),
{
    if nodes.len() == 0 {
        Seq::empty()
    } else {
        let before = schedule_nodes_among(t, nodes.drop_last());
        let node = nodes.last();
        if t[node].kind == "action_schedule"@ && child_by_field(t, node, "body"@) is Some {
            before.push((node, child_by_field(t, node, "body"@)->0))
        } else {
            before
        }
    }
}

/// The scheduled actions of `t` that have a body, each with its body, in
/// the order of the walk.
pub open spec fn schedule_nodes_of(t: TreeView) -> Seq<(int, int)> {
    schedule_nodes_among(t, subtree_walk(t, 0))
}

/// The pairs of nodes that a list of pairs of node numbers names.
pub open spec fn pairs_view(list: Seq<(usize, usize)>) -> Seq<(int, int)> {
    Seq::new(list.len(), |i: int| (list[i].0 as int, list[i].1 as int))
}

/// The scheduled actions of `tree` that have a body, each with its body.
pub fn collect_schedule_nodes(tree: &SyntaxTree) -> (r: Vec<(usize, usize)>)
    ensures
        pairs_view(r@) == schedule_nodes_of(tree@),
        forall|i: int|
            0 <= i < r@.len() ==> (#[trigger] r@[i]).0 < tree@.len() && r@[i].1 < tree@.len(),
{
    let n = tree.len();
    let order = tree.walk(0);
    let ghost walk = subtree_walk(tree@, 0);
    let mut out: Vec<(usize, usize)> = Vec::new();
    let mut k: usize = 0;
    proof {
        assert(walk.take(0) =~= Seq::<int>::empty());
        assert(pairs_view(out@) =~= Seq::<(int, int)>::empty());
    }
    while k < order.len()
        invariant
            k <= order.len(),
            order@.len() == walk.len(),
            walk == subtree_walk(tree@, 0),
            forall|j: int| 0 <= j < order@.len() ==> order@[j] as int == walk[j],
            forall|j: int| 0 <= j < order@.len() ==> (#[trigger] order@[j]) < tree@.len(),
            pairs_view(out@) == schedule_nodes_among(tree@, walk.take(k as int)),
            forall|i: int|
                0 <= i < out@.len() ==> (#[trigger] out@[i]).0 < tree@.len() && out@[i].1
                    < tree@.len(),
        decreases order.len() - k,
    {
        let node = order[k];
        let ghost before = pairs_view(out@);
        proof {
            assert(walk.take(k + 1).drop_last() =~= walk.take(k as int));
            assert(walk.take(k + 1).last() == node);
        }
        if tree.kind_is(node, "action_schedule") {
            match tree.child_by_field_name(node, "body") {
                Some(body) => {
                    out.push((node, body));
                    proof {
                        assert(pairs_view(out@) =~= before.push((node as int, body as int)));
                    }
                },
                None => {},
            }
        }
        k += 1;
    }
    proof {
        assert(walk.take(order.len() as int) =~= walk);
    }
    out
}

/// The body of a scheduled action, made ready to be parsed on its own.
#[derive(Debug)]
pub struct ScheduleFragment {
    /// The scheduled action.
    pub schedule_node: usize,
    /// Its body.
    pub body_node: usize,
    /// Where the body begins in the document, in bytes.
    pub body_start: usize,
    /// The length of the body, in bytes.
    pub body_len: usize,
    /// The text to parse: the prefix, then the body.
    pub wrapped: String,
    /// The name of the trigger in which the scheduled action stands.
    pub defined_in: Option<String>,
}

/// What a [`ScheduleFragment`] holds.
pub struct FragmentView {
    pub schedule_node: int,
    pub body_node: int,
    pub body_start: int,
    pub body_len: int,
    pub wrapped: Seq<char>,
    pub defined_in: Option<Seq<char>>,
}

impl View for ScheduleFragment {
    type V = FragmentView;

    open spec fn view(&self) -> FragmentView {
        FragmentView {
            schedule_node: self.schedule_node as int,
            body_node: self.body_node as int,
            body_start: self.body_start as int,
            body_len: self.body_len as int,
            wrapped: self.wrapped@,
            defined_in: opt_text(self.defined_in),
        }
    }
}

/// What the fragments of a list hold.
pub open spec fn fragments_view(list: Seq<ScheduleFragment>) -> Seq<FragmentView> {
    Seq::new(list.len(), |i: int| list[i]@)
}

/// The number of bytes that node `i` spans.
pub open spec fn span_len(t: TreeView, i: int) -> int {
    if t[i].end_byte >= t[i].start_byte {
        t[i].end_byte - t[i].start_byte
    } else {
        0
    }
}

/// The fragment of the scheduled action `node` with the body `body`;
/// nothing where the body is blank.
pub open spec fn fragment_of(t: TreeView, text: Seq<char>, node: int, body: int) -> Option<
    FragmentView,
> {
    if trim(node_text(t, text, body)).len() > 0 {
        Some(
            FragmentView {
                schedule_node: node,
                body_node: body,
                body_start: t[body].start_byte,
                body_len: span_len(t, body),
                wrapped: wrapper_prefix() + node_text(t, text, body),
                defined_in: trigger_name_of(t, text, node),
            },
        )
    } else {
        None
    }
}

/// The fragments of the scheduled actions `pairs`, in order.
pub open spec fn fragments_among(t: TreeView, text: Seq<char>, pairs: Seq<(int, int)>) -> Seq<
    FragmentView,
>
    decreases pairs.len(),
{
    if pairs.len() == 0 {
        Seq::empty()
    } else {
        let before = fragments_among(t, text, pairs.drop_last());
        match fragment_of(t, text, pairs.last().0, pairs.last().1) {
            Some(fragment) => before.push(fragment),
            None => before,
        }
    }
}

/// The fragments of the tree `t`: one for each scheduled action whose body
/// is not blank, in the order of the walk.
pub open spec fn schedule_fragments_of(t: TreeView, text: Seq<char>) -> Seq<FragmentView> {
    fragments_among(t, text, schedule_nodes_of(t))
}

/// The bodies of the scheduled actions of `tree`, each made ready to be
/// parsed on its own.
pub fn schedule_fragments(tree: &SyntaxTree, text: &str) -> (r: Vec<ScheduleFragment>)
    ensures
        fragments_view(r@) == schedule_fragments_of(tree@, text@),
{
    let pairs = collect_schedule_nodes(tree);
    let ghost all = schedule_nodes_of(tree@);
    let mut out: Vec<ScheduleFragment> = Vec::new();
    let mut k: usize = 0;
    proof {
        assert(all.take(0) =~= Seq::<(int, int)>::empty());
        assert(fragments_view(out@) =~= Seq::<FragmentView>::empty());
    }
    while k < pairs.len()
        invariant
            k <= pairs.len(),
            pairs_view(pairs@) == all,
            forall|i: int|
                0 <= i < pairs@.len() ==> (#[trigger] pairs@[i]).0 < tree@.len() && pairs@[i].1
                    < tree@.len(),
            fragments_view(out@) == fragments_among(tree@, text@, all.take(k as int)),
        decreases pairs.len() - k,
    {
        let node = pairs[k].0;
        let body = pairs[k].1;
        let ghost before = fragments_view(out@);
        proof {
            assert(all.take(k + 1).drop_last() =~= all.take(k as int));
            assert(all[k as int] == pairs_view(pairs@)[k as int]);
            assert(all.take(k + 1).last() == (node as int, body as int));
        }
        let body_text = tree.text_of(body, text);
        if !is_blank(&body_text) {
            let mut wrapped: Vec<char> = Vec::new();
            extend_str(&mut wrapped, "trigger \"__amble_schedule__\" when always ");
            extend_chars(&mut wrapped, &body_text);
            proof {
                assert(wrapped@ =~= wrapper_prefix() + body_text@);
            }
            let start = tree.node(body).start_byte;
            let end = tree.node(body).end_byte;
            let body_len = if end >= start {
                end - start
            } else {
                0
            };
            out.push(
                ScheduleFragment {
                    schedule_node: node,
                    body_node: body,
                    body_start: start,
                    body_len,
                    wrapped: from_chars(&wrapped),
                    defined_in: find_trigger_name(tree, node, text),
                },
            );
            proof {
                assert(fragments_view(out@) =~= before.push(
                    fragment_of(tree@, text@, node as int, body as int)->0,
                ));
            }
        }
        k += 1;
    }
    proof {
        assert(all.take(pairs.len() as int) =~= all);
    }
    out
}

// ---------------------------------------------------------------------------
// Carrying spans back
// ---------------------------------------------------------------------------

/// Where the span from `capture_start` to `capture_end` of a wrapped body
/// lies in the document, for a body of `body_len` bytes that begins at
/// `body_start`. Nothing where the span begins in the prefix, ends beyond
/// the body, ends before it begins, or would lie beyond what a `usize` can
/// hold.
pub open spec fn remapped_span(
    body_start: int,
    body_len: int,
    capture_start: int,
    capture_end: int,
) -> Option<(int, int)> {
    let relative_start = capture_start - WRAPPER_PREFIX_LEN;
    let relative_end = if capture_end >= WRAPPER_PREFIX_LEN {
        capture_end - WRAPPER_PREFIX_LEN
    } else {
        0
    };
    if capture_start < WRAPPER_PREFIX_LEN || relative_end > body_len || relative_end
        < relative_start || body_start + relative_end > usize::MAX {
        None
    } else {
        Some((body_start + relative_start, body_start + relative_end))
    }
}

/// The range in the document `text` of a span of a wrapped body.
pub open spec fn remapped_range(
    text: Seq<char>,
    body_start: int,
    body_len: int,
    capture_start: int,
    capture_end: int,
) -> Option<Range> {
    match remapped_span(body_start, body_len, capture_start, capture_end) {
        Some((start, end)) => Some(
            Range {
                start: position_of(encode_utf8(text), start),
                end: position_of(encode_utf8(text), end),
            },
        ),
        None => None,
    }
}

/// The range in `document` of the span from `capture_start` to
/// `capture_end` of a wrapped body.
pub fn remap_schedule_capture_range(
    document: &Document,
    body_start: usize,
    body_len: usize,
    capture_start: usize,
    capture_end: usize,
) -> (r: Option<Range>)
    ensures
        r == remapped_range(
            document@,
            body_start as int,
            body_len as int,
            capture_start as int,
            capture_end as int,
        ),
{
    if capture_start < WRAPPER_PREFIX_LEN {
        return None;
    }
    let relative_start = capture_start - WRAPPER_PREFIX_LEN;
    let relative_end = if capture_end >= WRAPPER_PREFIX_LEN {
        capture_end - WRAPPER_PREFIX_LEN
    } else {
        0
    };
    if relative_end > body_len || relative_end < relative_start {
        return None;
    }
    if relative_end > usize::MAX - body_start {
        return None;
    }
    let absolute_start = body_start + relative_start;
    let absolute_end = body_start + relative_end;
    Some(
        Range {
            start: document.position_at(absolute_start),
            end: document.position_at(absolute_end),
        },
    )
}

// ---------------------------------------------------------------------------
// What a parser hands over
// ---------------------------------------------------------------------------

/// The nodes that the queries for definitions and references found, one
/// list for each query, each in the order in which the query gave them.
#[derive(Debug)]
pub struct QueryCaptures {
    pub room_definitions: Vec<usize>,
    pub room_references: Vec<usize>,
    pub item_definitions: Vec<usize>,
    pub item_references: Vec<usize>,
    pub npc_definitions: Vec<usize>,
    pub npc_references: Vec<usize>,
    pub flag_definitions: Vec<usize>,
    pub flag_references: Vec<usize>,
    pub set_definitions: Vec<usize>,
    pub set_references: Vec<usize>,
}

/// What a [`QueryCaptures`] holds.
pub struct CapturesView {
    pub room_definitions: Seq<int>,
    pub room_references: Seq<int>,
    pub item_definitions: Seq<int>,
    pub item_references: Seq<int>,
    pub npc_definitions: Seq<int>,
    pub npc_references: Seq<int>,
    pub flag_definitions: Seq<int>,
    pub flag_references: Seq<int>,
    pub set_definitions: Seq<int>,
    pub set_references: Seq<int>,
}

impl CapturesView {
    /// The nodes that the query for definitions of `kind` found.
    pub open spec fn definitions(self, kind: SymbolKind) -> Seq<int> {
        match kind {
            SymbolKind::Room => self.room_definitions,
            SymbolKind::Item => self.item_definitions,
            SymbolKind::Npc => self.npc_definitions,
            SymbolKind::Flag => self.flag_definitions,
            SymbolKind::RoomSet => self.set_definitions,
        }
    }

    /// The nodes that the query for references of `kind` found.
    pub open spec fn references(self, kind: SymbolKind) -> Seq<int> {
        match kind {
            SymbolKind::Room => self.room_references,
            SymbolKind::Item => self.item_references,
            SymbolKind::Npc => self.npc_references,
            SymbolKind::Flag => self.flag_references,
            SymbolKind::RoomSet => self.set_references,
        }
    }
}

impl View for QueryCaptures {
    type V = CapturesView;

    open spec fn view(&self) -> CapturesView {
        CapturesView {
            room_definitions: ids_view(self.room_definitions@),
            room_references: ids_view(self.room_references@),
            item_definitions: ids_view(self.item_definitions@),
            item_references: ids_view(self.item_references@),
            npc_definitions: ids_view(self.npc_definitions@),
            npc_references: ids_view(self.npc_references@),
            flag_definitions: ids_view(self.flag_definitions@),
            flag_references: ids_view(self.flag_references@),
            set_definitions: ids_view(self.set_definitions@),
            set_references: ids_view(self.set_references@),
        }
    }
}

impl QueryCaptures {
    /// No captures at all.
    pub fn new() -> (r: QueryCaptures)
        ensures
            forall|kind: SymbolKind| #[trigger] r@.definitions(kind).len() == 0,
            forall|kind: SymbolKind| #[trigger] r@.references(kind).len() == 0,
    {
        QueryCaptures {
            room_definitions: Vec::new(),
            room_references: Vec::new(),
            item_definitions: Vec::new(),
            item_references: Vec::new(),
            npc_definitions: Vec::new(),
            npc_references: Vec::new(),
            flag_definitions: Vec::new(),
            flag_references: Vec::new(),
            set_definitions: Vec::new(),
            set_references: Vec::new(),
        }
    }

    /// The nodes that the query for definitions of `kind` found.
    pub fn definitions(&self, kind: SymbolKind) -> (r: &Vec<usize>)
        ensures
            ids_view(r@) == self@.definitions(kind),
    {
        match kind {
            SymbolKind::Room => &self.room_definitions,
            SymbolKind::Item => &self.item_definitions,
            SymbolKind::Npc => &self.npc_definitions,
            SymbolKind::Flag => &self.flag_definitions,
            SymbolKind::RoomSet => &self.set_definitions,
        }
    }

    /// The nodes that the query for references of `kind` found.
    pub fn references(&self, kind: SymbolKind) -> (r: &Vec<usize>)
        ensures
            ids_view(r@) == self@.references(kind),
    {
        match kind {
            SymbolKind::Room => &self.room_references,
            SymbolKind::Item => &self.item_references,
            SymbolKind::Npc => &self.npc_references,
            SymbolKind::Flag => &self.flag_references,
            SymbolKind::RoomSet => &self.set_references,
        }
    }
}

/// A parsed text: its tree, and what the queries found in it.
#[derive(Debug)]
pub struct ParsedSource {
    pub tree: SyntaxTree,
    pub captures: QueryCaptures,
}

/// What a [`ParsedSource`] holds.
pub struct ParsedView {
    pub tree: TreeView,
    pub captures: CapturesView,
}

impl View for ParsedSource {
    type V = ParsedView;

    open spec fn view(&self) -> ParsedView {
        ParsedView { tree: self.tree@, captures: self.captures@ }
    }
}

/// What an optional parsed text holds.
pub open spec fn opt_parsed(value: Option<ParsedSource>) -> Option<ParsedView> {
    match value {
        Some(parsed) => Some(parsed@),
        None => None,
    }
}

/// What the parsed texts of a list hold.
pub open spec fn parses_view(list: Seq<Option<ParsedSource>>) -> Seq<Option<ParsedView>> {
    Seq::new(list.len(), |i: int| opt_parsed(list[i]))
}

// ---------------------------------------------------------------------------
// Flag definitions in scheduled bodies
// ---------------------------------------------------------------------------

/// A flag that an action in a scheduled body defines.
#[derive(Debug)]
pub struct ScheduleFlagDefinition {
    pub id: String,
    pub range: Range,
    pub defined_in: Option<String>,
    pub sequence_limit: Option<i64>,
}

/// What a [`ScheduleFlagDefinition`] holds.
pub struct ScheduleFlagDefinitionView {
    pub id: Seq<char>,
    pub range: Range,
    pub defined_in: Option<Seq<char>>,
    pub sequence_limit: Option<i64>,
}

impl View for ScheduleFlagDefinition {
    type V = ScheduleFlagDefinitionView;

    open spec fn view(&self) -> ScheduleFlagDefinitionView {
        ScheduleFlagDefinitionView {
            id: self.id@,
            range: self.range,
            defined_in: opt_text(self.defined_in),
            sequence_limit: self.sequence_limit,
        }
    }
}

/// What the definitions of a list hold.
pub open spec fn schedule_definitions_view(list: Seq<ScheduleFlagDefinition>) -> Seq<
    ScheduleFlagDefinitionView,
> {
    Seq::new(list.len(), |i: int| list[i]@)
}

/// The definition that the capture `node` of the parsed fragment makes:
/// its name, its place in the document, the trigger of the fragment, and
/// the number of steps that the defining action states. Nothing where the
/// capture is no node of the tree, is blank, or has no place in the
/// document.
pub open spec fn schedule_definition_at(
    text: Seq<char>,
    f: FragmentView,
    ft: TreeView,
    node: int,
) -> Option<ScheduleFlagDefinitionView> {
    let name = node_trimmed(ft, f.wrapped, node);
    if !(0 <= node < ft.len()) || name.len() == 0 {
        None
    } else {
        match remapped_range(text, f.body_start, f.body_len, ft[node].start_byte, ft[node].end_byte) {
            Some(range) => Some(
                ScheduleFlagDefinitionView {
                    id: name,
                    range,
                    defined_in: f.defined_in,
                    sequence_limit: match ft[node].parent {
                        Some(p) => sequence_limit_of(ft, f.wrapped, p),
                        None => None,
                    },
                },
            ),
            None => None,
        }
    }
}

/// The definitions that the captures `captures` of a parsed fragment make,
/// in order.
pub open spec fn schedule_definitions_in(
    text: Seq<char>,
    f: FragmentView,
    ft: TreeView,
    captures: Seq<int>,
) -> Seq<ScheduleFlagDefinitionView>
    decreases captures.len(),
{
    if captures.len() == 0 {
        Seq::empty()
    } else {
        let before = schedule_definitions_in(text, f, ft, captures.drop_last());
        match schedule_definition_at(text, f, ft, captures.last()) {
            Some(definition) => before.push(definition),
            None => before,
        }
    }
}

/// The definitions that the fragments make, fragment by fragment. A
/// fragment for which there is no parsed text gives none.
pub open spec fn schedule_definitions_all(
    text: Seq<char>,
    fragments: Seq<FragmentView>,
    parses: Seq<Option<ParsedView>>,
) -> Seq<ScheduleFlagDefinitionView>
    decreases fragments.len(),
{
    if fragments.len() == 0 {
        Seq::empty()
    } else {
        let k = fragments.len() - 1;
        let before = schedule_definitions_all(text, fragments.drop_last(), parses);
        if k < parses.len() && parses[k] is Some {
            before + schedule_definitions_in(
                text,
                fragments[k],
                parses[k]->0.tree,
                parses[k]->0.captures.flag_definitions,
            )
        } else {
            before
        }
    }
}

fn push_fragment_definitions(
    out: &mut Vec<ScheduleFlagDefinition>,
    document: &Document,
    fragment: &ScheduleFragment,
    parsed: &ParsedSource,
)
    ensures
        schedule_definitions_view(final(out)@) == schedule_definitions_view(old(out)@)
            + schedule_definitions_in(
            document@,
            fragment@,
            parsed@.tree,
            parsed@.captures.flag_definitions,
        ),
{
    let tree = &parsed.tree;
    let wrapped = fragment.wrapped.as_str();
    let captures = &parsed.captures.flag_definitions;
    let ghost list = ids_view(captures@);
    let ghost start = schedule_definitions_view(out@);
    let n = tree.len();
    let mut k: usize = 0;
    proof {
        assert(list.take(0) =~= Seq::<int>::empty());
        assert(schedule_definitions_view(out@) =~= start + Seq::<
            ScheduleFlagDefinitionView,
        >::empty());
    }
    while k < captures.len()
        invariant
            k <= captures.len(),
            n == tree@.len(),
            tree@ == parsed@.tree,
            wrapped@ == fragment@.wrapped,
            list == ids_view(captures@),
            schedule_definitions_view(out@) == start + schedule_definitions_in(
                document@,
                fragment@,
                tree@,
                list.take(k as int),
            ),
        decreases captures.len() - k,
    {
        let node = captures[k];
        let ghost before = schedule_definitions_view(out@);
        let ghost done = schedule_definitions_in(document@, fragment@, tree@, list.take(k as int));
        proof {
            assert(list.take(k + 1).drop_last() =~= list.take(k as int));
            assert(list.take(k + 1).last() == node);
        }
        if node < n {
            let raw = tree.text_of(node, wrapped);
            let name = crate::chars::trim_chars(&raw);
            if name.len() > 0 {
                let start_byte = tree.node(node).start_byte;
                let end_byte = tree.node(node).end_byte;
                match remap_schedule_capture_range(
                    document,
                    fragment.body_start,
                    fragment.body_len,
                    start_byte,
                    end_byte,
                ) {
                    Some(range) => {
                        let sequence_limit = match tree.parent(node) {
                            Some(p) => extract_flag_sequence_limit(tree, p, wrapped),
                            None => None,
                        };
                        out.push(
                            ScheduleFlagDefinition {
                                id: from_chars(&name),
                                range,
                                defined_in: clone_opt_string(&fragment.defined_in),
                                sequence_limit,
                            },
                        );
                        proof {
                            let made = schedule_definition_at(
                                document@,
                                fragment@,
                                tree@,
                                node as int,
                            )->0;
                            assert(schedule_definitions_view(out@) =~= before.push(made));
                            assert(before.push(made) =~= start + done.push(made));
                        }
                    },
                    None => {},
                }
            }
        }
        k += 1;
    }
    proof {
        assert(list.take(captures.len() as int) =~= list);
    }
}

/// The flags that the actions in the scheduled bodies define. `parses`
/// holds, for each fragment in order, what the parser made of its wrapped
/// text, or `None` where it made nothing of it.
pub fn collect_schedule_flag_definitions(
    document: &Document,
    fragments: &Vec<ScheduleFragment>,
    parses: &Vec<Option<ParsedSource>>,
) -> (r: Vec<ScheduleFlagDefinition>)
    ensures
        schedule_definitions_view(r@) == schedule_definitions_all(
            document@,
            fragments_view(fragments@),
            parses_view(parses@),
        ),
{
    let mut out: Vec<ScheduleFlagDefinition> = Vec::new();
    let ghost all = fragments_view(fragments@);
    let ghost given = parses_view(parses@);
    let mut k: usize = 0;
    proof {
        assert(all.take(0) =~= Seq::<FragmentView>::empty());
        assert(schedule_definitions_view(out@) =~= Seq::<ScheduleFlagDefinitionView>::empty());
    }
    while k < fragments.len()
        invariant
            k <= fragments.len(),
            all == fragments_view(fragments@),
            given == parses_view(parses@),
            schedule_definitions_view(out@) == schedule_definitions_all(
                document@,
                all.take(k as int),
                given,
            ),
        decreases fragments.len() - k,
    {
        proof {
            assert(all.take(k + 1).drop_last() =~= all.take(k as int));
            assert(all.take(k + 1)[k as int] == fragments@[k as int]@);
        }
        if k < parses.len() {
            proof {
                assert(given[k as int] == opt_parsed(parses@[k as int]));
            }
            match &parses[k] {
                Some(parsed) => {
                    push_fragment_definitions(&mut out, document, &fragments[k], parsed);
                },
                None => {},
            }
        }
        k += 1;
    }
    proof {
        assert(all.take(fragments.len() as int) =~= all);
    }
    out
}

// ---------------------------------------------------------------------------
// References in scheduled bodies
// ---------------------------------------------------------------------------

/// A reference that an action in a scheduled body makes.
#[derive(Debug)]
pub struct ScheduleSymbolReference {
    pub kind: SymbolKind,
    pub id: String,
    pub raw_id: String,
    pub range: Range,
    pub rename_range: Option<Range>,
}

/// What a [`ScheduleSymbolReference`] holds.
pub struct ScheduleSymbolReferenceView {
    pub kind: SymbolKind,
    pub id: Seq<char>,
    pub raw_id: Seq<char>,
    pub range: Range,
    pub rename_range: Option<Range>,
}

impl View for ScheduleSymbolReference {
    type V = ScheduleSymbolReferenceView;

    open spec fn view(&self) -> ScheduleSymbolReferenceView {
        ScheduleSymbolReferenceView {
            kind: self.kind,
            id: self.id@,
            raw_id: self.raw_id@,
            range: self.range,
            rename_range: self.rename_range,
        }
    }
}

/// What the references of a list hold.
pub open spec fn schedule_references_view(list: Seq<ScheduleSymbolReference>) -> Seq<
    ScheduleSymbolReferenceView,
> {
    Seq::new(list.len(), |i: int| list[i]@)
}

/// The identifier under which a reference of kind `kind` spelled `raw` is
/// indexed.
pub open spec fn reference_key(kind: SymbolKind, raw: Seq<char>) -> Seq<char> {
    if kind == SymbolKind::Flag {
        normalized_flag(raw)
    } else {
        raw
    }
}

/// The part of `range` that a rename of a reference of kind `kind` spelled
/// `raw` replaces, where that is less than the whole.
pub open spec fn reference_rename_range(kind: SymbolKind, raw: Seq<char>, range: Range) -> Option<
    Range,
> {
    if kind == SymbolKind::Flag {
        flag_rename_range(raw, range)
    } else {
        None
    }
}

/// Whether the parent of node `node` is the construct that defines a
/// symbol of kind `kind`.
pub open spec fn stands_in_definition(t: TreeView, node: int, kind: SymbolKind) -> bool {
    match t[node].parent {
        Some(p) => is_definition_parent(t[p].kind, kind),
        None => false,
    }
}

/// The reference of kind `kind` that the capture `node` of the parsed
/// fragment makes. Nothing where the capture is no node of the tree, is
/// blank, stands in the construct that defines its kind, or has no place
/// in the document.
pub open spec fn schedule_reference_at(
    text: Seq<char>,
    f: FragmentView,
    ft: TreeView,
    kind: SymbolKind,
    node: int,
) -> Option<ScheduleSymbolReferenceView> {
    let raw = node_trimmed(ft, f.wrapped, node);
    if !(0 <= node < ft.len()) || raw.len() == 0 || stands_in_definition(ft, node, kind) {
        None
    } else {
        match remapped_range(text, f.body_start, f.body_len, ft[node].start_byte, ft[node].end_byte) {
            Some(range) => Some(
                ScheduleSymbolReferenceView {
                    kind,
                    id: reference_key(kind, raw),
                    raw_id: raw,
                    range,
                    rename_range: reference_rename_range(kind, raw, range),
                },
            ),
            None => None,
        }
    }
}

/// The references of kind `kind` that the captures `captures` of a parsed
/// fragment make, in order.
pub open spec fn schedule_references_in(
    text: Seq<char>,
    f: FragmentView,
    ft: TreeView,
    kind: SymbolKind,
    captures: Seq<int>,
) -> Seq<ScheduleSymbolReferenceView>
    decreases captures.len(),
{
    if captures.len() == 0 {
        Seq::empty()
    } else {
        let before = schedule_references_in(text, f, ft, kind, captures.drop_last());
        match schedule_reference_at(text, f, ft, kind, captures.last()) {
            Some(reference) => before.push(reference),
            None => before,
        }
    }
}

/// The references that one parsed fragment makes: those to rooms, then
/// those to items, characters, flags and sets.
pub open spec fn fragment_references(text: Seq<char>, f: FragmentView, parsed: ParsedView) -> Seq<
    ScheduleSymbolReferenceView,
> {
    schedule_references_in(
        text,
        f,
        parsed.tree,
        SymbolKind::Room,
        parsed.captures.room_references,
    ) + schedule_references_in(
        text,
        f,
        parsed.tree,
        SymbolKind::Item,
        parsed.captures.item_references,
    ) + schedule_references_in(text, f, parsed.tree, SymbolKind::Npc, parsed.captures.npc_references)
        + schedule_references_in(
        text,
        f,
        parsed.tree,
        SymbolKind::Flag,
        parsed.captures.flag_references,
    ) + schedule_references_in(
        text,
        f,
        parsed.tree,
        SymbolKind::RoomSet,
        parsed.captures.set_references,
    )
}

/// The references that the fragments make, fragment by fragment. A
/// fragment for which there is no parsed text gives none.
pub open spec fn schedule_references_all(
    text: Seq<char>,
    fragments: Seq<FragmentView>,
    parses: Seq<Option<ParsedView>>,
) -> Seq<ScheduleSymbolReferenceView>
    decreases fragments.len(),
{
    if fragments.len() == 0 {
        Seq::empty()
    } else {
        let k = fragments.len() - 1;
        let before = schedule_references_all(text, fragments.drop_last(), parses);
        if k < parses.len() && parses[k] is Some {
            before + fragment_references(text, fragments[k], parses[k]->0)
        } else {
            before
        }
    }
}

/// Adds to `output` the references of kind `kind` that the captures
/// `captures` of a parsed fragment make.
pub fn collect_schedule_references_for_query(
    output: &mut Vec<ScheduleSymbolReference>,
    document: &Document,
    fragment: &ScheduleFragment,
    tree: &SyntaxTree,
    kind: SymbolKind,
    captures: &Vec<usize>,
)
    ensures
        schedule_references_view(final(output)@) == schedule_references_view(old(output)@)
            + schedule_references_in(document@, fragment@, tree@, kind, ids_view(captures@)),
{
    let wrapped = fragment.wrapped.as_str();
    let ghost list = ids_view(captures@);
    let ghost start = schedule_references_view(output@);
    let n = tree.len();
    let mut k: usize = 0;
    proof {
        assert(list.take(0) =~= Seq::<int>::empty());
        assert(schedule_references_view(output@) =~= start + Seq::<
            ScheduleSymbolReferenceView,
        >::empty());
    }
    while k < captures.len()
        invariant
            k <= captures.len(),
            n == tree@.len(),
            wrapped@ == fragment@.wrapped,
            list == ids_view(captures@),
            schedule_references_view(output@) == start + schedule_references_in(
                document@,
                fragment@,
                tree@,
                kind,
                list.take(k as int),
            ),
        decreases captures.len() - k,
    {
        let node = captures[k];
        let ghost before = schedule_references_view(output@);
        let ghost done = schedule_references_in(
            document@,
            fragment@,
            tree@,
            kind,
            list.take(k as int),
        );
        proof {
            assert(list.take(k + 1).drop_last() =~= list.take(k as int));
            assert(list.take(k + 1).last() == node);
        }
        if node < n {
            let raw = tree.text_of(node, wrapped);
            let raw_id = crate::chars::trim_chars(&raw);
            let in_definition = match tree.parent(node) {
                Some(p) => is_definition_parent_for_kind(tree.node(p).kind.as_str(), kind),
                None => false,
            };
            if raw_id.len() > 0 && !in_definition {
                let start_byte = tree.node(node).start_byte;
                let end_byte = tree.node(node).end_byte;
                match remap_schedule_capture_range(
                    document,
                    fragment.body_start,
                    fragment.body_len,
                    start_byte,
                    end_byte,
                ) {
                    Some(range) => {
                        let (id, rename_range) = match kind {
                            SymbolKind::Flag => normalize_flag_chars(&raw_id, &range),
                            _ => (crate::chars::copy_chars(&raw_id), None),
                        };
                        proof {
                            assert(raw_id@.subrange(0, raw_id@.len() as int) =~= raw_id@);
                        }
                        output.push(
                            ScheduleSymbolReference {
                                kind,
                                id: from_chars(&id),
                                raw_id: from_chars(&raw_id),
                                range,
                                rename_range,
                            },
                        );
                        proof {
                            let made = schedule_reference_at(
                                document@,
                                fragment@,
                                tree@,
                                kind,
                                node as int,
                            )->0;
                            assert(schedule_references_view(output@) =~= before.push(made));
                            assert(before.push(made) =~= start + done.push(made));
                        }
                    },
                    None => {},
                }
            }
        }
        k += 1;
    }
    proof {
        assert(list.take(captures.len() as int) =~= list);
    }
}

/// The references that the actions in the scheduled bodies make. `parses`
/// holds, for each fragment in order, what the parser made of its wrapped
/// text, or `None` where it made nothing of it.
pub fn collect_schedule_symbol_references(
    document: &Document,
    fragments: &Vec<ScheduleFragment>,
    parses: &Vec<Option<ParsedSource>>,
) -> (r: Vec<ScheduleSymbolReference>)
    ensures
        schedule_references_view(r@) == schedule_references_all(
            document@,
            fragments_view(fragments@),
            parses_view(parses@),
        ),
{
    let mut out: Vec<ScheduleSymbolReference> = Vec::new();
    let ghost all = fragments_view(fragments@);
    let ghost given = parses_view(parses@);
    let mut k: usize = 0;
    proof {
        assert(all.take(0) =~= Seq::<FragmentView>::empty());
        assert(schedule_references_view(out@) =~= Seq::<ScheduleSymbolReferenceView>::empty());
    }
    while k < fragments.len()
        invariant
            k <= fragments.len(),
            all == fragments_view(fragments@),
            given == parses_view(parses@),
            schedule_references_view(out@) == schedule_references_all(
                document@,
                all.take(k as int),
                given,
            ),
        decreases fragments.len() - k,
    {
        proof {
            assert(all.take(k + 1).drop_last() =~= all.take(k as int));
            assert(all.take(k + 1)[k as int] == fragments@[k as int]@);
        }
        if k < parses.len() {
            proof {
                assert(given[k as int] == opt_parsed(parses@[k as int]));
            }
            match &parses[k] {
                Some(parsed) => {
                    let fragment = &fragments[k];
                    let tree = &parsed.tree;
                    let ghost before = schedule_references_view(out@);
                    collect_schedule_references_for_query(
                        &mut out,
                        document,
                        fragment,
                        tree,
                        SymbolKind::Room,
                        &parsed.captures.room_references,
                    );
                    collect_schedule_references_for_query(
                        &mut out,
                        document,
                        fragment,
                        tree,
                        SymbolKind::Item,
                        &parsed.captures.item_references,
                    );
                    collect_schedule_references_for_query(
                        &mut out,
                        document,
                        fragment,
                        tree,
                        SymbolKind::Npc,
                        &parsed.captures.npc_references,
                    );
                    collect_schedule_references_for_query(
                        &mut out,
                        document,
                        fragment,
                        tree,
                        SymbolKind::Flag,
                        &parsed.captures.flag_references,
                    );
                    collect_schedule_references_for_query(
                        &mut out,
                        document,
                        fragment,
                        tree,
                        SymbolKind::RoomSet,
                        &parsed.captures.set_references,
                    );
                    proof {
                        assert(schedule_references_view(out@) =~= before + fragment_references(
                            document@,
                            fragment@,
                            parsed@,
                        ));
                    }
                },
                None => {},
            }
        }
        k += 1;
    }
    proof {
        assert(all.take(fragments.len() as int) =~= all);
    }
    out
}

} // verus!
