//! What kind of symbol is expected at a place in a document, read off the
//! syntax tree around that place.

use crate::backend::Backend;
use crate::chars::str_eq;
use crate::spans::{is_definition_parent, is_definition_parent_for_kind};
use crate::symbols::SymbolKind;
use crate::syntax::{tree_wf, node_wf, SyntaxTree, TreeView};
use crate::text::{is_offset_of, Position};
use vstd::prelude::*;
use vstd::utf8::encode_utf8;

verus! {

// ---------------------------------------------------------------------------
// Kinds of nodes and fields
// ---------------------------------------------------------------------------

/// The kind of symbol that a node of kind `kind` names.
pub open spec fn kind_for_node_kind(kind: Seq<char>) -> Option<SymbolKind> {
    if kind == "room_id"@ || kind == "_room_ref"@ {
        Some(SymbolKind::Room)
    } else if kind == "item_id"@ || kind == "_item_ref"@ {
        Some(SymbolKind::Item)
    } else if kind == "npc_id"@ || kind == "_npc_ref"@ {
        Some(SymbolKind::Npc)
    } else if kind == "flag_name"@ || kind == "_flag_ref"@ {
        Some(SymbolKind::Flag)
    } else if kind == "set_name"@ || kind == "_set_ref"@ {
        Some(SymbolKind::RoomSet)
    } else {
        None
    }
}

/// The kind of symbol that a node of kind `kind` names.
pub fn symbol_kind_from_kind(kind: &str) -> (r: Option<SymbolKind>)
    ensures
        r == kind_for_node_kind(kind@),
{
    if str_eq(kind, "room_id") || str_eq(kind, "_room_ref") {
        Some(SymbolKind::Room)
    } else if str_eq(kind, "item_id") || str_eq(kind, "_item_ref") {
        Some(SymbolKind::Item)
    } else if str_eq(kind, "npc_id") || str_eq(kind, "_npc_ref") {
        Some(SymbolKind::Npc)
    } else if str_eq(kind, "flag_name") || str_eq(kind, "_flag_ref") {
        Some(SymbolKind::Flag)
    } else if str_eq(kind, "set_name") || str_eq(kind, "_set_ref") {
        Some(SymbolKind::RoomSet)
    } else {
        None
    }
}

/// The kind of symbol that stands under a field named `field`.
pub open spec fn kind_for_field(field: Seq<char>) -> Option<SymbolKind> {
    if field == "room_id"@ || field == "dest"@ || field == "room"@ || field == "from_room"@
        || field == "to_room"@ {
        Some(SymbolKind::Room)
    } else if field == "item_id"@ || field == "tool_id"@ || field == "target_id"@ || field
        == "container_id"@ || field == "chest_id"@ {
        Some(SymbolKind::Item)
    } else if field == "npc_id"@ {
        Some(SymbolKind::Npc)
    } else if field == "flag_name"@ || field == "flag"@ {
        Some(SymbolKind::Flag)
    } else if field == "set_name"@ {
        Some(SymbolKind::RoomSet)
    } else {
        None
    }
}

/// The kind of symbol that stands under a field named `field_name`.
pub fn symbol_kind_from_field(field_name: &str) -> (r: Option<SymbolKind>)
    ensures
        r == kind_for_field(field_name@),
{
    if str_eq(field_name, "room_id") || str_eq(field_name, "dest") || str_eq(field_name, "room")
        || str_eq(field_name, "from_room") || str_eq(field_name, "to_room") {
        Some(SymbolKind::Room)
    } else if str_eq(field_name, "item_id") || str_eq(field_name, "tool_id") || str_eq(
        field_name,
        "target_id",
    ) || str_eq(field_name, "container_id") || str_eq(field_name, "chest_id") {
        Some(SymbolKind::Item)
    } else if str_eq(field_name, "npc_id") {
        Some(SymbolKind::Npc)
    } else if str_eq(field_name, "flag_name") || str_eq(field_name, "flag") {
        Some(SymbolKind::Flag)
    } else if str_eq(field_name, "set_name") {
        Some(SymbolKind::RoomSet)
    } else {
        None
    }
}

/// Whether the field `field` of a node of kind `parent_kind` holds the
/// identifier that a definition of kind `kind` declares.
pub open spec fn definition_field(parent_kind: Seq<char>, field: Seq<char>, kind: SymbolKind)
    -> bool {
    match kind {
        SymbolKind::Room => parent_kind == "room_def"@ && field == "room_id"@,
        SymbolKind::Item => parent_kind == "item_def"@ && field == "item_id"@,
        SymbolKind::Npc => parent_kind == "npc_def"@ && field == "npc_id"@,
        SymbolKind::Flag => (parent_kind == "action_add_flag"@ && field == "flag"@) || (
        parent_kind == "action_add_seq"@ && field == "flag_name"@),
        SymbolKind::RoomSet => parent_kind == "set_decl"@ && field == "name"@,
    }
}

/// Whether the field `field_name` of a node of kind `parent_kind` holds
/// the identifier that a definition of kind `symbol_type` declares.
pub fn is_definition_field(parent_kind: &str, field_name: &str, symbol_type: SymbolKind) -> (r:
    bool)
    ensures
        r == definition_field(parent_kind@, field_name@, symbol_type),
{
    match symbol_type {
        SymbolKind::Room => str_eq(parent_kind, "room_def") && str_eq(field_name, "room_id"),
        SymbolKind::Item => str_eq(parent_kind, "item_def") && str_eq(field_name, "item_id"),
        SymbolKind::Npc => str_eq(parent_kind, "npc_def") && str_eq(field_name, "npc_id"),
        SymbolKind::Flag => (str_eq(parent_kind, "action_add_flag") && str_eq(field_name, "flag"))
            || (str_eq(parent_kind, "action_add_seq") && str_eq(field_name, "flag_name")),
        SymbolKind::RoomSet => str_eq(parent_kind, "set_decl") && str_eq(field_name, "name"),
    }
}

/// Whether node `node` lies inside the construct that defines a symbol of
/// kind `kind`: one of the nodes above it is such a construct.
pub open spec fn inside_definition(t: TreeView, node: int, kind: SymbolKind) -> bool
    decreases node,
{
    if 0 < node < t.len() {
        match t[node].parent {
            Some(p) => 0 <= p < node && (is_definition_parent(t[p].kind, kind)
                || inside_definition(t, p, kind)),
            None => false,
        }
    } else {
        false
    }
}

/// Whether node `node` lies inside the construct that defines a symbol of
/// kind `symbol_type`.
pub fn is_definition_node(tree: &SyntaxTree, node: usize, symbol_type: SymbolKind) -> (r: bool)
    requires
        node < tree@.len(),
    ensures
        r == inside_definition(tree@, node as int, symbol_type),
{
    let mut current = node;
    loop
        invariant
            current < tree@.len(),
            inside_definition(tree@, node as int, symbol_type) == inside_definition(
                tree@,
                current as int,
                symbol_type,
            ),
        decreases current,
    {
        match tree.parent(current) {
            Some(p) => {
                if is_definition_parent_for_kind(tree.node(p).kind.as_str(), symbol_type) {
                    return true;
                }
                current = p;
            },
            None => {
                return false;
            },
        }
    }
}

// ---------------------------------------------------------------------------
// The node at an offset
// ---------------------------------------------------------------------------

/// The first node of `list` that ends beyond the byte offset `offset`.
pub open spec fn first_beyond(t: TreeView, list: Seq<int>, offset: int) -> Option<int>
    decreases list.len(),
{
    if list.len() == 0 {
        None
    } else if t[list[0]].end_byte > offset {
        Some(list[0])
    } else {
        first_beyond(t, list.drop_first(), offset)
    }
}

/// The node that is reached from `node` by going down, each time to the
/// first child that ends beyond `offset`, until there is no such child.
pub open spec fn deepest_at(t: TreeView, node: int, offset: int) -> int
    decreases t.len() - node,
{
    match first_beyond(t, t[node].children, offset) {
        Some(c) => if node < c < t.len() {
            deepest_at(t, c, offset)
        } else {
            node
        },
        None => node,
    }
}

/// The deepest node at the byte offset `offset`; nothing where the offset
/// lies beyond the root.
pub open spec fn node_at(t: TreeView, offset: int) -> Option<int> {
    if offset > t[0].end_byte {
        None
    } else {
        Some(deepest_at(t, 0, offset))
    }
}

fn first_child_beyond(tree: &SyntaxTree, node: usize, offset: usize) -> (r: Option<usize>)
    requires
        node < tree@.len(),
    ensures
        match r {
            Some(c) => first_beyond(tree@, tree@[node as int].children, offset as int) == Some(
                c as int,
            ) && node < c < tree@.len(),
            None => first_beyond(tree@, tree@[node as int].children, offset as int) is None,
        },
{
    let n = tree.child_count(node);
    let ghost list = tree@[node as int].children;
    let mut k: usize = 0;
    proof {
        assert(list.skip(0) =~= list);
    }
    while k < n
        invariant
            k <= n,
            node < tree@.len(),
            n == list.len(),
            list == tree@[node as int].children,
            first_beyond(tree@, list, offset as int) == first_beyond(
                tree@,
                list.skip(k as int),
                offset as int,
            ),
        decreases n - k,
    {
        let c = tree.child(node, k);
        proof {
            assert(list.skip(k as int)[0] == c);
            assert(list.skip(k as int).drop_first() =~= list.skip(k + 1));
        }
        if tree.node(c).end_byte > offset {
            return Some(c);
        }
        k += 1;
    }
    None
}

/// The deepest node of `tree` at the byte offset `offset`.
pub fn node_at_offset(tree: &SyntaxTree, offset: usize) -> (r: Option<usize>)
    ensures
        match r {
            Some(n) => node_at(tree@, offset as int) == Some(n as int) && n < tree@.len(),
            None => node_at(tree@, offset as int) is None,
        },
{
    let len = tree.len();
    if offset > tree.node(0).end_byte {
        return None;
    }
    let mut current: usize = 0;
    loop
        invariant
            current < tree@.len(),
            offset <= tree@[0].end_byte,
            deepest_at(tree@, 0, offset as int) == deepest_at(tree@, current as int, offset as int),
        decreases tree@.len() - current,
    {
        match first_child_beyond(tree, current, offset) {
            Some(c) => {
                current = c;
            },
            None => {
                return Some(current);
            },
        }
    }
}

// ---------------------------------------------------------------------------
// What a node says
// ---------------------------------------------------------------------------

/// Whether the child `c` of `node` counts as lying at `offset`. A child
/// that the parser made up counts where its parent lies at the offset, an
/// empty child where it stands at the offset, any other where the offset
/// lies in it, both ends counted in.
pub open spec fn child_in_range(t: TreeView, node: int, c: int, offset: int) -> bool {
    if t[c].missing {
        t[node].start_byte <= offset <= t[node].end_byte
    } else if t[c].start_byte == t[c].end_byte {
        offset == t[c].start_byte
    } else {
        t[c].start_byte <= offset <= t[c].end_byte
    }
}

/// What looking at a node gives: the kind that is expected, or the nodes
/// to look at next.
pub enum Step {
    Found(SymbolKind),
    Push(Seq<int>),
}

impl Step {
    /// `self` with the nodes `first` put before the nodes to look at.
    pub open spec fn after(self, first: Seq<int>) -> Step {
        match self {
            Step::Found(kind) => Step::Found(kind),
            Step::Push(nodes) => Step::Push(first + nodes),
        }
    }
}

/// What the children of `node` from index `from` on say. The first child
/// at the offset that stands under a field which names a kind of symbol,
/// and is not the identifier of a definition, gives that kind. Until
/// then, each named child at the offset that stands under no field is a
/// node to look at.
pub open spec fn scan_children(t: TreeView, offset: int, node: int, from: int) -> Step
    decreases t[node].children.len() - from,
{
    if 0 <= from < t[node].children.len() {
        let c = t[node].children[from];
        let rest = scan_children(t, offset, node, from + 1);
        if !child_in_range(t, node, c, offset) {
            rest
        } else {
            match t[c].field {
                Some(field) => match kind_for_field(field) {
                    Some(kind) => if definition_field(t[node].kind, field, kind) {
                        rest
                    } else {
                        Step::Found(kind)
                    },
                    None => rest,
                },
                None => if t[c].named {
                    rest.after(seq![c])
                } else {
                    rest
                },
            }
        }
    } else {
        Step::Push(Seq::empty())
    }
}

/// The parent of `node`, as a list of one node or of none.
pub open spec fn parent_list(t: TreeView, node: int) -> Seq<int> {
    match t[node].parent {
        Some(p) => seq![p],
        None => Seq::empty(),
    }
}

/// Whether `node`, which names a symbol of kind `kind`, is the identifier
/// that its parent defines.
pub open spec fn is_defining_identifier(t: TreeView, node: int, kind: SymbolKind) -> bool {
    match (t[node].parent, t[node].field) {
        (Some(p), Some(field)) => definition_field(t[p].kind, field, kind),
        _ => false,
    }
}

/// What looking at `node` gives. A node that names a kind of symbol and
/// lies inside a definition of that kind sends on to its parent. One that
/// names a kind and is not the identifier of a definition gives that
/// kind. Any other node gives what its children say, and sends on to the
/// children to look at and then to its parent.
pub open spec fn visit(t: TreeView, offset: int, node: int) -> Step {
    let named_kind = kind_for_node_kind(t[node].kind);
    if named_kind is Some && inside_definition(t, node, named_kind->0) {
        Step::Push(parent_list(t, node))
    } else if named_kind is Some && !is_defining_identifier(t, node, named_kind->0) {
        Step::Found(named_kind->0)
    } else {
        match scan_children(t, offset, node, 0) {
            Step::Found(kind) => Step::Found(kind),
            Step::Push(nodes) => Step::Push(nodes + parent_list(t, node)),
        }
    }
}

/// The work that is left for the nodes before `upto` that were not looked
/// at: for each of them one step and one for each of its children.
pub open spec fn weight(t: TreeView, visited: Seq<bool>, upto: int) -> nat
    decreases upto,
{
    if upto <= 0 {
        0
    } else {
        weight(t, visited, upto - 1) + (if visited[upto - 1] {
            0nat
        } else {
            1 + t[upto - 1].children.len()
        })
    }
}

/// Marking a node as looked at takes its share off the work that is left.
pub proof fn lemma_weight_update(t: TreeView, visited: Seq<bool>, n: int, upto: int)
    requires
        0 <= n < visited.len(),
        0 <= upto <= visited.len(),
        !visited[n],
    ensures
        weight(t, visited.update(n, true), upto) + (if n < upto {
            1 + t[n].children.len()
        } else {
            0
        }) == weight(t, visited, upto),
    decreases upto,
{
    if upto > 0 {
        lemma_weight_update(t, visited, n, upto - 1);
    }
}

/// Whether a state of the search is sound: the tree is a tree, every node
/// has its mark, and the nodes to look at are nodes of the tree.
pub open spec fn search_wf(t: TreeView, stack: Seq<int>, visited: Seq<bool>) -> bool {
    &&& tree_wf(t)
    &&& visited.len() == t.len()
    &&& forall|i: int| 0 <= i < stack.len() ==> 0 <= #[trigger] stack[i] < t.len()
}

/// The children of a node give at most one node to look at for each
/// child, and only nodes of the tree.
pub proof fn lemma_scan_children(t: TreeView, offset: int, node: int, from: int)
    requires
        tree_wf(t),
        0 <= node < t.len(),
        0 <= from <= t[node].children.len(),
    ensures
        scan_children(t, offset, node, from) matches Step::Push(nodes) ==> nodes.len()
            <= t[node].children.len() - from && forall|i: int|
            0 <= i < nodes.len() ==> 0 <= #[trigger] nodes[i] < t.len(),
    decreases t[node].children.len() - from,
{
    if from < t[node].children.len() {
        lemma_scan_children(t, offset, node, from + 1);
        assert(node_wf(t, node));
        let c = t[node].children[from];
        let rest = scan_children(t, offset, node, from + 1);
        if rest is Push {
            let nodes = rest->Push_0;
            let more = seq![c] + nodes;
            assert forall|i: int| 0 <= i < more.len() implies 0 <= #[trigger] more[i]
                < t.len() by {
                if i > 0 {
                    assert(more[i] == nodes[i - 1]);
                }
            }
        }
    }
}

/// Looking at a node gives at most one node to look at for each child and
/// one for the parent, and only nodes of the tree.
pub proof fn lemma_visit(t: TreeView, offset: int, node: int)
    requires
        tree_wf(t),
        0 <= node < t.len(),
    ensures
        visit(t, offset, node) matches Step::Push(nodes) ==> nodes.len() <= t[node].children.len()
            + 1 && forall|i: int| 0 <= i < nodes.len() ==> 0 <= #[trigger] nodes[i] < t.len(),
{
    lemma_scan_children(t, offset, node, 0);
    assert(node_wf(t, node));
    let step = visit(t, offset, node);
    if step is Push {
        let nodes = step->Push_0;
        let up = parent_list(t, node);
        assert forall|i: int| 0 <= i < up.len() implies 0 <= #[trigger] up[i] < t.len() by {}
        let scanned = scan_children(t, offset, node, 0);
        if scanned is Push && nodes == scanned->Push_0 + up {
            let below = scanned->Push_0;
            assert forall|i: int| 0 <= i < nodes.len() implies 0 <= #[trigger] nodes[i]
                < t.len() by {
                if i < below.len() {
                    assert(nodes[i] == below[i]);
                } else {
                    assert(nodes[i] == up[i - below.len()]);
                }
            }
        }
    }
}

/// The kind of symbol that the search finds. The node on top of `stack`
/// is looked at next, unless it was looked at before; the nodes that it
/// sends on to are put on top of the stack in its place, the last of them
/// uppermost. The search ends with the first kind that a node gives, or
/// with nothing when the stack is empty.
pub open spec fn search(t: TreeView, offset: int, stack: Seq<int>, visited: Seq<bool>) -> Option<
    SymbolKind,
>
    decreases stack.len() + weight(t, visited, t.len() as int),
    when search_wf(t, stack, visited)
{
    if stack.len() == 0 {
        None
    } else {
        let n = stack.last();
        if visited[n] {
            search(t, offset, stack.drop_last(), visited)
        } else {
            match visit(t, offset, n) {
                Step::Found(kind) => Some(kind),
                Step::Push(nodes) => {
                    proof {
                        lemma_visit(t, offset, n);
                        lemma_weight_update(t, visited, n, t.len() as int);
                    }
                    search(t, offset, stack.drop_last() + nodes, visited.update(n, true))
                },
            }
        }
    }
}

/// No node was looked at yet.
pub open spec fn none_visited(t: TreeView) -> Seq<bool> {
    Seq::new(t.len(), |i: int| false)
}

/// The kind of symbol that is expected at `offset`, found from `node`.
pub open spec fn kind_from(t: TreeView, node: int, offset: int) -> Option<SymbolKind> {
    search(t, offset, seq![node], none_visited(t))
}

fn scan_node_children(tree: &SyntaxTree, node: usize, offset: usize, stack: &mut Vec<usize>) -> (r:
    Option<SymbolKind>)
    requires
        node < tree@.len(),
    ensures
        match r {
            Some(kind) => scan_children(tree@, offset as int, node as int, 0) == Step::Found(kind),
            None => scan_children(tree@, offset as int, node as int, 0) matches Step::Push(nodes)
                && final(stack)@.len() == old(stack)@.len() + nodes.len() && (forall|i: int|
                0 <= i < old(stack)@.len() ==> final(stack)@[i] == old(stack)@[i]) && (forall|
                i: int,
            | 0 <= i < nodes.len() ==> final(stack)@[old(stack)@.len() + i] as int == nodes[i]),
        },
{
    let n = tree.child_count(node);
    let ghost t = tree@;
    let ghost start = stack@;
    let ghost mut pushed: Seq<int> = Seq::empty();
    let parent = tree.node(node);
    let mut k: usize = 0;
    while k < n
        invariant
            k <= n,
            node < t.len(),
            t == tree@,
            n == t[node as int].children.len(),
            parent@ == t[node as int],
            scan_children(t, offset as int, node as int, 0) == scan_children(
                t,
                offset as int,
                node as int,
                k as int,
            ).after(pushed),
            stack@.len() == start.len() + pushed.len(),
            forall|i: int| 0 <= i < start.len() ==> stack@[i] == start[i],
            forall|i: int| 0 <= i < pushed.len() ==> stack@[start.len() + i] as int == pushed[i],
        decreases n - k,
    {
        let c = tree.child(node, k);
        let child = tree.node(c);
        let ghost rest = scan_children(t, offset as int, node as int, k + 1);
        let in_range = if child.missing {
            parent.start_byte <= offset && offset <= parent.end_byte
        } else if child.start_byte == child.end_byte {
            offset == child.start_byte
        } else {
            child.start_byte <= offset && offset <= child.end_byte
        };
        if in_range {
            match &child.field {
                Some(field) => {
                    match symbol_kind_from_field(field.as_str()) {
                        Some(kind) => {
                            if !is_definition_field(parent.kind.as_str(), field.as_str(), kind) {
                                return Some(kind);
                            }
                        },
                        None => {},
                    }
                },
                None => {
                    if child.named {
                        let ghost before = stack@;
                        stack.push(c);
                        proof {
                            let longer = pushed.push(c as int);
                            assert(rest.after(seq![c as int]).after(pushed) == rest.after(longer))
                                by {
                                if rest is Push {
                                    assert(pushed + (seq![c as int] + rest->Push_0) =~= longer
                                        + rest->Push_0);
                                }
                            }
                            pushed = longer;
                        }
                    }
                },
            }
        }
        k += 1;
    }
    proof {
        assert(pushed + Seq::<int>::empty() =~= pushed);
    }
    None
}

/// The kind of symbol that is expected at `offset`, found from `node`:
/// the first kind that the search from `node` comes upon.
pub fn symbol_kind_from_syntax(tree: &SyntaxTree, node: usize, offset: usize) -> (r: Option<
    SymbolKind,
>)
    requires
        node < tree@.len(),
    ensures
        r == kind_from(tree@, node as int, offset as int),
{
    let len = tree.len();
    let ghost t = tree@;
    let mut visited: Vec<bool> = Vec::new();
    let mut i: usize = 0;
    while i < len
        invariant
            i <= len,
            visited@.len() == i,
            forall|j: int| 0 <= j < i ==> !visited@[j],
        decreases len - i,
    {
        visited.push(false);
        i += 1;
    }
    proof {
        assert(visited@ =~= none_visited(t));
    }
    let mut stack: Vec<usize> = Vec::new();
    stack.push(node);
    let ghost first = Seq::new(stack@.len(), |i: int| stack@[i] as int);
    proof {
        assert(first =~= seq![node as int]);
    }
    while stack.len() > 0
        invariant
            t == tree@,
            len == t.len(),
            tree_wf(t),
            visited@.len() == t.len(),
            forall|i: int| 0 <= i < stack@.len() ==> (#[trigger] stack@[i]) < t.len(),
            kind_from(t, node as int, offset as int) == search(
                t,
                offset as int,
                Seq::new(stack@.len(), |i: int| stack@[i] as int),
                visited@,
            ),
        decreases stack@.len() + weight(t, visited@, t.len() as int),
    {
        let ghost before = Seq::new(stack@.len(), |i: int| stack@[i] as int);
        let ghost marks = visited@;
        proof {
            assert(search_wf(t, before, marks));
        }
        let n = stack.pop().unwrap();
        let ghost rest = Seq::new(stack@.len(), |i: int| stack@[i] as int);
        proof {
            assert(before.last() == n);
            assert(before.drop_last() =~= rest);
        }
        if visited[n] {
            continue ;
        }
        visited.set(n, true);
        proof {
            lemma_visit(t, offset as int, n as int);
            lemma_weight_update(t, marks, n as int, t.len() as int);
        }
        let current = tree.node(n);
        let parent = tree.parent(n);
        let named_kind = symbol_kind_from_kind(current.kind.as_str());
        let mut looked = false;
        match named_kind {
            Some(kind) => {
                if is_definition_node(tree, n, kind) {
                    match parent {
                        Some(p) => {
                            stack.push(p);
                        },
                        None => {},
                    }
                    proof {
                        assert(visit(t, offset as int, n as int) == Step::Push(
                            parent_list(t, n as int),
                        ));
                        assert(Seq::new(stack@.len(), |i: int| stack@[i] as int) =~= rest
                            + parent_list(t, n as int));
                    }
                    continue ;
                }
                let blocked = match (parent, &current.field) {
                    (Some(p), Some(field)) => is_definition_field(
                        tree.node(p).kind.as_str(),
                        field.as_str(),
                        kind,
                    ),
                    _ => false,
                };
                if !blocked {
                    return Some(kind);
                }
            },
            None => {},
        }
        let ghost below = stack@;
        match scan_node_children(tree, n, offset, &mut stack) {
            Some(kind) => {
                return Some(kind);
            },
            None => {},
        }
        let ghost scanned = scan_children(t, offset as int, n as int, 0)->Push_0;
        match parent {
            Some(p) => {
                stack.push(p);
            },
            None => {},
        }
        proof {
            let nodes = scanned + parent_list(t, n as int);
            assert(visit(t, offset as int, n as int) == Step::Push(nodes));
            let now = Seq::new(stack@.len(), |i: int| stack@[i] as int);
            assert(now.len() == rest.len() + nodes.len());
            assert forall|i: int| 0 <= i < now.len() implies now[i] == (rest + nodes)[i] by {
                if i < rest.len() {
                    assert(stack@[i] == below[i]);
                } else if i < rest.len() + scanned.len() {
                    assert(stack@[i] as int == scanned[i - rest.len()]);
                }
            }
            assert(now =~= rest + nodes);
            assert forall|i: int| 0 <= i < stack@.len() implies (#[trigger] stack@[i])
                < t.len() by {
                assert(now[i] == (rest + nodes)[i]);
                if i >= rest.len() {
                    assert(nodes[i - rest.len()] < t.len());
                } else {
                    assert(stack@[i] == below[i]);
                }
            }
        }
    }
    proof {
        assert(Seq::new(stack@.len(), |i: int| stack@[i] as int) =~= Seq::<int>::empty());
    }
    None
}

// ---------------------------------------------------------------------------
// Completion
// ---------------------------------------------------------------------------

/// The kind of symbol that is expected at the byte offset `offset`, going
/// by the deepest node there.
pub open spec fn context_at(t: TreeView, offset: int) -> Option<SymbolKind> {
    match node_at(t, offset) {
        Some(n) => kind_from(t, n, offset),
        None => None,
    }
}

/// The kind of symbol that is expected at the byte offset `offset`: what
/// the offset itself gives, or else what the byte before it gives, so that
/// a cursor that stands just behind a token still counts as on it.
pub open spec fn completion_kind(t: TreeView, offset: int) -> Option<SymbolKind> {
    if context_at(t, offset) is Some {
        context_at(t, offset)
    } else if offset > 0 {
        context_at(t, offset - 1)
    } else {
        None
    }
}

fn context_at_offset(tree: &SyntaxTree, offset: usize) -> (r: Option<SymbolKind>)
    ensures
        r == context_at(tree@, offset as int),
{
    match node_at_offset(tree, offset) {
        Some(n) => symbol_kind_from_syntax(tree, n, offset),
        None => None,
    }
}

/// The kind of symbol that is expected at the byte offset `offset` of the
/// text of which `tree` is the syntax tree.
pub fn completion_context(tree: &SyntaxTree, offset: usize) -> (r: Option<SymbolKind>)
    ensures
        r == completion_kind(tree@, offset as int),
{
    let here = context_at_offset(tree, offset);
    if here.is_some() {
        return here;
    }
    if offset > 0 {
        context_at_offset(tree, offset - 1)
    } else {
        None
    }
}

impl Backend {
    /// The kind of symbol that is expected at `position` in the document
    /// `uri`, of whose text `tree` is the syntax tree. Nothing where the
    /// document was not analysed or does not have the position.
    pub fn get_completion_context(&self, uri: &str, position: Position, tree: &SyntaxTree) -> (r:
        Option<SymbolKind>)
        ensures
            !self@.documents.contains_key(uri@) ==> r is None,
            self@.documents.contains_key(uri@) ==> (exists|off: int|
                is_offset_of(encode_utf8(self@.documents[uri@].text), position, off) && r
                    == completion_kind(tree@, off)) || (r is None && forall|off: int|
                !is_offset_of(encode_utf8(self@.documents[uri@].text), position, off)),
    {
        let state = match self.document_state(uri) {
            Some(state) => state,
            None => {
                return None;
            },
        };
        let ghost bytes = encode_utf8(self@.documents[uri@].text);
        proof {
            assert(state@.text == state.document@);
            assert(bytes == state.document.bytes());
        }
        match state.document.offset(position) {
            Some(offset) => {
                let r = completion_context(tree, offset);
                proof {
                    assert(is_offset_of(bytes, position, offset as int));
                    assert(r == completion_kind(tree@, offset as int));
                }
                r
            },
            None => {
                proof {
                    assert forall|off: int| !is_offset_of(bytes, position, off) by {}
                }
                None
            },
        }
    }
}

} // verus!
