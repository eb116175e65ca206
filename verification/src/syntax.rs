//! Concrete syntax trees, as plain data.
//!
//! A tree is a list of nodes. The root is node `0`; every other node names
//! its parent, which comes before it in the list, and every node lists its
//! children in the order of the text.

use crate::chars::str_eq;
use crate::symbols::opt_text;
use crate::text::{slice_of, slice_text};
use vstd::prelude::*;

verus! {

/// One node of a syntax tree.
#[derive(Debug)]
pub struct SyntaxNode {
    /// The name of the grammar rule or token.
    pub kind: String,
    /// The field of the parent under which the node stands, if any.
    pub field: Option<String>,
    /// Whether the node stands for a named rule of the grammar.
    pub named: bool,
    /// Whether the parser put the node in to recover from an error.
    pub missing: bool,
    /// Where the text of the node begins, in bytes.
    pub start_byte: usize,
    /// Where the text of the node ends, in bytes.
    pub end_byte: usize,
    /// The line on which the node begins, counted from zero.
    pub start_row: usize,
    /// The byte column at which the node begins.
    pub start_column: usize,
    /// The parent; `None` for the root.
    pub parent: Option<usize>,
    /// The children, in the order of the text.
    pub children: Vec<usize>,
}

/// What a [`SyntaxNode`] holds.
pub struct NodeView {
    pub kind: Seq<char>,
    pub field: Option<Seq<char>>,
    pub named: bool,
    pub missing: bool,
    pub start_byte: int,
    pub end_byte: int,
    pub start_row: int,
    pub start_column: int,
    pub parent: Option<int>,
    pub children: Seq<int>,
}

/// What a tree holds: its nodes.
pub type TreeView = Seq<NodeView>;

impl View for SyntaxNode {
    type V = NodeView;

    open spec fn view(&self) -> NodeView {
        NodeView {
            kind: self.kind@,
            field: opt_text(self.field),
            named: self.named,
            missing: self.missing,
            start_byte: self.start_byte as int,
            end_byte: self.end_byte as int,
            start_row: self.start_row as int,
            start_column: self.start_column as int,
            parent: match self.parent {
                Some(p) => Some(p as int),
                None => None,
            },
            children: Seq::new(self.children@.len(), |k: int| self.children@[k] as int),
        }
    }
}

/// What the nodes of a list hold.
pub open spec fn nodes_view(nodes: Seq<SyntaxNode>) -> TreeView {
    Seq::new(nodes.len(), |i: int| nodes[i]@)
}

/// Whether node `i` of `t` is linked as a tree asks: the root has no
/// parent, any other node has a parent that comes before it, and each
/// child comes after the node and names it as its parent.
pub open spec fn node_wf(t: TreeView, i: int) -> bool {
    &&& (i == 0 ==> t[i].parent is None)
    &&& (i > 0 ==> (t[i].parent matches Some(p) && 0 <= p < i))
    &&& forall|k: int|
        0 <= k < t[i].children.len() ==> i < #[trigger] t[i].children[k] < t.len()
            && t[t[i].children[k]].parent == Some(i)
}

/// Whether `t` is a tree: it has a root, and every node is well linked.
pub open spec fn tree_wf(t: TreeView) -> bool {
    &&& t.len() >= 1
    &&& forall|i: int| 0 <= i < t.len() ==> #[trigger] node_wf(t, i)
}

/// The text of node `i`: the part of `text` that the node spans, or
/// nothing where the span does not lie on character boundaries of `text`.
pub open spec fn node_text(t: TreeView, text: Seq<char>, i: int) -> Seq<char> {
    slice_of(text, t[i].start_byte, t[i].end_byte)
}

/// The first node of `list` that stands under the field `field`.
pub open spec fn first_with_field(t: TreeView, list: Seq<int>, field: Seq<char>) -> Option<int>
    decreases list.len(),
{
    if list.len() == 0 {
        None
    } else if t[list[0]].field == Some(field) {
        Some(list[0])
    } else {
        first_with_field(t, list.drop_first(), field)
    }
}

/// The first named node of `list` whose kind is `kind`.
pub open spec fn first_named_of_kind(t: TreeView, list: Seq<int>, kind: Seq<char>) -> Option<int>
    decreases list.len(),
{
    if list.len() == 0 {
        None
    } else if t[list[0]].named && t[list[0]].kind == kind {
        Some(list[0])
    } else {
        first_named_of_kind(t, list.drop_first(), kind)
    }
}

/// The first child of node `i` that stands under the field `field`.
pub open spec fn child_by_field(t: TreeView, i: int, field: Seq<char>) -> Option<int> {
    first_with_field(t, t[i].children, field)
}

/// The first named child of node `i` whose kind is `kind`.
pub open spec fn named_child_of_kind(t: TreeView, i: int, kind: Seq<char>) -> Option<int> {
    first_named_of_kind(t, t[i].children, kind)
}

/// The nodes below and at node `node`, in the order in which a walk visits
/// them that takes a node first and then its named children from the last
/// to the first, each with all that lies below it.
pub open spec fn subtree_walk(t: TreeView, node: int) -> Seq<int>
    decreases t.len() - node, t[node].children.len() + 1,
{
    if 0 <= node < t.len() {
        seq![node] + children_walk(t, node, 0)
    } else {
        Seq::empty()
    }
}

/// The part of the walk of `node` that visits its children from index
/// `from` on: the last child first.
pub open spec fn children_walk(t: TreeView, node: int, from: int) -> Seq<int>
    decreases t.len() - node, t[node].children.len() - from,
{
    if 0 <= node < t.len() && 0 <= from < t[node].children.len() {
        let child = t[node].children[from];
        let later = children_walk(t, node, from + 1);
        if node < child < t.len() && t[child].named {
            later + subtree_walk(t, child)
        } else {
            later
        }
    } else {
        Seq::empty()
    }
}

/// A walk visits nodes of the tree only.
pub proof fn lemma_subtree_walk_in_tree(t: TreeView, node: int)
    ensures
        forall|k: int|
            0 <= k < subtree_walk(t, node).len() ==> 0 <= #[trigger] subtree_walk(t, node)[k]
                < t.len(),
    decreases t.len() - node, t[node].children.len() + 1,
{
    if 0 <= node < t.len() {
        lemma_children_walk_in_tree(t, node, 0);
        let rest = children_walk(t, node, 0);
        let whole = subtree_walk(t, node);
        assert(whole == seq![node] + rest);
        assert forall|k: int| 0 <= k < whole.len() implies 0 <= #[trigger] whole[k] < t.len() by {
            if k > 0 {
                assert(whole[k] == rest[k - 1]);
            }
        }
    }
}

/// A walk of children visits nodes of the tree only.
pub proof fn lemma_children_walk_in_tree(t: TreeView, node: int, from: int)
    ensures
        forall|k: int|
            0 <= k < children_walk(t, node, from).len() ==> 0 <= #[trigger] children_walk(
                t,
                node,
                from,
            )[k] < t.len(),
    decreases t.len() - node, t[node].children.len() - from,
{
    if 0 <= node < t.len() && 0 <= from < t[node].children.len() {
        let child = t[node].children[from];
        lemma_children_walk_in_tree(t, node, from + 1);
        let later = children_walk(t, node, from + 1);
        let whole = children_walk(t, node, from);
        if node < child < t.len() && t[child].named {
            lemma_subtree_walk_in_tree(t, child);
            let sub = subtree_walk(t, child);
            assert(whole == later + sub);
            assert forall|k: int| 0 <= k < whole.len() implies 0 <= #[trigger] whole[k]
                < t.len() by {
                if k < later.len() {
                    assert(whole[k] == later[k]);
                } else {
                    assert(whole[k] == sub[k - later.len()]);
                }
            }
        } else {
            assert(whole == later);
        }
    }
}

/// A concrete syntax tree.
#[derive(Debug)]
pub struct SyntaxTree {
    nodes: Vec<SyntaxNode>,
}

impl View for SyntaxTree {
    type V = TreeView;

    closed spec fn view(&self) -> TreeView {
        nodes_view(self.nodes@)
    }
}

impl SyntaxTree {
    /// The nodes of a syntax tree are linked as a tree.
    #[verifier::type_invariant]
    pub closed spec fn wf(self) -> bool {
        tree_wf(nodes_view(self.nodes@))
    }

    /// The tree that `nodes` make, if they are linked as a tree.
    pub fn from_nodes(nodes: Vec<SyntaxNode>) -> (r: Option<SyntaxTree>)
        ensures
            r is Some <==> tree_wf(nodes_view(nodes@)),
            r matches Some(tree) ==> tree@ == nodes_view(nodes@),
    {
        let n = nodes.len();
        if n == 0 {
            return None;
        }
        let ghost t = nodes_view(nodes@);
        let mut i: usize = 0;
        while i < n
            invariant
                i <= n,
                n == nodes.len(),
                t == nodes_view(nodes@),
                forall|j: int| 0 <= j < i ==> #[trigger] node_wf(t, j),
            decreases n - i,
        {
            let node = &nodes[i];
            let ghost view = t[i as int];
            proof {
                assert(view == nodes@[i as int]@);
            }
            match node.parent {
                Some(p) => {
                    if i == 0 || p >= i {
                        proof {
                            assert(!node_wf(t, i as int));
                        }
                        return None;
                    }
                },
                None => {
                    if i > 0 {
                        proof {
                            assert(!node_wf(t, i as int));
                        }
                        return None;
                    }
                },
            }
            let mut k: usize = 0;
            while k < node.children.len()
                invariant
                    k <= node.children.len(),
                    i < n,
                    n == nodes.len(),
                    t == nodes_view(nodes@),
                    node == &nodes@[i as int],
                    view == t[i as int],
                    view == nodes@[i as int]@,
                    forall|j: int|
                        0 <= j < k ==> i < #[trigger] view.children[j] < t.len()
                            && t[view.children[j]].parent == Some(i as int),
                decreases node.children.len() - k,
            {
                let c = node.children[k];
                proof {
                    assert(view.children[k as int] == c);
                }
                if c <= i || c >= n {
                    proof {
                        assert(!(i < view.children[k as int] < t.len()));
                        assert(!node_wf(t, i as int));
                    }
                    return None;
                }
                let linked = match nodes[c].parent {
                    Some(p) => p == i,
                    None => false,
                };
                proof {
                    assert(t[c as int] == nodes@[c as int]@);
                }
                if !linked {
                    proof {
                        assert(t[view.children[k as int]].parent != Some(i as int));
                        assert(!node_wf(t, i as int));
                    }
                    return None;
                }
                k += 1;
            }
            i += 1;
        }
        Some(SyntaxTree { nodes })
    }

    /// The number of nodes.
    pub fn len(&self) -> (n: usize)
        ensures
            n == self@.len(),
            n >= 1,
            tree_wf(self@),
    {
        proof {
            use_type_invariant(self);
        }
        self.nodes.len()
    }

    /// Node `i`.
    pub fn node(&self, i: usize) -> (r: &SyntaxNode)
        requires
            i < self@.len(),
        ensures
            r@ == self@[i as int],
            tree_wf(self@),
    {
        proof {
            use_type_invariant(self);
        }
        &self.nodes[i]
    }

    /// The parent of node `i`.
    pub fn parent(&self, i: usize) -> (r: Option<usize>)
        requires
            i < self@.len(),
        ensures
            match r {
                Some(p) => self@[i as int].parent == Some(p as int) && p < i,
                None => self@[i as int].parent is None,
            },
    {
        proof {
            use_type_invariant(self);
            assert(node_wf(self@, i as int));
        }
        self.nodes[i].parent
    }

    /// The number of children of node `i`.
    pub fn child_count(&self, i: usize) -> (n: usize)
        requires
            i < self@.len(),
        ensures
            n == self@[i as int].children.len(),
    {
        self.nodes[i].children.len()
    }

    /// The child of node `i` at index `k`.
    pub fn child(&self, i: usize, k: usize) -> (c: usize)
        requires
            i < self@.len(),
            k < self@[i as int].children.len(),
        ensures
            c == self@[i as int].children[k as int],
            i < c < self@.len(),
            self@[c as int].parent == Some(i as int),
    {
        proof {
            use_type_invariant(self);
            assert(node_wf(self@, i as int));
        }
        self.nodes[i].children[k]
    }

    /// Whether the kind of node `i` is `kind`.
    pub fn kind_is(&self, i: usize, kind: &str) -> (r: bool)
        requires
            i < self@.len(),
        ensures
            r == (self@[i as int].kind == kind@),
    {
        str_eq(self.nodes[i].kind.as_str(), kind)
    }

    /// Whether node `i` stands under the field `field` of its parent.
    pub fn field_is(&self, i: usize, field: &str) -> (r: bool)
        requires
            i < self@.len(),
        ensures
            r == (self@[i as int].field == Some(field@)),
    {
        match &self.nodes[i].field {
            Some(name) => str_eq(name.as_str(), field),
            None => false,
        }
    }

    /// The first child of node `i` that stands under the field `field`.
    pub fn child_by_field_name(&self, i: usize, field: &str) -> (r: Option<usize>)
        requires
            i < self@.len(),
        ensures
            match r {
                Some(c) => child_by_field(self@, i as int, field@) == Some(c as int) && c
                    < self@.len(),
                None => child_by_field(self@, i as int, field@) is None,
            },
    {
        let n = self.child_count(i);
        let ghost list = self@[i as int].children;
        let mut k: usize = 0;
        proof {
            assert(list.skip(0) =~= list);
        }
        while k < n
            invariant
                k <= n,
                i < self@.len(),
                n == list.len(),
                list == self@[i as int].children,
                first_with_field(self@, list, field@) == first_with_field(
                    self@,
                    list.skip(k as int),
                    field@,
                ),
            decreases n - k,
        {
            let c = self.child(i, k);
            proof {
                assert(list.skip(k as int)[0] == c);
                assert(list.skip(k as int).drop_first() =~= list.skip(k + 1));
            }
            if self.field_is(c, field) {
                return Some(c);
            }
            k += 1;
        }
        None
    }

    /// The first named child of node `i` whose kind is `kind`.
    pub fn named_child_by_kind(&self, i: usize, kind: &str) -> (r: Option<usize>)
        requires
            i < self@.len(),
        ensures
            match r {
                Some(c) => named_child_of_kind(self@, i as int, kind@) == Some(c as int) && c
                    < self@.len(),
                None => named_child_of_kind(self@, i as int, kind@) is None,
            },
    {
        let n = self.child_count(i);
        let ghost list = self@[i as int].children;
        let mut k: usize = 0;
        proof {
            assert(list.skip(0) =~= list);
        }
        while k < n
            invariant
                k <= n,
                i < self@.len(),
                n == list.len(),
                list == self@[i as int].children,
                first_named_of_kind(self@, list, kind@) == first_named_of_kind(
                    self@,
                    list.skip(k as int),
                    kind@,
                ),
            decreases n - k,
        {
            let c = self.child(i, k);
            proof {
                assert(list.skip(k as int)[0] == c);
                assert(list.skip(k as int).drop_first() =~= list.skip(k + 1));
            }
            if self.nodes[c].named && self.kind_is(c, kind) {
                return Some(c);
            }
            k += 1;
        }
        None
    }

    /// The text of node `i` in `text`.
    pub fn text_of(&self, i: usize, text: &str) -> (r: Vec<char>)
        requires
            i < self@.len(),
        ensures
            r@ == node_text(self@, text@, i as int),
    {
        slice_text(text, self.nodes[i].start_byte, self.nodes[i].end_byte)
    }

    /// The nodes below and at `node`, in the order of [`subtree_walk`].
    pub fn walk(&self, node: usize) -> (r: Vec<usize>)
        requires
            node < self@.len(),
        ensures
            r@.len() == subtree_walk(self@, node as int).len(),
            forall|k: int| 0 <= k < r@.len() ==> r@[k] as int == subtree_walk(self@, node as int)[k],
            forall|k: int| 0 <= k < r@.len() ==> (#[trigger] r@[k]) < self@.len(),
    {
        let mut out: Vec<usize> = Vec::new();
        self.walk_into(node, &mut out);
        proof {
            lemma_subtree_walk_in_tree(self@, node as int);
            assert forall|k: int| 0 <= k < out@.len() implies (#[trigger] out@[k]) < self@.len() by {
                assert(out@[k] as int == subtree_walk(self@, node as int)[k]);
            }
        }
        out
    }

    fn walk_into(&self, node: usize, out: &mut Vec<usize>)
        requires
            node < self@.len(),
        ensures
            final(out)@.len() == old(out)@.len() + subtree_walk(self@, node as int).len(),
            forall|k: int| 0 <= k < old(out)@.len() ==> final(out)@[k] == old(out)@[k],
            forall|k: int|
                0 <= k < subtree_walk(self@, node as int).len() ==> final(out)@[old(out)@.len()
                    + k] as int == subtree_walk(self@, node as int)[k],
        decreases self@.len() - node,
    {
        let ghost start = out@;
        out.push(node);
        let n = self.child_count(node);
        let mut k: usize = n;
        while k > 0
            invariant
                k <= n,
                node < self@.len(),
                n == self@[node as int].children.len(),
                out@.len() == start.len() + 1 + children_walk(self@, node as int, k as int).len(),
                forall|j: int| 0 <= j < start.len() ==> out@[j] == start[j],
                out@[start.len() as int] == node,
                forall|j: int|
                    0 <= j < children_walk(self@, node as int, k as int).len() ==> out@[start.len()
                        + 1 + j] as int == children_walk(self@, node as int, k as int)[j],
            decreases k,
        {
            k -= 1;
            let child = self.child(node, k);
            let ghost before = out@;
            let ghost later = children_walk(self@, node as int, k + 1);
            if self.nodes[child].named {
                proof {
                    assert(self@[child as int] == self.nodes@[child as int]@);
                }
                self.walk_into(child, out);
                proof {
                    let sub = subtree_walk(self@, child as int);
                    assert(children_walk(self@, node as int, k as int) == later + sub);
                    assert forall|j: int|
                        0 <= j < children_walk(
                            self@,
                            node as int,
                            k as int,
                        ).len() implies out@[start.len() + 1 + j] as int == children_walk(
                        self@,
                        node as int,
                        k as int,
                    )[j] by {
                        if j < later.len() {
                            assert(out@[start.len() + 1 + j] == before[start.len() + 1 + j]);
                        } else {
                            assert(out@[before.len() + (j - later.len())] as int == sub[j
                                - later.len()]);
                        }
                    }
                }
            } else {
                proof {
                    assert(self@[child as int] == self.nodes@[child as int]@);
                    assert(children_walk(self@, node as int, k as int) == later);
                }
            }
        }
        proof {
            let whole = subtree_walk(self@, node as int);
            assert(whole == seq![node as int] + children_walk(self@, node as int, 0));
            assert forall|j: int| 0 <= j < whole.len() implies out@[start.len() + j] as int
                == whole[j] by {
                if j > 0 {
                    assert(whole[j] == children_walk(self@, node as int, 0)[j - 1]);
                }
            }
        }
    }
}

} // verus!
