//! The lists in round brackets of a document, written out anew: on one
//! line with a space inside each bracket where they are short, and with one
//! entry to a line where they have three entries or more or an entry of
//! several lines.

use crate::chars::{
    chars_start_with, char_is_whitespace, extend_chars, from_chars, is_whitespace, join, join_chars,
    last_index_of, lemma_last_index_of, lists_view, rfind_char, slice_chars, split, starts_with,
    to_chars, trim, trim_chars,
};
use crate::format::split_chars;
use crate::syntax::{node_text, SyntaxTree, TreeView};
use crate::text::{slice_of, slice_text};
use vstd::prelude::*;
use vstd::utf8::encode_utf8;

verus! {

// ---------------------------------------------------------------------------
// Writing a list
// ---------------------------------------------------------------------------

/// Each piece of `pieces` with `indent` before it.
pub open spec fn indented_all(pieces: Seq<Seq<char>>, indent: Seq<char>) -> Seq<Seq<char>> {
    Seq::new(pieces.len(), |i: int| indent + pieces[i])
}

/// `block` with `indent` before each of its lines.
pub open spec fn indented_block(block: Seq<char>, indent: Seq<char>) -> Seq<char> {
    join(indented_all(split(block, '\n'), indent), seq!['\n'])
}

/// `block` with `indent` before each of its lines.
pub fn indent_block(block: &Vec<char>, indent: &Vec<char>) -> (r: Vec<char>)
    ensures
        r@ == indented_block(block@, indent@),
{
    let pieces = split_chars(block, '\n');
    let ghost all = indented_all(split(block@, '\n'), indent@);
    let mut lines: Vec<Vec<char>> = Vec::new();
    let mut k: usize = 0;
    proof {
        assert(lists_view(lines@) =~= all.take(0));
    }
    while k < pieces.len()
        invariant
            k <= pieces.len(),
            lists_view(pieces@) == split(block@, '\n'),
            all == indented_all(split(block@, '\n'), indent@),
            lists_view(lines@) == all.take(k as int),
        decreases pieces.len() - k,
    {
        let ghost so_far = lists_view(lines@);
        let mut line: Vec<char> = Vec::new();
        extend_chars(&mut line, indent);
        extend_chars(&mut line, &pieces[k]);
        proof {
            assert(lists_view(pieces@)[k as int] == pieces@[k as int]@);
            assert(line@ =~= indent@ + pieces@[k as int]@);
        }
        lines.push(line);
        proof {
            assert(lists_view(lines@) =~= so_far.push(indent@ + pieces@[k as int]@));
            assert(all.take(k + 1) =~= all.take(k as int).push(indent@ + pieces@[k as int]@));
        }
        k += 1;
    }
    proof {
        assert(all.take(pieces.len() as int) =~= all);
    }
    let mut newline: Vec<char> = Vec::new();
    newline.push('\n');
    proof {
        assert(newline@ =~= seq!['\n']);
    }
    join_chars(&lines, &newline)
}

/// Whether `s` holds nothing but commas.
pub open spec fn only_commas(s: Seq<char>) -> bool {
    forall|i: int| 0 <= i < s.len() ==> s[i] == ','
}

/// Whether one of the entries spans several lines.
pub open spec fn any_multiline(items: Seq<Seq<char>>) -> bool {
    exists|i: int| 0 <= i < items.len() && (#[trigger] items[i]).contains('\n')
}

/// Whether a list is written with one entry to a line.
pub open spec fn wants_lines(items: Seq<Seq<char>>) -> bool {
    items.len() >= 3 || any_multiline(items)
}

/// The lines that the entries `items` make in a list of several lines:
/// each entry, trimmed, indented by `item_indent` and followed by a comma.
/// An entry that is blank or holds only commas makes none.
pub open spec fn entry_lines(items: Seq<Seq<char>>, item_indent: Seq<char>) -> Seq<char>
    decreases items.len(),
{
    if items.len() == 0 {
        Seq::empty()
    } else {
        let before = entry_lines(items.drop_last(), item_indent);
        let entry = trim(items.last());
        if entry.len() == 0 || only_commas(entry) {
            before
        } else {
            before + indented_block(entry, item_indent) + seq![',', '\n']
        }
    }
}

/// Four spaces.
pub open spec fn one_level() -> Seq<char> {
    seq![' ', ' ', ' ', ' ']
}

/// The list of the entries `items` behind the word `prefix`, written at
/// the indentation `base_indent`.
pub open spec fn parenthesized(prefix: Seq<char>, items: Seq<Seq<char>>, base_indent: Seq<char>)
    -> Seq<char> {
    if items.len() == 0 {
        prefix + seq!['(', ')']
    } else if !wants_lines(items) {
        prefix + seq!['(', ' '] + join(items, seq![',', ' ']) + seq![' ', ')']
    } else {
        prefix + seq!['(', '\n'] + entry_lines(items, base_indent + one_level()) + base_indent
            + seq![')']
    }
}

fn holds_newline(v: &Vec<char>) -> (r: bool)
    ensures
        r == v@.contains('\n'),
{
    let mut k: usize = 0;
    while k < v.len()
        invariant
            k <= v.len(),
            forall|j: int| 0 <= j < k ==> v@[j] != '\n',
        decreases v.len() - k,
    {
        if v[k] == '\n' {
            return true;
        }
        k += 1;
    }
    false
}

fn holds_only_commas(v: &Vec<char>) -> (r: bool)
    ensures
        r == only_commas(v@),
{
    let mut k: usize = 0;
    while k < v.len()
        invariant
            k <= v.len(),
            forall|j: int| 0 <= j < k ==> v@[j] == ',',
        decreases v.len() - k,
    {
        if v[k] != ',' {
            return false;
        }
        k += 1;
    }
    true
}

fn some_item_has_newline(items: &Vec<Vec<char>>) -> (r: bool)
    ensures
        r == any_multiline(lists_view(items@)),
{
    let mut k: usize = 0;
    while k < items.len()
        invariant
            k <= items.len(),
            forall|j: int| 0 <= j < k ==> !(#[trigger] lists_view(items@)[j]).contains('\n'),
        decreases items.len() - k,
    {
        if holds_newline(&items[k]) {
            proof {
                assert(lists_view(items@)[k as int] == items@[k as int]@);
            }
            return true;
        }
        proof {
            assert(lists_view(items@)[k as int] == items@[k as int]@);
        }
        k += 1;
    }
    false
}

/// The list of the entries `items` behind the word `prefix`, written at
/// the indentation `base_indent`.
pub fn format_parenthesized(prefix: &str, items: &Vec<Vec<char>>, base_indent: &Vec<char>) -> (r:
    Vec<char>)
    ensures
        r@ == parenthesized(prefix@, lists_view(items@), base_indent@),
{
    let mut out = to_chars(prefix);
    if items.len() == 0 {
        out.push('(');
        out.push(')');
        proof {
            assert(out@ =~= prefix@ + seq!['(', ')']);
        }
        return out;
    }
    let multiline = items.len() >= 3 || some_item_has_newline(items);
    if !multiline {
        out.push('(');
        out.push(' ');
        let mut separator: Vec<char> = Vec::new();
        separator.push(',');
        separator.push(' ');
        proof {
            assert(separator@ =~= seq![',', ' ']);
        }
        extend_chars(&mut out, &join_chars(items, &separator));
        out.push(' ');
        out.push(')');
        proof {
            assert(out@ =~= prefix@ + seq!['(', ' '] + join(lists_view(items@), seq![',', ' '])
                + seq![' ', ')']);
        }
        return out;
    }
    out.push('(');
    out.push('\n');
    let mut item_indent: Vec<char> = Vec::new();
    extend_chars(&mut item_indent, base_indent);
    item_indent.push(' ');
    item_indent.push(' ');
    item_indent.push(' ');
    item_indent.push(' ');
    proof {
        assert(item_indent@ =~= base_indent@ + one_level());
    }
    let ghost head = out@;
    let ghost all = lists_view(items@);
    let mut k: usize = 0;
    proof {
        assert(all.take(0) =~= Seq::<Seq<char>>::empty());
        assert(out@ =~= head + entry_lines(all.take(0), item_indent@));
    }
    while k < items.len()
        invariant
            k <= items.len(),
            all == lists_view(items@),
            out@ == head + entry_lines(all.take(k as int), item_indent@),
        decreases items.len() - k,
    {
        let ghost before = out@;
        let ghost done = entry_lines(all.take(k as int), item_indent@);
        proof {
            assert(all.take(k + 1).drop_last() =~= all.take(k as int));
            assert(all.take(k + 1).last() == items@[k as int]@);
        }
        let entry = trim_chars(&items[k]);
        if !(entry.len() == 0 || holds_only_commas(&entry)) {
            extend_chars(&mut out, &indent_block(&entry, &item_indent));
            out.push(',');
            out.push('\n');
            proof {
                assert(out@ =~= head + (done + indented_block(entry@, item_indent@) + seq![
                    ',',
                    '\n',
                ]));
            }
        }
        k += 1;
    }
    proof {
        assert(all.take(items.len() as int) =~= all);
    }
    extend_chars(&mut out, base_indent);
    out.push(')');
    proof {
        assert(out@ =~= prefix@ + seq!['(', '\n'] + entry_lines(all, base_indent@ + one_level())
            + base_indent@ + seq![')']);
    }
    out
}

// ---------------------------------------------------------------------------
// The indentation of a line
// ---------------------------------------------------------------------------

/// Whether `c` is whitespace that does not end a line.
pub open spec fn is_inline_space(c: char) -> bool {
    is_whitespace(c) && c != '\n' && c != '\r'
}

/// The number of characters of inline whitespace with which `s` begins.
pub open spec fn space_run(s: Seq<char>) -> nat
    decreases s.len(),
{
    if s.len() > 0 && is_inline_space(s[0]) {
        1 + space_run(s.drop_first())
    } else {
        0
    }
}

/// The whitespace with which the line begins that holds the byte offset
/// `byte_pos`, as far as it stands before that offset.
pub open spec fn line_indent_of(text: Seq<char>, byte_pos: int) -> Seq<char> {
    let before = slice_of(text, 0, byte_pos);
    let line = before.skip(last_index_of(before, '\n') + 1);
    line.take(space_run(line) as int)
}

/// The whitespace with which the line begins that holds the byte offset
/// `byte_pos`, as far as it stands before that offset.
pub fn line_indent(text: &str, byte_pos: usize) -> (r: Vec<char>)
    ensures
        r@ == line_indent_of(text@, byte_pos as int),
{
    let before = slice_text(text, 0, byte_pos);
    proof {
        lemma_last_index_of(before@, '\n');
    }
    let from: usize = match rfind_char(&before, '\n') {
        Some(at) => at + 1,
        None => 0,
    };
    let n = before.len();
    let ghost line = before@.skip(from as int);
    let mut k: usize = from;
    proof {
        assert(line.skip(0) =~= line);
    }
    while k < n && char_is_whitespace(before[k]) && before[k] != '\n' && before[k] != '\r'
        invariant
            from <= k <= n,
            n == before.len(),
            line == before@.skip(from as int),
            space_run(line) == (k - from) + space_run(line.skip(k - from)),
        decreases n - k,
    {
        proof {
            assert(line.skip(k - from)[0] == before@[k as int]);
            assert(line.skip(k - from).drop_first() =~= line.skip(k + 1 - from));
        }
        k += 1;
    }
    proof {
        if k < n {
            assert(line.skip(k - from)[0] == before@[k as int]);
        }
        assert(space_run(line) == k - from);
    }
    let out = slice_chars(&before, from, k);
    proof {
        assert(out@ =~= line.take(space_run(line) as int));
    }
    out
}

// ---------------------------------------------------------------------------
// Rendering nodes
// ---------------------------------------------------------------------------

/// The word that stands before the list that a node of kind `kind` is;
/// nothing where such a node is no list.
pub open spec fn list_keyword(kind: Seq<char>) -> Option<Seq<char>> {
    if kind == "cond_any_group"@ {
        Some("any"@)
    } else if kind == "cond_all_group"@ {
        Some("all"@)
    } else if kind == "set_list"@ || kind == "room_list"@ {
        Some(""@)
    } else if kind == "npc_patch_route"@ {
        Some("route"@)
    } else if kind == "npc_patch_random_rooms"@ {
        Some("random rooms"@)
    } else if kind == "required_items_stmt"@ {
        Some("required_items"@)
    } else if kind == "required_flags_stmt"@ {
        Some("required_flags"@)
    } else {
        None
    }
}

fn keyword_of(tree: &SyntaxTree, node: usize) -> (r: Option<&'static str>)
    requires
        node < tree@.len(),
    ensures
        match r {
            Some(word) => list_keyword(tree@[node as int].kind) == Some(word@),
            None => list_keyword(tree@[node as int].kind) is None,
        },
{
    if tree.kind_is(node, "cond_any_group") {
        Some("any")
    } else if tree.kind_is(node, "cond_all_group") {
        Some("all")
    } else if tree.kind_is(node, "set_list") || tree.kind_is(node, "room_list") {
        Some("")
    } else if tree.kind_is(node, "npc_patch_route") {
        Some("route")
    } else if tree.kind_is(node, "npc_patch_random_rooms") {
        Some("random rooms")
    } else if tree.kind_is(node, "required_items_stmt") {
        Some("required_items")
    } else if tree.kind_is(node, "required_flags_stmt") {
        Some("required_flags")
    } else {
        None
    }
}

/// How node `node` is written where it is a list: its keyword and its
/// entries, at the indentation `base_indent`.
pub open spec fn rendered(t: TreeView, text: Seq<char>, node: int, base_indent: Seq<char>)
    -> Option<Seq<char>>
    decreases t.len() - node, 2int, 0int,
{
    if 0 <= node < t.len() {
        match list_keyword(t[node].kind) {
            Some(word) => Some(parenthesized(word, items_of(t, text, node, 0), base_indent)),
            None => None,
        }
    } else {
        None
    }
}

/// The entries that the named children of `node` from index `from` on
/// make: each as it is written as a child, those left out that come out
/// empty.
pub open spec fn items_of(t: TreeView, text: Seq<char>, node: int, from: int) -> Seq<Seq<char>>
    decreases t.len() - node, 1int, t[node].children.len() - from,
{
    if 0 <= node < t.len() && 0 <= from < t[node].children.len() {
        let c = t[node].children[from];
        let rest = items_of(t, text, node, from + 1);
        if node < c < t.len() && t[c].named && child_rendered(t, text, c).len() > 0 {
            seq![child_rendered(t, text, c)] + rest
        } else {
            rest
        }
    } else {
        Seq::empty()
    }
}

/// How node `node` is written as an entry of a list: as a list where it
/// is one, else as the first of its named children that is a list, else
/// as its text without the whitespace around it.
pub open spec fn child_rendered(t: TreeView, text: Seq<char>, node: int) -> Seq<char>
    decreases t.len() - node, 3int, 0int,
{
    if 0 <= node < t.len() {
        match rendered(t, text, node, Seq::empty()) {
            Some(written) => written,
            None => match first_nested(t, text, node, 0) {
                Some(written) => written,
                None => trim(node_text(t, text, node)),
            },
        }
    } else {
        Seq::empty()
    }
}

/// How the first named child of `node` from index `from` on that is a
/// list is written.
pub open spec fn first_nested(t: TreeView, text: Seq<char>, node: int, from: int) -> Option<
    Seq<char>,
>
    decreases t.len() - node, 1int, t[node].children.len() - from,
{
    if 0 <= node < t.len() && 0 <= from < t[node].children.len() {
        let c = t[node].children[from];
        if node < c < t.len() && t[c].named && rendered(t, text, c, Seq::empty()) is Some {
            rendered(t, text, c, Seq::empty())
        } else {
            first_nested(t, text, node, from + 1)
        }
    } else {
        None
    }
}

/// What an optional vector of characters holds.
pub open spec fn opt_chars(value: Option<Vec<char>>) -> Option<Seq<char>> {
    match value {
        Some(v) => Some(v@),
        None => None,
    }
}

/// How node `node` is written where it is a list.
pub fn render_nested(tree: &SyntaxTree, text: &str, node: usize, base_indent: &Vec<char>) -> (r:
    Option<Vec<char>>)
    requires
        node < tree@.len(),
    ensures
        opt_chars(r) == rendered(tree@, text@, node as int, base_indent@),
    decreases tree@.len() - node, 2int, 0int,
{
    match keyword_of(tree, node) {
        Some(word) => {
            let items = collect_items(tree, text, node);
            Some(format_parenthesized(word, &items, base_indent))
        },
        None => None,
    }
}

/// The entries that the named children of `node` make.
pub fn collect_items(tree: &SyntaxTree, text: &str, node: usize) -> (r: Vec<Vec<char>>)
    requires
        node < tree@.len(),
    ensures
        lists_view(r@) == items_of(tree@, text@, node as int, 0),
    decreases tree@.len() - node, 1int, 1int,
{
    let n = tree.child_count(node);
    let mut items: Vec<Vec<char>> = Vec::new();
    let mut k: usize = 0;
    proof {
        assert(lists_view(items@) + items_of(tree@, text@, node as int, 0) =~= items_of(
            tree@,
            text@,
            node as int,
            0,
        ));
    }
    while k < n
        invariant
            k <= n,
            node < tree@.len(),
            n == tree@[node as int].children.len(),
            items_of(tree@, text@, node as int, 0) == lists_view(items@) + items_of(
                tree@,
                text@,
                node as int,
                k as int,
            ),
        decreases n - k,
    {
        let c = tree.child(node, k);
        let ghost rest = items_of(tree@, text@, node as int, k + 1);
        let ghost so_far = lists_view(items@);
        if tree.node(c).named {
            let item = render_child(tree, text, c);
            if item.len() > 0 {
                let ghost view = item@;
                items.push(item);
                proof {
                    assert(lists_view(items@) =~= so_far.push(view));
                    assert(so_far + (seq![view] + rest) =~= so_far.push(view) + rest);
                }
            }
        }
        k += 1;
    }
    proof {
        assert(lists_view(items@) + Seq::<Seq<char>>::empty() =~= lists_view(items@));
    }
    items
}

/// How node `node` is written as an entry of a list.
pub fn render_child(tree: &SyntaxTree, text: &str, node: usize) -> (r: Vec<char>)
    requires
        node < tree@.len(),
    ensures
        r@ == child_rendered(tree@, text@, node as int),
    decreases tree@.len() - node, 3int, 0int,
{
    let empty: Vec<char> = Vec::new();
    proof {
        assert(empty@ =~= Seq::<char>::empty());
    }
    match render_nested(tree, text, node, &empty) {
        Some(written) => {
            return written;
        },
        None => {},
    }
    let n = tree.child_count(node);
    let mut k: usize = 0;
    while k < n
        invariant
            k <= n,
            node < tree@.len(),
            empty@ == Seq::<char>::empty(),
            n == tree@[node as int].children.len(),
            rendered(tree@, text@, node as int, Seq::empty()) is None,
            first_nested(tree@, text@, node as int, 0) == first_nested(
                tree@,
                text@,
                node as int,
                k as int,
            ),
        decreases n - k,
    {
        let c = tree.child(node, k);
        if tree.node(c).named {
            match render_nested(tree, text, c, &empty) {
                Some(written) => {
                    return written;
                },
                None => {},
            }
        }
        k += 1;
    }
    let raw = tree.text_of(node, text);
    trim_chars(&raw)
}

// ---------------------------------------------------------------------------
// The conditions of an overlay
// ---------------------------------------------------------------------------

/// The index at which `list` holds `x` first; `-1` where it does not hold
/// it.
pub open spec fn index_in(list: Seq<int>, x: int) -> int
    decreases list.len(),
{
    if list.len() == 0 {
        -1
    } else if list[0] == x {
        0
    } else {
        let rest = index_in(list.drop_first(), x);
        if rest < 0 {
            -1
        } else {
            rest + 1
        }
    }
}

/// The entries and the end of a list of overlay conditions that goes on
/// in the children of `parent` from index `from`: the conditions up to
/// the closing bracket, and where that bracket ends. Nothing where there
/// is no closing bracket.
pub open spec fn overlay_scan(
    t: TreeView,
    text: Seq<char>,
    parent: int,
    from: int,
    items: Seq<Seq<char>>,
) -> Option<(Seq<Seq<char>>, int)>
    decreases t[parent].children.len() - from,
{
    if 0 <= from < t[parent].children.len() {
        let c = t[parent].children[from];
        if t[c].kind == ")"@ {
            Some((items, t[c].end_byte))
        } else if t[c].named && starts_with(t[c].kind, "ovl_"@) {
            overlay_scan(t, text, parent, from + 1, items.push(child_rendered(t, text, c)))
        } else {
            overlay_scan(t, text, parent, from + 1, items)
        }
    } else {
        None
    }
}

/// How the list of conditions is written that the opening bracket
/// `open_paren` of an overlay statement begins, and where the list ends.
/// Nothing where the bracket does not stand in an overlay statement or
/// the list is not closed.
pub open spec fn overlay_list(
    t: TreeView,
    text: Seq<char>,
    open_paren: int,
    base_indent: Seq<char>,
) -> Option<(Seq<char>, int)> {
    match t[open_paren].parent {
        Some(p) => if 0 <= p < t.len() && t[p].kind == "overlay_stmt"@ && index_in(
            t[p].children,
            open_paren,
        ) >= 0 {
            match overlay_scan(
                t,
                text,
                p,
                index_in(t[p].children, open_paren) + 1,
                Seq::empty(),
            ) {
                Some((items, end)) => Some((parenthesized(""@, items, base_indent), end)),
                None => None,
            }
        } else {
            None
        },
        None => None,
    }
}

fn position_in_parent(tree: &SyntaxTree, parent: usize, node: usize) -> (r: Option<usize>)
    requires
        parent < tree@.len(),
    ensures
        match r {
            Some(at) => index_in(tree@[parent as int].children, node as int) == at && at
                < tree@[parent as int].children.len(),
            None => index_in(tree@[parent as int].children, node as int) < 0,
        },
{
    let n = tree.child_count(parent);
    let ghost list = tree@[parent as int].children;
    let mut k: usize = 0;
    proof {
        assert(list.skip(0) =~= list);
    }
    while k < n
        invariant
            k <= n,
            parent < tree@.len(),
            n == list.len(),
            list == tree@[parent as int].children,
            index_in(list, node as int) == (if index_in(list.skip(k as int), node as int) < 0 {
                -1
            } else {
                k + index_in(list.skip(k as int), node as int)
            }),
        decreases n - k,
    {
        let c = tree.child(parent, k);
        proof {
            assert(list.skip(k as int)[0] == c);
            assert(list.skip(k as int).drop_first() =~= list.skip(k + 1));
        }
        if c == node {
            return Some(k);
        }
        k += 1;
    }
    proof {
        assert(list.skip(n as int) =~= Seq::<int>::empty());
    }
    None
}

/// How the list of conditions is written that the opening bracket
/// `open_paren` of an overlay statement begins, and where the list ends.
pub fn render_overlay_cond_list(
    tree: &SyntaxTree,
    text: &str,
    open_paren: usize,
    base_indent: &Vec<char>,
) -> (r: Option<(Vec<char>, usize)>)
    requires
        open_paren < tree@.len(),
    ensures
        match r {
            Some((written, end)) => overlay_list(
                tree@,
                text@,
                open_paren as int,
                base_indent@,
            ) == Some((written@, end as int)),
            None => overlay_list(tree@, text@, open_paren as int, base_indent@) is None,
        },
{
    let parent = match tree.parent(open_paren) {
        Some(p) => p,
        None => {
            return None;
        },
    };
    if !tree.kind_is(parent, "overlay_stmt") {
        return None;
    }
    let at = match position_in_parent(tree, parent, open_paren) {
        Some(at) => at,
        None => {
            return None;
        },
    };
    let n = tree.child_count(parent);
    let prefix = to_chars("ovl_");
    let mut items: Vec<Vec<char>> = Vec::new();
    let mut k: usize = at + 1;
    proof {
        assert(lists_view(items@) =~= Seq::<Seq<char>>::empty());
    }
    while k < n
        invariant
            at < k <= n,
            parent < tree@.len(),
            prefix@ == "ovl_"@,
            n == tree@[parent as int].children.len(),
            overlay_scan(tree@, text@, parent as int, at + 1, Seq::empty()) == overlay_scan(
                tree@,
                text@,
                parent as int,
                k as int,
                lists_view(items@),
            ),
            tree@[open_paren as int].parent == Some(parent as int),
            tree@[parent as int].kind == "overlay_stmt"@,
            index_in(tree@[parent as int].children, open_paren as int) == at,
        decreases n - k,
    {
        let c = tree.child(parent, k);
        if tree.kind_is(c, ")") {
            let end = tree.node(c).end_byte;
            let empty = "";
            proof {
                reveal_strlit("");
                assert(empty@ =~= ""@);
            }
            return Some((format_parenthesized(empty, &items, base_indent), end));
        }
        if tree.node(c).named && chars_start_with(&to_chars(tree.node(c).kind.as_str()), &prefix) {
            let ghost so_far = lists_view(items@);
            let item = render_child(tree, text, c);
            let ghost view = item@;
            items.push(item);
            proof {
                assert(lists_view(items@) =~= so_far.push(view));
            }
        }
        k += 1;
    }
    None
}

// ---------------------------------------------------------------------------
// Going through the tree
// ---------------------------------------------------------------------------

/// Where the rewriting stands: what was written, and up to which byte
/// offset the text was taken in.
pub struct ListState {
    pub output: Seq<char>,
    pub cursor: int,
}

/// The state after the bytes from `start` up to `end` were replaced by
/// `replacement`: the text up to `start` is taken over as it is.
pub open spec fn replaced(
    text: Seq<char>,
    s: ListState,
    start: int,
    end: int,
    replacement: Seq<char>,
) -> ListState {
    ListState { output: s.output + slice_of(text, s.cursor, start) + replacement, cursor: end }
}

/// The state after node `node` was written anew, where it is a list or
/// begins the list of conditions of an overlay.
pub open spec fn formatted_node(t: TreeView, text: Seq<char>, s: ListState, node: int) -> Option<
    ListState,
> {
    let indent = line_indent_of(text, t[node].start_byte);
    match rendered(t, text, node, indent) {
        Some(written) => Some(replaced(text, s, t[node].start_byte, t[node].end_byte, written)),
        None => if t[node].kind == "("@ {
            match overlay_list(t, text, node, indent) {
                Some((written, end)) => Some(replaced(text, s, t[node].start_byte, end, written)),
                None => None,
            }
        } else {
            None
        },
    }
}

/// The state after node `node` and all below it were gone through. A node
/// that begins before the place up to which the text was taken in is
/// passed over, a node that is written anew is not gone into.
pub open spec fn visited(t: TreeView, text: Seq<char>, s: ListState, node: int) -> ListState
    decreases t.len() - node, t[node].children.len() + 1,
{
    if 0 <= node < t.len() {
        if t[node].start_byte < s.cursor {
            s
        } else {
            match formatted_node(t, text, s, node) {
                Some(after) => after,
                None => visited_children(t, text, s, node, 0),
            }
        }
    } else {
        s
    }
}

/// The state after the children of `node` from index `from` on were gone
/// through.
pub open spec fn visited_children(
    t: TreeView,
    text: Seq<char>,
    s: ListState,
    node: int,
    from: int,
) -> ListState
    decreases t.len() - node, t[node].children.len() - from,
{
    if 0 <= node < t.len() && 0 <= from < t[node].children.len() {
        let c = t[node].children[from];
        if node < c < t.len() {
            visited_children(t, text, visited(t, text, s, c), node, from + 1)
        } else {
            visited_children(t, text, s, node, from + 1)
        }
    } else {
        s
    }
}

/// `text` with its lists written anew, going by the syntax tree `t`.
pub open spec fn lists_formatted(t: TreeView, text: Seq<char>) -> Seq<char> {
    let s = visited(t, text, ListState { output: Seq::empty(), cursor: 0 }, 0);
    s.output + slice_of(text, s.cursor, encode_utf8(text).len() as int)
}

struct ListWriter {
    output: Vec<char>,
    cursor: usize,
}

impl ListWriter {
    spec fn state(&self) -> ListState {
        ListState { output: self.output@, cursor: self.cursor as int }
    }
}

fn replace(w: &mut ListWriter, text: &str, start: usize, end: usize, replacement: &Vec<char>)
    ensures
        final(w).state() == replaced(
            text@,
            old(w).state(),
            start as int,
            end as int,
            replacement@,
        ),
{
    let kept = slice_text(text, w.cursor, start);
    extend_chars(&mut w.output, &kept);
    extend_chars(&mut w.output, replacement);
    w.cursor = end;
}

fn format_node(w: &mut ListWriter, tree: &SyntaxTree, text: &str, node: usize) -> (r: bool)
    requires
        node < tree@.len(),
    ensures
        match formatted_node(tree@, text@, old(w).state(), node as int) {
            Some(after) => r && final(w).state() == after,
            None => !r && final(w).state() == old(w).state(),
        },
{
    let start = tree.node(node).start_byte;
    let end = tree.node(node).end_byte;
    let indent = line_indent(text, start);
    match render_nested(tree, text, node, &indent) {
        Some(written) => {
            replace(w, text, start, end, &written);
            return true;
        },
        None => {},
    }
    if tree.kind_is(node, "(") {
        match render_overlay_cond_list(tree, text, node, &indent) {
            Some((written, list_end)) => {
                replace(w, text, start, list_end, &written);
                return true;
            },
            None => {},
        }
    }
    false
}

fn visit(w: &mut ListWriter, tree: &SyntaxTree, text: &str, node: usize)
    requires
        node < tree@.len(),
    ensures
        final(w).state() == visited(tree@, text@, old(w).state(), node as int),
    decreases tree@.len() - node,
{
    if tree.node(node).start_byte < w.cursor {
        return ;
    }
    if format_node(w, tree, text, node) {
        return ;
    }
    let n = tree.child_count(node);
    let ghost start = w.state();
    let mut k: usize = 0;
    while k < n
        invariant
            k <= n,
            node < tree@.len(),
            n == tree@[node as int].children.len(),
            visited_children(tree@, text@, start, node as int, 0) == visited_children(
                tree@,
                text@,
                w.state(),
                node as int,
                k as int,
            ),
        decreases n - k,
    {
        let c = tree.child(node, k);
        visit(w, tree, text, c);
        k += 1;
    }
}

/// `text` with its lists written anew, going by its syntax tree `tree`.
pub fn format_lists(tree: &SyntaxTree, text: &str) -> (r: String)
    ensures
        r@ == lists_formatted(tree@, text@),
{
    let mut w = ListWriter { output: Vec::new(), cursor: 0 };
    let n = tree.len();
    visit(&mut w, tree, text, 0);
    let rest = slice_text(text, w.cursor, text.as_bytes().len());
    extend_chars(&mut w.output, &rest);
    from_chars(&w.output)
}

} // verus!
