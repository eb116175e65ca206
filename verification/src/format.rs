//! Indentation of a document, line by line.
//!
//! Every line is put at four spaces for each block that is open where the
//! line begins. Text between triple quotes is left as it stands. Where the
//! braces of the syntax tree are known they decide what is open;
//! otherwise the braces are counted in the text.

use crate::chars::{
    extend_chars, from_chars, is_blank, lists_view, slice_chars, split, to_chars, trim, trim_end,
    trim_end_index, trim_start, trim_start_index, lemma_split_nonempty,
};
use crate::syntax::{SyntaxTree, TreeView};
use vstd::prelude::*;

verus! {

/// The triple quote that opened a text of several lines.
#[derive(Debug, Clone, Copy, PartialEq, Eq, Structural)]
pub enum TextDelimiter {
    Double,
    Single,
}

/// The character of which the delimiter `d` has three.
pub open spec fn quote_of(d: TextDelimiter) -> char {
    match d {
        TextDelimiter::Double => '"',
        TextDelimiter::Single => '\'',
    }
}

/// Whether `s` holds the character `quote` three times from index `i` on.
pub open spec fn triple_at(s: Seq<char>, i: int, quote: char) -> bool {
    0 <= i && i + 2 < s.len() && s[i] == quote && s[i + 1] == quote && s[i + 2] == quote
}

/// The state in which a text of several lines is after the characters of
/// `s` from index `i` on, where it was in `state` before them: a triple
/// quote opens a text where none is open, and the triple quote that opened
/// a text closes it.
pub open spec fn multiline_from(s: Seq<char>, i: int, state: Option<TextDelimiter>) -> Option<
    TextDelimiter,
>
    decreases s.len() - i,
{
    if 0 <= i && i + 2 < s.len() {
        match state {
            Some(d) => if triple_at(s, i, quote_of(d)) {
                multiline_from(s, i + 3, None)
            } else {
                multiline_from(s, i + 1, state)
            },
            None => if triple_at(s, i, '"') {
                multiline_from(s, i + 3, Some(TextDelimiter::Double))
            } else if triple_at(s, i, '\'') {
                multiline_from(s, i + 3, Some(TextDelimiter::Single))
            } else {
                multiline_from(s, i + 1, None)
            },
        }
    } else {
        state
    }
}

/// The state after the line `line`, where it was `state` before it.
pub open spec fn multiline_after(line: Seq<char>, state: Option<TextDelimiter>) -> Option<
    TextDelimiter,
> {
    multiline_from(line, 0, state)
}

fn update_multiline_chars(line: &Vec<char>, state: Option<TextDelimiter>) -> (r: Option<
    TextDelimiter,
>)
    ensures
        r == multiline_after(line@, state),
{
    let n = line.len();
    let mut current = state;
    let mut i: usize = 0;
    while n >= 3 && i < n - 2
        invariant
            n == line.len(),
            i <= n,
            multiline_after(line@, state) == multiline_from(line@, i as int, current),
        decreases n - i,
    {
        let quote = match current {
            Some(TextDelimiter::Double) => Some('"'),
            Some(TextDelimiter::Single) => Some('\''),
            None => None,
        };
        match quote {
            Some(q) => {
                if line[i] == q && line[i + 1] == q && line[i + 2] == q {
                    current = None;
                    i += 3;
                } else {
                    i += 1;
                }
            },
            None => {
                if line[i] == '"' && line[i + 1] == '"' && line[i + 2] == '"' {
                    current = Some(TextDelimiter::Double);
                    i += 3;
                } else if line[i] == '\'' && line[i + 1] == '\'' && line[i + 2] == '\'' {
                    current = Some(TextDelimiter::Single);
                    i += 3;
                } else {
                    i += 1;
                }
            },
        }
    }
    current
}

/// Brings `state` up to date with the line `line`.
pub fn update_multiline_state(line: &str, state: &mut Option<TextDelimiter>)
    ensures
        *final(state) == multiline_after(line@, *old(state)),
{
    let next = update_multiline_chars(&to_chars(line), *state);
    *state = next;
}

/// By how much the braces of `s` from index `i` on change the number of
/// open blocks, where `delim` is the quote of the string that is open at
/// `i`. Braces in strings do not count, a backslash in a string takes the
/// next character with it, and a triple quote ends the count.
pub open spec fn brace_scan(s: Seq<char>, i: int, delim: Option<char>) -> int
    decreases s.len() - i,
{
    if 0 <= i < s.len() {
        let c = s[i];
        match delim {
            Some(d) => if c == '\\' {
                if i + 1 < s.len() {
                    brace_scan(s, i + 2, delim)
                } else {
                    0
                }
            } else if c == d {
                brace_scan(s, i + 1, None)
            } else {
                brace_scan(s, i + 1, delim)
            },
            None => if (c == '"' || c == '\'') && triple_at(s, i, c) {
                0
            } else if c == '"' || c == '\'' {
                brace_scan(s, i + 1, Some(c))
            } else if c == '{' {
                brace_scan(s, i + 1, None) + 1
            } else if c == '}' {
                brace_scan(s, i + 1, None) - 1
            } else {
                brace_scan(s, i + 1, None)
            },
        }
    } else {
        0
    }
}

/// By how much the braces of `line` change the number of open blocks.
pub open spec fn brace_delta_of(line: Seq<char>) -> int {
    brace_scan(line, 0, None)
}

fn brace_delta_chars(line: &Vec<char>) -> (r: i128)
    ensures
        r == brace_delta_of(line@),
        -line@.len() <= r <= line@.len(),
{
    let n = line.len();
    let mut i: usize = 0;
    let mut delta: i128 = 0;
    let mut delim: Option<char> = None;
    while i < n
        invariant
            n == line.len(),
            i <= n,
            -(i as int) <= delta <= i,
            brace_delta_of(line@) == delta + brace_scan(line@, i as int, delim),
        decreases n - i,
    {
        let c = line[i];
        match delim {
            Some(d) => {
                if c == '\\' {
                    if n - i >= 2 {
                        i += 2;
                    } else {
                        i = n;
                    }
                    continue ;
                }
                if c == d {
                    delim = None;
                }
                i += 1;
            },
            None => {
                if (c == '"' || c == '\'') && n - i > 2 && line[i + 1] == c && line[i + 2] == c {
                    return delta;
                }
                if c == '"' || c == '\'' {
                    delim = Some(c);
                } else if c == '{' {
                    delta += 1;
                } else if c == '}' {
                    delta -= 1;
                }
                i += 1;
            },
        }
    }
    delta
}

/// By how much the braces of `line` change the number of open blocks.
pub fn brace_delta(line: &str) -> (r: i128)
    ensures
        r == brace_delta_of(line@),
{
    brace_delta_chars(&to_chars(line))
}

// ---------------------------------------------------------------------------
// The state of the formatter
// ---------------------------------------------------------------------------

/// Where the formatter stands between two lines.
pub struct FormatState {
    /// What was written so far.
    pub output: Seq<char>,
    /// The number of blocks that are open.
    pub indent: nat,
    /// The text of several lines that is open, if one is.
    pub multiline: Option<TextDelimiter>,
}

/// `n` spaces.
pub open spec fn spaces(n: nat) -> Seq<char> {
    Seq::new(n, |i: int| ' ')
}

/// A line break, or nothing.
pub open spec fn line_end(has_newline: bool) -> Seq<char> {
    if has_newline {
        seq!['\n']
    } else {
        Seq::empty()
    }
}

/// `n` less one, but not less than nothing.
pub open spec fn one_less(n: nat) -> nat {
    if n > 0 {
        (n - 1) as nat
    } else {
        0
    }
}

/// The pieces of `text` between line breaks, each with the mark whether a
/// line break follows it. The last piece has no line break and is left out
/// where it is empty.
pub open spec fn lines_of(text: Seq<char>) -> Seq<(Seq<char>, bool)> {
    let pieces = split(text, '\n');
    let whole = Seq::new((pieces.len() - 1) as nat, |i: int| (pieces[i], true));
    if pieces.last().len() > 0 {
        whole.push((pieces.last(), false))
    } else {
        whole
    }
}

/// `output` with a line break at its end, added where it has none.
pub open spec fn closed_with_newline(output: Seq<char>) -> Seq<char> {
    if output.len() > 0 && output.last() == '\n' {
        output
    } else {
        output.push('\n')
    }
}

struct Formatter {
    output: Vec<char>,
    indent: usize,
    multiline: Option<TextDelimiter>,
}

impl Formatter {
    spec fn state(&self) -> FormatState {
        FormatState {
            output: self.output@,
            indent: self.indent as nat,
            multiline: self.multiline,
        }
    }
}

fn push_spaces(out: &mut Vec<char>, levels: usize)
    ensures
        final(out)@ == old(out)@ + spaces((levels * 4) as nat),
{
    let mut k: usize = 0;
    proof {
        assert(out@ =~= old(out)@ + spaces(0));
    }
    while k < levels
        invariant
            k <= levels,
            out@ == old(out)@ + spaces((k * 4) as nat),
        decreases levels - k,
    {
        out.push(' ');
        out.push(' ');
        out.push(' ');
        out.push(' ');
        proof {
            assert(out@ =~= old(out)@ + spaces(((k + 1) * 4) as nat));
        }
        k += 1;
    }
}

fn push_line_end(out: &mut Vec<char>, has_newline: bool)
    ensures
        final(out)@ == old(out)@ + line_end(has_newline),
{
    if has_newline {
        out.push('\n');
        proof {
            assert(out@ =~= old(out)@ + seq!['\n']);
        }
    } else {
        proof {
            assert(out@ =~= old(out)@ + Seq::<char>::empty());
        }
    }
}

/// The pieces of `v` between occurrences of `sep`.
pub fn split_chars(v: &Vec<char>, sep: char) -> (r: Vec<Vec<char>>)
    ensures
        lists_view(r@) == split(v@, sep),
        r@.len() >= 1,
{
    let mut done: Vec<Vec<char>> = Vec::new();
    let mut current: Vec<char> = Vec::new();
    let mut i: usize = 0;
    proof {
        assert(v@.take(0) =~= Seq::<char>::empty());
        assert(split(v@.take(0), sep) =~= seq![Seq::<char>::empty()]);
        assert(split(v@.take(0), sep).drop_last() =~= Seq::<Seq<char>>::empty());
        assert(lists_view(done@) =~= Seq::<Seq<char>>::empty());
    }
    while i < v.len()
        invariant
            i <= v.len(),
            split(v@.take(i as int), sep).len() > 0,
            lists_view(done@) == split(v@.take(i as int), sep).drop_last(),
            current@ == split(v@.take(i as int), sep).last(),
        decreases v.len() - i,
    {
        proof {
            assert(v@.take(i + 1).drop_last() =~= v@.take(i as int));
            lemma_split_nonempty(v@.take(i + 1), sep);
        }
        let ghost before = split(v@.take(i as int), sep);
        let ghost after = split(v@.take(i + 1), sep);
        if v[i] == sep {
            let ghost old_done = lists_view(done@);
            done.push(current);
            proof {
                assert(after == before.push(Seq::empty()));
                assert(after.drop_last() =~= before);
                assert(before.drop_last().push(before.last()) =~= before);
                assert(lists_view(done@) =~= old_done.push(before.last()));
            }
            current = Vec::new();
        } else {
            proof {
                assert(after == before.drop_last().push(before.last().push(v@[i as int])));
                assert(after.drop_last() =~= before.drop_last());
            }
            current.push(v[i]);
        }
        i += 1;
    }
    proof {
        assert(v@.take(v.len() as int) =~= v@);
        let all = split(v@, sep);
        assert(all.drop_last().push(all.last()) =~= all);
    }
    let ghost old_done = lists_view(done@);
    done.push(current);
    proof {
        assert(lists_view(done@) =~= old_done.push(split(v@, sep).last()));
    }
    done
}

// ---------------------------------------------------------------------------
// Counting braces in the text
// ---------------------------------------------------------------------------

/// The state after a line that is not indented anew: a line of a text of
/// several lines loses the whitespace at its end, a blank line becomes
/// empty.
pub open spec fn kept_line(state: FormatState, line: Seq<char>, has_newline: bool) -> FormatState {
    FormatState {
        output: state.output + (if state.multiline is Some {
            trim_end(line)
        } else {
            Seq::empty()
        }) + line_end(has_newline),
        indent: state.indent,
        multiline: multiline_after(line, state.multiline),
    }
}

/// Whether a line is not indented anew: it lies in a text of several
/// lines, or it is blank.
pub open spec fn keeps_line(state: FormatState, line: Seq<char>) -> bool {
    state.multiline is Some || trim(line).len() == 0
}

/// The number of open blocks after `delta` more of them: not less than
/// none, and not more than a `usize` can count.
pub open spec fn moved_indent(indent: nat, delta: int) -> nat {
    if indent + delta > usize::MAX {
        usize::MAX as nat
    } else if indent + delta > 0 {
        (indent + delta) as nat
    } else {
        0
    }
}

/// The state after the line `line`, going by the braces in the text. A
/// line that begins with a closing brace is put one level further out.
pub open spec fn fallback_line(state: FormatState, line: Seq<char>, has_newline: bool)
    -> FormatState {
    if keeps_line(state, line) {
        kept_line(state, line, has_newline)
    } else {
        let start = trim_start(line);
        let closes = start.len() > 0 && start[0] == '}';
        let indent = if closes {
            one_less(state.indent)
        } else {
            state.indent
        };
        let normalized = trim_end(start);
        let delta = brace_delta_of(normalized) + (if closes {
            1int
        } else {
            0int
        });
        FormatState {
            output: state.output + spaces(indent * 4) + normalized + line_end(has_newline),
            indent: moved_indent(indent, delta),
            multiline: multiline_after(start, None),
        }
    }
}

/// The state after the lines `lines`, going by the braces in the text.
pub open spec fn fallback_lines(state: FormatState, lines: Seq<(Seq<char>, bool)>) -> FormatState
    decreases lines.len(),
{
    if lines.len() == 0 {
        state
    } else {
        fallback_line(fallback_lines(state, lines.drop_last()), lines.last().0, lines.last().1)
    }
}

/// The state in which the formatter begins.
pub open spec fn initial_state() -> FormatState {
    FormatState { output: Seq::empty(), indent: 0, multiline: None }
}

/// `text` indented by the braces that are counted in it.
pub open spec fn fallback_formatted(text: Seq<char>) -> Seq<char> {
    closed_with_newline(fallback_lines(initial_state(), lines_of(text)).output)
}

fn keep_line(f: &mut Formatter, line: &Vec<char>, has_newline: bool)
    ensures
        final(f).state() == kept_line(old(f).state(), line@, has_newline),
{
    let ghost before = f.output@;
    if f.multiline.is_some() {
        let end = trim_end_index(line, 0);
        let kept = slice_chars(line, 0, end);
        proof {
            assert(line@.skip(0) =~= line@);
        }
        extend_chars(&mut f.output, &kept);
    } else {
        proof {
            assert(f.output@ =~= before + Seq::<char>::empty());
        }
    }
    push_line_end(&mut f.output, has_newline);
    f.multiline = update_multiline_chars(line, f.multiline);
}

fn fallback_step(f: &mut Formatter, line: &Vec<char>, has_newline: bool)
    ensures
        final(f).state() == fallback_line(old(f).state(), line@, has_newline),
{
    if f.multiline.is_some() || is_blank(line) {
        keep_line(f, line, has_newline);
        return ;
    }
    let a = trim_start_index(line);
    let start = slice_chars(line, a, line.len());
    proof {
        assert(start@ =~= trim_start(line@));
        assert(line@.skip(a as int) =~= line@.subrange(a as int, line.len() as int));
    }
    let closes = start.len() > 0 && start[0] == '}';
    if closes && f.indent > 0 {
        f.indent -= 1;
    }
    let end = trim_end_index(&start, 0);
    let normalized = slice_chars(&start, 0, end);
    proof {
        assert(start@.skip(0) =~= start@);
    }
    push_spaces(&mut f.output, f.indent);
    extend_chars(&mut f.output, &normalized);
    push_line_end(&mut f.output, has_newline);
    let mut delta = brace_delta_chars(&normalized);
    if closes {
        delta += 1;
    }
    let moved: i128 = f.indent as i128 + delta;
    f.indent = if moved > usize::MAX as i128 {
        usize::MAX
    } else if moved > 0 {
        moved as usize
    } else {
        0
    };
    f.multiline = update_multiline_chars(&start, None);
}

fn finish_output(out: Vec<char>) -> (r: String)
    ensures
        r@ == closed_with_newline(out@),
{
    let mut out = out;
    let n = out.len();
    if n == 0 || out[n - 1] != '\n' {
        out.push('\n');
    }
    from_chars(&out)
}

/// `text` indented by the braces that are counted in it.
pub fn fallback_format(text: &str) -> (r: String)
    ensures
        r@ == fallback_formatted(text@),
{
    let chars = to_chars(text);
    let pieces = split_chars(&chars, '\n');
    let ghost lines = lines_of(text@);
    let n = pieces.len();
    let mut f = Formatter { output: Vec::new(), indent: 0, multiline: None };
    let mut k: usize = 0;
    proof {
        assert(lines.take(0) =~= Seq::<(Seq<char>, bool)>::empty());
    }
    while k < n - 1
        invariant
            n == pieces.len(),
            n >= 1,
            k <= n - 1,
            lists_view(pieces@) == split(text@, '\n'),
            lines == lines_of(text@),
            f.state() == fallback_lines(initial_state(), lines.take(k as int)),
        decreases n - 1 - k,
    {
        proof {
            assert(lines.take(k + 1).drop_last() =~= lines.take(k as int));
            assert(lines.take(k + 1).last() == (pieces@[k as int]@, true));
            assert(lists_view(pieces@)[k as int] == pieces@[k as int]@);
        }
        fallback_step(&mut f, &pieces[k], true);
        k += 1;
    }
    proof {
        assert(lists_view(pieces@)[n - 1] == pieces@[n - 1]@);
    }
    if pieces[n - 1].len() > 0 {
        proof {
            assert(lines.drop_last() =~= lines.take(n - 1));
        }
        fallback_step(&mut f, &pieces[n - 1], false);
    } else {
        proof {
            assert(lines.take(n - 1) =~= lines);
        }
    }
    finish_output(f.output)
}

// ---------------------------------------------------------------------------
// Going by the braces of the syntax tree
// ---------------------------------------------------------------------------

/// Whether a brace opens or closes a block.
#[derive(Debug, Clone, Copy, PartialEq, Eq, Structural)]
pub enum BraceKind {
    Open,
    Close,
}

/// A brace of the syntax tree: its line, its byte column on that line, and
/// whether it opens or closes.
#[derive(Debug, Clone, Copy, PartialEq, Eq, Structural)]
pub struct BraceEvent {
    pub line: usize,
    pub column: usize,
    pub kind: BraceKind,
}

/// The brace that node `node` is, if it is one: a token `{` or `}`.
pub open spec fn own_event(t: TreeView, node: int) -> Seq<BraceEvent> {
    if t[node].named {
        Seq::empty()
    } else if t[node].kind == "{"@ {
        seq![
            BraceEvent {
                line: t[node].start_row as usize,
                column: t[node].start_column as usize,
                kind: BraceKind::Open,
            },
        ]
    } else if t[node].kind == "}"@ {
        seq![
            BraceEvent {
                line: t[node].start_row as usize,
                column: t[node].start_column as usize,
                kind: BraceKind::Close,
            },
        ]
    } else {
        Seq::empty()
    }
}

/// The braces at and below node `node`, in the order of the text.
pub open spec fn node_events(t: TreeView, node: int) -> Seq<BraceEvent>
    decreases t.len() - node, t[node].children.len() + 1,
{
    if 0 <= node < t.len() {
        own_event(t, node) + children_events(t, node, 0)
    } else {
        Seq::empty()
    }
}

/// The braces below node `node` in its children from index `from` on.
pub open spec fn children_events(t: TreeView, node: int, from: int) -> Seq<BraceEvent>
    decreases t.len() - node, t[node].children.len() - from,
{
    if 0 <= node < t.len() && 0 <= from < t[node].children.len() {
        let child = t[node].children[from];
        (if node < child < t.len() {
            node_events(t, child)
        } else {
            Seq::empty()
        }) + children_events(t, node, from + 1)
    } else {
        Seq::empty()
    }
}

/// Adds to `events` the braces at and below node `node`.
pub fn walk_brace_nodes(tree: &SyntaxTree, node: usize, events: &mut Vec<BraceEvent>)
    requires
        node < tree@.len(),
    ensures
        final(events)@ == old(events)@ + node_events(tree@, node as int),
    decreases tree@.len() - node,
{
    let ghost start = events@;
    let current = tree.node(node);
    if !current.named {
        if tree.kind_is(node, "{") {
            events.push(
                BraceEvent {
                    line: current.start_row,
                    column: current.start_column,
                    kind: BraceKind::Open,
                },
            );
        } else if tree.kind_is(node, "}") {
            events.push(
                BraceEvent {
                    line: current.start_row,
                    column: current.start_column,
                    kind: BraceKind::Close,
                },
            );
        }
    }
    proof {
        assert(events@ =~= start + own_event(tree@, node as int));
    }
    let n = tree.child_count(node);
    let mut k: usize = 0;
    while k < n
        invariant
            k <= n,
            node < tree@.len(),
            n == tree@[node as int].children.len(),
            start + node_events(tree@, node as int) == events@ + children_events(
                tree@,
                node as int,
                k as int,
            ),
        decreases n - k,
    {
        let child = tree.child(node, k);
        let ghost before = events@;
        let ghost rest = children_events(tree@, node as int, k + 1);
        walk_brace_nodes(tree, child, events);
        proof {
            assert(before + (node_events(tree@, child as int) + rest) =~= events@ + rest);
        }
        k += 1;
    }
    proof {
        assert(events@ + Seq::<BraceEvent>::empty() =~= events@);
    }
}

/// The braces of `tree`, in the order of the text.
pub fn collect_brace_events(tree: &SyntaxTree) -> (r: Vec<BraceEvent>)
    ensures
        r@ == node_events(tree@, 0),
{
    let mut events: Vec<BraceEvent> = Vec::new();
    let n = tree.len();
    walk_brace_nodes(tree, 0, &mut events);
    proof {
        assert(Seq::<BraceEvent>::empty() + node_events(tree@, 0) =~= node_events(tree@, 0));
    }
    events
}

/// The events of `events` that lie on line `line`, in order.
pub open spec fn events_on_line(events: Seq<BraceEvent>, line: int) -> Seq<BraceEvent>
    decreases events.len(),
{
    if events.len() == 0 {
        Seq::empty()
    } else {
        let before = events_on_line(events.drop_last(), line);
        if events.last().line == line {
            before.push(events.last())
        } else {
            before
        }
    }
}

/// `sorted` with `e` put behind the last event whose column is not
/// greater than that of `e`.
pub open spec fn sorted_insert(sorted: Seq<BraceEvent>, e: BraceEvent) -> Seq<BraceEvent>
    decreases sorted.len(),
{
    if sorted.len() == 0 {
        seq![e]
    } else if sorted.last().column <= e.column {
        sorted.push(e)
    } else {
        sorted_insert(sorted.drop_last(), e).push(sorted.last())
    }
}

/// `events` by column, events of one column in the order they had.
pub open spec fn sorted_by_column(events: Seq<BraceEvent>) -> Seq<BraceEvent>
    decreases events.len(),
{
    if events.len() == 0 {
        Seq::empty()
    } else {
        sorted_insert(sorted_by_column(events.drop_last()), events.last())
    }
}

/// The events of line `line`, by column.
pub open spec fn line_events(events: Seq<BraceEvent>, line: int) -> Seq<BraceEvent> {
    sorted_by_column(events_on_line(events, line))
}

fn insert_by_column(sorted: &mut Vec<BraceEvent>, e: BraceEvent)
    ensures
        final(sorted)@ == sorted_insert(old(sorted)@, e),
{
    let ghost all = sorted@;
    let mut k: usize = sorted.len();
    proof {
        assert(all.take(k as int) =~= all);
        assert(sorted_insert(all.take(k as int), e) + all.skip(k as int) =~= sorted_insert(all, e));
    }
    while k > 0 && sorted[k - 1].column > e.column
        invariant
            k <= sorted.len(),
            all == sorted@,
            sorted_insert(all, e) == sorted_insert(all.take(k as int), e) + all.skip(k as int),
        decreases k,
    {
        proof {
            assert(all.take(k as int).drop_last() =~= all.take(k - 1));
            assert(all.take(k as int).last() == all[k - 1]);
            assert(sorted_insert(all.take(k - 1), e).push(all[k - 1]) + all.skip(k as int)
                =~= sorted_insert(all.take(k - 1), e) + all.skip(k - 1));
        }
        k -= 1;
    }
    sorted.insert(k, e);
    proof {
        if k > 0 {
            assert(all.take(k as int).last() == all[k - 1]);
        }
        assert(all.insert(k as int, e) =~= all.take(k as int).push(e) + all.skip(k as int));
    }
}

fn events_of_line(events: &Vec<BraceEvent>, line: usize) -> (r: Vec<BraceEvent>)
    ensures
        r@ == line_events(events@, line as int),
{
    let mut out: Vec<BraceEvent> = Vec::new();
    let mut k: usize = 0;
    proof {
        assert(events@.take(0) =~= Seq::<BraceEvent>::empty());
    }
    while k < events.len()
        invariant
            k <= events.len(),
            out@ == line_events(events@.take(k as int), line as int),
        decreases events.len() - k,
    {
        proof {
            assert(events@.take(k + 1).drop_last() =~= events@.take(k as int));
            let on = events_on_line(events@.take(k as int), line as int);
            assert(on.push(events@[k as int]).drop_last() =~= on);
            assert(on.push(events@[k as int]).last() == events@[k as int]);
        }
        if events[k].line == line {
            insert_by_column(&mut out, events[k]);
        }
        k += 1;
    }
    proof {
        assert(events@.take(events.len() as int) =~= events@);
    }
    out
}

/// The number of bytes that UTF-8 takes for `c`.
pub open spec fn char_utf8_len(c: char) -> nat {
    if (c as u32) < 0x80 {
        1
    } else if (c as u32) < 0x800 {
        2
    } else if (c as u32) < 0x10000 {
        3
    } else {
        4
    }
}

/// The number of bytes that UTF-8 takes for `s`.
pub open spec fn utf8_len(s: Seq<char>) -> nat
    decreases s.len(),
{
    if s.len() == 0 {
        0
    } else {
        utf8_len(s.drop_last()) + char_utf8_len(s.last())
    }
}

fn chars_utf8_len(v: &Vec<char>, upto: usize) -> (r: u128)
    requires
        upto <= v.len(),
    ensures
        r == utf8_len(v@.take(upto as int)),
{
    let mut total: u128 = 0;
    let mut i: usize = 0;
    while i < upto
        invariant
            i <= upto <= v.len(),
            total == utf8_len(v@.take(i as int)),
            total <= 4 * i,
        decreases upto - i,
    {
        proof {
            assert(v@.take(i + 1).drop_last() =~= v@.take(i as int));
        }
        let u: u32 = v[i] as u32;
        if u < 0x80 {
            total += 1;
        } else if u < 0x800 {
            total += 2;
        } else if u < 0x10000 {
            total += 3;
        } else {
            total += 4;
        }
        i += 1;
    }
    total
}

/// The number of open blocks where a line begins whose text begins at
/// the byte column `leading`: one less for each closing brace of `events`
/// that stands before the text or at its beginning.
pub open spec fn indent_at_start(events: Seq<BraceEvent>, leading: int, indent: nat) -> nat
    decreases events.len(),
{
    if events.len() == 0 {
        indent
    } else {
        let before = indent_at_start(events.drop_last(), leading, indent);
        if events.last().kind == BraceKind::Close && events.last().column <= leading {
            one_less(before)
        } else {
            before
        }
    }
}

/// One more, but not more than a `usize` can count.
pub open spec fn one_more(n: nat) -> nat {
    if n >= usize::MAX {
        usize::MAX as nat
    } else {
        n + 1
    }
}

/// The number of open blocks after the line: one more for each opening
/// brace of `events`, one less for each closing brace that stands behind
/// the beginning of the text, taken in order.
pub open spec fn indent_after(events: Seq<BraceEvent>, leading: int, indent: nat) -> nat
    decreases events.len(),
{
    if events.len() == 0 {
        indent
    } else {
        let before = indent_after(events.drop_last(), leading, indent);
        match events.last().kind {
            BraceKind::Open => one_more(before),
            BraceKind::Close => if events.last().column > leading {
                one_less(before)
            } else {
                before
            },
        }
    }
}

/// The state after the line `line` on which the braces `events` stand,
/// going by the braces of the syntax tree.
pub open spec fn events_line(
    state: FormatState,
    line: Seq<char>,
    has_newline: bool,
    events: Seq<BraceEvent>,
) -> FormatState {
    if keeps_line(state, line) {
        kept_line(state, line, has_newline)
    } else {
        let start = trim_start(line);
        let leading = utf8_len(line.take(line.len() - start.len())) as int;
        let indent = indent_at_start(events, leading, state.indent);
        FormatState {
            output: state.output + spaces(indent * 4) + trim_end(start) + line_end(has_newline),
            indent: indent_after(events, leading, indent),
            multiline: multiline_after(start, None),
        }
    }
}

/// The state after the lines `lines`, the first of which is line `0`,
/// going by the braces `events` of the syntax tree.
pub open spec fn events_lines(
    state: FormatState,
    lines: Seq<(Seq<char>, bool)>,
    events: Seq<BraceEvent>,
) -> FormatState
    decreases lines.len(),
{
    if lines.len() == 0 {
        state
    } else {
        events_line(
            events_lines(state, lines.drop_last(), events),
            lines.last().0,
            lines.last().1,
            line_events(events, lines.len() - 1),
        )
    }
}

/// `text` indented by the braces `events` of its syntax tree.
pub open spec fn formatted_with_events(text: Seq<char>, events: Seq<BraceEvent>) -> Seq<char> {
    closed_with_newline(events_lines(initial_state(), lines_of(text), events).output)
}

fn events_step(f: &mut Formatter, line: &Vec<char>, has_newline: bool, events: &Vec<BraceEvent>)
    ensures
        final(f).state() == events_line(old(f).state(), line@, has_newline, events@),
{
    if f.multiline.is_some() || is_blank(line) {
        keep_line(f, line, has_newline);
        return ;
    }
    let a = trim_start_index(line);
    let start = slice_chars(line, a, line.len());
    proof {
        assert(start@ =~= trim_start(line@));
        assert(line@.skip(a as int) =~= line@.subrange(a as int, line.len() as int));
        assert(line@.len() - start@.len() == a);
    }
    let leading: u128 = chars_utf8_len(line, a);
    let ghost before_indent = f.indent as nat;
    let mut k: usize = 0;
    proof {
        assert(events@.take(0) =~= Seq::<BraceEvent>::empty());
    }
    while k < events.len()
        invariant
            k <= events.len(),
            f.indent == indent_at_start(events@.take(k as int), leading as int, before_indent),
            f.output@ == old(f).output@,
            f.multiline == old(f).multiline,
        decreases events.len() - k,
    {
        proof {
            assert(events@.take(k + 1).drop_last() =~= events@.take(k as int));
        }
        let e = events[k];
        let closes = match e.kind {
            BraceKind::Close => true,
            BraceKind::Open => false,
        };
        if closes && e.column as u128 <= leading && f.indent > 0 {
            f.indent -= 1;
        }
        k += 1;
    }
    proof {
        assert(events@.take(events.len() as int) =~= events@);
    }
    let end = trim_end_index(&start, 0);
    let normalized = slice_chars(&start, 0, end);
    proof {
        assert(start@.skip(0) =~= start@);
    }
    push_spaces(&mut f.output, f.indent);
    extend_chars(&mut f.output, &normalized);
    push_line_end(&mut f.output, has_newline);
    let ghost start_indent = f.indent as nat;
    let ghost written = f.output@;
    let mut j: usize = 0;
    proof {
        assert(events@.take(0) =~= Seq::<BraceEvent>::empty());
    }
    while j < events.len()
        invariant
            j <= events.len(),
            f.indent == indent_after(events@.take(j as int), leading as int, start_indent),
            f.output@ == written,
        decreases events.len() - j,
    {
        proof {
            assert(events@.take(j + 1).drop_last() =~= events@.take(j as int));
        }
        let e = events[j];
        match e.kind {
            BraceKind::Open => {
                if f.indent < usize::MAX {
                    f.indent += 1;
                }
            },
            BraceKind::Close => {
                if e.column as u128 > leading && f.indent > 0 {
                    f.indent -= 1;
                }
            },
        }
        j += 1;
    }
    proof {
        assert(events@.take(events.len() as int) =~= events@);
    }
    f.multiline = update_multiline_chars(&start, None);
}

/// `text` indented by the braces `events` of its syntax tree.
pub fn format_with_events(text: &str, events: &Vec<BraceEvent>) -> (r: String)
    ensures
        r@ == formatted_with_events(text@, events@),
{
    let chars = to_chars(text);
    let pieces = split_chars(&chars, '\n');
    let ghost lines = lines_of(text@);
    let n = pieces.len();
    let mut f = Formatter { output: Vec::new(), indent: 0, multiline: None };
    let mut k: usize = 0;
    proof {
        assert(lines.take(0) =~= Seq::<(Seq<char>, bool)>::empty());
    }
    while k < n - 1
        invariant
            n == pieces.len(),
            n >= 1,
            k <= n - 1,
            lists_view(pieces@) == split(text@, '\n'),
            lines == lines_of(text@),
            f.state() == events_lines(initial_state(), lines.take(k as int), events@),
        decreases n - 1 - k,
    {
        proof {
            assert(lines.take(k + 1).drop_last() =~= lines.take(k as int));
            assert(lines.take(k + 1).last() == (pieces@[k as int]@, true));
            assert(lists_view(pieces@)[k as int] == pieces@[k as int]@);
        }
        let on_line = events_of_line(events, k);
        events_step(&mut f, &pieces[k], true, &on_line);
        k += 1;
    }
    proof {
        assert(lists_view(pieces@)[n - 1] == pieces@[n - 1]@);
    }
    if pieces[n - 1].len() > 0 {
        proof {
            assert(lines.drop_last() =~= lines.take(n - 1));
            assert(lines.len() - 1 == n - 1);
        }
        let on_line = events_of_line(events, n - 1);
        events_step(&mut f, &pieces[n - 1], false, &on_line);
    } else {
        proof {
            assert(lines.take(n - 1) =~= lines);
        }
    }
    finish_output(f.output)
}

/// What an optional tree holds.
pub open spec fn opt_tree(tree: Option<SyntaxTree>) -> Option<TreeView> {
    match tree {
        Some(t) => Some(t@),
        None => None,
    }
}

/// `text` indented: by the braces of its syntax tree where there is one,
/// else by the braces that are counted in the text.
pub open spec fn document_formatted(text: Seq<char>, tree: Option<TreeView>) -> Seq<char> {
    match tree {
        Some(t) => formatted_with_events(text, node_events(t, 0)),
        None => fallback_formatted(text),
    }
}

/// `text` indented. `tree` is the syntax tree of `text`, or `None` where
/// the parser made nothing of it.
pub fn format_document(text: &str, tree: &Option<SyntaxTree>) -> (r: String)
    ensures
        r@ == document_formatted(text@, opt_tree(*tree)),
{
    match tree {
        Some(t) => {
            let events = collect_brace_events(t);
            format_with_events(text, &events)
        },
        None => fallback_format(text),
    }
}

} // verus!
