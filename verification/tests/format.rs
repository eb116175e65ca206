use amble_lsp::format::{
    brace_delta, collect_brace_events, fallback_format, format_document, format_with_events,
    update_multiline_state, BraceEvent, BraceKind, TextDelimiter,
};
use amble_lsp::lists::{format_lists, format_parenthesized, indent_block, line_indent};
use amble_lsp::syntax::{SyntaxNode, SyntaxTree};

// ---------------------------------------------------------------------------
// Building trees by hand
// ---------------------------------------------------------------------------

struct Builder {
    text: String,
    nodes: Vec<SyntaxNode>,
}

impl Builder {
    fn new(text: &str) -> Builder {
        let mut builder = Builder { text: text.to_string(), nodes: Vec::new() };
        builder.nodes.push(SyntaxNode {
            kind: "source_file".to_string(),
            field: None,
            named: true,
            missing: false,
            start_byte: 0,
            end_byte: text.len(),
            start_row: 0,
            start_column: 0,
            parent: None,
            children: Vec::new(),
        });
        builder
    }

    fn push(&mut self, parent: usize, kind: &str, named: bool, span: (usize, usize)) -> usize {
        let id = self.nodes.len();
        let before = &self.text[..span.0];
        let row = before.matches('\n').count();
        let column = span.0 - before.rfind('\n').map(|at| at + 1).unwrap_or(0);
        self.nodes.push(SyntaxNode {
            kind: kind.to_string(),
            field: None,
            named,
            missing: false,
            start_byte: span.0,
            end_byte: span.1,
            start_row: row,
            start_column: column,
            parent: Some(parent),
            children: Vec::new(),
        });
        self.nodes[parent].children.push(id);
        id
    }

    fn node(&mut self, parent: usize, kind: &str, span: (usize, usize)) -> usize {
        self.push(parent, kind, true, span)
    }

    fn token(&mut self, parent: usize, kind: &str, span: (usize, usize)) -> usize {
        self.push(parent, kind, false, span)
    }

    fn span(&self, needle: &str) -> (usize, usize) {
        let at = self.text.find(needle).expect("needle");
        (at, at + needle.len())
    }

    fn tree(self) -> SyntaxTree {
        SyntaxTree::from_nodes(self.nodes).expect("a tree")
    }
}

/// A tree that holds one token for each brace of `text` at the offsets
/// `braces`.
fn brace_tree(text: &str, braces: &[usize]) -> SyntaxTree {
    let mut b = Builder::new(text);
    for &at in braces {
        let kind = &text[at..at + 1];
        assert!(kind == "{" || kind == "}");
        b.token(0, kind, (at, at + 1));
    }
    b.tree()
}

/// The offsets of the braces of `text` that stand outside of `skip`.
fn braces_outside(text: &str, skip: &str) -> Vec<usize> {
    let hidden = text.find(skip).map(|at| (at, at + skip.len())).unwrap_or((0, 0));
    text.char_indices()
        .filter(|(at, c)| (*c == '{' || *c == '}') && !(hidden.0 <= *at && *at < hidden.1))
        .map(|(at, _)| at)
        .collect()
}

fn indent_only(source: &str, skip: &str) -> String {
    let tree = brace_tree(source, &braces_outside(source, skip));
    let indented = format_document(source, &Some(tree));
    let plain = Builder::new(&indented).tree();
    format_lists(&plain, &indented)
}

/// Formats `source`, in which the list `list` of kind `kind` has the
/// entries `items`, each a node of kind `item_kind`.
fn with_list(source: &str, kind: &str, list: &str, item_kind: &str, items: &[&str]) -> String {
    let tree = brace_tree(source, &braces_outside(source, "\"\""));
    let indented = format_document(source, &Some(tree));
    assert_eq!(indented, source);
    let mut b = Builder::new(&indented);
    let holder = b.node(0, "statement", b.span(list));
    let node = b.node(holder, kind, b.span(list));
    for item in items {
        b.node(node, item_kind, b.span(item));
    }
    format_lists(&b.tree(), &indented)
}

fn overlay(source: &str, items: &[&str]) -> String {
    let tree = brace_tree(source, &braces_outside(source, "\"\""));
    let indented = format_document(source, &Some(tree));
    assert_eq!(indented, source);
    let mut b = Builder::new(&indented);
    let start = b.span("overlay if").0;
    let end = b.span("    }\n").1 - 1;
    let room = b.node(0, "room_def", (0, indented.trim_end().len()));
    let statement = b.node(room, "overlay_stmt", (start, end));
    b.token(statement, "overlay", b.span("overlay"));
    b.token(statement, "if", b.span("if"));
    b.token(statement, "(", b.span("("));
    for (index, item) in items.iter().enumerate() {
        if index > 0 {
            let comma = b.span(item).0 - 2;
            b.token(statement, ",", (comma, comma + 1));
        }
        b.node(statement, "ovl_condition", b.span(item));
    }
    b.token(statement, ")", b.span(")"));
    b.node(statement, "overlay_block", (b.span(") {").0 + 2, end));
    format_lists(&b.tree(), &indented)
}

// ---------------------------------------------------------------------------
// Whole documents
// ---------------------------------------------------------------------------

const ITEM_SOURCE: &str = "item sample {\n  name \"Sample\"\n  portable true\n}\n";
const ITEM_EXPECTED: &str = "item sample {\n    name \"Sample\"\n    portable true\n}\n";
const TEXT_SOURCE: &str = "item example {\n  text \"\"\"line1\nline2\"\"\"\n}\n";
const TEXT_EXPECTED: &str = "item example {\n    text \"\"\"line1\nline2\"\"\"\n}\n";
const RAW_SOURCE: &str = "item raw {\n  name r#\"{curly}\"#\n}\n";
const RAW_EXPECTED: &str = "item raw {\n    name r#\"{curly}\"#\n}\n";
const ANY_SOURCE: &str = "trigger \"example\" when always {\n    if any(missing item quest_scroll, has flag quest_started) {\n        do show \"\"\n    }\n}\n";
const ANY_EXPECTED: &str = "trigger \"example\" when always {\n    if any( missing item quest_scroll, has flag quest_started ) {\n        do show \"\"\n    }\n}\n";
const NESTED_SOURCE: &str = "trigger \"example\" when always {\n    if any(missing item some_item, has flag some_flag, all(with npc guide_bot, flag in progress guide_bot_intro, missing item guide_token)) {\n        do show \"\"\n    }\n}\n";
const NESTED_EXPECTED: &str = "trigger \"example\" when always {\n    if any(\n        missing item some_item,\n        has flag some_flag,\n        all(\n            with npc guide_bot,\n            flag in progress guide_bot_intro,\n            missing item guide_token,\n        ),\n    ) {\n        do show \"\"\n    }\n}\n";
const TRAILING_SOURCE: &str = "trigger \"example\" when always {\n    if any(has flag flag_1, has flag flag_2, has flag flag_3,) {\n        do show \"\"\n    }\n}\n";
const TRAILING_EXPECTED: &str = "trigger \"example\" when always {\n    if any(\n        has flag flag_1,\n        has flag flag_2,\n        has flag flag_3,\n    ) {\n        do show \"\"\n    }\n}\n";
const SET_SOURCE: &str = "let set hallway = (room_a, room_b, room_c)\n";
const SET_EXPECTED: &str = "let set hallway = (\n    room_a,\n    room_b,\n    room_c,\n)\n";
const REQUIRED_SOURCE: &str = "room foyer {\n    exit north -> hall {\n        required_items(item_key, item_badge)\n    }\n}\n";
const REQUIRED_EXPECTED: &str = "room foyer {\n    exit north -> hall {\n        required_items( item_key, item_badge )\n    }\n}\n";
const OVERLAY_TWO_SOURCE: &str = "room entry {\n    overlay if (flag set foo, item present bar) {\n        text \"\"\n    }\n}\n";
const OVERLAY_TWO_EXPECTED: &str = "room entry {\n    overlay if ( flag set foo, item present bar ) {\n        text \"\"\n    }\n}\n";
const OVERLAY_THREE_SOURCE: &str = "room entry {\n    overlay if (flag set foo, item present bar, player has item baz) {\n        text \"\"\n    }\n}\n";
const OVERLAY_THREE_EXPECTED: &str = "room entry {\n    overlay if (\n        flag set foo,\n        item present bar,\n        player has item baz,\n    ) {\n        text \"\"\n    }\n}\n";

fn format_any() -> String {
    with_list(
        ANY_SOURCE,
        "cond_any_group",
        "any(missing item quest_scroll, has flag quest_started)",
        "condition",
        &["missing item quest_scroll", "has flag quest_started"],
    )
}

fn format_nested() -> String {
    let source = NESTED_SOURCE;
    let tree = brace_tree(source, &braces_outside(source, "\"\""));
    let indented = format_document(source, &Some(tree));
    assert_eq!(indented, source);
    let mut b = Builder::new(&indented);
    let outer = b.span("any(missing item some_item, has flag some_flag, all(with npc guide_bot, flag in progress guide_bot_intro, missing item guide_token))");
    let any = b.node(0, "cond_any_group", outer);
    b.node(any, "condition", b.span("missing item some_item"));
    b.node(any, "condition", b.span("has flag some_flag"));
    let inner = b.span("all(with npc guide_bot, flag in progress guide_bot_intro, missing item guide_token)");
    let all = b.node(any, "cond_all_group", inner);
    b.node(all, "condition", b.span("with npc guide_bot"));
    b.node(all, "condition", b.span("flag in progress guide_bot_intro"));
    b.node(all, "condition", b.span("missing item guide_token"));
    format_lists(&b.tree(), &indented)
}

fn format_trailing() -> String {
    with_list(
        TRAILING_SOURCE,
        "cond_any_group",
        "any(has flag flag_1, has flag flag_2, has flag flag_3,)",
        "condition",
        &["has flag flag_1", "has flag flag_2", "has flag flag_3"],
    )
}

fn format_set() -> String {
    with_list(SET_SOURCE, "set_list", "(room_a, room_b, room_c)", "room_id", &["room_a", "room_b", "room_c"])
}

fn format_required() -> String {
    with_list(
        REQUIRED_SOURCE,
        "required_items_stmt",
        "required_items(item_key, item_badge)",
        "item_id",
        &["item_key", "item_badge"],
    )
}

#[test]
fn formatter_formats_item_block() {
    assert_eq!(indent_only(ITEM_SOURCE, ""), ITEM_EXPECTED);
}

#[test]
fn amble_formats_item_block() {
    assert_eq!(indent_only(ITEM_SOURCE, ""), ITEM_EXPECTED);
}

#[test]
fn formatter_preserves_multiline_text_blocks() {
    assert_eq!(indent_only(TEXT_SOURCE, ""), TEXT_EXPECTED);
}

#[test]
fn amble_preserves_multiline_text_blocks() {
    assert_eq!(indent_only(TEXT_SOURCE, ""), TEXT_EXPECTED);
}

#[test]
fn formatter_ignores_braces_inside_raw_strings() {
    assert_eq!(indent_only(RAW_SOURCE, "r#\"{curly}\"#"), RAW_EXPECTED);
}

#[test]
fn amble_ignores_braces_inside_raw_strings() {
    assert_eq!(indent_only(RAW_SOURCE, "r#\"{curly}\"#"), RAW_EXPECTED);
}

#[test]
fn formatter_formats_any_group_single_line_with_spacing() {
    assert_eq!(format_any(), ANY_EXPECTED);
}

#[test]
fn amble_formats_any_group_single_line_with_spacing() {
    assert_eq!(format_any(), ANY_EXPECTED);
}

#[test]
fn formatter_formats_any_group_multiline_with_nested_all() {
    assert_eq!(format_nested(), NESTED_EXPECTED);
}

#[test]
fn amble_formats_any_group_multiline_with_nested_all() {
    assert_eq!(format_nested(), NESTED_EXPECTED);
}

#[test]
fn formatter_formats_any_group_trailing_commas_without_duplicates() {
    assert_eq!(format_trailing(), TRAILING_EXPECTED);
}

#[test]
fn amble_formats_any_group_trailing_commas_without_duplicates() {
    assert_eq!(format_trailing(), TRAILING_EXPECTED);
}

#[test]
fn formatter_formats_set_lists_into_multiline_blocks() {
    assert_eq!(format_set(), SET_EXPECTED);
}

#[test]
fn amble_formats_set_lists_into_multiline_blocks() {
    assert_eq!(format_set(), SET_EXPECTED);
}

#[test]
fn formatter_formats_required_items_with_parenthesis_spacing() {
    assert_eq!(format_required(), REQUIRED_EXPECTED);
}

#[test]
fn amble_formats_required_items_with_parenthesis_spacing() {
    assert_eq!(format_required(), REQUIRED_EXPECTED);
}

#[test]
fn formatter_formats_overlay_conditions_with_two_items_single_line() {
    assert_eq!(overlay(OVERLAY_TWO_SOURCE, &["flag set foo", "item present bar"]), OVERLAY_TWO_EXPECTED);
}

#[test]
fn amble_formats_overlay_conditions_with_two_items_single_line() {
    assert_eq!(overlay(OVERLAY_TWO_SOURCE, &["flag set foo", "item present bar"]), OVERLAY_TWO_EXPECTED);
}

#[test]
fn formatter_formats_overlay_conditions_multiline_when_three_items() {
    assert_eq!(
        overlay(OVERLAY_THREE_SOURCE, &["flag set foo", "item present bar", "player has item baz"]),
        OVERLAY_THREE_EXPECTED
    );
}

#[test]
fn amble_formats_overlay_conditions_multiline_when_three_items() {
    assert_eq!(
        overlay(OVERLAY_THREE_SOURCE, &["flag set foo", "item present bar", "player has item baz"]),
        OVERLAY_THREE_EXPECTED
    );
}

// ---------------------------------------------------------------------------
// Parts
// ---------------------------------------------------------------------------

#[test]
fn fallback_counts_braces_in_the_text() {
    assert_eq!(fallback_format(ITEM_SOURCE), ITEM_EXPECTED);
    assert_eq!(fallback_format(TEXT_SOURCE), TEXT_EXPECTED);
    assert_eq!(format_document(ITEM_SOURCE, &None), ITEM_EXPECTED);
    assert_eq!(fallback_format("a {\nb {\nc\n} d {\n}\n}"), "a {\n    b {\n        c\n    } d {\n    }\n}\n");
    assert_eq!(fallback_format("}\n}\nx"), "}\n}\nx\n");
    assert_eq!(fallback_format(""), "\n");
    assert_eq!(fallback_format("\n\n"), "\n\n");
    assert_eq!(fallback_format("a {  \n   \n  b  \n"), "a {\n\n    b\n");
    assert_eq!(fallback_format("say \"{\"\nx"), "say \"{\"\nx\n");
}

#[test]
fn text_between_triple_quotes_is_kept() {
    let source = "a {\n  t '''x {\n      deep   \n  y''' \n  b\n}\n";
    assert_eq!(fallback_format(source), "a {\n    t '''x {\n      deep\n  y'''\n    b\n}\n");
}

#[test]
fn brace_delta_skips_strings() {
    assert_eq!(brace_delta("{"), 1);
    assert_eq!(brace_delta("}"), -1);
    assert_eq!(brace_delta("{ { }"), 1);
    assert_eq!(brace_delta("\"{\" {"), 1);
    assert_eq!(brace_delta("'}' }"), -1);
    assert_eq!(brace_delta("\"a\\\"{\" {"), 1);
    assert_eq!(brace_delta("\"open {"), 0);
    assert_eq!(brace_delta("{ \"\"\" {"), 1);
    assert_eq!(brace_delta("\"\\"), 0);
    assert_eq!(brace_delta(""), 0);
}

#[test]
fn multiline_state_follows_triple_quotes() {
    let mut state = None;
    update_multiline_state("plain", &mut state);
    assert_eq!(state, None);
    update_multiline_state("text \"\"\"begin", &mut state);
    assert_eq!(state, Some(TextDelimiter::Double));
    update_multiline_state("''' is no end", &mut state);
    assert_eq!(state, Some(TextDelimiter::Double));
    update_multiline_state("end\"\"\" x", &mut state);
    assert_eq!(state, None);
    update_multiline_state("'''a''' '''b", &mut state);
    assert_eq!(state, Some(TextDelimiter::Single));
    update_multiline_state("''", &mut state);
    assert_eq!(state, Some(TextDelimiter::Single));
    update_multiline_state("'''", &mut state);
    assert_eq!(state, None);
    update_multiline_state("''' ", &mut state);
    assert_eq!(state, Some(TextDelimiter::Single));
}

#[test]
fn brace_events_are_collected_in_text_order() {
    let source = "a {\n  b { }\n}\n";
    let mut b = Builder::new(source);
    let outer = b.node(0, "block", (2, 13));
    b.token(outer, "{", (2, 3));
    let inner = b.node(outer, "block", (8, 11));
    b.token(inner, "{", (8, 9));
    b.token(inner, "}", (10, 11));
    b.token(outer, "}", (12, 13));
    b.node(outer, "{", (2, 3));
    let events = collect_brace_events(&b.tree());
    assert_eq!(
        events,
        vec![
            BraceEvent { line: 0, column: 2, kind: BraceKind::Open },
            BraceEvent { line: 1, column: 4, kind: BraceKind::Open },
            BraceEvent { line: 1, column: 6, kind: BraceKind::Close },
            BraceEvent { line: 2, column: 0, kind: BraceKind::Close },
        ]
    );
}

#[test]
fn events_on_a_line_are_taken_by_column() {
    let events = vec![
        BraceEvent { line: 0, column: 6, kind: BraceKind::Open },
        BraceEvent { line: 0, column: 0, kind: BraceKind::Open },
        BraceEvent { line: 1, column: 4, kind: BraceKind::Open },
        BraceEvent { line: 1, column: 0, kind: BraceKind::Close },
        BraceEvent { line: 3, column: 0, kind: BraceKind::Close },
        BraceEvent { line: 3, column: 2, kind: BraceKind::Close },
    ];
    assert_eq!(
        format_with_events("{ a b {\n} c {\nd\n} }\ne", &events),
        "{ a b {\n    } c {\n        d\n    } }\ne\n"
    );
    assert_eq!(format_with_events("x\n  y", &vec![]), "x\ny\n");
}

#[test]
fn lists_are_written_by_their_length() {
    let chars = |s: &str| -> Vec<char> { s.chars().collect() };
    let text = |v: Vec<char>| -> String { v.into_iter().collect() };
    assert_eq!(text(format_parenthesized("any", &vec![], &chars("  "))), "any()");
    assert_eq!(text(format_parenthesized("", &vec![chars("a")], &chars("  "))), "( a )");
    assert_eq!(
        text(format_parenthesized("all", &vec![chars("a"), chars("b")], &chars(""))),
        "all( a, b )"
    );
    assert_eq!(
        text(format_parenthesized("", &vec![chars("a"), chars(" , "), chars(" "), chars("b ")], &chars(" "))),
        "(\n     a,\n     b,\n )"
    );
    assert_eq!(
        text(format_parenthesized("r", &vec![chars("a\nb")], &chars(""))),
        "r(\n    a\n    b,\n)"
    );
    assert_eq!(text(indent_block(&chars("a\n\nb"), &chars("--"))), "--a\n--\n--b");
    assert_eq!(text(indent_block(&chars(""), &chars("--"))), "--");
}

#[test]
fn line_indent_is_the_whitespace_before_the_offset() {
    let text = |v: Vec<char>| -> String { v.into_iter().collect() };
    let source = "a\n  \tb c\n\u{a0} d";
    assert_eq!(text(line_indent(source, 0)), "");
    assert_eq!(text(line_indent(source, 5)), "  \t");
    assert_eq!(text(line_indent(source, 7)), "  \t");
    assert_eq!(text(line_indent(source, 3)), " ");
    assert_eq!(text(line_indent(source, 13)), "\u{a0} ");
    assert_eq!(text(line_indent(source, 10)), "");
    assert_eq!(text(line_indent(source, 999)), "");
}

#[test]
fn text_around_lists_is_taken_over() {
    let source = "x (a, b) y (c,d,e) z";
    let mut b = Builder::new(source);
    let first = b.node(0, "room_list", b.span("(a, b)"));
    b.node(first, "room_id", b.span("a"));
    b.node(first, "room_id", b.span("b"));
    let second = b.node(0, "set_list", b.span("(c,d,e)"));
    b.node(second, "room_id", b.span("c"));
    b.node(second, "room_id", b.span("d"));
    b.node(second, "room_id", b.span("e"));
    assert_eq!(format_lists(&b.tree(), source), "x ( a, b ) y (\n    c,\n    d,\n    e,\n) z");
    let plain = Builder::new(source).tree();
    assert_eq!(format_lists(&plain, source), source);
}

#[test]
fn second_step_writes_the_lists_where_the_text_was_parsed() {
    let source = "x (c,d,e) z";
    let mut b = Builder::new(source);
    let list = b.node(0, "set_list", b.span("(c,d,e)"));
    b.node(list, "room_id", b.span("c"));
    b.node(list, "room_id", b.span("d"));
    b.node(list, "room_id", b.span("e"));
    assert_eq!(
        amble_lsp::requests::format_indented(source.to_string(), &Some(b.tree())),
        "x (\n    c,\n    d,\n    e,\n) z"
    );
    assert_eq!(amble_lsp::requests::format_indented(source.to_string(), &None), source);
}
