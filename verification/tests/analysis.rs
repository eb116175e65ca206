use amble_lsp::backend::Backend;
use amble_lsp::context::{completion_context, node_at_offset, symbol_kind_from_syntax};
use amble_lsp::diagnostics::{
    metadata_issues_for_definition, text_missing, world_consistency_diagnostics, Diagnostic,
    DiagnosticSeverity,
};
use amble_lsp::extract::{
    extract_flag_metadata, extract_flag_sequence_limit, extract_item_metadata,
    extract_movability, extract_npc_metadata, extract_room_metadata, extract_set_rooms,
    find_trigger_name, format_location_node,
};
use amble_lsp::schedule::{
    collect_player_starts, collect_schedule_flag_definitions, collect_schedule_nodes,
    collect_schedule_symbol_references, remap_schedule_capture_range, schedule_fragments,
    ParsedSource, PlayerStart, QueryCaptures, WRAPPER_PREFIX_LEN,
};
use amble_lsp::spans::range_from_node;
use amble_lsp::symbols::{
    ItemMetadata, Movability, NpcMetadata, RoomMetadata, SymbolDefinition, SymbolKind,
    SymbolLocation, SymbolMetadata,
};
use amble_lsp::syntax::{SyntaxNode, SyntaxTree};
use amble_lsp::text::{Document, Position, Range};

const PREFIX: &str = "trigger \"__amble_schedule__\" when always ";

// ---------------------------------------------------------------------------
// Building trees by hand
// ---------------------------------------------------------------------------

struct Builder {
    text: String,
    nodes: Vec<SyntaxNode>,
}

impl Builder {
    fn new(text: &str) -> Builder {
        let mut builder = Builder { text: text.to_string(), nodes: Vec::new() };
        builder.nodes.push(SyntaxNode {
            kind: "source_file".to_string(),
            field: None,
            named: true,
            missing: false,
            start_byte: 0,
            end_byte: text.len(),
            start_row: 0,
            start_column: 0,
            parent: None,
            children: Vec::new(),
        });
        builder
    }

    fn push(
        &mut self,
        parent: usize,
        kind: &str,
        field: Option<&str>,
        named: bool,
        missing: bool,
        span: (usize, usize),
    ) -> usize {
        let id = self.nodes.len();
        let before = &self.text[..span.0];
        let row = before.matches('\n').count();
        let column = span.0 - before.rfind('\n').map(|at| at + 1).unwrap_or(0);
        self.nodes.push(SyntaxNode {
            kind: kind.to_string(),
            field: field.map(|f| f.to_string()),
            named,
            missing,
            start_byte: span.0,
            end_byte: span.1,
            start_row: row,
            start_column: column,
            parent: Some(parent),
            children: Vec::new(),
        });
        self.nodes[parent].children.push(id);
        id
    }

    fn node(&mut self, parent: usize, kind: &str, field: Option<&str>, span: (usize, usize)) -> usize {
        self.push(parent, kind, field, true, false, span)
    }

    fn token(&mut self, parent: usize, kind: &str, span: (usize, usize)) -> usize {
        self.push(parent, kind, None, false, false, span)
    }

    fn span(&self, needle: &str) -> (usize, usize) {
        self.span_nth(needle, 0)
    }

    fn span_nth(&self, needle: &str, nth: usize) -> (usize, usize) {
        let mut from = 0;
        let mut found = 0;
        loop {
            let at = from + self.text[from..].find(needle).expect("needle");
            if found == nth {
                return (at, at + needle.len());
            }
            found += 1;
            from = at + 1;
        }
    }

    fn between(&self, first: &str, last: &str) -> (usize, usize) {
        let start = self.span(first).0;
        let end = start + self.text[start..].find(last).expect("last") + last.len();
        (start, end)
    }

    fn tree(&self) -> SyntaxTree {
        let nodes = self
            .nodes
            .iter()
            .map(|n| SyntaxNode {
                kind: n.kind.clone(),
                field: n.field.clone(),
                named: n.named,
                missing: n.missing,
                start_byte: n.start_byte,
                end_byte: n.end_byte,
                start_row: n.start_row,
                start_column: n.start_column,
                parent: n.parent,
                children: n.children.clone(),
            })
            .collect();
        SyntaxTree::from_nodes(nodes).expect("a tree")
    }
}

fn parsed(builder: &Builder, captures: QueryCaptures) -> Option<ParsedSource> {
    Some(ParsedSource { tree: builder.tree(), captures })
}

fn text_for_range(source: &str, range: &Range) -> String {
    let document = Document::new(source.to_string());
    let start = document.offset(range.start).expect("range start offset");
    let end = document.offset(range.end).expect("range end offset");
    source[start..end].to_string()
}

fn errors(list: &[Diagnostic]) -> Vec<&Diagnostic> {
    list.iter().filter(|d| d.severity == DiagnosticSeverity::Error).collect()
}

fn warnings(list: &[Diagnostic]) -> Vec<&Diagnostic> {
    list.iter().filter(|d| d.severity == DiagnosticSeverity::Warning).collect()
}

fn hints(list: &[Diagnostic]) -> Vec<&Diagnostic> {
    list.iter().filter(|d| d.severity == DiagnosticSeverity::Hint).collect()
}

// ---------------------------------------------------------------------------
// Sample documents
// ---------------------------------------------------------------------------

const ROOM_WITH_EXIT: &str = "room a {\n    exit north -> nowhere_room\n}\n";

/// `room <id> { exit north -> <dest> }`, with the captures of the room queries.
fn room_with_exit(text: &str, id: &str, dest: &str) -> (Builder, QueryCaptures) {
    let mut b = Builder::new(text);
    let def = b.node(0, "room_def", None, (0, text.trim_end().len()));
    let room_id = b.node(def, "room_id", Some("room_id"), b.span(id));
    let block = b.node(def, "room_block", None, b.between("{", "}"));
    let exit = b.node(block, "room_exit", None, b.between("exit", dest));
    let target = b.node(exit, "room_id", Some("dest"), b.span_nth(dest, 0));
    let mut captures = QueryCaptures::new();
    captures.room_definitions = vec![room_id];
    captures.room_references = vec![room_id, target];
    (b, captures)
}

fn analyze(backend: &mut Backend, uri: &str, builder: &Builder, captures: QueryCaptures) {
    let source = parsed(builder, captures);
    backend.analyze_document(uri, &builder.text, &source, &Vec::new());
}

/// A document that declares the set `name` with the given rooms.
fn set_document(text: &str, name: &str) -> (Builder, QueryCaptures) {
    let mut b = Builder::new(text);
    let decl = b.node(0, "set_decl", None, (0, text.trim_end().len()));
    let set_name = b.node(decl, "set_name", Some("name"), b.span(name));
    let list = b.node(decl, "room_list", None, b.between("(", ")"));
    let mut captures = QueryCaptures::new();
    let mut at = b.span("(").1;
    for piece in text[b.span("(").1..b.span(")").0].split(',') {
        let trimmed = piece.trim();
        if !trimmed.is_empty() {
            let start = at + piece.find(trimmed).unwrap();
            b.node(list, "room_id", None, (start, start + trimmed.len()));
        }
        at += piece.len() + 1;
    }
    captures.set_definitions = vec![set_name];
    captures.set_references = vec![set_name];
    (b, captures)
}

/// A document with one `player_start room <id>` statement.
fn start_document(text: &str, room: &str) -> (Builder, QueryCaptures) {
    let mut b = Builder::new(text);
    let start = b.node(0, "player_start", None, (0, text.trim_end().len()));
    b.node(start, "room_id", Some("room_id"), b.span(room));
    (b, QueryCaptures::new())
}

const FLAGS: &str = "trigger \"t\" when always {\n    do add seq flag quest limit 3\n    do add flag plain\n    if has flag quest#2 {\n    }\n    if has flag quest#3 {\n    }\n    if has flag plain#1 {\n    }\n}\n";

fn flags_document() -> (Builder, QueryCaptures) {
    let mut b = Builder::new(FLAGS);
    let trigger = b.node(0, "trigger_def", None, (0, FLAGS.trim_end().len()));
    b.node(trigger, "string", Some("name"), b.span("\"t\""));
    let block = b.node(trigger, "trigger_block", None, b.between("{", "}\n}"));
    let add_seq = b.node(block, "action_add_seq", None, b.span("add seq flag quest limit 3"));
    let quest = b.node(add_seq, "flag_name", Some("flag_name"), b.span("quest"));
    b.node(add_seq, "number", Some("limit"), b.span("3"));
    let add_flag = b.node(block, "action_add_flag", None, b.span("add flag plain"));
    let plain = b.node(add_flag, "flag_name", Some("flag"), b.span("plain"));
    let c1 = b.node(block, "cond_has_flag", None, b.span("has flag quest#2"));
    let r1 = b.node(c1, "flag_name", None, b.span("quest#2"));
    let c2 = b.node(block, "cond_has_flag", None, b.span("has flag quest#3"));
    let r2 = b.node(c2, "flag_name", None, b.span("quest#3"));
    let c3 = b.node(block, "cond_has_flag", None, b.span("has flag plain#1"));
    let r3 = b.node(c3, "flag_name", None, b.span("plain#1"));
    let mut captures = QueryCaptures::new();
    captures.flag_definitions = vec![quest, plain];
    captures.flag_references = vec![quest, plain, r1, r2, r3];
    (b, captures)
}

// ---------------------------------------------------------------------------
// Trees
// ---------------------------------------------------------------------------

#[test]
fn trees_must_be_well_linked() {
    let leaf = |parent: Option<usize>, children: Vec<usize>| SyntaxNode {
        kind: "x".into(),
        field: None,
        named: true,
        missing: false,
        start_byte: 0,
        end_byte: 0,
        start_row: 0,
        start_column: 0,
        parent,
        children,
    };
    assert!(SyntaxTree::from_nodes(vec![]).is_none());
    assert!(SyntaxTree::from_nodes(vec![leaf(None, vec![])]).is_some());
    assert!(SyntaxTree::from_nodes(vec![leaf(Some(0), vec![])]).is_none());
    assert!(SyntaxTree::from_nodes(vec![leaf(None, vec![1]), leaf(Some(0), vec![])]).is_some());
    assert!(SyntaxTree::from_nodes(vec![leaf(None, vec![1]), leaf(None, vec![])]).is_none());
    assert!(SyntaxTree::from_nodes(vec![leaf(None, vec![2]), leaf(Some(0), vec![])]).is_none());
    assert!(SyntaxTree::from_nodes(vec![leaf(None, vec![0])]).is_none());
    assert!(SyntaxTree::from_nodes(vec![
        leaf(None, vec![1]),
        leaf(Some(0), vec![2]),
        leaf(Some(0), vec![]),
    ])
    .is_none());
    assert!(SyntaxTree::from_nodes(vec![leaf(None, vec![]), leaf(Some(1), vec![])]).is_none());
}

#[test]
fn walk_takes_the_last_child_first() {
    let mut b = Builder::new("abcdef");
    let first = b.node(0, "a", None, (0, 2));
    let inner = b.node(first, "b", None, (0, 1));
    b.token(first, "c", (1, 2));
    let second = b.node(0, "d", None, (2, 4));
    let tree = b.tree();
    assert_eq!(tree.walk(0), vec![0, second, first, inner]);
    assert_eq!(tree.walk(first), vec![first, inner]);
    assert_eq!(tree.len(), 5);
    assert_eq!(tree.parent(inner), Some(first));
    assert_eq!(tree.parent(0), None);
    assert_eq!(tree.child_by_field_name(0, "none"), None);
    assert_eq!(tree.named_child_by_kind(first, "c"), None);
    assert_eq!(tree.named_child_by_kind(first, "b"), Some(inner));
    let text: String = tree.text_of(second, "abcdef").into_iter().collect();
    assert_eq!(text, "cd");
}

// ---------------------------------------------------------------------------
// Metadata
// ---------------------------------------------------------------------------

#[test]
fn extract_item_metadata_formats_requirements() {
    let source = "item widget {\n    requires ignite to burn\n    requires cutWood to cut\n}\n";
    let mut b = Builder::new(source);
    let item = b.node(0, "item_def", None, (0, source.trim_end().len()));
    b.node(item, "item_id", Some("item_id"), b.span("widget"));
    let block = b.node(item, "item_block", None, b.between("{", "}"));
    let first = b.node(block, "item_requires_stmt", None, b.span("requires ignite to burn"));
    b.node(first, "identifier", Some("ability"), b.span("ignite"));
    b.node(first, "identifier", Some("interaction"), b.span("burn"));
    let second = b.node(block, "item_requires_stmt", None, b.span("requires cutWood to cut"));
    b.node(second, "identifier", Some("ability"), b.span("cutWood"));
    b.node(second, "identifier", Some("interaction"), b.span_nth("cut", 1));
    let tree = b.tree();
    let item_node = tree.named_child_by_kind(0, "item_def").expect("missing item_def for requirements test");
    let meta = extract_item_metadata(&tree, item_node, source);
    assert_eq!(meta.requirements, vec!["ignite -> burn".to_string(), "cutWood -> cut".to_string()]);
}

#[test]
fn extract_item_metadata_formats_abilities() {
    let source = "item widget {\n    ability Unlock security_crate\n    ability Read\n}\n";
    let mut b = Builder::new(source);
    let item = b.node(0, "item_def", None, (0, source.trim_end().len()));
    b.node(item, "item_id", Some("item_id"), b.span("widget"));
    let block = b.node(item, "item_block", None, b.between("{", "}"));
    let first = b.node(block, "item_ability_stmt", None, b.span("ability Unlock security_crate"));
    b.node(first, "identifier", Some("ability"), b.span("Unlock"));
    b.node(first, "item_id", Some("target_id"), b.span("security_crate"));
    let second = b.node(block, "item_ability_stmt", None, b.span("ability Read"));
    b.node(second, "identifier", Some("ability"), b.span("Read"));
    let tree = b.tree();
    let item_node = tree.named_child_by_kind(0, "item_def").expect("missing item_def for abilities test");
    let meta = extract_item_metadata(&tree, item_node, source);
    assert_eq!(meta.abilities, vec!["Unlock (security_crate)".to_string(), "Read".to_string()]);
}

#[test]
fn item_metadata_reads_every_statement() {
    let source = "item lamp {\n  name \"Lamp\"\n  desc \"\"\"Old\nlamp\"\"\"\n  movability Fixed \"bolted\"\n  location room hall\n  container open\n  ability\n  requires\n  name 'Brass lamp'\n}\n";
    let mut b = Builder::new(source);
    let item = b.node(0, "item_def", None, (0, source.trim_end().len()));
    let block = b.node(item, "item_block", None, b.between("{", "}"));
    b.token(block, "{", b.span("{"));
    let name = b.node(block, "item_name_stmt", None, b.span("name \"Lamp\""));
    b.node(name, "string", Some("item_name"), b.span("\"Lamp\""));
    let desc = b.node(block, "item_desc_stmt", None, b.span("desc \"\"\"Old\nlamp\"\"\""));
    b.node(desc, "string", Some("item_description"), b.span("\"\"\"Old\nlamp\"\"\""));
    let mov = b.node(block, "item_movability_stmt", None, b.span("movability Fixed \"bolted\""));
    let setting = b.node(mov, "movability", Some("movability"), b.span("Fixed \"bolted\""));
    b.node(setting, "string", Some("note"), b.span("\"bolted\""));
    let loc = b.node(block, "item_loc_stmt", None, b.span("location room hall"));
    let place = b.node(loc, "item_location", None, b.span("room hall"));
    b.node(place, "room_id", None, b.span("hall"));
    let container = b.node(block, "item_container_stmt", None, b.span("container open"));
    b.node(container, "container_state", None, b.span("open"));
    b.node(block, "item_ability_stmt", None, b.span("ability\n"));
    b.node(block, "item_requires_stmt", None, b.span("requires\n"));
    let again = b.node(block, "item_name_stmt", None, b.span("name 'Brass lamp'"));
    b.node(again, "string", Some("item_name"), b.span("'Brass lamp'"));
    let tree = b.tree();
    let meta = extract_item_metadata(&tree, item, source);
    assert_eq!(meta.name.as_deref(), Some("Brass lamp"));
    assert_eq!(meta.description.as_deref(), Some("Old\nlamp"));
    assert!(matches!(meta.movability, Some(Movability::Fixed(Some(ref note))) if note == "bolted"));
    assert_eq!(meta.location.as_deref(), Some("room hall"));
    assert_eq!(meta.container_state.as_deref(), Some("open"));
    assert_eq!(meta.abilities, vec!["ability".to_string()]);
    assert_eq!(meta.requirements, vec!["requires".to_string()]);
}

#[test]
fn item_without_block_has_no_metadata() {
    let source = "item lamp\n";
    let mut b = Builder::new(source);
    let item = b.node(0, "item_def", None, (0, 9));
    let tree = b.tree();
    let meta = extract_item_metadata(&tree, item, source);
    assert!(meta.name.is_none() && meta.description.is_none() && meta.movability.is_none());
    assert!(meta.location.is_none() && meta.container_state.is_none());
    assert!(meta.abilities.is_empty() && meta.requirements.is_empty());
}

#[test]
fn room_metadata_lists_exits_in_order() {
    let source = "room hall {\n  name \"Hall\"\n  desc \"Big\"\n  exit north -> attic\n  exit south -> cellar \n}\n";
    let mut b = Builder::new(source);
    let room = b.node(0, "room_def", None, (0, source.trim_end().len()));
    let block = b.node(room, "room_block", None, b.between("{", "}"));
    let name = b.node(block, "room_name", None, b.span("name \"Hall\""));
    b.node(name, "string", Some("name"), b.span("\"Hall\""));
    let desc = b.node(block, "room_desc", None, b.span("desc \"Big\""));
    b.node(desc, "string", Some("description"), b.span("\"Big\""));
    let north = b.node(block, "room_exit", None, b.span("exit north -> attic"));
    b.node(north, "room_id", Some("dest"), b.span("attic"));
    let south = b.node(block, "room_exit", None, b.span("exit south -> cellar "));
    b.node(south, "room_id", Some("dest"), b.span("cellar "));
    let tree = b.tree();
    let meta = extract_room_metadata(&tree, room, source);
    assert_eq!(meta.name.as_deref(), Some("Hall"));
    assert_eq!(meta.description.as_deref(), Some("Big"));
    assert_eq!(meta.exits, vec!["attic".to_string(), "cellar".to_string()]);
}

#[test]
fn npc_metadata_reads_location_and_state() {
    let source = "npc bot {\n  name \"Bot\"\n  desc \"A bot\"\n  location chest toolbox\n  state idle\n}\n";
    let mut b = Builder::new(source);
    let npc = b.node(0, "npc_def", None, (0, source.trim_end().len()));
    let block = b.node(npc, "npc_block", None, b.between("{", "}"));
    let name = b.node(block, "npc_name_stmt", None, b.span("name \"Bot\""));
    b.node(name, "string", Some("npc_name"), b.span("\"Bot\""));
    let desc = b.node(block, "npc_desc_stmt", None, b.span("desc \"A bot\""));
    b.node(desc, "string", Some("npc_description"), b.span("\"A bot\""));
    let loc = b.node(block, "npc_loc_stmt", None, b.span("location chest toolbox"));
    let place = b.node(loc, "npc_location", None, b.span("chest toolbox"));
    b.node(place, "chest_id", None, b.span("toolbox"));
    let state = b.node(block, "npc_state_stmt", None, b.span("state idle"));
    b.node(state, "npc_state", None, b.span("idle"));
    let tree = b.tree();
    let meta = extract_npc_metadata(&tree, npc, source);
    assert_eq!(meta.name.as_deref(), Some("Bot"));
    assert_eq!(meta.description.as_deref(), Some("A bot"));
    assert_eq!(meta.location.as_deref(), Some("chest toolbox"));
    assert_eq!(meta.state.as_deref(), Some("idle"));
}

#[test]
fn locations_are_written_by_the_kind_of_place() {
    let source = "location npc guard|location nowhere \"lost|found\"|location  somewhere else |plain";
    let mut b = Builder::new(source);
    let first = b.node(0, "item_location", None, b.span("location npc guard"));
    b.node(first, "npc_id", None, b.span("guard"));
    let second = b.node(0, "item_location", None, b.span("location nowhere \"lost|found\""));
    b.node(second, "spawn_note", None, b.span("\"lost|found\""));
    let third = b.node(0, "item_location", None, b.span("location  somewhere else "));
    let fourth = b.node(0, "item_location", None, b.span("plain"));
    let fifth = b.node(0, "item_location", None, b.span("location npc"));
    b.node(fifth, "_room_ref", None, b.span("npc"));
    let tree = b.tree();
    let written = |node: usize| -> String { format_location_node(&tree, node, source).into_iter().collect() };
    assert_eq!(written(first), "npc guard");
    assert_eq!(written(second), "nowhere lost\\|found");
    assert_eq!(written(third), "somewhere else");
    assert_eq!(written(fourth), "plain");
    assert_eq!(written(fifth), "room npc");
}

#[test]
fn movability_goes_by_the_first_word() {
    let source = "FREE|fixed|Restricted \"heavy\"|loose| free ";
    let mut b = Builder::new(source);
    let free = b.node(0, "movability", None, b.span("FREE"));
    let fixed = b.node(0, "movability", None, b.span("fixed"));
    let restricted = b.node(0, "movability", None, b.span("Restricted \"heavy\""));
    b.node(restricted, "string", Some("note"), b.span("\"heavy\""));
    let loose = b.node(0, "movability", None, b.span("loose"));
    let padded = b.node(0, "movability", None, b.span(" free "));
    let tree = b.tree();
    assert!(matches!(extract_movability(&tree, free, source), Some(Movability::Free)));
    assert!(matches!(extract_movability(&tree, fixed, source), Some(Movability::Fixed(None))));
    assert!(matches!(
        extract_movability(&tree, restricted, source),
        Some(Movability::Restricted(Some(ref note))) if note == "heavy"
    ));
    assert!(extract_movability(&tree, loose, source).is_none());
    assert!(matches!(extract_movability(&tree, padded, source), Some(Movability::Free)));
}

#[test]
fn set_rooms_are_listed_in_order() {
    let source = "let set hallway = (room_a, room_b, room_c)\n";
    let (b, _) = set_document(source, "hallway");
    let tree = b.tree();
    let decl = tree.named_child_by_kind(0, "set_decl").unwrap();
    assert_eq!(
        extract_set_rooms(&tree, decl, source),
        vec!["room_a".to_string(), "room_b".to_string(), "room_c".to_string()]
    );
    assert!(extract_set_rooms(&tree, 0, source).is_empty());
}

#[test]
fn flag_metadata_names_the_trigger_and_the_limit() {
    let (b, _) = flags_document();
    let tree = b.tree();
    let trigger = tree.named_child_by_kind(0, "trigger_def").unwrap();
    let block = tree.named_child_by_kind(trigger, "trigger_block").unwrap();
    let add_seq = tree.named_child_by_kind(block, "action_add_seq").unwrap();
    let add_flag = tree.named_child_by_kind(block, "action_add_flag").unwrap();
    let meta = extract_flag_metadata(&tree, add_seq, FLAGS);
    assert_eq!(meta.defined_in.as_deref(), Some("t"));
    assert_eq!(meta.sequence_limit, Some(3));
    let meta = extract_flag_metadata(&tree, add_flag, FLAGS);
    assert_eq!(meta.defined_in.as_deref(), Some("t"));
    assert_eq!(meta.sequence_limit, None);
    assert_eq!(extract_flag_sequence_limit(&tree, block, FLAGS), None);
    assert_eq!(find_trigger_name(&tree, 0, FLAGS), None);
    assert_eq!(find_trigger_name(&tree, trigger, FLAGS), None);
}

#[test]
fn sequence_limit_is_the_first_number_that_parses() {
    let source = "add seq flag q limit 99999999999999999999 7";
    let mut b = Builder::new(source);
    let action = b.node(0, "action_add_seq", None, (0, source.len()));
    b.node(action, "number", None, b.span("99999999999999999999"));
    b.node(action, "number", None, b.span("7"));
    let tree = b.tree();
    assert_eq!(extract_flag_sequence_limit(&tree, action, source), Some(7));
}

fn sample_location() -> SymbolLocation {
    SymbolLocation {
        uri: "file:///test.amble".to_string(),
        range: Range { start: Position::default(), end: Position::default() },
        rename_range: None,
    }
}

#[test]
fn detects_missing_room_metadata_fields() {
    let def = SymbolDefinition {
        location: sample_location(),
        metadata: SymbolMetadata::Room(RoomMetadata {
            name: None,
            description: None,
            exits: vec![],
        }),
    };
    let issues = metadata_issues_for_definition("room_a", &def);
    assert_eq!(issues.len(), 2);
    assert!(issues.iter().any(|msg| msg.contains("name")));
    assert!(issues.iter().any(|msg| msg.contains("description")));
}

#[test]
fn detects_missing_item_metadata_fields() {
    let def = SymbolDefinition {
        location: sample_location(),
        metadata: SymbolMetadata::Item(ItemMetadata {
            name: Some("Item".into()),
            description: Some("desc".into()),
            movability: None,
            location: None,
            container_state: None,
            abilities: vec![],
            requirements: vec![],
        }),
    };
    let issues = metadata_issues_for_definition("item_a", &def);
    assert_eq!(issues.len(), 2);
    assert!(issues.iter().any(|msg| msg.contains("location")));
    assert!(issues.iter().any(|msg| msg.contains("movability")));
}

#[test]
fn detects_missing_npc_metadata_fields() {
    let def = SymbolDefinition {
        location: sample_location(),
        metadata: SymbolMetadata::Npc(NpcMetadata {
            name: Some("Npc".into()),
            description: Some("desc".into()),
            location: None,
            state: None,
        }),
    };
    let issues = metadata_issues_for_definition("npc_a", &def);
    assert_eq!(issues.len(), 2);
    assert!(issues.iter().any(|msg| msg.contains("location")));
    assert!(issues.iter().any(|msg| msg.contains("state")));
}

#[test]
fn metadata_issues_are_worded_exactly() {
    let def = SymbolDefinition {
        location: sample_location(),
        metadata: SymbolMetadata::Room(RoomMetadata {
            name: Some("  ".into()),
            description: Some("x".into()),
            exits: vec![],
        }),
    };
    assert_eq!(
        metadata_issues_for_definition("hall", &def),
        vec!["Room 'hall' is missing a name".to_string()]
    );
    assert!(text_missing(&None));
    assert!(text_missing(&Some(" \t".to_string())));
    assert!(!text_missing(&Some("x".to_string())));
}

// ---------------------------------------------------------------------------
// Analysis
// ---------------------------------------------------------------------------

#[test]
fn undefined_room_reference_is_one_error() {
    let mut backend = Backend::new();
    let (b, captures) = room_with_exit(ROOM_WITH_EXIT, "a", "nowhere_room");
    analyze(&mut backend, "file:///a.amble", &b, captures);
    let diagnostics = backend.check_diagnostics("file:///a.amble").expect("analysed");
    let found = errors(&diagnostics);
    assert_eq!(found.len(), 1);
    assert_eq!(found[0].message, "Undefined room: 'nowhere_room'");
    assert_eq!(found[0].source, "amble-lsp");
    assert!(!found[0].unnecessary);
    assert_eq!(text_for_range(ROOM_WITH_EXIT, &found[0].range), "nowhere_room");
}

#[test]
fn definition_is_no_reference_to_itself() {
    let mut backend = Backend::new();
    let (b, captures) = room_with_exit(ROOM_WITH_EXIT, "a", "nowhere_room");
    analyze(&mut backend, "file:///a.amble", &b, captures);
    let rooms = &backend.symbols().rooms;
    assert!(rooms.has_definition("a"));
    assert!(rooms.references("a").is_none());
    assert_eq!(rooms.references("nowhere_room").unwrap().len(), 1);
    let diagnostics = backend.check_diagnostics("file:///a.amble").unwrap();
    let unused = hints(&diagnostics);
    assert_eq!(unused.len(), 1);
    assert_eq!(unused[0].message, "Room 'a' is never referenced");
    assert!(unused[0].unnecessary);
}

#[test]
fn set_satisfies_room_reference() {
    let mut backend = Backend::new();
    let text = "room a {\n    exit north -> hallway\n}\n";
    let (b, captures) = room_with_exit(text, "a", "hallway");
    analyze(&mut backend, "file:///a.amble", &b, captures);
    assert_eq!(errors(&backend.check_diagnostics("file:///a.amble").unwrap()).len(), 1);
    let sets = "let set hallway = (a)\n";
    let (b, captures) = set_document(sets, "hallway");
    analyze(&mut backend, "file:///sets.amble", &b, captures);
    assert!(backend.symbols().sets.has_definition("hallway"));
    assert!(!backend.symbols().rooms.has_definition("hallway"));
    assert!(errors(&backend.check_diagnostics("file:///a.amble").unwrap()).is_empty());
}

#[test]
fn analysing_twice_changes_nothing() {
    let mut backend = Backend::new();
    let (b, captures) = room_with_exit(ROOM_WITH_EXIT, "a", "nowhere_room");
    analyze(&mut backend, "file:///a.amble", &b, captures);
    let once = backend.check_diagnostics("file:///a.amble").unwrap().len();
    let (b, captures) = room_with_exit(ROOM_WITH_EXIT, "a", "nowhere_room");
    analyze(&mut backend, "file:///a.amble", &b, captures);
    let rooms = &backend.symbols().rooms;
    assert!(rooms.duplicates("a").is_empty());
    assert_eq!(rooms.references("nowhere_room").unwrap().len(), 1);
    assert_eq!(backend.check_diagnostics("file:///a.amble").unwrap().len(), once);
    assert_eq!(backend.document_state("file:///a.amble").unwrap().occurrences.len(), 2);
    assert_eq!(backend.document_uris(), vec!["file:///a.amble".to_string()]);
}

#[test]
fn analysis_replaces_the_earlier_text() {
    let mut backend = Backend::new();
    let (b, captures) = room_with_exit(ROOM_WITH_EXIT, "a", "nowhere_room");
    analyze(&mut backend, "file:///a.amble", &b, captures);
    let text = "room b {\n    exit north -> cellar\n}\n";
    let (b, captures) = room_with_exit(text, "b", "cellar");
    analyze(&mut backend, "file:///a.amble", &b, captures);
    let rooms = &backend.symbols().rooms;
    assert!(!rooms.has_definition("a"));
    assert!(rooms.references("nowhere_room").is_none());
    assert!(rooms.has_definition("b"));
    assert_eq!(rooms.references("cellar").unwrap().len(), 1);
    let mut ids = rooms.ids();
    ids.sort();
    assert_eq!(ids, vec!["b".to_string(), "cellar".to_string()]);
    assert_eq!(backend.document_state("file:///a.amble").unwrap().document.text(), text);
}

#[test]
fn failed_parse_leaves_the_state_untouched() {
    let mut backend = Backend::new();
    let (b, captures) = room_with_exit(ROOM_WITH_EXIT, "a", "nowhere_room");
    analyze(&mut backend, "file:///a.amble", &b, captures);
    backend.analyze_document("file:///a.amble", "room broken", &None, &Vec::new());
    assert!(backend.symbols().rooms.has_definition("a"));
    assert_eq!(backend.document_state("file:///a.amble").unwrap().document.text(), ROOM_WITH_EXIT);
    backend.analyze_document("file:///new.amble", "room broken", &None, &Vec::new());
    assert!(!backend.has_document("file:///new.amble"));
    assert!(backend.check_diagnostics("file:///new.amble").is_none());
}

#[test]
fn duplicate_definitions_are_reported_at_each_place() {
    let mut backend = Backend::new();
    let (b, captures) = room_with_exit(ROOM_WITH_EXIT, "a", "nowhere_room");
    analyze(&mut backend, "file:///a.amble", &b, captures);
    let (b, captures) = room_with_exit(ROOM_WITH_EXIT, "a", "nowhere_room");
    analyze(&mut backend, "file:///b.amble", &b, captures);
    for uri in ["file:///a.amble", "file:///b.amble"] {
        let diagnostics = backend.check_diagnostics(uri).unwrap();
        let duplicates: Vec<_> = errors(&diagnostics)
            .into_iter()
            .filter(|d| d.message == "Duplicate Room definition: 'a'")
            .collect();
        assert_eq!(duplicates.len(), 1);
    }
    assert_eq!(backend.symbols().rooms.definition("a").unwrap().location.uri, "file:///a.amble");
    let (b, captures) = room_with_exit("room z {\n    exit north -> y\n}\n", "z", "y");
    analyze(&mut backend, "file:///a.amble", &b, captures);
    assert_eq!(backend.symbols().rooms.definition("a").unwrap().location.uri, "file:///b.amble");
    assert!(backend.symbols().rooms.duplicates("a").is_empty());
}

#[test]
fn missing_room_metadata_is_warned_about() {
    let mut backend = Backend::new();
    let (b, captures) = room_with_exit(ROOM_WITH_EXIT, "a", "nowhere_room");
    analyze(&mut backend, "file:///a.amble", &b, captures);
    let diagnostics = backend.check_diagnostics("file:///a.amble").unwrap();
    let messages: Vec<&str> = warnings(&diagnostics).iter().map(|d| d.message.as_str()).collect();
    assert!(messages.contains(&"Room 'a' is missing a name"));
    assert!(messages.contains(&"Room 'a' is missing a description"));
}

#[test]
fn workspace_without_player_start_warns_once_at_the_origin() {
    let mut backend = Backend::new();
    let (b, captures) = room_with_exit(ROOM_WITH_EXIT, "a", "nowhere_room");
    analyze(&mut backend, "file:///a.amble", &b, captures);
    let diagnostics = backend.check_diagnostics("file:///a.amble").unwrap();
    let found: Vec<_> = warnings(&diagnostics)
        .into_iter()
        .filter(|d| d.message == "No player start room defined in this workspace")
        .collect();
    assert_eq!(found.len(), 1);
    assert_eq!(found[0].range, Range::default());
}

#[test]
fn two_player_starts_warn_at_each_declaration() {
    let mut backend = Backend::new();
    let first = "player_start room hall\n";
    let (b, captures) = start_document(first, "hall");
    analyze(&mut backend, "file:///a.amble", &b, captures);
    let single = backend.check_diagnostics("file:///a.amble").unwrap();
    assert!(warnings(&single).is_empty());
    let second = "\n  player_start room attic\n";
    let (b, captures) = start_document(second, "attic");
    analyze(&mut backend, "file:///b.amble", &b, captures);
    for (uri, text, room) in
        [("file:///a.amble", first, "hall"), ("file:///b.amble", second, "attic")]
    {
        let diagnostics = backend.check_diagnostics(uri).unwrap();
        let found = warnings(&diagnostics);
        assert_eq!(found.len(), 1);
        assert!(found[0].message.starts_with("Multiple player starts defined (rooms: "));
        assert!(found[0].message.contains("hall"));
        assert!(found[0].message.contains("attic"));
        assert_eq!(text_for_range(text, &found[0].range), room);
    }
}

#[test]
fn world_consistency_lists_the_rooms_in_order() {
    let start = |room: &str, uri: &str, line: u32| PlayerStart {
        room_id: room.to_string(),
        range: Range {
            start: Position { line, character: 0 },
            end: Position { line, character: 4 },
        },
        uri: uri.to_string(),
    };
    let starts = vec![start("hall", "a", 1), start("attic", "b", 2), start("cellar", "a", 3)];
    let found = world_consistency_diagnostics(&starts, "a");
    assert_eq!(found.len(), 2);
    assert_eq!(found[0].message, "Multiple player starts defined (rooms: hall, attic, cellar)");
    assert_eq!(found[0].range.start.line, 1);
    assert_eq!(found[1].range.start.line, 3);
    assert_eq!(found[1].severity, DiagnosticSeverity::Warning);
    assert!(world_consistency_diagnostics(&starts[..1].iter().map(|s| start(&s.room_id, &s.uri, 1)).collect(), "a").is_empty());
    let none = world_consistency_diagnostics(&vec![], "a");
    assert_eq!(none.len(), 1);
    assert_eq!(none[0].range, Range::default());
}

#[test]
fn sequence_references_are_checked_against_the_limit() {
    let mut backend = Backend::new();
    let (b, captures) = flags_document();
    analyze(&mut backend, "file:///t.amble", &b, captures);
    let flags = &backend.symbols().flags;
    assert_eq!(flags.references("quest").unwrap().len(), 2);
    assert!(flags.references("quest#3").is_none());
    let diagnostics = backend.check_diagnostics("file:///t.amble").unwrap();
    let messages: Vec<&str> = warnings(&diagnostics).iter().map(|d| d.message.as_str()).collect();
    assert!(messages.contains(&"Flag 'quest' sequence limit is 3 but reference uses index 3"));
    assert!(!messages.iter().any(|m| m.contains("uses index 2")));
    assert!(messages
        .contains(&"Flag 'plain' is defined as a single flag but referenced as 'plain#1'"));
    assert!(errors(&diagnostics).is_empty());
}

#[test]
fn flag_reference_keeps_its_spelling_and_renames_only_the_name() {
    let mut backend = Backend::new();
    let (b, captures) = flags_document();
    analyze(&mut backend, "file:///t.amble", &b, captures);
    let references = backend.symbols().flags.references("quest").unwrap();
    let third = references.iter().find(|r| r.raw_id == "quest#3").expect("quest#3");
    assert_eq!(text_for_range(FLAGS, &third.location.range), "quest#3");
    assert_eq!(text_for_range(FLAGS, &third.location.rename_range()), "quest");
    let edits = backend.collect_rename_edits(SymbolKind::Flag, "quest", "task");
    assert_eq!(edits.len(), 3);
    assert!(edits.iter().all(|e| text_for_range(FLAGS, &e.range) == "quest" && e.new_text == "task"));
}

#[test]
fn duplicate_flags_are_hints() {
    let mut backend = Backend::new();
    let (b, captures) = flags_document();
    analyze(&mut backend, "file:///t.amble", &b, captures);
    let (b, captures) = flags_document();
    analyze(&mut backend, "file:///u.amble", &b, captures);
    let diagnostics = backend.check_diagnostics("file:///u.amble").unwrap();
    let found: Vec<_> = hints(&diagnostics)
        .into_iter()
        .filter(|d| d.message
            == "Flag 'quest' is defined in multiple triggers; ensure these paths stay in sync")
        .collect();
    assert_eq!(found.len(), 1);
    assert!(found[0].unnecessary);
    assert!(errors(&diagnostics).is_empty());
}

#[test]
fn symbol_at_position_is_the_first_occurrence_there() {
    let mut backend = Backend::new();
    let (b, captures) = room_with_exit(ROOM_WITH_EXIT, "a", "nowhere_room");
    analyze(&mut backend, "file:///a.amble", &b, captures);
    let at = |line: u32, character: u32| {
        backend.get_symbol_at_position("file:///a.amble", Position { line, character })
    };
    assert_eq!(at(0, 5), Some((SymbolKind::Room, "a".to_string())));
    assert_eq!(at(0, 6), Some((SymbolKind::Room, "a".to_string())));
    assert_eq!(at(0, 7), None);
    assert_eq!(at(1, 18), Some((SymbolKind::Room, "nowhere_room".to_string())));
    assert_eq!(at(1, 30), Some((SymbolKind::Room, "nowhere_room".to_string())));
    assert_eq!(at(1, 31), None);
    assert_eq!(backend.get_symbol_at_position("file:///b.amble", Position::default()), None);
    let fallback = Range::default();
    let range = backend.rename_range_for_occurrence(
        "file:///a.amble",
        Position { line: 1, character: 20 },
        SymbolKind::Room,
        "nowhere_room",
        fallback,
    );
    assert_eq!(text_for_range(ROOM_WITH_EXIT, &range), "nowhere_room");
    let range = backend.rename_range_for_occurrence(
        "file:///a.amble",
        Position { line: 2, character: 0 },
        SymbolKind::Room,
        "nowhere_room",
        fallback,
    );
    assert_eq!(range, fallback);
}

#[test]
fn player_starts_are_collected_in_walk_order() {
    let source = "player_start room hall\nplayer_start room \nplayer_start room attic\n";
    let mut b = Builder::new(source);
    let first = b.node(0, "player_start", None, b.span("player_start room hall"));
    b.node(first, "room_id", Some("room_id"), b.span("hall"));
    let blank = b.node(0, "player_start", None, b.span_nth("player_start room ", 1));
    b.node(blank, "room_id", Some("room_id"), (41, 42));
    let last = b.node(0, "player_start", None, b.span("player_start room attic"));
    b.node(last, "room_id", Some("room_id"), b.span("attic"));
    let tree = b.tree();
    let document = Document::new(source.to_string());
    let starts = collect_player_starts(&document, &tree, "file:///w.amble");
    let rooms: Vec<&str> = starts.iter().map(|s| s.room_id.as_str()).collect();
    assert_eq!(rooms, vec!["attic", "hall"]);
    assert_eq!(text_for_range(source, &starts[0].range), "attic");
    assert_eq!(starts[1].uri, "file:///w.amble");
    assert_eq!(range_from_node(&document, &tree, first).start, Position { line: 0, character: 0 });
}

// ---------------------------------------------------------------------------
// Scheduled bodies
// ---------------------------------------------------------------------------

const SCHEDULED_DEFINITIONS: &str = "trigger \"example\" when always {\n    do schedule in 3 note \"later\" {\n        do add flag some_flag_defined_here\n        do add seq flag some_sequence_flag limit 3\n    }\n}\n";

const SCHEDULED_REFERENCES: &str = "trigger \"example\" when always {\n    do schedule in 3 note \"later\" {\n        do spawn item widget into room lab\n        do spawn npc guide_bot into room lab\n        do advance flag quest#2\n        do add flag created_here\n    }\n}\n";

/// The tree of a trigger with one scheduled action; the body is the block
/// of the schedule.
fn schedule_document(source: &str) -> (Builder, (usize, usize)) {
    let mut b = Builder::new(source);
    let trigger = b.node(0, "trigger_def", None, (0, source.trim_end().len()));
    b.node(trigger, "string", Some("name"), b.span("\"example\""));
    let block = b.node(trigger, "trigger_block", None, b.between("{", "}\n}"));
    let body_start = b.span_nth("{", 1).0;
    let body_end = b.span("    }\n}").0 + 5;
    let schedule = b.node(block, "action_schedule", None, (b.span("schedule").0, body_end));
    b.node(schedule, "number", None, b.span("3"));
    b.node(schedule, "string", Some("note"), b.span("\"later\""));
    b.node(schedule, "block", Some("body"), (body_start, body_end));
    (b, (body_start, body_end))
}

/// The tree of the wrapped body.
fn wrapped_builder(source: &str, body: (usize, usize)) -> Builder {
    let wrapped = format!("{}{}", PREFIX, &source[body.0..body.1]);
    let mut b = Builder::new(&wrapped);
    let trigger = b.node(0, "trigger_def", None, (0, wrapped.len()));
    b.node(trigger, "string", Some("name"), b.span("\"__amble_schedule__\""));
    b.node(trigger, "trigger_block", None, (PREFIX.len(), wrapped.len()));
    b
}

#[test]
fn collects_flag_definitions_from_schedule_body() {
    let source = SCHEDULED_DEFINITIONS;
    let (b, body) = schedule_document(source);
    let tree = b.tree();
    let document = Document::new(source.to_string());

    let fragments = schedule_fragments(&tree, source);
    assert_eq!(fragments.len(), 1);
    assert_eq!(fragments[0].wrapped, format!("{}{}", PREFIX, &source[body.0..body.1]));

    let mut w = wrapped_builder(source, body);
    let add_flag = w.node(2 + 1, "action_add_flag", None, w.span("add flag some_flag_defined_here"));
    let plain = w.node(add_flag, "flag_name", Some("flag"), w.span("some_flag_defined_here"));
    let add_seq = w.node(2 + 1, "action_add_seq", None, w.span("add seq flag some_sequence_flag limit 3"));
    let sequence = w.node(add_seq, "flag_name", Some("flag_name"), w.span("some_sequence_flag"));
    w.node(add_seq, "number", None, (w.span("limit 3").1 - 1, w.span("limit 3").1));
    let mut captures = QueryCaptures::new();
    captures.flag_definitions = vec![plain, sequence];
    let parses = vec![parsed(&w, captures)];

    let definitions = collect_schedule_flag_definitions(&document, &fragments, &parses);
    assert_eq!(definitions.len(), 2);

    let mut plain_flag_found = false;
    let mut sequence_flag_found = false;
    for definition in definitions {
        let text = text_for_range(source, &definition.range);
        if definition.id == "some_flag_defined_here" {
            plain_flag_found = true;
            assert_eq!(text, "some_flag_defined_here");
            assert_eq!(definition.defined_in.as_deref(), Some("example"));
            assert_eq!(definition.sequence_limit, None);
        }

        if definition.id == "some_sequence_flag" {
            sequence_flag_found = true;
            assert_eq!(text, "some_sequence_flag");
            assert_eq!(definition.defined_in.as_deref(), Some("example"));
            assert_eq!(definition.sequence_limit, Some(3));
        }
    }

    assert!(plain_flag_found);
    assert!(sequence_flag_found);
}

#[test]
fn collects_symbol_references_from_schedule_body() {
    let source = SCHEDULED_REFERENCES;
    let (b, body) = schedule_document(source);
    let tree = b.tree();
    let document = Document::new(source.to_string());
    let fragments = schedule_fragments(&tree, source);

    let mut w = wrapped_builder(source, body);
    let block = 3;
    let spawn_item = w.node(block, "action_spawn_item", None, w.span("spawn item widget into room lab"));
    let widget = w.node(spawn_item, "item_id", Some("item_id"), w.span("widget"));
    let lab_one = w.node(spawn_item, "room_id", Some("room_id"), w.span_nth("lab", 0));
    let spawn_npc = w.node(block, "action_spawn_npc", None, w.span("spawn npc guide_bot into room lab"));
    let guide = w.node(spawn_npc, "npc_id", Some("npc_id"), w.span("guide_bot"));
    let lab_two = w.node(spawn_npc, "room_id", Some("room_id"), w.span_nth("lab", 1));
    let advance = w.node(block, "action_advance_flag", None, w.span("advance flag quest#2"));
    let quest = w.node(advance, "flag_name", Some("flag"), w.span("quest#2"));
    let add_flag = w.node(block, "action_add_flag", None, w.span("add flag created_here"));
    let created = w.node(add_flag, "flag_name", Some("flag"), w.span("created_here"));
    let mut captures = QueryCaptures::new();
    captures.room_references = vec![lab_one, lab_two];
    captures.item_references = vec![widget];
    captures.npc_references = vec![guide];
    captures.flag_references = vec![quest, created];
    let parses = vec![parsed(&w, captures)];

    let references = collect_schedule_symbol_references(&document, &fragments, &parses);

    assert!(references
        .iter()
        .any(|reference| reference.kind == SymbolKind::Item && reference.id == "widget"));
    assert!(references
        .iter()
        .any(|reference| reference.kind == SymbolKind::Npc && reference.id == "guide_bot"));
    assert!(references
        .iter()
        .any(|reference| reference.kind == SymbolKind::Room && reference.id == "lab"));
    assert!(!references
        .iter()
        .any(|reference| reference.raw_id == "created_here"));

    let quest_reference = references
        .iter()
        .find(|reference| reference.kind == SymbolKind::Flag && reference.raw_id == "quest#2")
        .expect("missing schedule flag reference");
    assert_eq!(quest_reference.id, "quest");
    assert_eq!(text_for_range(source, &quest_reference.range), "quest#2");
    let rename_range = quest_reference
        .rename_range
        .clone()
        .expect("flag sequence reference should set rename range");
    assert_eq!(text_for_range(source, &rename_range), "quest");
    let kinds: Vec<SymbolKind> = references.iter().map(|r| r.kind).collect();
    assert_eq!(
        kinds,
        vec![SymbolKind::Room, SymbolKind::Room, SymbolKind::Item, SymbolKind::Npc, SymbolKind::Flag]
    );
}

#[test]
fn flag_defined_only_in_a_scheduled_body_is_found() {
    let source = SCHEDULED_DEFINITIONS;
    let (b, body) = schedule_document(source);
    let mut w = wrapped_builder(source, body);
    let add_flag = w.node(3, "action_add_flag", None, w.span("add flag some_flag_defined_here"));
    let plain = w.node(add_flag, "flag_name", Some("flag"), w.span("some_flag_defined_here"));
    let mut captures = QueryCaptures::new();
    captures.flag_definitions = vec![plain];
    let parses = vec![parsed(&w, captures)];

    let mut backend = Backend::new();
    let main = parsed(&b, QueryCaptures::new());
    backend.analyze_document("file:///s.amble", source, &main, &parses);
    let definition = backend.symbols().flags.definition("some_flag_defined_here").expect("defined");
    assert_eq!(text_for_range(source, &definition.location.range), "some_flag_defined_here");
    assert!(matches!(
        definition.metadata,
        SymbolMetadata::Flag(ref meta) if meta.defined_in.as_deref() == Some("example")
    ));
    assert_eq!(
        backend.get_symbol_at_position("file:///s.amble", definition.location.range.start),
        Some((SymbolKind::Flag, "some_flag_defined_here".to_string()))
    );
    backend.analyze_document("file:///s.amble", source, &main, &vec![None]);
    assert!(!backend.symbols().flags.has_definition("some_flag_defined_here"));
}

#[test]
fn schedule_nodes_without_text_give_no_fragment() {
    let source = "do schedule in 1 { }x";
    let mut b = Builder::new(source);
    let blank = b.node(0, "action_schedule", None, (3, 20));
    b.node(blank, "block", Some("body"), (18, 19));
    let bare = b.node(0, "action_schedule", None, (3, 20));
    let tree = b.tree();
    assert_eq!(collect_schedule_nodes(&tree), vec![(blank, blank + 1)]);
    assert!(schedule_fragments(&tree, source).is_empty());
    assert_eq!(bare, 3);
}

#[test]
fn remapping_subtracts_the_prefix_and_adds_the_body_start() {
    assert_eq!(WRAPPER_PREFIX_LEN, PREFIX.len());
    let source = "0123456789\nabcdefghij\n";
    let document = Document::new(source.to_string());
    let at = |line: u32, character: u32| Position { line, character };
    // A body of eight bytes that begins at offset 11.
    assert_eq!(
        remap_schedule_capture_range(&document, 11, 8, PREFIX.len() + 2, PREFIX.len() + 5),
        Some(Range { start: at(1, 2), end: at(1, 5) })
    );
    assert_eq!(
        remap_schedule_capture_range(&document, 11, 8, PREFIX.len(), PREFIX.len() + 8),
        Some(Range { start: at(1, 0), end: at(1, 8) })
    );
    assert_eq!(
        remap_schedule_capture_range(&document, 3, 8, PREFIX.len() + 4, PREFIX.len() + 4),
        Some(Range { start: at(0, 7), end: at(0, 7) })
    );
    assert_eq!(remap_schedule_capture_range(&document, 11, 8, PREFIX.len() - 1, PREFIX.len() + 2), None);
    assert_eq!(remap_schedule_capture_range(&document, 11, 8, PREFIX.len(), PREFIX.len() + 9), None);
    assert_eq!(remap_schedule_capture_range(&document, 11, 8, PREFIX.len() + 3, PREFIX.len() + 2), None);
    assert_eq!(remap_schedule_capture_range(&document, usize::MAX, 8, PREFIX.len(), PREFIX.len() + 1), None);
}

// ---------------------------------------------------------------------------
// Completion
// ---------------------------------------------------------------------------

fn completion_at(tree: &SyntaxTree, source: &str, position: Position) -> Option<SymbolKind> {
    let offset = Document::new(source.to_string()).offset(position).expect("offset");
    let mut candidates = vec![offset];
    if offset > 0 {
        candidates.push(offset - 1);
    }
    for candidate in candidates {
        if let Some(node) = node_at_offset(tree, candidate) {
            if let Some(symbol) = symbol_kind_from_syntax(tree, node, candidate) {
                assert_eq!(completion_context(tree, offset), Some(symbol));
                return Some(symbol);
            }
        }
    }
    assert_eq!(completion_context(tree, offset), None);
    None
}

fn position_for_token(source: &str, line: usize, token: &str, offset: usize) -> Position {
    let line_str = source.lines().nth(line).expect("line missing");
    let start = line_str.find(token).expect("token missing on line");
    let prefix = &line_str[..start + offset];
    let character = prefix.chars().map(|ch| ch.len_utf16() as u32).sum();
    Position { line: line as u32, character }
}

fn exits_tree(source: &str) -> SyntaxTree {
    let mut b = Builder::new(source);
    let room = b.node(0, "room_def", None, (0, source.trim_end().len()));
    b.token(room, "room", b.span("room"));
    b.node(room, "room_id", Some("room_id"), (5, 6));
    let block = b.node(room, "room_block", None, b.between("{", "}"));
    b.token(block, "{", b.span("{"));
    let arrow = b.span("->");
    let exit = b.node(block, "room_exit", None, (b.span("exit").0, arrow.1));
    b.token(exit, "exit", b.span("exit"));
    b.node(exit, "exit_dir", Some("dir"), b.span("north"));
    b.token(exit, "->", arrow);
    b.push(exit, "room_id", Some("dest"), true, true, (arrow.1, arrow.1));
    b.token(block, "}", b.span("}"));
    b.tree()
}

fn condition_tree(source: &str, condition: &str, kind: &str, token: &str) -> SyntaxTree {
    let mut b = Builder::new(source);
    let trigger = b.node(0, "trigger_def", None, b.between("trigger", "\n}"));
    b.node(trigger, "string", Some("name"), b.between("\"", "\""));
    let block = b.node(trigger, "trigger_block", None, b.between("{", "\n}"));
    let cond = b.node(block, condition, None, b.span_nth(token, 0));
    b.node(cond, kind, None, b.span_nth(token, 0));
    b.tree()
}

#[test]
fn analysis_detects_room_reference_context_in_exits() {
    let source = "room a {\n    exit north -> \n}\n";
    let tree = exits_tree(source);
    let symbol = completion_at(&tree, source, Position { line: 1, character: 17 });
    assert_eq!(symbol, Some(SymbolKind::Room));
}

#[test]
fn amble_detects_room_reference_context_in_exits() {
    let source = "room a {\n    exit north -> \n}\n";
    let tree = exits_tree(source);
    let symbol = completion_at(&tree, source, Position { line: 1, character: 17 });
    assert_eq!(symbol, Some(SymbolKind::Room));
}

#[test]
fn analysis_detects_item_reference_context_in_conditions() {
    let source = "trigger \"test-trigger\" when always {\n    if has item test_item {\n        do show \"\"\n    }\n}\n\nitem test_item {\n    name \"Item\"\n}\n";
    let tree = condition_tree(source, "cond_has_item", "item_id", "test_item");
    let position = position_for_token(source, 1, "test_item", 2);
    let symbol = completion_at(&tree, source, position);
    assert_eq!(symbol, Some(SymbolKind::Item));
}

#[test]
fn amble_detects_item_reference_context_in_conditions() {
    let source = "trigger \"test-trigger\" when always {\n    if has item test_item {\n        do show \"\"\n    }\n}\n\nitem test_item {\n    name \"Item\"\n}\n";
    let tree = condition_tree(source, "cond_has_item", "item_id", "test_item");
    let position = position_for_token(source, 1, "test_item", 2);
    let symbol = completion_at(&tree, source, position);
    assert_eq!(symbol, Some(SymbolKind::Item));
}

#[test]
fn analysis_detects_npc_reference_context_in_events() {
    let source = "trigger \"npc-trigger\" when talk to npc test_npc {\n    do show \"\"\n}\n\nnpc test_npc {\n    name \"Npc\"\n}\n";
    let tree = condition_tree(source, "event_talk_to_npc", "npc_id", "test_npc");
    let position = position_for_token(source, 0, "test_npc", 2);
    let symbol = completion_at(&tree, source, position);
    assert_eq!(symbol, Some(SymbolKind::Npc));
}

#[test]
fn amble_detects_npc_reference_context_in_events() {
    let source = "trigger \"npc-trigger\" when talk to npc test_npc {\n    do show \"\"\n}\n\nnpc test_npc {\n    name \"Npc\"\n}\n";
    let tree = condition_tree(source, "event_talk_to_npc", "npc_id", "test_npc");
    let position = position_for_token(source, 0, "test_npc", 2);
    let symbol = completion_at(&tree, source, position);
    assert_eq!(symbol, Some(SymbolKind::Npc));
}

#[test]
fn analysis_detects_flag_reference_context_in_actions() {
    let source = "trigger \"flag-trigger\" when always {\n    if has flag quest_flag {\n        do show \"\"\n    }\n}\n";
    let tree = condition_tree(source, "cond_has_flag", "flag_name", "quest_flag");
    let position = position_for_token(source, 1, "quest_flag", 2);
    let symbol = completion_at(&tree, source, position);
    assert_eq!(symbol, Some(SymbolKind::Flag));
}

#[test]
fn amble_detects_flag_reference_context_in_actions() {
    let source = "trigger \"flag-trigger\" when always {\n    if has flag quest_flag {\n        do show \"\"\n    }\n}\n";
    let tree = condition_tree(source, "cond_has_flag", "flag_name", "quest_flag");
    let position = position_for_token(source, 1, "quest_flag", 2);
    let symbol = completion_at(&tree, source, position);
    assert_eq!(symbol, Some(SymbolKind::Flag));
}

fn definition_tree(source: &str) -> SyntaxTree {
    let mut b = Builder::new(source);
    let room = b.node(0, "room_def", None, (0, source.trim_end().len()));
    b.token(room, "room", b.span("room"));
    b.node(room, "room_id", Some("room_id"), b.span("test-room"));
    let block = b.node(room, "room_block", None, b.between("{", "}"));
    b.token(block, "{", b.span("{"));
    b.token(block, "}", b.span("}"));
    b.tree()
}

#[test]
fn analysis_skips_completion_inside_definitions() {
    let source = "room test-room {\n}\n";
    let tree = definition_tree(source);
    let symbol = completion_at(&tree, source, Position { line: 0, character: 9 });
    assert_eq!(symbol, None);
}

#[test]
fn amble_skips_completion_inside_definitions() {
    let source = "room test-room {\n}\n";
    let tree = definition_tree(source);
    let symbol = completion_at(&tree, source, Position { line: 0, character: 9 });
    assert_eq!(symbol, None);
}

#[test]
fn completion_context_needs_an_analysed_document() {
    let source = "room a {\n    exit north -> \n}\n";
    let tree = exits_tree(source);
    let mut backend = Backend::new();
    let position = Position { line: 1, character: 17 };
    assert_eq!(backend.get_completion_context("file:///a.amble", position, &tree), None);
    backend.analyze_document(
        "file:///a.amble",
        source,
        &Some(ParsedSource { tree: exits_tree(source), captures: QueryCaptures::new() }),
        &Vec::new(),
    );
    assert_eq!(
        backend.get_completion_context("file:///a.amble", position, &tree),
        Some(SymbolKind::Room)
    );
    let beyond = Position { line: 1, character: 99 };
    assert_eq!(backend.get_completion_context("file:///a.amble", beyond, &tree), None);
}

#[test]
fn node_at_offset_goes_down_to_the_first_child_beyond() {
    let source = "room test-room {\n}\n";
    let tree = definition_tree(source);
    assert_eq!(node_at_offset(&tree, 0), Some(2));
    assert_eq!(node_at_offset(&tree, 4), Some(3));
    assert_eq!(node_at_offset(&tree, 13), Some(3));
    assert_eq!(node_at_offset(&tree, 14), Some(5));
    assert_eq!(node_at_offset(&tree, 18), Some(0));
    assert_eq!(node_at_offset(&tree, source.len()), Some(0));
    assert_eq!(node_at_offset(&tree, source.len() + 1), None);
}

// ---------------------------------------------------------------------------
// Answers at a position
// ---------------------------------------------------------------------------

const ROOM_A: &str = "room a {\n    exit north -> b\n}\n";
const ROOM_B: &str = "room b {\n    exit north -> a\n}\n";

fn two_rooms() -> Backend {
    let mut backend = Backend::new();
    let (b, captures) = room_with_exit(ROOM_A, "a", "b");
    analyze(&mut backend, "file:///a.amble", &b, captures);
    let (b, captures) = room_with_exit(ROOM_B, "b", "a");
    analyze(&mut backend, "file:///b.amble", &b, captures);
    backend
}

const AT_EXIT: Position = Position { line: 1, character: 18 };
const AT_NOTHING: Position = Position { line: 1, character: 2 };

#[test]
fn definition_is_found_from_a_reference() {
    let backend = two_rooms();
    let place = backend.definition_location("file:///a.amble", AT_EXIT).expect("defined");
    assert_eq!(place.uri, "file:///b.amble");
    assert_eq!(text_for_range(ROOM_B, &place.range), "b");
    assert_eq!(place.range.start, Position { line: 0, character: 5 });
    assert!(backend.definition_location("file:///a.amble", AT_NOTHING).is_none());
    assert!(backend.definition_location("file:///c.amble", AT_EXIT).is_none());
}

#[test]
fn definition_of_an_undefined_symbol_is_not_found() {
    let mut backend = Backend::new();
    let (b, captures) = room_with_exit(ROOM_WITH_EXIT, "a", "nowhere_room");
    analyze(&mut backend, "file:///a.amble", &b, captures);
    let at = Position { line: 1, character: 20 };
    assert!(backend.get_symbol_at_position("file:///a.amble", at).is_some());
    assert!(backend.definition_location("file:///a.amble", at).is_none());
    assert!(backend.hover_definition("file:///a.amble", at).is_none());
    let places = backend.reference_locations("file:///a.amble", at, true).expect("a symbol");
    assert_eq!(places.len(), 1);
    assert_eq!(text_for_range(ROOM_WITH_EXIT, &places[0].range), "nowhere_room");
}

#[test]
fn references_come_after_the_declaration() {
    let backend = two_rooms();
    let with = backend.reference_locations("file:///a.amble", AT_EXIT, true).expect("a symbol");
    assert_eq!(with.len(), 2);
    assert_eq!(with[0].uri, "file:///b.amble");
    assert_eq!(with[0].range.start, Position { line: 0, character: 5 });
    assert_eq!(with[1].uri, "file:///a.amble");
    assert_eq!(with[1].range.start, AT_EXIT);
    let without =
        backend.reference_locations("file:///a.amble", AT_EXIT, false).expect("a symbol");
    assert_eq!(without.len(), 1);
    assert_eq!(without[0].uri, "file:///a.amble");
    assert_eq!(without[0].range.start, AT_EXIT);
    assert!(backend.reference_locations("file:///a.amble", AT_NOTHING, true).is_none());
}

#[test]
fn hover_describes_the_definition_of_the_symbol() {
    let backend = two_rooms();
    let (id, definition) = backend.hover_definition("file:///a.amble", AT_EXIT).expect("defined");
    assert_eq!(id, "b");
    assert_eq!(definition.location.uri, "file:///b.amble");
    match definition.metadata {
        SymbolMetadata::Room(meta) => assert_eq!(meta.exits, vec!["a".to_string()]),
        other => panic!("metadata of another kind: {:?}", other),
    }
    assert!(backend.hover_definition("file:///a.amble", AT_NOTHING).is_none());
}

#[test]
fn rename_gives_the_edits_document_by_document() {
    let backend = two_rooms();
    assert!(backend.rename_at("file:///a.amble", AT_EXIT, "").is_none());
    assert!(backend.rename_at("file:///a.amble", AT_NOTHING, "cellar").is_none());
    let groups = backend.rename_at("file:///a.amble", AT_EXIT, "cellar").expect("a symbol");
    assert_eq!(groups.len(), 2);
    assert_eq!(groups[0].uri, "file:///b.amble");
    assert_eq!(groups[0].edits.len(), 1);
    assert_eq!(text_for_range(ROOM_B, &groups[0].edits[0].0), "b");
    assert_eq!(groups[0].edits[0].1, "cellar");
    assert_eq!(groups[1].uri, "file:///a.amble");
    assert_eq!(groups[1].edits.len(), 1);
    assert_eq!(groups[1].edits[0].0.start, AT_EXIT);
    assert_eq!(groups[1].edits[0].1, "cellar");
}

#[test]
fn rename_is_offered_for_the_name_of_the_flag_only() {
    let mut backend = Backend::new();
    let (b, captures) = flags_document();
    analyze(&mut backend, "file:///t.amble", &b, captures);
    let at = position_for_token(FLAGS, 5, "quest#3", 6);
    let (range, placeholder) = backend.rename_target_at("file:///t.amble", at).expect("a flag");
    assert_eq!(placeholder, "quest");
    assert_eq!(text_for_range(FLAGS, &range), "quest");
    let at = position_for_token(FLAGS, 2, "plain", 1);
    let (range, placeholder) = backend.rename_target_at("file:///t.amble", at).expect("a flag");
    assert_eq!(placeholder, "plain");
    assert_eq!(text_for_range(FLAGS, &range), "plain");
    assert!(backend.rename_target_at("file:///t.amble", Position::default()).is_none());
}

#[test]
fn completion_offers_the_definitions_of_the_expected_kind() {
    let source = "room a {\n    exit north -> \n}\n";
    let tree = exits_tree(source);
    let position = Position { line: 1, character: 17 };
    let mut backend = Backend::new();
    assert!(backend.completion_definitions("file:///new.amble", position, &tree).is_none());
    backend.analyze_document(
        "file:///new.amble",
        source,
        &Some(ParsedSource { tree: exits_tree(source), captures: QueryCaptures::new() }),
        &Vec::new(),
    );
    assert!(backend.completion_definitions("file:///new.amble", position, &tree).is_none());
    let (b, captures) = room_with_exit(ROOM_A, "a", "b");
    analyze(&mut backend, "file:///a.amble", &b, captures);
    let (b, captures) = room_with_exit(ROOM_B, "b", "a");
    analyze(&mut backend, "file:///b.amble", &b, captures);
    let (kind, definitions) =
        backend.completion_definitions("file:///new.amble", position, &tree).expect("rooms");
    assert_eq!(kind, SymbolKind::Room);
    let mut ids: Vec<String> = definitions.iter().map(|(id, _)| id.clone()).collect();
    ids.sort();
    assert_eq!(ids, vec!["a".to_string(), "b".to_string()]);
    for (id, definition) in &definitions {
        assert_eq!(definition.location.uri, format!("file:///{}.amble", id));
    }
    let elsewhere = Position { line: 0, character: 2 };
    assert!(backend.completion_definitions("file:///new.amble", elsewhere, &tree).is_none());
}

#[test]
fn formatting_replaces_the_whole_text_or_nothing() {
    let backend = two_rooms();
    assert!(backend.formatting_edits("file:///c.amble", "room c".to_string()).is_none());
    let same = backend.formatting_edits("file:///a.amble", ROOM_A.to_string()).expect("analysed");
    assert!(same.is_empty());
    let formatted = "room a {\n  exit north -> b\n}\n".to_string();
    let edits =
        backend.formatting_edits("file:///a.amble", formatted.clone()).expect("analysed");
    assert_eq!(edits.len(), 1);
    assert_eq!(edits[0].1, formatted);
    assert_eq!(
        edits[0].0,
        Range { start: Position { line: 0, character: 0 }, end: Position { line: 3, character: 0 } }
    );
}
