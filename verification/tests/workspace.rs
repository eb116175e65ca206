use amble_lsp::backend::Backend;
use amble_lsp::extension::language_server_command;
use amble_lsp::schedule::{ParsedSource, QueryCaptures};
use amble_lsp::symbols::{
    FlagMetadata, ItemMetadata, NpcMetadata, RoomMetadata, SetMetadata, SymbolDefinition,
    SymbolKind, SymbolLocation, SymbolMetadata,
};
use amble_lsp::syntax::{SyntaxNode, SyntaxTree};
use amble_lsp::text::{Position, Range};
use amble_lsp::workspace::{
    completion_item_from_definition, completion_item_kind, definition_detail,
    document_symbol_from_definition, lsp_symbol_kind, matches_lowered, query_matches_symbol,
    truncate_completion_detail, workspace_symbol_from_definition, CompletionKind, OutlineKind,
};

fn location(uri: &str) -> SymbolLocation {
    SymbolLocation {
        uri: uri.to_string(),
        range: Range {
            start: Position { line: 1, character: 2 },
            end: Position { line: 1, character: 9 },
        },
        rename_range: Some(Range {
            start: Position { line: 1, character: 2 },
            end: Position { line: 1, character: 7 },
        }),
    }
}

fn room(name: Option<&str>, description: Option<&str>) -> SymbolDefinition {
    SymbolDefinition {
        location: location("file:///rooms.amble"),
        metadata: SymbolMetadata::Room(RoomMetadata {
            name: name.map(|s| s.to_string()),
            description: description.map(|s| s.to_string()),
            exits: vec![],
        }),
    }
}

fn with_metadata(metadata: SymbolMetadata) -> SymbolDefinition {
    SymbolDefinition { location: location("file:///x.amble"), metadata }
}

#[test]
fn detail_is_the_first_text_that_is_there() {
    assert_eq!(definition_detail(&room(Some("Hall"), Some("Big"))), Some("Hall".to_string()));
    assert_eq!(definition_detail(&room(None, Some("Big"))), Some("Big".to_string()));
    assert_eq!(definition_detail(&room(None, None)), None);
    let item = with_metadata(SymbolMetadata::Item(ItemMetadata {
        name: None,
        description: Some("shiny".into()),
        movability: None,
        location: Some("room hall".into()),
        container_state: None,
        abilities: vec![],
        requirements: vec![],
    }));
    assert_eq!(definition_detail(&item), Some("room hall".to_string()));
    let npc = with_metadata(SymbolMetadata::Npc(NpcMetadata {
        name: None,
        description: Some("tall".into()),
        location: None,
        state: Some("idle".into()),
    }));
    assert_eq!(definition_detail(&npc), Some("tall".to_string()));
    let flag = with_metadata(SymbolMetadata::Flag(FlagMetadata {
        defined_in: Some("intro".into()),
        sequence_limit: Some(2),
    }));
    assert_eq!(definition_detail(&flag), Some("intro".to_string()));
    let set = with_metadata(SymbolMetadata::RoomSet(SetMetadata {
        rooms: vec!["a".into(), "b".into()],
    }));
    assert_eq!(definition_detail(&set), Some("Rooms: a, b".to_string()));
    let empty = with_metadata(SymbolMetadata::RoomSet(SetMetadata { rooms: vec![] }));
    assert_eq!(definition_detail(&empty), Some("No rooms assigned".to_string()));
}

#[test]
fn completion_detail_is_cut_at_eighty_characters() {
    assert_eq!(truncate_completion_detail(None), None);
    assert_eq!(truncate_completion_detail(Some("short".into())), Some("short".to_string()));
    let exact = "x".repeat(80);
    assert_eq!(truncate_completion_detail(Some(exact.clone())), Some(exact));
    let long = "y".repeat(81);
    assert_eq!(
        truncate_completion_detail(Some(long)),
        Some(format!("{}...", "y".repeat(80)))
    );
}

#[test]
fn queries_match_name_or_detail_in_small_letters() {
    assert!(query_matches_symbol("Main-Hall", None, ""));
    assert!(query_matches_symbol("Main-Hall", None, "hall"));
    assert!(query_matches_symbol("ÄRGER", None, "ärg"));
    assert!(!query_matches_symbol("Main-Hall", None, "Hall"));
    assert!(!query_matches_symbol("Main-Hall", None, "attic"));
    assert!(query_matches_symbol("x", Some("The Attic"), "attic"));
    assert!(!query_matches_symbol("x", Some("The Attic"), "cellar"));
    assert!(matches_lowered("hall", None, "all"));
    assert!(!matches_lowered("hall", Some("big"), "bigger"));
    assert!(matches_lowered("", None, ""));
    assert!(!matches_lowered("", None, "a"));
}

#[test]
fn kinds_are_mapped_for_the_editor() {
    assert_eq!(lsp_symbol_kind(SymbolKind::Room), OutlineKind::Class);
    assert_eq!(lsp_symbol_kind(SymbolKind::Item), OutlineKind::Struct);
    assert_eq!(lsp_symbol_kind(SymbolKind::Npc), OutlineKind::Interface);
    assert_eq!(lsp_symbol_kind(SymbolKind::Flag), OutlineKind::EnumMember);
    assert_eq!(lsp_symbol_kind(SymbolKind::RoomSet), OutlineKind::Namespace);
    assert_eq!(completion_item_kind(SymbolKind::Room), CompletionKind::Class);
    assert_eq!(completion_item_kind(SymbolKind::Item), CompletionKind::Struct);
    assert_eq!(completion_item_kind(SymbolKind::Npc), CompletionKind::Field);
    assert_eq!(completion_item_kind(SymbolKind::Flag), CompletionKind::EnumMember);
    assert_eq!(completion_item_kind(SymbolKind::RoomSet), CompletionKind::Module);
}

#[test]
fn symbols_are_made_from_definitions() {
    let definition = room(Some("Hall"), None);
    let outline = document_symbol_from_definition("hall", SymbolKind::Room, &definition);
    assert_eq!(outline.name, "hall");
    assert_eq!(outline.detail.as_deref(), Some("Hall"));
    assert_eq!(outline.kind, OutlineKind::Class);
    assert_eq!(outline.range, definition.location.range);
    assert_eq!(outline.selection_range, definition.location.rename_range.unwrap());
    let found = workspace_symbol_from_definition("hall", SymbolKind::Room, &definition);
    assert_eq!(found.name, "hall");
    assert_eq!(found.uri, "file:///rooms.amble");
    assert_eq!(found.range, definition.location.range);
    let item = completion_item_from_definition(SymbolKind::Room, "hall", &definition, Some("rooms.amble"));
    assert_eq!(item.label, "hall");
    assert_eq!(item.sort_text, "hall");
    assert_eq!(item.kind, CompletionKind::Class);
    assert_eq!(item.detail.as_deref(), Some("Hall"));
    assert_eq!(
        item.documentation,
        "**ROOM:** Hall (hall)\n- **File:** rooms.amble\n- **Description:** (missing)\n- **Exits:** (none)"
    );
}

fn room_document(id: &str) -> (String, Option<ParsedSource>) {
    let text = format!("room {} {{\n}}\n", id);
    let node = |kind: &str, field: Option<&str>, span: (usize, usize), parent: Option<usize>, children: Vec<usize>| SyntaxNode {
        kind: kind.to_string(),
        field: field.map(|f| f.to_string()),
        named: true,
        missing: false,
        start_byte: span.0,
        end_byte: span.1,
        start_row: 0,
        start_column: span.0,
        parent,
        children,
    };
    let nodes = vec![
        node("source_file", None, (0, text.len()), None, vec![1]),
        node("room_def", None, (0, text.len() - 1), Some(0), vec![2]),
        node("room_id", Some("room_id"), (5, 5 + id.len()), Some(1), vec![]),
    ];
    let mut captures = QueryCaptures::new();
    captures.room_definitions = vec![2];
    (text, Some(ParsedSource { tree: SyntaxTree::from_nodes(nodes).unwrap(), captures }))
}

#[test]
fn outline_and_search_list_the_definitions() {
    let mut backend = Backend::new();
    for (uri, id) in [("file:///a.amble", "Attic"), ("file:///b.amble", "cellar")] {
        let (text, parsed) = room_document(id);
        backend.analyze_document(uri, &text, &parsed, &Vec::new());
    }
    let outline = backend.collect_document_symbols("file:///a.amble");
    assert_eq!(outline.len(), 1);
    assert_eq!(outline[0].name, "Attic");
    assert!(backend.collect_document_symbols("file:///c.amble").is_empty());
    let mut all: Vec<String> =
        backend.collect_workspace_symbols("").into_iter().map(|s| s.name).collect();
    all.sort();
    assert_eq!(all, vec!["Attic".to_string(), "cellar".to_string()]);
    let found = backend.collect_workspace_symbols("att");
    assert_eq!(found.len(), 1);
    assert_eq!(found[0].uri, "file:///a.amble");
    assert!(backend.collect_workspace_symbols("ATT").is_empty());
    let orders = backend.walk_orders();
    assert_eq!(orders.rooms.len(), 2);
    assert_eq!(orders.documents.len(), 2);
    assert_eq!(backend.collect_document_symbols_in_order("file:///b.amble", &orders).len(), 1);
    assert_eq!(backend.diagnostics_in_order("file:///a.amble", &orders).len(),
        backend.check_diagnostics("file:///a.amble").unwrap().len());
}

#[test]
fn only_the_known_language_server_is_started() {
    assert_eq!(
        language_server_command("amble-lsp"),
        Ok("/home/dave/code/zed-amble-ext/bin/amble-lsp".to_string())
    );
    assert_eq!(
        language_server_command("rust-analyzer"),
        Err("Unknown language server: rust-analyzer".to_string())
    );
    assert_eq!(language_server_command(""), Err("Unknown language server: ".to_string()));
}
