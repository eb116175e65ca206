use amble_lsp::index::{SymbolIndex, SymbolStore};
use amble_lsp::symbols::{
    RoomMetadata, SymbolDefinition, SymbolKind, SymbolLocation, SymbolMetadata, SymbolReference,
};
use amble_lsp::text::{Position, Range};

fn test_location(path: &str) -> SymbolLocation {
    SymbolLocation {
        uri: format!("file:///{}", path),
        range: Range { start: Position::default(), end: Position::default() },
        rename_range: None,
    }
}

fn room_definition(path: &str) -> SymbolDefinition {
    SymbolDefinition {
        location: test_location(path),
        metadata: SymbolMetadata::Room(RoomMetadata {
            name: Some("Room".into()),
            description: Some("Desc".into()),
            exits: vec![],
        }),
    }
}

fn reference(path: &str, raw: &str) -> SymbolReference {
    SymbolReference { location: test_location(path), raw_id: raw.to_string() }
}

#[test]
fn tracks_duplicates_and_promotes_after_clear() {
    let mut index = SymbolIndex::default();
    index.insert_definition("room_a".into(), room_definition("rooms/a.amble"));
    index.insert_definition("room_a".into(), room_definition("rooms/b.amble"));

    let duplicates: Vec<_> = index
        .duplicate_definitions_iter()
        .into_iter()
        .map(|entry| entry.0)
        .collect();
    assert_eq!(duplicates, vec!["room_a".to_string()]);

    index.clear_document("file:///rooms/a.amble");

    assert!(index.duplicate_definitions_iter().into_iter().next().is_none());
    let current = index.definition("room_a").unwrap();
    assert_eq!(current.location.uri, "file:///rooms/b.amble");
}

#[test]
fn definition_is_present_before_and_after_promotion() {
    let mut index = SymbolIndex::new();
    index.insert_definition("r".into(), room_definition("a.amble"));
    index.insert_definition("r".into(), room_definition("b.amble"));
    assert!(index.has_definition("r"));
    assert_eq!(index.definition("r").unwrap().location.uri, "file:///a.amble");
    index.clear_document("file:///a.amble");
    assert!(index.has_definition("r"));
    assert_eq!(index.definition("r").unwrap().location.uri, "file:///b.amble");
    index.clear_document("file:///b.amble");
    assert!(!index.has_definition("r"));
    assert!(index.ids().is_empty());
}

#[test]
fn oldest_surviving_duplicate_is_promoted() {
    let mut index = SymbolIndex::new();
    index.insert_definition("r".into(), room_definition("a.amble"));
    index.insert_definition("r".into(), room_definition("a.amble"));
    index.insert_definition("r".into(), room_definition("b.amble"));
    index.insert_definition("r".into(), room_definition("c.amble"));
    index.clear_document("file:///a.amble");
    assert_eq!(index.definition("r").unwrap().location.uri, "file:///b.amble");
    let rest = index.duplicates("r");
    assert_eq!(rest.len(), 1);
    assert_eq!(rest[0].location.uri, "file:///c.amble");
}

#[test]
fn references_are_kept_in_order_and_never_merged() {
    let mut index = SymbolIndex::new();
    assert!(index.references("r").is_none());
    index.add_reference("r".into(), reference("a.amble", "r"));
    index.add_reference("r".into(), reference("b.amble", "r"));
    index.add_reference("r".into(), reference("a.amble", "r"));
    let all = index.references("r").unwrap();
    assert_eq!(all.len(), 3);
    assert_eq!(all[1].location.uri, "file:///b.amble");
    assert!(!index.has_definition("r"));
    index.clear_document("file:///a.amble");
    let left = index.references("r").unwrap();
    assert_eq!(left.len(), 1);
    assert_eq!(left[0].location.uri, "file:///b.amble");
    index.clear_document("file:///b.amble");
    assert!(index.references("r").is_none());
    assert!(index.references_iter().is_empty());
}

#[test]
fn iterators_list_each_identifier_once() {
    let mut index = SymbolIndex::new();
    index.insert_definition("a".into(), room_definition("x.amble"));
    index.insert_definition("b".into(), room_definition("x.amble"));
    index.add_reference("c".into(), reference("x.amble", "c"));
    let mut defined: Vec<String> = index.definitions_iter().into_iter().map(|e| e.0).collect();
    defined.sort();
    assert_eq!(defined, vec!["a".to_string(), "b".to_string()]);
    let referenced: Vec<String> = index.references_iter().into_iter().map(|e| e.0).collect();
    assert_eq!(referenced, vec!["c".to_string()]);
    let mut ids = index.ids();
    ids.sort();
    assert_eq!(ids, vec!["a".to_string(), "b".to_string(), "c".to_string()]);
}

#[test]
fn store_clears_every_index() {
    let mut store = SymbolStore::default();
    store.rooms.insert_definition("r".into(), room_definition("x.amble"));
    store.items.add_reference("i".into(), reference("x.amble", "i"));
    store.sets.add_reference("s".into(), reference("y.amble", "s"));
    assert!(store.index(SymbolKind::Room).has_definition("r"));
    store.clear_document("file:///x.amble");
    assert!(!store.index(SymbolKind::Room).has_definition("r"));
    assert!(store.index(SymbolKind::Item).references("i").is_none());
    assert!(store.index(SymbolKind::RoomSet).references("s").is_some());
}

#[test]
fn labels_name_the_kinds() {
    assert_eq!(SymbolKind::Room.label(), "Room");
    assert_eq!(SymbolKind::Item.label(), "Item");
    assert_eq!(SymbolKind::Npc.label(), "NPC");
    assert_eq!(SymbolKind::Flag.label(), "Flag");
    assert_eq!(SymbolKind::RoomSet.label(), "Set");
}

#[test]
fn rename_range_falls_back_to_the_range() {
    let mut location = test_location("a.amble");
    location.range = Range {
        start: Position { line: 1, character: 2 },
        end: Position { line: 1, character: 9 },
    };
    assert_eq!(location.rename_range(), location.range);
    let narrow = Range {
        start: Position { line: 1, character: 2 },
        end: Position { line: 1, character: 7 },
    };
    location.rename_range = Some(narrow);
    assert_eq!(location.rename_range(), narrow);
}
