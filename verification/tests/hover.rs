use amble_lsp::hover::{
    definition_path_line, describe_movability, entity_title_line, format_flag_hover, format_hover,
    format_item_hover, format_npc_hover, format_room_hover, format_set_hover,
    shorten_to_data_root, truncate_description, truncate_string, HOVER_DESCRIPTION_MAX_CHARS,
};
use amble_lsp::symbols::{
    sanitize_markdown, FlagMetadata, ItemMetadata, Movability, NpcMetadata, RoomMetadata,
    SetMetadata, SymbolDefinition, SymbolLocation, SymbolMetadata,
};
use amble_lsp::text::Range;

#[test]
fn analysis_formats_room_hover_markdown() {
    let meta = RoomMetadata {
        name: Some("Test Room".into()),
        description: Some("A description".into()),
        exits: vec!["north-hall".into(), "south-porch".into()],
    };

    let hover = format_room_hover("test-room", &meta, Some("rooms/test-room.amble"));
    assert!(hover.contains("**ROOM:** Test Room (test-room)"));
    assert!(hover.contains("north-hall"));
    assert!(hover.contains("**File:** rooms/test-room.amble"));
}

#[test]
fn room_hover_truncates_long_description() {
    let long_desc: String = std::iter::repeat('a').take(400).collect();
    let meta = RoomMetadata {
        name: Some("Test Room".into()),
        description: Some(long_desc.clone()),
        exits: vec![],
    };

    let hover = format_room_hover("test-room", &meta, None);
    let expected = format!(
        "- **Description:** {}...",
        "a".repeat(HOVER_DESCRIPTION_MAX_CHARS)
    );

    assert!(hover.contains("- **Description:** "));
    assert!(!hover.contains(&long_desc));
    assert!(hover.contains(&expected));
}

#[test]
fn analysis_formats_item_hover_lists_abilities() {
    let meta = ItemMetadata {
        name: Some("Widget".into()),
        description: Some("Useful widget".into()),
        movability: Some(Movability::Free),
        location: Some("room lab".into()),
        container_state: Some("closed".into()),
        abilities: vec!["Unlock".into()],
        requirements: vec!["requires ability Use to interact".into()],
    };

    let hover = format_item_hover("widget", &meta, Some("items/widget.amble"));
    assert!(hover.contains("**ITEM:** Widget (widget)"));
    assert!(hover.contains("**Abilities:** Unlock"));
    assert!(hover.contains("**Requires:** requires ability Use to interact"));
    assert!(hover.contains("**Movability:** free"));
    assert!(hover.contains("**File:** items/widget.amble"));
}

#[test]
fn item_hover_formats_requirement_pairs() {
    let meta = ItemMetadata {
        name: Some("Widget".into()),
        description: Some("Useful widget".into()),
        movability: Some(Movability::Free),
        location: Some("room lab".into()),
        container_state: Some("closed".into()),
        abilities: vec![],
        requirements: vec!["ignite -> burn".into(), "cutWood -> cut".into()],
    };

    let hover = format_item_hover("widget", &meta, None);
    assert!(hover.contains("**Requires:** ignite -> burn, cutWood -> cut"));
}

#[test]
fn item_hover_formats_ability_targets() {
    let meta = ItemMetadata {
        name: Some("Widget".into()),
        description: Some("Useful widget".into()),
        movability: Some(Movability::Free),
        location: Some("room lab".into()),
        container_state: Some("closed".into()),
        abilities: vec!["Unlock (security_crate)".into()],
        requirements: vec![],
    };

    let hover = format_item_hover("widget", &meta, None);
    assert!(hover.contains("**Abilities:** Unlock (security_crate)"));
}

#[test]
fn hover_paths_trim_data_root_prefix() {
    let meta = ItemMetadata {
        name: Some("Utility".into()),
        description: Some("Helpful".into()),
        movability: Some(Movability::Free),
        location: Some("room hub".into()),
        container_state: None,
        abilities: vec![],
        requirements: vec![],
    };

    let hover = format_item_hover(
        "utility_item",
        &meta,
        Some("amble_script/data/Amble/global/useful_items.amble"),
    );

    assert!(hover.contains("**ITEM:** Utility (utility_item)"));
    assert!(hover.contains("**File:** global/useful_items.amble"));
}

#[test]
fn room_hover_is_exact() {
    let meta = RoomMetadata {
        name: Some("Test Room".into()),
        description: Some("A description".into()),
        exits: vec!["north-hall".into(), "south-porch".into()],
    };
    assert_eq!(
        format_room_hover("test-room", &meta, Some("rooms/test-room.amble")),
        "**ROOM:** Test Room (test-room)\n- **File:** rooms/test-room.amble\n- **Description:** A description\n- **Exits:** north-hall, south-porch"
    );
    let bare = RoomMetadata { name: None, description: None, exits: vec![] };
    assert_eq!(
        format_room_hover("cellar", &bare, None),
        "**ROOM:** cellar\n- **Description:** (missing)\n- **Exits:** (none)"
    );
}

#[test]
fn item_hover_is_exact() {
    let meta = ItemMetadata {
        name: Some("Widget".into()),
        description: Some("Useful | widget".into()),
        movability: Some(Movability::Fixed(Some("bolted down".into()))),
        location: None,
        container_state: None,
        abilities: vec!["Unlock".into(), "Read".into()],
        requirements: vec![],
    };
    assert_eq!(
        format_item_hover("widget", &meta, None),
        "**ITEM:** Widget (widget)\n- **Description:** Useful \\| widget\n- **Movability:** fixed (bolted down)\n- **Location:** (missing)\n- **Container state:** (none)\n- **Abilities:** Unlock, Read\n- **Requires:** (none)"
    );
}

#[test]
fn npc_hover_is_exact() {
    let meta = NpcMetadata {
        name: Some("guide".into()),
        description: Some("line one\nline two".into()),
        location: Some("room hub".into()),
        state: None,
    };
    assert_eq!(
        format_npc_hover("guide", &meta, None),
        "**NPC:** guide\n- **Description:** line one<br>line two\n- **Location:** room hub\n- **State:** (none)"
    );
}

#[test]
fn flag_hover_lists_what_is_known() {
    let unknown = FlagMetadata { defined_in: None, sequence_limit: None };
    assert_eq!(
        format_flag_hover("quest", &unknown, None),
        "**FLAG:** quest\n- **Defined in trigger:** (unknown)"
    );
    let known = FlagMetadata { defined_in: Some("intro".into()), sequence_limit: Some(3) };
    assert_eq!(
        format_flag_hover("quest", &known, None),
        "**FLAG:** quest\n- **Defined in trigger:** intro\n- **Sequence limit:** 3"
    );
    let negative = FlagMetadata { defined_in: None, sequence_limit: Some(-12) };
    assert_eq!(
        format_flag_hover("quest", &negative, Some("a.amble")),
        "**FLAG:** quest\n- **File:** a.amble\n- **Sequence limit:** -12"
    );
    let least = FlagMetadata { defined_in: None, sequence_limit: Some(i64::MIN) };
    assert_eq!(
        format_flag_hover("q", &least, None),
        "**FLAG:** q\n- **Sequence limit:** -9223372036854775808"
    );
}

#[test]
fn set_hover_lists_rooms() {
    let meta = SetMetadata { rooms: vec!["room_a".into(), "room_b".into()] };
    assert_eq!(
        format_set_hover("hallway", &meta, None),
        "**SET:** hallway\n- **Rooms:** room_a, room_b"
    );
    let empty = SetMetadata { rooms: vec![] };
    assert_eq!(format_set_hover("hallway", &empty, None), "**SET:** hallway\n- **Rooms:** (none)");
}

#[test]
fn format_hover_goes_by_the_kind_of_metadata() {
    let def = SymbolDefinition {
        location: SymbolLocation {
            uri: "file:///a.amble".into(),
            range: Range::default(),
            rename_range: None,
        },
        metadata: SymbolMetadata::RoomSet(SetMetadata { rooms: vec!["x".into()] }),
    };
    assert_eq!(format_hover("s", &def, None), "**SET:** s\n- **Rooms:** x");
}

#[test]
fn truncate_string_cuts_at_the_limit() {
    assert_eq!(truncate_string("abcdef".to_string(), 6), "abcdef");
    assert_eq!(truncate_string("abcdef".to_string(), 5), "abcde...");
    assert_eq!(truncate_string("äöü".to_string(), 2), "äö...");
    assert_eq!(truncate_string(String::new(), 0), "");
}

#[test]
fn truncate_description_handles_missing_text() {
    assert_eq!(truncate_description(None), "(missing)");
    assert_eq!(truncate_description(Some("   ")), "(missing)");
    assert_eq!(truncate_description(Some("  a|b  ")), "a\\|b");
}

#[test]
fn describe_movability_names_each_variant() {
    assert_eq!(describe_movability(None), "(none)");
    assert_eq!(describe_movability(Some(&Movability::Free)), "free");
    assert_eq!(describe_movability(Some(&Movability::Fixed(None))), "fixed");
    assert_eq!(describe_movability(Some(&Movability::Fixed(Some("  ".into())))), "fixed");
    assert_eq!(
        describe_movability(Some(&Movability::Restricted(Some("too heavy".into())))),
        "restricted (too heavy)"
    );
}

#[test]
fn shorten_to_data_root_drops_the_world_prefix() {
    assert_eq!(
        shorten_to_data_root("amble_script/data/Amble/global/useful_items.amble"),
        "global/useful_items.amble"
    );
    assert_eq!(shorten_to_data_root("a\\DATA\\World\\x.amble"), "x.amble");
    assert_eq!(shorten_to_data_root("/rooms//a.amble"), "rooms/a.amble");
    assert_eq!(shorten_to_data_root("x/data/World"), "x/data/World");
    assert_eq!(shorten_to_data_root("x/data"), "x/data");
    assert_eq!(shorten_to_data_root(""), "");
}

#[test]
fn definition_path_line_is_absent_without_a_path() {
    assert_eq!(definition_path_line(None), None);
    assert_eq!(
        definition_path_line(Some("rooms/a.amble")),
        Some("- **File:** rooms/a.amble".to_string())
    );
}

#[test]
fn entity_title_line_shows_name_and_id() {
    assert_eq!(entity_title_line("room", Some("Hall"), "hall"), "**ROOM:** Hall (hall)");
    assert_eq!(entity_title_line("room", Some("hall"), "hall"), "**ROOM:** hall");
    assert_eq!(entity_title_line("Npc", Some("  "), "bob"), "**NPC:** bob");
    assert_eq!(entity_title_line("flag", None, "a|b"), "**FLAG:** a\\|b");
}

#[test]
fn sanitize_markdown_escapes_bars_and_breaks() {
    assert_eq!(sanitize_markdown("  a|b\nc  "), "a\\|b<br>c");
    assert_eq!(sanitize_markdown("\u{a0}x\u{3000}"), "x");
    assert_eq!(sanitize_markdown(""), "");
}
