use amble_lsp::backend::Backend;
use amble_lsp::scanner::{
    definition_display_path, distinct_strings, group_rename_edits, is_script_extension,
    needs_rescan, scan_directories, should_scan_directory, should_visit_entry, RootMatch,
    Timestamp,
};
use amble_lsp::text::{Position, Range};
use amble_lsp::workspace::RenameEdit;

fn at(seconds: i64, nanos: u32) -> Option<Timestamp> {
    Some(Timestamp { seconds, nanos })
}

fn strings(list: &[&str]) -> Vec<String> {
    list.iter().map(|s| s.to_string()).collect()
}

#[test]
fn rescan_unless_both_times_are_known_and_equal() {
    assert!(needs_rescan(None, None));
    assert!(needs_rescan(None, at(1, 0)));
    assert!(needs_rescan(at(1, 0), None));
    assert!(!needs_rescan(at(1, 5), at(1, 5)));
    assert!(needs_rescan(at(1, 5), at(1, 6)));
    assert!(needs_rescan(at(2, 0), at(1, 0)));
}

#[test]
fn directories_never_scanned_are_scanned() {
    assert!(should_scan_directory(None, at(1, 0)));
    assert!(should_scan_directory(None, None));
    assert!(!should_scan_directory(Some(at(1, 0)), at(1, 0)));
    assert!(should_scan_directory(Some(None), at(1, 0)));
    assert!(should_scan_directory(Some(at(1, 0)), at(3, 0)));
}

#[test]
fn walk_skips_ignored_directories() {
    assert!(!should_visit_entry(true, Some(".git")));
    assert!(!should_visit_entry(true, Some("Node_Modules")));
    assert!(!should_visit_entry(true, Some("TARGET")));
    assert!(!should_visit_entry(true, Some("dist")));
    assert!(!should_visit_entry(true, Some("build")));
    assert!(should_visit_entry(true, Some("rooms")));
    assert!(should_visit_entry(true, None));
    assert!(should_visit_entry(false, Some("target")));
    assert!(should_visit_entry(false, None));
}

#[test]
fn scripts_are_known_by_their_extension() {
    assert!(is_script_extension(Some("amble")));
    assert!(!is_script_extension(Some("AMBLE")));
    assert!(!is_script_extension(Some("txt")));
    assert!(!is_script_extension(None));
}

#[test]
fn only_new_script_files_are_loaded() {
    let backend = Backend::new();
    assert!(backend.should_load_file(true, Some("amble"), "file:///a.amble"));
    assert!(!backend.should_load_file(false, Some("amble"), "file:///a.amble"));
    assert!(!backend.should_load_file(true, Some("md"), "file:///a.md"));
    assert!(!backend.should_load_file(true, None, "file:///a"));
}

#[test]
fn directories_to_scan_follow_the_roots() {
    assert_eq!(scan_directories(&vec![], &vec![], Some("/w/rooms")), strings(&["/w/rooms"]));
    assert!(scan_directories(&vec![], &vec![], None).is_empty());
    let roots = strings(&["/a", "/b", "/a"]);
    assert_eq!(scan_directories(&roots, &vec![false, true, false], Some("/x")), strings(&["/b"]));
    assert_eq!(
        scan_directories(&roots, &vec![false, false, false], Some("/x")),
        strings(&["/x"])
    );
    assert!(scan_directories(&roots, &vec![false, false, false], None).is_empty());
    assert_eq!(scan_directories(&strings(&["/w"]), &vec![false], Some("/x")), strings(&["/x"]));
    assert_eq!(scan_directories(&roots, &vec![], Some("/x")), strings(&["/x"]));
    assert_eq!(scan_directories(&roots, &vec![true, true, true], None), strings(&["/a", "/b"]));
    assert_eq!(scan_directories(&roots, &vec![true], None), strings(&["/a"]));
}

#[test]
fn distinct_keeps_the_first_of_equal_strings() {
    assert_eq!(distinct_strings(&strings(&["b", "a", "b", "c", "a"])), strings(&["b", "a", "c"]));
    assert!(distinct_strings(&vec![]).is_empty());
}

#[test]
fn display_path_goes_by_the_deepest_root() {
    let matches = vec![
        RootMatch { depth: 2, relative: "rooms/a.amble".into() },
        RootMatch { depth: 3, relative: "a.amble".into() },
        RootMatch { depth: 3, relative: "other.amble".into() },
    ];
    assert_eq!(definition_display_path(&matches, Some("a.amble"), "/w/p/rooms/a.amble"), "a.amble");
    let one = vec![RootMatch { depth: 1, relative: "/dir\\a.amble".into() }];
    assert_eq!(definition_display_path(&one, Some("a.amble"), "/w/dir/a.amble"), "dir/a.amble");
    let empty = vec![RootMatch { depth: 1, relative: String::new() }];
    assert_eq!(definition_display_path(&empty, Some("a.amble"), "/w/a.amble"), "a.amble");
    assert_eq!(definition_display_path(&empty, None, "/w/a.amble"), "/w/a.amble");
    assert_eq!(definition_display_path(&vec![], Some("a.amble"), "c:\\w\\a.amble"), "c:/w/a.amble");
}

#[test]
fn rename_edits_are_grouped_by_document() {
    let range = |line: u32| Range {
        start: Position { line, character: 0 },
        end: Position { line, character: 3 },
    };
    let edits = vec![
        RenameEdit { uri: "b".into(), range: range(1), new_text: "n".into() },
        RenameEdit { uri: "a".into(), range: range(2), new_text: "n".into() },
        RenameEdit { uri: "b".into(), range: range(3), new_text: "n".into() },
    ];
    let groups = group_rename_edits(&edits);
    assert_eq!(groups.len(), 2);
    assert_eq!(groups[0].uri, "b");
    assert_eq!(groups[0].edits, vec![(range(1), "n".to_string()), (range(3), "n".to_string())]);
    assert_eq!(groups[1].uri, "a");
    assert_eq!(groups[1].edits, vec![(range(2), "n".to_string())]);
    assert!(group_rename_edits(&vec![]).is_empty());
}
