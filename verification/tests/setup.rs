use vrac::keys::{Key, KeyCode, KeyModifiers};
use vrac::setup::{
    explorer_key_action, first_location_row, keep_selection_in_view, list_directories,
    location_key_action, move_selection, new_folder_name, Directory, ExplorerKeyAction,
    LocationAction,
};

fn plain(code: KeyCode) -> Key {
    Key { code, modifiers: KeyModifiers { shift: false, control: false, alt: false, super_key: false } }
}

fn directory(name: &str) -> Directory {
    Directory { name: name.into(), path: std::path::PathBuf::from("/root").join(name) }
}

fn names(directories: &[Directory]) -> Vec<&str> {
    directories.iter().map(|directory| directory.name.as_str()).collect()
}

#[test]
fn new_folder_names_cannot_escape_the_current_directory() {
    assert!(new_folder_name("Vrac").is_some());
    for name in ["", ".", "..", "../Vrac", "one/two", "one\\two"] {
        assert!(new_folder_name(name).is_none(), "{name}");
    }
}

#[test]
fn new_folder_names_are_trimmed() {
    assert_eq!(new_folder_name("  Notes \t").as_deref(), Some("Notes"));
    assert_eq!(new_folder_name(" .. "), None);
    assert_eq!(new_folder_name("..."), Some("...".to_string()));
}

#[test]
fn directory_listing_is_sorted_and_excludes_hidden_folders() {
    let entries = vec![directory("zeta"), directory("Alpha"), directory(".hidden"), directory("alpha")];
    let visible = list_directories(entries, false);
    assert_eq!(names(&visible), ["Alpha", "alpha", "zeta"]);
    let entries = vec![directory("zeta"), directory(".hidden"), directory("Alpha")];
    let all = list_directories(entries, true);
    assert_eq!(names(&all), [".hidden", "Alpha", "zeta"]);
}

#[test]
fn selections_stay_within_the_list() {
    assert_eq!(move_selection(0, 5, -1), 0);
    assert_eq!(move_selection(3, 5, 10), 4);
    assert_eq!(move_selection(3, 5, -10), 0);
    assert_eq!(move_selection(1, 0, 1), 0);
    assert_eq!(keep_selection_in_view(2, 5, 4), 2);
    assert_eq!(keep_selection_in_view(9, 0, 4), 6);
    assert_eq!(keep_selection_in_view(3, 1, 4), 1);
    assert_eq!(first_location_row(7, 4), 4);
    assert_eq!(first_location_row(1, 4), 0);
}

#[test]
fn picker_keys_choose_browse_and_leave() {
    assert_eq!(location_key_action(plain(KeyCode::Char('q')), 0, 3), LocationAction::Cancel);
    assert_eq!(location_key_action(plain(KeyCode::Down), 2, 3), LocationAction::Select(2));
    assert_eq!(location_key_action(plain(KeyCode::End), 0, 3), LocationAction::Select(2));
    assert_eq!(location_key_action(plain(KeyCode::Enter), 0, 3), LocationAction::Browse);
    assert_eq!(explorer_key_action(plain(KeyCode::Char(' '))), ExplorerKeyAction::ChooseHere);
    assert_eq!(explorer_key_action(plain(KeyCode::Backspace)), ExplorerKeyAction::Parent);
    assert_eq!(explorer_key_action(plain(KeyCode::PageDown)), ExplorerKeyAction::Move(10));
    assert_eq!(explorer_key_action(plain(KeyCode::Char('b'))), ExplorerKeyAction::Locations);
}

#[test]
fn listed_directories_keep_their_paths_and_break_case_ties_by_name() {
    let entries = vec![
        Directory { name: "beta".into(), path: std::path::PathBuf::from("/w/beta") },
        Directory { name: ".cache".into(), path: std::path::PathBuf::from("/w/.cache") },
        Directory { name: "Beta".into(), path: std::path::PathBuf::from("/w/Beta") },
        Directory { name: "Été".into(), path: std::path::PathBuf::from("/w/Été") },
        Directory { name: "alpha".into(), path: std::path::PathBuf::from("/w/alpha") },
    ];
    let listed = list_directories(entries, false);
    assert_eq!(names(&listed), ["alpha", "Beta", "beta", "Été"]);
    let paths: Vec<&str> = listed.iter().map(|d| d.path.to_str().unwrap()).collect();
    assert_eq!(paths, ["/w/alpha", "/w/Beta", "/w/beta", "/w/Été"]);
    assert!(list_directories(Vec::new(), true).is_empty());
}
