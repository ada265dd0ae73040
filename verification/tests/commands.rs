use std::collections::HashSet;

use vrac::commands::{command_request, commands, Action, Command, COMMAND_COUNT};

#[test]
fn command_catalog_has_unique_documented_entries() {
    let mut names = HashSet::new();

    for entry in commands() {
        assert!(names.insert(entry.name), "duplicate command: {}", entry.name);
        assert!(!entry.hint.trim().is_empty(), "{} has no hint", entry.name);
    }
}

#[test]
fn the_catalog_lists_every_command_once() {
    let entries = commands();
    assert_eq!(entries.len(), COMMAND_COUNT);
    assert_eq!(entries[0].name, "new");
    assert_eq!(entries[21].name, "lines on");
    assert_eq!(entries[25].command, Command::Quit);
}

#[test]
fn session_commands_become_requests() {
    assert_eq!(command_request(Command::LinesOn), Some(Action::SetLines(true)));
    assert_eq!(command_request(Command::LinesOff), Some(Action::SetLines(false)));
    assert_eq!(command_request(Command::BacklinksOff), Some(Action::SetBacklinks(false)));
    assert_eq!(command_request(Command::Sync), Some(Action::Sync));
    assert_eq!(command_request(Command::Workspace), Some(Action::ChooseWorkspace));
    assert_eq!(command_request(Command::Quit), Some(Action::Quit));
    assert_eq!(command_request(Command::Indent), None);
}
