use vrac::commands::Command;
use vrac::keys::{backlink_key_action, key_route, BacklinkKeyAction, KeyCode, KeyRoute};
use vrac::navigation::backlink_target;
use vrac::prompts::BacklinkView;
use vrac::editing::EditorFollowUp;
use vrac::keys::EditorKeyAction;
use vrac::model::ReferenceInput;
use vrac::completion::paste_into_reference;
use vrac::display::VisibleNode;
use vrac::editor::{EditTarget, Editor};
use vrac::identity::NodeId;
use vrac::model::{Node, SystemNode};
use vrac::navigation::adjacent_editable;
use vrac::prompts::{matching_commands, search_ready, Launcher, LauncherKind, ReferencePrompt};
use vrac::visible::{is_last_loaded, Branches};

fn id(n: u8) -> NodeId {
    NodeId::from_bytes([n; 16])
}

fn node(n: u8, system: bool) -> Node {
    Node {
        id: id(n),
        parent_id: None,
        has_children: false,
        text: format!("node {n}"),
        system: if system { Some(SystemNode::Journal) } else { None },
        tags: Vec::new(),
        references: Vec::new(),
    }
}

#[test]
fn command_launcher_matches_names_and_hints() {
    let all = matching_commands("   ");
    assert_eq!(all.len(), 26);
    assert_eq!(all[0].command, Command::New);
    let lines: Vec<Command> = matching_commands(" LINES ").iter().map(|entry| entry.command).collect();
    assert_eq!(lines, [Command::LinesOn, Command::LinesOff]);
    let hinted: Vec<Command> = matching_commands("parent").iter().map(|entry| entry.command).collect();
    assert_eq!(hinted, [Command::ZoomOut, Command::FocusParent, Command::Outdent]);
    assert!(matching_commands("Journal").is_empty());
    assert!(matching_commands("nothing like this").is_empty());
}

#[test]
fn search_needs_two_characters() {
    assert!(!search_ready(" a "));
    assert!(search_ready(" ab"));
    assert!(!search_ready(""));
}

#[test]
fn pasted_text_is_typed_into_the_launcher() {
    let mut launcher = Launcher::new(LauncherKind::Search);
    launcher.insert_text("ac");
    launcher.cursor = 1;
    launcher.insert_text("b");
    assert_eq!(launcher.text, "abc");
    assert_eq!(launcher.cursor, 2);
}

#[test]
fn pasting_a_closing_bracket_completes_the_reference_literally() {
    let mut editor = Editor::new(EditTarget::Existing(id(1)), "see [[".to_string(), Vec::new(), Vec::new());
    let mut prompt = ReferencePrompt { query: "Id".to_string(), results: Vec::new(), selected: 0 };
    assert!(paste_into_reference(&mut prompt, &mut editor, "ea]] now"));
    assert_eq!(prompt.query, "Idea");
    assert_eq!(editor.text, "see [[ea]] now");
    assert_eq!(editor.cursor, 14);
    let mut prompt = ReferencePrompt { query: String::new(), results: Vec::new(), selected: 0 };
    assert!(!paste_into_reference(&mut prompt, &mut editor, "more"));
    assert_eq!(prompt.query, "more");
}

#[test]
fn the_editor_skips_protected_rows_when_it_moves_between_bullets() {
    let visible: Vec<VisibleNode> = vec![
        VisibleNode { node: node(1, false), depth: 0 },
        VisibleNode { node: node(2, true), depth: 0 },
        VisibleNode { node: node(3, false), depth: 0 },
        VisibleNode { node: node(4, true), depth: 0 },
    ];
    assert_eq!(adjacent_editable(&visible, 2, true), Some(0));
    assert_eq!(adjacent_editable(&visible, 0, false), Some(2));
    assert_eq!(adjacent_editable(&visible, 2, false), None);
    assert_eq!(adjacent_editable(&visible, 0, true), None);
}

#[test]
fn the_last_loaded_sibling_asks_for_the_next_page() {
    let branches: Branches = vec![(None, vec![node(1, false), node(2, false)])];
    assert!(is_last_loaded(&branches, None, id(2)));
    assert!(!is_last_loaded(&branches, None, id(1)));
    assert!(!is_last_loaded(&branches, Some(id(1)), id(2)));
}

#[test]
fn backspace_after_typing_restores_the_editor_and_its_references() {
    let reference = ReferenceInput { label_start: 6, label_end: 10, target_id: id(2) };
    let mut editor = Editor::new(
        EditTarget::Existing(id(1)),
        "see [[Idea]] now".to_string(),
        vec![reference],
        vec!["t".to_string()],
    );
    let before = editor.clone();
    editor.cursor = 0;
    let start = editor.clone();
    assert_eq!(editor.apply_key(EditorKeyAction::Insert('é'), 40), EditorFollowUp::Stay);
    assert_eq!(editor.references[0].label_start, 8);
    assert_eq!(editor.apply_key(EditorKeyAction::Backspace, 40), EditorFollowUp::Stay);
    assert_eq!(editor, start);
    assert_eq!(editor.references, before.references);
}

fn plain_key(code: KeyCode) -> vrac::keys::Key {
    vrac::keys::Key {
        code,
        modifiers: vrac::keys::KeyModifiers { shift: false, control: false, alt: false, super_key: false },
    }
}

#[test]
fn keys_go_to_the_open_view() {
    let mut control_c = plain_key(KeyCode::Char('c'));
    control_c.modifiers.control = true;
    assert_eq!(key_route(control_c, true, true, true, true, true, true), KeyRoute::Quit);
    assert_eq!(key_route(plain_key(KeyCode::Char('?')), true, false, false, false, false, false), KeyRoute::CloseHelp);
    assert_eq!(key_route(plain_key(KeyCode::Esc), true, false, false, false, false, false), KeyRoute::CloseHelp);
    assert_eq!(key_route(plain_key(KeyCode::Char('j')), true, false, false, false, false, false), KeyRoute::Nothing);
    assert_eq!(key_route(plain_key(KeyCode::Char('j')), false, true, true, true, true, true), KeyRoute::Reference);
    assert_eq!(key_route(plain_key(KeyCode::Char('j')), false, false, true, true, true, true), KeyRoute::Backlinks);
    assert_eq!(key_route(plain_key(KeyCode::Char('j')), false, false, false, false, true, true), KeyRoute::Launcher);
    assert_eq!(key_route(plain_key(KeyCode::Char('c')), false, false, false, false, false, true), KeyRoute::Editor);
    assert_eq!(key_route(plain_key(KeyCode::Char('j')), false, false, false, false, false, false), KeyRoute::Normal);
}

#[test]
fn backlink_keys_close_open_and_move() {
    assert_eq!(backlink_key_action(plain_key(KeyCode::Char('b'))), BacklinkKeyAction::Close);
    assert_eq!(backlink_key_action(plain_key(KeyCode::Esc)), BacklinkKeyAction::Close);
    assert_eq!(backlink_key_action(plain_key(KeyCode::Enter)), BacklinkKeyAction::Open);
    assert_eq!(backlink_key_action(plain_key(KeyCode::Char('k'))), BacklinkKeyAction::Up);
    assert_eq!(backlink_key_action(plain_key(KeyCode::Down)), BacklinkKeyAction::Down);
    assert_eq!(backlink_key_action(plain_key(KeyCode::Char('x'))), BacklinkKeyAction::Ignore);
    let view = BacklinkView {
        target_id: id(9),
        tags: Vec::new(),
        filter: None,
        contexts: vec![vec![node(1, false), node(2, false)], Vec::new()],
        next: None,
        selected: Some(0),
        temporary: false,
    };
    assert_eq!(backlink_target(&view), Some(id(2)));
    let mut other = view.clone();
    other.selected = Some(1);
    assert_eq!(backlink_target(&other), None);
    other.selected = None;
    assert_eq!(backlink_target(&other), None);
}
