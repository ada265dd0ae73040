use vrac::commands::commands;
use vrac::keys::{Key, KeyCode, KeyModifiers};
use vrac::prompts::{
    launcher_lines, tag_status, toggle_tag, trimmed_char_count, Launcher, LauncherItem,
    LauncherKind, LauncherOutcome, TagOutcome, TagPrompt, TagTarget,
};

fn plain(code: KeyCode) -> Key {
    Key { code, modifiers: KeyModifiers { shift: false, control: false, alt: false, super_key: false } }
}

#[test]
fn launcher_text_is_edited_at_the_caret() {
    let mut launcher = Launcher::new(LauncherKind::Search);
    for c in "dcision".chars() {
        assert_eq!(launcher.handle_key(plain(KeyCode::Char(c))), LauncherOutcome::Refresh);
    }
    launcher.handle_key(plain(KeyCode::Home));
    launcher.handle_key(plain(KeyCode::Right));
    launcher.insert('e');
    assert_eq!(launcher.text, "decision");
    assert_eq!(launcher.cursor, 2);
    assert_eq!(launcher.handle_key(plain(KeyCode::Backspace)), LauncherOutcome::Refresh);
    assert_eq!(launcher.text, "dcision");
    assert_eq!(launcher.handle_key(plain(KeyCode::Delete)), LauncherOutcome::Refresh);
    assert_eq!(launcher.text, "dision");
    launcher.handle_key(plain(KeyCode::End));
    assert_eq!(launcher.cursor, 6);
    assert_eq!(launcher.handle_key(plain(KeyCode::Enter)), LauncherOutcome::Commit);
    assert_eq!(launcher.handle_key(plain(KeyCode::Esc)), LauncherOutcome::Close);
}

#[test]
fn slash_searches_need_two_characters_and_colon_lists_commands() {
    let mut search = Launcher::new(LauncherKind::Search);
    search.text = " a ".into();
    assert_eq!(launcher_lines(&search, 80)[0].text, "  Type at least two characters");
    search.text = "ab".into();
    assert_eq!(launcher_lines(&search, 80)[0].text, "  No results");

    let mut launcher = Launcher::new(LauncherKind::Commands);
    launcher.items = commands().into_iter().map(LauncherItem::Command).collect();
    launcher.handle_key(plain(KeyCode::Down));
    let lines = launcher_lines(&launcher, 80);
    assert_eq!(lines[0].text, "  :new  — create a sibling after the selected bullet");
    assert_eq!(lines[1].text, "› :new_before  — create a sibling before the selected bullet");
    assert!(lines[1].selected);
    assert_eq!(lines[1].content_start, "› ".len());
    assert_eq!(launcher_lines(&launcher, 6)[1].text, "› :new");
}

#[test]
fn inline_tag_completion_has_natural_cancel_keys() {
    let mut prompt = TagPrompt { target: TagTarget::Draft, query: String::new(), results: Vec::new(), selected: 0 };
    assert_eq!(prompt.handle_key(plain(KeyCode::Backspace)), TagOutcome::Close);
    assert_eq!(prompt.handle_key(plain(KeyCode::Char('t'))), TagOutcome::Refresh);
    assert_eq!(prompt.query, "t");
    assert_eq!(prompt.handle_key(plain(KeyCode::Char(' '))), TagOutcome::CloseWithSpace);
    assert_eq!(prompt.handle_key(plain(KeyCode::Backspace)), TagOutcome::Refresh);
    assert_eq!(prompt.query, "");
    assert_eq!(prompt.handle_key(plain(KeyCode::Esc)), TagOutcome::Cancel);
}

#[test]
fn tags_toggle_on_and_off() {
    let mut tags = vec!["home".to_string()];
    assert!(!toggle_tag(&mut tags, "task"));
    assert_eq!(tags, ["home", "task"]);
    assert_eq!(tag_status("task", false), "Added #task");
    assert!(toggle_tag(&mut tags, "task"));
    assert_eq!(tags, ["home"]);
    assert_eq!(tag_status("task", true), "Removed #task");
}

#[test]
fn trimming_counts_the_characters_between_white_space() {
    assert_eq!(trimmed_char_count("  ab c \t"), 4);
    assert_eq!(trimmed_char_count("   "), 0);
    assert_eq!(trimmed_char_count(""), 0);
}
