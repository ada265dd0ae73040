use vrac::keys::{
    actionable_key, editor_key_action, normal_key_action, EditorKeyAction, Key, KeyCode, KeyKind,
    KeyModifiers, NormalAction,
};

fn with(code: KeyCode, control: bool, alt: bool) -> Key {
    Key { code, modifiers: KeyModifiers { shift: false, control, alt, super_key: false } }
}

fn plain(code: KeyCode) -> Key {
    with(code, false, false)
}

#[test]
fn main_held_navigation_keys_are_actionable() {
    assert!(actionable_key(KeyKind::Press));
    assert!(actionable_key(KeyKind::Repeat));
    assert!(!actionable_key(KeyKind::Release));
}

#[test]
fn tests_held_navigation_keys_are_actionable() {
    assert!(actionable_key(KeyKind::Press));
    assert!(actionable_key(KeyKind::Repeat));
    assert!(!actionable_key(KeyKind::Release));
}

#[test]
fn editor_keys_edit_move_and_finish() {
    assert_eq!(editor_key_action(plain(KeyCode::Esc)), EditorKeyAction::Finish);
    assert_eq!(editor_key_action(plain(KeyCode::Enter)), EditorKeyAction::CreateSibling);
    assert_eq!(editor_key_action(with(KeyCode::Enter, true, false)), EditorKeyAction::Zoom);
    assert_eq!(editor_key_action(with(KeyCode::Left, false, true)), EditorKeyAction::WordLeft);
    assert_eq!(editor_key_action(plain(KeyCode::Left)), EditorKeyAction::CharLeft);
    assert_eq!(editor_key_action(with(KeyCode::Backspace, false, true)), EditorKeyAction::DeleteWord);
    assert_eq!(editor_key_action(with(KeyCode::Char('w'), true, false)), EditorKeyAction::DeleteWord);
    assert_eq!(editor_key_action(with(KeyCode::Char('a'), true, false)), EditorKeyAction::LineStart);
    assert_eq!(editor_key_action(with(KeyCode::Home, true, false)), EditorKeyAction::TextStart);
    assert_eq!(editor_key_action(plain(KeyCode::Char('#'))), EditorKeyAction::Tag);
    assert_eq!(editor_key_action(plain(KeyCode::Char('x'))), EditorKeyAction::Insert('x'));
    assert_eq!(editor_key_action(with(KeyCode::Char('x'), true, false)), EditorKeyAction::Ignore);
    assert_eq!(editor_key_action(plain(KeyCode::PageUp)), EditorKeyAction::Ignore);
}

#[test]
fn normal_keys_navigate_and_wait_for_a_second_key() {
    assert_eq!(normal_key_action(None, plain(KeyCode::Char('?'))), NormalAction::Help);
    assert_eq!(normal_key_action(None, plain(KeyCode::Char('j'))), NormalAction::MoveSelection(1));
    assert_eq!(normal_key_action(None, plain(KeyCode::Up)), NormalAction::MoveSelection(-1));
    assert_eq!(normal_key_action(None, with(KeyCode::Char('d'), true, false)), NormalAction::MovePage(10));
    assert_eq!(normal_key_action(None, plain(KeyCode::Char('d'))), NormalAction::Prefix('d'));
    assert_eq!(normal_key_action(Some('d'), plain(KeyCode::Char('d'))), NormalAction::Cut);
    assert_eq!(normal_key_action(None, plain(KeyCode::Char('y'))), NormalAction::Prefix('y'));
    assert_eq!(normal_key_action(Some('y'), plain(KeyCode::Char('y'))), NormalAction::Copy);
    assert_eq!(normal_key_action(Some('y'), plain(KeyCode::Esc)), NormalAction::Ignore);
    assert_eq!(normal_key_action(Some('y'), plain(KeyCode::Char('q'))), NormalAction::Quit);
    assert_eq!(normal_key_action(None, plain(KeyCode::Char('r'))), NormalAction::Ignore);
    assert_eq!(normal_key_action(None, with(KeyCode::Char('r'), true, false)), NormalAction::Redo);
    assert_eq!(normal_key_action(None, with(KeyCode::Char('H'), false, false)), NormalAction::ZoomOut);
}
