use vrac::completion::{commit_reference, reference_key, ReferenceOutcome};
use vrac::editor::{EditTarget, Editor};
use vrac::identity::NodeId;
use vrac::keys::{Key, KeyCode, KeyModifiers};
use vrac::model::{Node, Placement, ReferenceInput};
use vrac::prompts::ReferencePrompt;

fn draft(text: &str) -> Editor {
    Editor::new(
        EditTarget::New { parent_id: None, placement: Placement::Last },
        text.into(),
        Vec::new(),
        Vec::new(),
    )
}

fn plain(code: KeyCode) -> Key {
    Key {
        code,
        modifiers: KeyModifiers { shift: false, control: false, alt: false, super_key: false },
    }
}

#[test]
fn tests_editor_uses_character_offsets_for_unicode() {
    let mut editor = draft("été");
    editor.cursor = 1;
    editor.insert('🙂');
    assert_eq!(editor.text, "é🙂té");
    editor.backspace();
    assert_eq!(editor.text, "été");
    editor.delete();
    assert_eq!(editor.text, "éé");
}

#[test]
fn main_editor_uses_character_offsets_for_unicode() {
    let mut editor = draft("été");
    editor.cursor = 1;
    editor.insert('🙂');
    assert_eq!(editor.text, "é🙂té");
    editor.backspace();
    assert_eq!(editor.text, "été");
    editor.delete();
    assert_eq!(editor.text, "éé");
}

#[test]
fn editor_moves_by_visual_lines_and_words() {
    let mut editor = draft("alpha beta");
    editor.cursor = 9;
    editor.move_vertical(-1, 5);
    assert_eq!(editor.cursor, 4);
    editor.move_vertical(1, 5);
    assert_eq!(editor.cursor, 9);

    editor.move_word(-1);
    assert_eq!(editor.cursor, 6);
    editor.backspace_word();
    assert_eq!(editor.text, "beta");
    assert_eq!(editor.cursor, 0);
}

#[test]
fn home_and_end_follow_the_wrapped_visual_line() {
    let mut editor = draft("abcdefghij");
    editor.cursor = 7;
    editor.move_to_visual_edge(false, 4);
    assert_eq!(editor.cursor, 4);
    editor.move_to_visual_edge(true, 4);
    assert_eq!(editor.cursor, 7);
}

#[test]
fn inserting_before_a_reference_moves_its_label() {
    let target = NodeId::from_bytes([7; 16]);
    let mut editor = Editor::new(
        EditTarget::Existing(NodeId::from_bytes([1; 16])),
        "See [[Target]]".into(),
        vec![ReferenceInput { label_start: 6, label_end: 12, target_id: target }],
        Vec::new(),
    );
    editor.cursor = 0;
    editor.insert('é');
    assert_eq!(editor.text, "éSee [[Target]]");
    assert_eq!(editor.references[0].label_start, 8);
    assert_eq!(editor.references[0].label_end, 14);
    editor.cursor = 9;
    editor.insert('x');
    assert!(editor.references.is_empty());
}

#[test]
fn inline_reference_completion_inserts_the_selected_identity() {
    let target = Node {
        id: NodeId::from_bytes([5; 16]),
        parent_id: None,
        has_children: false,
        text: "Target".into(),
        system: None,
        tags: Vec::new(),
        references: Vec::new(),
    };
    let mut editor = draft("See [[Ta");
    let prompt = ReferencePrompt { query: "Ta".into(), results: vec![target.clone()], selected: 0 };
    commit_reference(&mut editor, &prompt);
    assert_eq!(editor.text, "See [[Target]]");
    assert_eq!(editor.cursor, "See [[Target]]".chars().count());
    assert_eq!(
        editor.references,
        vec![ReferenceInput { label_start: 6, label_end: 12, target_id: target.id }]
    );

    let mut literal = draft("See [[New");
    let empty = ReferencePrompt { query: "New".into(), results: Vec::new(), selected: 0 };
    commit_reference(&mut literal, &empty);
    assert_eq!(literal.text, "See [[New]]");
    assert!(literal.references.is_empty());
}

#[test]
fn closing_brackets_end_reference_completion() {
    let mut editor = draft("See [[Ta");
    let mut prompt = ReferencePrompt { query: "Ta".into(), results: Vec::new(), selected: 0 };
    assert_eq!(reference_key(&mut prompt, &mut editor, plain(KeyCode::Char('r'))), ReferenceOutcome::Refresh);
    assert_eq!(prompt.query, "Tar");
    assert_eq!(editor.text, "See [[Tar");
    assert_eq!(reference_key(&mut prompt, &mut editor, plain(KeyCode::Backspace)), ReferenceOutcome::Refresh);
    assert_eq!(prompt.query, "Ta");
    assert_eq!(editor.text, "See [[Ta");
    assert_eq!(reference_key(&mut prompt, &mut editor, plain(KeyCode::Char(']'))), ReferenceOutcome::Close);
    assert_eq!(editor.text, "See [[Ta]");
}
