use vrac::display::{display_lines, draft_position, editor_width, wrap_editor_text, OutlineView, VisibleNode};
use vrac::editor::{EditTarget, Editor};
use vrac::identity::NodeId;
use vrac::layout::{split_content, DisplayLine};
use vrac::model::{Node, Placement};
use vrac::width::wrap_text;

fn id(n: u8) -> NodeId {
    NodeId::from_bytes([n; 16])
}

fn node(n: u8, parent: Option<NodeId>, text: &str, has_children: bool) -> Node {
    Node {
        id: id(n),
        parent_id: parent,
        has_children,
        text: text.to_string(),
        system: None,
        tags: Vec::new(),
        references: Vec::new(),
    }
}

/// The outline of a workspace with a "Parent" root and its "Child", opened
/// at the root with the parent selected and collapsed.
fn parent_and_child() -> (OutlineView, Node, Node) {
    let parent = node(1, None, "Parent", true);
    let child = node(2, Some(parent.id), "Child", false);
    let view = OutlineView {
        visible: vec![VisibleNode { node: parent.clone(), depth: 0 }],
        editor: None,
        focus: None,
        selected: Some(parent.id),
        expanded: Vec::new(),
        lines: true,
    };
    (view, parent, child)
}

fn expanded(view: &mut OutlineView, parent: &Node, child: &Node) {
    view.expanded.push(parent.id);
    view.visible.push(VisibleNode { node: child.clone(), depth: 1 });
}

fn texts(lines: &[DisplayLine]) -> Vec<String> {
    lines.iter().map(|line| line.text.clone()).collect()
}

#[test]
fn styled_lines_never_split_inside_unicode_markers() {
    assert_eq!(split_content("› item", "› ".len()), ("› ", "item"));
    assert_eq!(split_content("› item", 2), ("", "› item"));
}

#[test]
fn tests_wrapped_lines_keep_the_text_aligned_after_the_bullet() {
    assert_eq!(wrap_text("abcdefgh", 3), ["abc", "def", "gh"]);
    let (view, _, _) = parent_and_child();
    let lines = display_lines(&view, 8);
    let first = lines.iter().position(|line| line.selected).unwrap();
    assert!(lines[first + 1].text.starts_with("    "));
}

#[test]
fn main_wrapped_lines_keep_the_text_aligned_after_the_bullet() {
    assert_eq!(wrap_text("abcdefgh", 3), ["abc", "def", "gh"]);
    let (view, _, _) = parent_and_child();
    let lines = display_lines(&view, 8);
    let first = lines.iter().position(|line| line.selected).unwrap();
    assert!(lines[first + 1].text.starts_with("    "));
}

#[test]
fn top_level_nodes_are_compact() {
    let (mut view, _, _) = parent_and_child();
    view.visible.push(VisibleNode { node: node(3, None, "Second root", false), depth: 0 });
    let lines = display_lines(&view, 80);

    assert!(lines.iter().any(|line| line.text.contains("Parent")));
    assert!(lines.iter().any(|line| line.text.contains("Second root")));
    assert!(lines.iter().all(|line| !line.text.is_empty()));
}

#[test]
fn an_only_child_still_has_its_parent_guide() {
    let (mut view, parent, child) = parent_and_child();
    expanded(&mut view, &parent, &child);

    let lines = display_lines(&view, 80);
    let child_line = lines.iter().find(|line| line.text.contains(&child.text)).unwrap();
    assert!(child_line.text.starts_with("  │   • "));
}

#[test]
fn disabling_lines_preserves_indentation_without_guides() {
    let (mut view, parent, child) = parent_and_child();
    expanded(&mut view, &parent, &child);
    view.lines = false;

    let lines = display_lines(&view, 80);
    let child_line = lines.iter().find(|line| line.text.contains(&child.text)).unwrap();

    assert!(child_line.text.starts_with("      • "));
    assert!(!child_line.text.contains('│'));
}

#[test]
fn tests_editing_and_creation_render_the_caret_inside_the_outline() {
    let (mut view, parent, _) = parent_and_child();
    view.editor = Some(Editor::new(EditTarget::Existing(parent.id), "Parent".into(), Vec::new(), Vec::new()));
    let editing = display_lines(&view, 40);
    assert!(editing.iter().any(|line| line.cursor.is_some()));
    assert!(editing.iter().any(|line| line.text.contains("Parent")));

    let mut draft = Editor::empty(EditTarget::New { parent_id: None, placement: Placement::After(parent.id) });
    draft.insert('N');
    view.editor = Some(draft);
    let creating = display_lines(&view, 40);
    let draft_line = creating.iter().find(|line| line.cursor.is_some()).unwrap();
    assert!(draft_line.text.contains('N'));
}

#[test]
fn main_editing_and_creation_render_the_caret_inside_the_outline() {
    let (mut view, parent, _) = parent_and_child();
    view.editor = Some(Editor::new(EditTarget::Existing(parent.id), "Parent".into(), Vec::new(), Vec::new()));
    let editing = display_lines(&view, 40);
    assert!(editing.iter().any(|line| line.cursor.is_some()));
    assert!(editing.iter().any(|line| line.text.contains("Parent")));

    let mut draft = Editor::empty(EditTarget::New { parent_id: None, placement: Placement::After(parent.id) });
    draft.insert('N');
    view.editor = Some(draft);
    let creating = display_lines(&view, 40);
    let draft_line = creating.iter().find(|line| line.cursor.is_some()).unwrap();
    assert!(draft_line.text.contains('N'));
}

#[test]
fn a_new_draft_is_the_only_selected_outline_item() {
    let (mut view, parent, _) = parent_and_child();
    view.editor = Some(Editor::empty(EditTarget::New { parent_id: None, placement: Placement::After(parent.id) }));

    let lines = display_lines(&view, 80);
    assert!(lines.iter().find(|line| line.text.contains("Parent")).is_some_and(|line| !line.selected));
    assert_eq!(lines.iter().filter(|line| line.cursor.is_some()).count(), 1);
}

#[test]
fn rows_of_a_selected_collapsed_parent() {
    let (view, _, _) = parent_and_child();
    let lines = display_lines(&view, 80);
    assert_eq!(texts(&lines), ["› ▸ Parent"]);
    assert!(lines[0].selected);
    assert_eq!(lines[0].cursor, None);
    assert_eq!(lines[0].content_start, "› ▸ ".len());
}

#[test]
fn an_empty_outline_invites_writing() {
    let view = OutlineView {
        visible: Vec::new(),
        editor: None,
        focus: None,
        selected: None,
        expanded: Vec::new(),
        lines: true,
    };
    let lines = display_lines(&view, 80);
    assert_eq!(texts(&lines), ["  No bullets yet", "", "  Press o to start writing"]);
}

#[test]
fn an_expanded_parent_shows_an_open_marker() {
    let (mut view, parent, child) = parent_and_child();
    expanded(&mut view, &parent, &child);
    view.selected = Some(child.id);
    let lines = display_lines(&view, 80);
    assert_eq!(texts(&lines), ["  ▾ Parent", "› │   • Child"]);
}

#[test]
fn tags_and_line_breaks_are_shown_on_the_row() {
    let mut tagged = node(4, None, "one\ntwo", false);
    tagged.tags = vec!["task".into(), "home".into()];
    let view = OutlineView {
        visible: vec![VisibleNode { node: tagged, depth: 0 }],
        editor: None,
        focus: None,
        selected: None,
        expanded: Vec::new(),
        lines: true,
    };
    let lines = display_lines(&view, 80);
    assert_eq!(texts(&lines), ["  • one ↵ two  #task #home"]);
}

#[test]
fn drafts_go_before_after_or_under_their_reference() {
    let (mut view, parent, child) = parent_and_child();
    expanded(&mut view, &parent, &child);
    view.visible.push(VisibleNode { node: node(3, None, "Second", false), depth: 0 });
    assert_eq!(draft_position(&view.visible, None, None, Placement::Before(parent.id)), Some((0, 0)));
    assert_eq!(draft_position(&view.visible, None, None, Placement::After(parent.id)), Some((2, 0)));
    assert_eq!(draft_position(&view.visible, None, Some(parent.id), Placement::First), Some((1, 1)));
    assert_eq!(draft_position(&view.visible, None, Some(parent.id), Placement::Last), Some((2, 1)));
    assert_eq!(draft_position(&view.visible, None, None, Placement::Last), Some((3, 0)));
    assert_eq!(draft_position(&view.visible, None, None, Placement::First), Some((0, 0)));
    assert_eq!(draft_position(&view.visible, None, Some(id(9)), Placement::First), None);
}

#[test]
fn the_editor_width_leaves_room_for_the_prefix() {
    let (mut view, parent, child) = parent_and_child();
    expanded(&mut view, &parent, &child);
    view.editor = Some(Editor::new(EditTarget::Existing(child.id), "Child".into(), Vec::new(), Vec::new()));
    assert_eq!(editor_width(&view, 80), 72);
    assert_eq!(editor_width(&view, 5), 1);
    view.editor = Some(Editor::empty(EditTarget::New { parent_id: Some(child.id), placement: Placement::First }));
    assert_eq!(editor_width(&view, 80), 68);
}

#[test]
fn a_caret_after_a_full_row_starts_a_new_one() {
    assert_eq!(
        wrap_editor_text("abcd", 2, 4),
        vec![("ab".to_string(), None), ("cd".to_string(), None), (String::new(), Some(0))]
    );
    assert_eq!(
        wrap_editor_text("abcd", 2, 2),
        vec![("ab".to_string(), None), ("cd".to_string(), Some(0))]
    );
    assert_eq!(wrap_editor_text("a\nb", 10, 1), vec![("a↵b".to_string(), Some(1))]);
}
