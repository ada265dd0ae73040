use vrac::cache::{copy_node, Expansion, LoadedNodes};
use vrac::editing::{editor_for_node, sibling_draft};
use vrac::editor::EditTarget;
use vrac::error::Error;
use vrac::identity::NodeId;
use vrac::keys::{Key, KeyCode, KeyModifiers};
use vrac::model::{BacklinkTag, Node, NodeReference, Placement, SystemNode};
use vrac::outline::ParsedNode;
use vrac::paste::{paste_plan, plan_paste, PasteParent, PastePlace, PasteSlot};
use vrac::prompts::BacklinkFilterPrompt;
use vrac::setup::{new_folder_key, NewFolderStep};
use vrac::visible::{find_node, is_visible, visible_slots, Branches, VisibleSlot};

fn id(n: u8) -> NodeId {
    NodeId::from_bytes([n; 16])
}

fn node(n: u8, parent: Option<u8>, text: &str, has_children: bool) -> Node {
    Node {
        id: id(n),
        parent_id: parent.map(id),
        has_children,
        text: text.to_string(),
        system: None,
        tags: Vec::new(),
        references: Vec::new(),
    }
}

/// Roots 1 and 2; 1 has children 3 and 4; 3 has child 5.
fn branches() -> Branches {
    vec![
        (None, vec![node(1, None, "one", true), node(2, None, "two", false)]),
        (Some(id(1)), vec![node(3, Some(1), "three", true), node(4, Some(1), "four", false)]),
        (Some(id(3)), vec![node(5, Some(3), "five", false)]),
    ]
}

fn slot(branch: usize, index: usize, depth: usize) -> VisibleSlot {
    VisibleSlot { branch, index, depth }
}

fn key(code: KeyCode) -> Key {
    Key { code, modifiers: KeyModifiers { shift: false, control: false, alt: false, super_key: false } }
}

#[test]
fn expanded_nodes_show_their_loaded_children_below_them() {
    let branches = branches();
    assert_eq!(visible_slots(&branches, &Vec::new(), None), vec![slot(0, 0, 0), slot(0, 1, 0)]);
    assert_eq!(
        visible_slots(&branches, &vec![id(1)], None),
        vec![slot(0, 0, 0), slot(1, 0, 1), slot(1, 1, 1), slot(0, 1, 0)]
    );
    assert_eq!(
        visible_slots(&branches, &vec![id(1), id(3)], None),
        vec![slot(0, 0, 0), slot(1, 0, 1), slot(2, 0, 2), slot(1, 1, 1), slot(0, 1, 0)]
    );
    assert_eq!(visible_slots(&branches, &vec![id(3)], None), vec![slot(0, 0, 0), slot(0, 1, 0)]);
    assert_eq!(visible_slots(&branches, &Vec::new(), Some(id(1))), vec![slot(1, 0, 0), slot(1, 1, 0)]);
    assert!(visible_slots(&branches, &Vec::new(), Some(id(4))).is_empty());
    assert!(is_visible(&branches, &vec![id(1)], None, id(4)));
    assert!(!is_visible(&branches, &Vec::new(), None, id(4)));
    assert_eq!(find_node(&branches, id(5)), Some((2, 0)));
    assert_eq!(find_node(&branches, id(9)), None);
}

#[test]
fn cyclic_branches_are_listed_a_bounded_number_of_levels_deep() {
    let branches: Branches = vec![
        (None, vec![node(1, None, "one", true)]),
        (Some(id(1)), vec![node(1, None, "one", true)]),
    ];
    assert_eq!(
        visible_slots(&branches, &vec![id(1)], None),
        vec![slot(0, 0, 0), slot(1, 0, 1), slot(1, 0, 2)]
    );
}

fn loaded(expanded: Vec<NodeId>) -> LoadedNodes {
    LoadedNodes { focus_path: Vec::new(), branches: branches(), expanded, contexts: Vec::new() }
}

#[test]
fn left_collapses_then_selects_the_parent() {
    let mut outline = loaded(vec![id(1), id(3)]);
    let mut selected = Some(id(3));
    outline.move_left(&mut selected, None);
    assert_eq!(outline.expanded, vec![id(1)]);
    assert_eq!(selected, Some(id(3)));
    outline.move_left(&mut selected, None);
    assert_eq!(selected, Some(id(1)));
    outline.move_left(&mut selected, None);
    assert!(outline.expanded.is_empty());
    outline.move_left(&mut selected, None);
    assert_eq!(selected, Some(id(1)));
    let mut child = Some(id(3));
    outline.move_left(&mut child, Some(id(1)));
    assert_eq!(child, Some(id(3)));
}

#[test]
fn right_expands_and_selects_the_first_child() {
    let mut outline = loaded(Vec::new());
    let mut selected = Some(id(1));
    assert_eq!(outline.move_right(&mut selected), Expansion::Done);
    assert_eq!(outline.expanded, vec![id(1)]);
    assert_eq!(selected, Some(id(3)));
    let mut leaf = Some(id(2));
    assert_eq!(outline.move_right(&mut leaf), Expansion::Done);
    assert_eq!(leaf, Some(id(2)));
    outline.branches.pop();
    let mut unloaded = Some(id(3));
    assert_eq!(outline.move_right(&mut unloaded), Expansion::LoadBranch(id(3)));
    assert_eq!(outline.expanded, vec![id(1)]);
}

#[test]
fn space_toggles_nodes_with_children() {
    let mut outline = loaded(Vec::new());
    assert_eq!(outline.toggle_selected(Some(id(1))), Expansion::Done);
    assert_eq!(outline.expanded, vec![id(1)]);
    assert_eq!(outline.toggle_selected(Some(id(1))), Expansion::Done);
    assert!(outline.expanded.is_empty());
    assert_eq!(outline.toggle_selected(Some(id(2))), Expansion::Done);
    assert!(outline.expanded.is_empty());
    assert_eq!(outline.toggle_selected(None), Expansion::Done);
}

#[test]
fn changed_nodes_replace_every_loaded_copy() {
    let mut outline = loaded(vec![id(1), id(3)]);
    outline.focus_path = vec![node(1, None, "one", true)];
    outline.branches[0].1[1].references = vec![NodeReference {
        label_start: 2,
        label_end: 5,
        target_id: id(1),
        target_text: "one".to_string(),
    }];
    outline.contexts = vec![vec![node(1, None, "one", true), node(4, Some(1), "four", false)]];
    let updated = node(1, None, "uno", false);
    outline.update_node(&updated);
    assert_eq!(outline.focus_path[0].text, "uno");
    assert_eq!(outline.branches[0].1[0].text, "uno");
    assert_eq!(outline.branches[0].1[1].references[0].target_text, "uno");
    assert_eq!(outline.contexts[0][0].text, "uno");
    assert_eq!(outline.contexts[0][1].text, "four");
    assert_eq!(outline.expanded, vec![id(3)]);
    assert_eq!(outline.branches.len(), 2);
    assert_eq!(outline.branches[1].0, Some(id(3)));
}

#[test]
fn copies_keep_every_field() {
    let mut original = node(7, Some(1), "text", true);
    original.system = Some(SystemNode::JournalDay { date: "2024-01-02".to_string() });
    original.tags = vec!["a".to_string(), "b".to_string()];
    assert_eq!(copy_node(&original), original);
}

fn parsed(depths: &[usize]) -> Vec<ParsedNode> {
    depths
        .iter()
        .map(|depth| ParsedNode { depth: *depth, text: "x".to_string(), tags: Vec::new() })
        .collect()
}

#[test]
fn pasted_items_go_under_the_closest_item_one_level_up() {
    let plan = paste_plan(&parsed(&[0, 1, 1, 2, 0, 1])).unwrap();
    assert_eq!(
        plan,
        vec![
            PasteSlot { parent: PasteParent::Destination, place: PastePlace::Destination },
            PasteSlot { parent: PasteParent::Item(0), place: PastePlace::Last },
            PasteSlot { parent: PasteParent::Item(0), place: PastePlace::Last },
            PasteSlot { parent: PasteParent::Item(2), place: PastePlace::Last },
            PasteSlot { parent: PasteParent::Destination, place: PastePlace::AfterItem(0) },
            PasteSlot { parent: PasteParent::Item(4), place: PastePlace::Last },
        ]
    );
    assert!(matches!(
        paste_plan(&parsed(&[0, 2])),
        Err(Error::InvalidClipboard(message)) if message == "indentation skips a parent level"
    ));
    assert!(matches!(paste_plan(&parsed(&[1])), Err(Error::InvalidClipboard(_))));
    assert_eq!(paste_plan(&Vec::new()).unwrap(), Vec::new());
}

#[test]
fn clipboard_text_is_planned_as_it_is_parsed() {
    let (items, slots) = plan_paste("- a\n  - b #t\n- c").unwrap();
    assert_eq!(items.len(), 3);
    assert_eq!(items[1].text, "b");
    assert_eq!(items[1].tags, vec!["t".to_string()]);
    assert_eq!(slots[1].parent, PasteParent::Item(0));
    assert_eq!(slots[2].place, PastePlace::AfterItem(0));
    assert!(matches!(
        plan_paste("   "),
        Err(Error::InvalidClipboard(message)) if message == "the clipboard is empty"
    ));
    assert!(matches!(
        plan_paste("    - a\n  - b"),
        Err(Error::InvalidClipboard(message)) if message == "indentation does not match an earlier level"
    ));
}

#[test]
fn new_folder_names_are_typed_and_erased() {
    let mut name = String::new();
    assert_eq!(new_folder_key(&mut name, key(KeyCode::Char('a'))), NewFolderStep::Edited);
    assert_eq!(new_folder_key(&mut name, key(KeyCode::Char('b'))), NewFolderStep::Edited);
    assert_eq!(name, "ab");
    assert_eq!(new_folder_key(&mut name, key(KeyCode::Backspace)), NewFolderStep::Edited);
    assert_eq!(name, "a");
    let mut control = key(KeyCode::Char('x'));
    control.modifiers.control = true;
    assert_eq!(new_folder_key(&mut name, control), NewFolderStep::Unchanged);
    assert_eq!(new_folder_key(&mut name, key(KeyCode::Enter)), NewFolderStep::Create);
    assert_eq!(new_folder_key(&mut name, key(KeyCode::Esc)), NewFolderStep::Cancel);
    assert_eq!(new_folder_key(&mut name, key(KeyCode::Tab)), NewFolderStep::Unchanged);
    assert_eq!(name, "a");
    let mut empty = String::new();
    assert_eq!(new_folder_key(&mut empty, key(KeyCode::Backspace)), NewFolderStep::Edited);
    assert_eq!(empty, "");
}

fn tag(text: &str, count: u64) -> BacklinkTag {
    BacklinkTag { tag: text.to_string(), count }
}

#[test]
fn backlink_tag_filter_matches_substrings_case_insensitively() {
    let tags = vec![tag("work", 3), tag("homework", 1), tag("home", 2)];
    let mut prompt = BacklinkFilterPrompt { query: "  #WORK ".to_string(), results: Vec::new(), selected: 5 };
    prompt.refresh(&tags);
    assert_eq!(prompt.results, vec![tag("work", 3), tag("homework", 1)]);
    assert_eq!(prompt.selected, 2);
    prompt.query = "##".to_string();
    prompt.refresh(&tags);
    assert_eq!(prompt.results.len(), 3);
    assert_eq!(prompt.selected, 2);
    prompt.query = "zzz".to_string();
    prompt.refresh(&tags);
    assert!(prompt.results.is_empty());
    assert_eq!(prompt.selected, 0);
}

#[test]
fn editing_opens_on_the_node_text_unless_it_is_protected() {
    let mut n = node(1, None, "hello", false);
    n.tags = vec!["t".to_string()];
    n.references = vec![NodeReference {
        label_start: 2,
        label_end: 3,
        target_id: id(2),
        target_text: "x".to_string(),
    }];
    let editor = editor_for_node(&n).unwrap();
    assert_eq!(editor.target, EditTarget::Existing(id(1)));
    assert_eq!(editor.text, "hello");
    assert_eq!(editor.cursor, 5);
    assert_eq!(editor.tags, vec!["t".to_string()]);
    assert_eq!(editor.references.len(), 1);
    assert_eq!(editor.references[0].target_id, id(2));
    n.system = Some(SystemNode::Journal);
    assert!(editor_for_node(&n).is_none());
    let draft = sibling_draft(Some((Some(id(9)), id(1))), None, false);
    assert_eq!(draft.target, EditTarget::New { parent_id: Some(id(9)), placement: Placement::After(id(1)) });
    let draft = sibling_draft(None, Some(id(9)), true);
    assert_eq!(draft.target, EditTarget::New { parent_id: Some(id(9)), placement: Placement::First });
    assert_eq!(draft.text, "");
}

#[test]
fn copied_subtrees_paste_back_as_the_same_outline() {
    let mut root = node(1, None, "Keep this space ", true);
    root.tags = vec!["active".to_string(), "work".to_string()];
    let mut child = node(2, Some(1), "First", true);
    child.tags = Vec::new();
    let mut grandchild = node(3, Some(2), "Nested", false);
    grandchild.tags = vec!["task".to_string()];
    let sibling = node(4, Some(1), "Second", false);
    let nodes = vec![root.clone(), child.clone(), grandchild.clone(), sibling.clone()];
    let children = vec![(id(1), vec![(1i64, id(2)), (2i64, id(4))]), (id(2), vec![(1i64, id(3))])];
    let mut text = String::new();
    vrac::outline::write_subtree(id(1), &nodes, &children, &mut text).unwrap();
    let parsed = vrac::outline::parse_outline(&text).unwrap();
    let read: Vec<(usize, String, Vec<String>)> =
        parsed.into_iter().map(|item| (item.depth, item.text, item.tags)).collect();
    assert_eq!(
        read,
        vec![
            (0, root.text.clone(), root.tags.clone()),
            (1, child.text.clone(), child.tags.clone()),
            (2, grandchild.text.clone(), grandchild.tags.clone()),
            (1, sibling.text.clone(), sibling.tags.clone()),
        ]
    );
}

#[test]
fn copied_subtree_text_is_portable_indented_bullets() {
    let mut project = node(1, None, "Project", true);
    project.tags = vec!["active".to_string(), "work".to_string()];
    let first = node(2, Some(1), "First", true);
    let mut nested = node(3, Some(2), "Nested", false);
    nested.tags = vec!["task".to_string()];
    let second = node(4, Some(1), "Second", false);
    let nodes = vec![project, first, nested, second];
    let children = vec![(id(1), vec![(0i64, id(2)), (1i64, id(4))]), (id(2), vec![(0i64, id(3))])];
    let mut text = String::new();
    vrac::outline::write_subtree(id(1), &nodes, &children, &mut text).unwrap();
    assert_eq!(text, "- Project #active #work\n  - First\n    - Nested #task\n  - Second\n");
}

#[test]
fn expanding_twice_keeps_each_node_expanded_once() {
    let mut outline = loaded(Vec::new());
    let mut selected = Some(id(1));
    outline.move_right(&mut selected);
    let mut again = Some(id(1));
    outline.move_right(&mut again);
    assert_eq!(outline.expanded, vec![id(1)]);
    outline.install_branch(Some(id(1)), vec![node(3, Some(1), "three", true)]);
    let keys: Vec<Option<NodeId>> = outline.branches.iter().map(|branch| branch.0).collect();
    assert_eq!(keys, vec![None, Some(id(1)), Some(id(3))]);
    assert_eq!(outline.branches[1].1.len(), 1);
}
