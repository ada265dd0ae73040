use vrac::cache::LoadedNodes;
use vrac::display::VisibleNode;
use vrac::editor::EditTarget;
use vrac::identity::NodeId;
use vrac::model::{Node, Placement, SystemNode};
use vrac::moves::{
    deleted_status, indent_plan, indented_draft, may_create_root_concepts, outdent_plan,
    outdented_draft, restore_count, selection_after_create, selection_after_delete, MovePlan,
    AT_ROOT_MESSAGE, NO_PREVIOUS_SIBLING_MESSAGE, PROTECTED_MOVE_MESSAGE,
};
use vrac::visible::Branches;

fn id(n: u8) -> NodeId {
    NodeId::from_bytes([n; 16])
}

fn node(n: u8, parent: Option<u8>) -> Node {
    Node {
        id: id(n),
        parent_id: parent.map(id),
        has_children: false,
        text: format!("node {n}"),
        system: None,
        tags: Vec::new(),
        references: Vec::new(),
    }
}

fn branches() -> Branches {
    vec![
        (None, vec![node(1, None), node(2, None)]),
        (Some(id(1)), vec![node(3, Some(1))]),
        (Some(id(2)), Vec::new()),
    ]
}

#[test]
fn indenting_goes_under_the_previous_sibling() {
    let branches = branches();
    assert_eq!(indent_plan(&branches, &node(2, None)), MovePlan::UnderLast { node: id(2), parent: id(1) });
    assert_eq!(indent_plan(&branches, &node(1, None)), MovePlan::Refused(NO_PREVIOUS_SIBLING_MESSAGE));
    assert_eq!(indent_plan(&branches, &node(9, Some(7))), MovePlan::Nothing);
    let mut journal = node(1, None);
    journal.system = Some(SystemNode::Journal);
    assert_eq!(indent_plan(&branches, &journal), MovePlan::Refused(PROTECTED_MOVE_MESSAGE));
    assert_eq!(outdent_plan(&journal), MovePlan::Refused(PROTECTED_MOVE_MESSAGE));
    assert_eq!(outdent_plan(&node(1, None)), MovePlan::Refused(AT_ROOT_MESSAGE));
    assert_eq!(outdent_plan(&node(3, Some(1))), MovePlan::AfterParent { node: id(3), parent: id(1) });
}

#[test]
fn drafts_move_between_levels() {
    let branches = branches();
    assert_eq!(
        indented_draft(&branches, None, Placement::After(id(1))),
        Some(EditTarget::New { parent_id: Some(id(1)), placement: Placement::Last })
    );
    assert_eq!(
        indented_draft(&branches, None, Placement::Last),
        Some(EditTarget::New { parent_id: Some(id(2)), placement: Placement::Last })
    );
    assert_eq!(indented_draft(&branches, Some(id(2)), Placement::Last), None);
    assert_eq!(indented_draft(&branches, None, Placement::First), None);
    assert_eq!(outdented_draft(Some(id(1)), Some(id(1)), Some(None)), None);
    assert_eq!(outdented_draft(None, Some(id(1)), None), None);
    assert_eq!(
        outdented_draft(Some(id(3)), None, Some(Some(id(1)))),
        Some(EditTarget::New { parent_id: Some(id(1)), placement: Placement::After(id(3)) })
    );
    assert_eq!(outdented_draft(Some(id(3)), None, None), None);
}

#[test]
fn creating_restores_the_loaded_siblings_and_selects_the_new_node() {
    let siblings = vec![node(1, None), node(2, None)];
    assert_eq!(restore_count(None, false, Placement::Last), 0);
    assert_eq!(restore_count(Some(&siblings), false, Placement::Last), 3);
    assert_eq!(restore_count(Some(&siblings), true, Placement::Last), 2);
    assert_eq!(restore_count(Some(&siblings), true, Placement::After(id(2))), 3);
    assert_eq!(restore_count(Some(&siblings), true, Placement::After(id(1))), 2);
    assert_eq!(restore_count(Some(&siblings), false, Placement::First), 2);
    assert_eq!(selection_after_create(true, id(5), None, Placement::Last), (Some(id(5)), "Created"));
    assert_eq!(
        selection_after_create(false, id(5), Some(id(9)), Placement::After(id(2))),
        (Some(id(2)), "Created outside the loaded page")
    );
    assert_eq!(selection_after_create(false, id(5), Some(id(9)), Placement::First).0, Some(id(9)));
}

#[test]
fn only_closed_references_under_a_parent_may_create_roots() {
    assert!(may_create_root_concepts(Some(id(1)), "see [[Idea]]"));
    assert!(!may_create_root_concepts(None, "see [[Idea]]"));
    assert!(!may_create_root_concepts(Some(id(1)), "see [[Idea"));
    assert!(!may_create_root_concepts(Some(id(1)), "]] then [["));
    assert!(!may_create_root_concepts(Some(id(1)), "plain"));
}

#[test]
fn deleting_selects_the_row_that_took_its_place() {
    let rows: Vec<VisibleNode> = vec![
        VisibleNode { node: node(1, None), depth: 0 },
        VisibleNode { node: node(2, None), depth: 0 },
    ];
    assert_eq!(selection_after_delete(&rows, 1), Some(id(2)));
    assert_eq!(selection_after_delete(&rows, 5), Some(id(2)));
    assert_eq!(selection_after_delete(&Vec::new(), 0), None);
    assert_eq!(deleted_status(3), "Deleted 3 node(s); subtree copied");
}

#[test]
fn pruned_roots_are_forgotten() {
    let mut outline = LoadedNodes {
        focus_path: Vec::new(),
        branches: branches(),
        expanded: vec![id(1), id(2)],
        contexts: Vec::new(),
    };
    outline.forget_pruned(&vec![id(2), id(8)]);
    assert_eq!(outline.expanded, vec![id(1)]);
    assert_eq!(outline.branches.len(), 2);
    assert_eq!(outline.branches[1].0, Some(id(1)));
}

#[test]
fn a_reloaded_branch_replaces_the_loaded_one_and_collapses_childless_nodes() {
    let mut outline = LoadedNodes {
        focus_path: Vec::new(),
        branches: branches(),
        expanded: vec![id(1), id(2)],
        contexts: Vec::new(),
    };
    let mut one = node(1, None);
    one.has_children = true;
    outline.install_branch(None, vec![one, node(2, None), node(6, None)]);
    assert_eq!(outline.expanded, vec![id(1)]);
    assert_eq!(outline.branches.len(), 2);
    assert_eq!(outline.branches[0].1.len(), 3);
    assert_eq!(outline.branches[1].0, Some(id(1)));
    outline.install_branch(Some(id(6)), vec![node(7, Some(6))]);
    assert_eq!(outline.branches.len(), 3);
    assert_eq!(outline.branches[2].0, Some(id(6)));
}

#[test]
fn expanded_rows_report_how_many_children_are_loaded() {
    let outline = LoadedNodes {
        focus_path: Vec::new(),
        branches: branches(),
        expanded: vec![id(1), id(2)],
        contexts: Vec::new(),
    };
    assert_eq!(outline.open_branch_counts(None), vec![(id(1), 1), (id(2), 0)]);
    assert!(outline.open_branch_counts(Some(id(3))).is_empty());
}
