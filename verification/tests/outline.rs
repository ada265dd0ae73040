use vrac::error::Error;
use vrac::identity::NodeId;
use vrac::model::Node;
use vrac::outline::{parse_outline, write_subtree};
use vrac::performance::percentile_95;

fn node(n: u8, text: &str, tags: &[&str]) -> Node {
    Node {
        id: NodeId::from_bytes([n; 16]),
        parent_id: None,
        has_children: false,
        text: text.into(),
        system: None,
        tags: tags.iter().map(|tag| tag.to_string()).collect(),
        references: Vec::new(),
    }
}

fn id(n: u8) -> NodeId {
    NodeId::from_bytes([n; 16])
}

#[test]
fn copied_subtrees_are_indented_bullets_in_child_order() {
    let nodes = vec![node(1, "Root", &["task"]), node(2, "First", &[]), node(3, "Second", &["a", "b"]), node(4, "Nested", &[])];
    let children = vec![(id(1), vec![(10, id(2)), (20, id(3))]), (id(2), vec![(5, id(4))])];
    let mut output = String::from("> ");
    write_subtree(id(1), &nodes, &children, &mut output).unwrap();
    assert_eq!(output, "> - Root #task\n  - First\n    - Nested\n  - Second #a #b\n");
}

#[test]
fn broken_subtrees_are_refused() {
    let nodes = vec![node(1, "Root", &[]), node(2, "Child", &[])];
    let cyclic = vec![(id(1), vec![(1, id(2))]), (id(2), vec![(1, id(1))])];
    let mut output = String::new();
    match write_subtree(id(1), &nodes, &cyclic, &mut output) {
        Err(Error::InvalidDatabase(message)) => assert_eq!(message, "a cycle exists in a copied subtree"),
        other => panic!("unexpected {other:?}"),
    }
    let missing = vec![(id(1), vec![(1, id(9))])];
    let mut output = String::new();
    match write_subtree(id(1), &nodes, &missing, &mut output) {
        Err(Error::InvalidDatabase(message)) => assert_eq!(message, "a copied subtree contains a missing node"),
        other => panic!("unexpected {other:?}"),
    }
    let broken = vec![node(1, "two\nlines", &[])];
    let mut output = String::new();
    match write_subtree(id(1), &broken, &Vec::new(), &mut output) {
        Err(Error::InvalidClipboard(message)) => {
            assert_eq!(message, format!("node {} contains a line break", "01".repeat(16)))
        }
        other => panic!("unexpected {other:?}"),
    }
}

#[test]
fn malformed_indentation_creates_nothing() {
    match parse_outline("- one\n    - two\n  - three\n") {
        Err(Error::InvalidClipboard(message)) => {
            assert_eq!(message, "indentation does not match an earlier level")
        }
        other => panic!("unexpected {other:?}"),
    }
    match parse_outline("\n  \n") {
        Err(Error::InvalidClipboard(message)) => assert_eq!(message, "the clipboard is empty"),
        other => panic!("unexpected {other:?}"),
    }
}

#[test]
fn outlines_read_back_depths_texts_and_tags() {
    let parsed = parse_outline("- Root #task\n  - Child  \n").unwrap();
    assert_eq!(parsed.len(), 2);
    assert_eq!((parsed[0].depth, parsed[0].text.as_str()), (0, "Root"));
    assert_eq!(parsed[0].tags, ["task"]);
    assert_eq!((parsed[1].depth, parsed[1].text.as_str()), (1, "Child  "));
}

#[test]
fn the_95th_percentile_is_taken_from_sorted_samples() {
    let mut samples: Vec<u64> = (1..=100).rev().collect();
    assert_eq!(percentile_95(&mut samples), 95);
    assert_eq!(samples, (1..=100).collect::<Vec<u64>>());
    let mut one = vec![7];
    assert_eq!(percentile_95(&mut one), 7);
    let mut three = vec![30, 10, 20];
    assert_eq!(percentile_95(&mut three), 30);
}

#[test]
fn each_line_with_content_is_one_item_with_word_tags() {
    let parsed = parse_outline("\n- a #x\n\t\n  - b #y #z\n- c\n").unwrap();
    assert_eq!(parsed.len(), 3);
    assert_eq!(parsed[0].depth, 0);
    assert_eq!(parsed[1].depth, 1);
    assert_eq!(parsed[2].depth, 0);
    assert_eq!(parsed[0].tags, ["x"]);
    assert_eq!(parsed[1].tags, ["y", "z"]);
    assert!(parsed[2].tags.is_empty());
    assert_eq!(parsed[1].text, "b");
}

#[test]
fn lookups_find_entries_wherever_they_stand() {
    let nodes = vec![node(4, "Leaf", &[]), node(2, "Middle", &[]), node(1, "Top", &[])];
    let children = vec![(id(2), vec![(1, id(4))]), (id(1), vec![(1, id(2))])];
    let mut output = String::new();
    write_subtree(id(1), &nodes, &children, &mut output).unwrap();
    assert_eq!(output, "- Top\n  - Middle\n    - Leaf\n");
}
