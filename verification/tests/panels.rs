use vrac::display::{inline_spans, SpanKind, VisibleNode};
use vrac::editing::EditorFollowUp;
use vrac::editor::{EditTarget, Editor};
use vrac::identity::NodeId;
use vrac::keys::EditorKeyAction;
use vrac::layout::{completion_height, frame_scroll, DisplayLine};
use vrac::model::Node;
use vrac::navigation::{
    edge_selection, flatten_line_breaks, focus_label, step_backlink, step_selection,
    tag_query_chars,
};
use vrac::panels::{
    completion_panel, explorer_footer, explorer_rows, explorer_title, footer_key_row, footer_label,
    footer_mode, footer_status_row, help_lines, launcher_input, launcher_prompt, location_footer,
    location_rows, reference_choice, reference_options, tag_input, tag_options, FooterMode,
};
use vrac::prompts::LauncherKind;
use vrac::prompts::{ReferencePrompt, TagPrompt, TagTarget};
use vrac::session::{
    after_sync, backlinks_status, config_error_status, home_expansion, initial_sync_status,
    lines_status, may_create_folder, sync_error_status, synced_status, unavailable_folder_message,
    unopenable_status, HomeExpansion, WorkspaceSelection,
};
use vrac::workspace::SyncReport;

fn id(n: u8) -> NodeId {
    NodeId::from_bytes([n; 16])
}

fn node(n: u8, text: &str) -> Node {
    Node {
        id: id(n),
        parent_id: None,
        has_children: false,
        text: text.to_string(),
        system: None,
        tags: Vec::new(),
        references: Vec::new(),
    }
}

fn visible(ids: &[u8]) -> Vec<VisibleNode> {
    ids.iter()
        .map(|n| VisibleNode { node: node(*n, "x"), depth: 0 })
        .collect()
}

fn editor(text: &str, cursor: usize) -> Editor {
    let mut editor = Editor::new(EditTarget::Existing(id(9)), text.to_string(), Vec::new(), Vec::new());
    editor.cursor = cursor;
    editor
}

#[test]
fn help_page_lists_every_key_group() {
    let lines = help_lines();
    assert_eq!(lines.len(), 20);
    assert_eq!(lines[0].text, "  NAVIGATION");
    assert_eq!(lines[7].text, "  EDITING");
    assert_eq!(lines[14].text, "  DISCOVERY");
    assert_eq!(lines[19].text, "    q / Ctrl-C       quit");
    assert!(lines.iter().all(|line| !line.selected && line.cursor.is_none()));
    assert_eq!(lines[6].content_start, 0);
    assert_eq!(lines[0].content_start, 2);
}

#[test]
fn tag_completion_offers_hash_tags_or_a_hint() {
    let mut prompt = TagPrompt {
        target: TagTarget::Draft,
        query: String::new(),
        results: Vec::new(),
        selected: 0,
    };
    assert_eq!(tag_options(&prompt), vec!["Type a tag".to_string()]);
    prompt.results = vec!["work".to_string(), "home".to_string()];
    assert_eq!(tag_options(&prompt), vec!["#work".to_string(), "#home".to_string()]);
}

#[test]
fn reference_completion_offers_nodes_or_a_new_concept() {
    let mut prompt = ReferencePrompt { query: String::new(), results: Vec::new(), selected: 0 };
    assert_eq!(reference_options(&prompt), vec!["Type to search concepts".to_string()]);
    assert_eq!(reference_choice(&prompt), "Type after [[ to search");
    prompt.query = "Idea".to_string();
    assert_eq!(reference_options(&prompt), vec!["Create [[Idea]]".to_string()]);
    assert_eq!(reference_choice(&prompt), "Enter creates [[Idea]]");
    prompt.results = vec![node(1, "first\nsecond"), node(2, "Idea")];
    assert_eq!(
        reference_options(&prompt),
        vec!["first ↵ second".to_string(), "Idea".to_string()]
    );
    assert_eq!(reference_choice(&prompt), "Enter inserts [[first second]]");
}

#[test]
fn completion_panel_keeps_the_selection_in_view() {
    let options: Vec<String> = ["a", "b", "c", "d"].iter().map(|s| s.to_string()).collect();
    let rows = completion_panel("Tags", &options, 3, 3, 40);
    assert_eq!(
        rows,
        vec![
            ("  ── Tags ".to_string(), false),
            ("    c".to_string(), false),
            ("  › d".to_string(), true),
        ]
    );
    let rows = completion_panel("Tags", &options, 0, 6, 40);
    assert_eq!(rows.len(), 5);
    assert_eq!(rows[1], ("  › a".to_string(), true));
    assert!(completion_panel("Tags", &options, 0, 0, 40).is_empty());
    let narrow = completion_panel("Tags", &options, 0, 2, 4);
    assert_eq!(narrow, vec![("  ──".to_string(), false), ("  › ".to_string(), true)]);
}

#[test]
fn completion_panel_height_is_capped_at_six_rows() {
    assert_eq!(completion_height(false, 40), 0);
    assert_eq!(completion_height(true, 40), 6);
    assert_eq!(completion_height(true, 0), 0);
}

#[test]
fn explorer_lists_subfolders_with_a_slash() {
    let names: Vec<String> = ["docs", "src", "tests"].iter().map(|s| s.to_string()).collect();
    assert_eq!(
        explorer_rows(&names, 1, 1, 5, 40),
        vec!["› src/".to_string(), "  tests/".to_string()]
    );
    assert_eq!(explorer_rows(&names, 0, 0, 2, 40), vec!["› docs/".to_string(), "  src/".to_string()]);
    assert_eq!(explorer_rows(&Vec::new(), 0, 0, 5, 40), vec!["  No subfolders".to_string()]);
    assert!(explorer_rows(&names, 0, 5, 5, 40).is_empty());
}

#[test]
fn explorer_footer_and_title_follow_the_state() {
    assert_eq!(explorer_title(true), "Open this Vrac workspace");
    assert_eq!(
        explorer_footer(Some("notes"), "ignored"),
        "New folder: notes█   Enter create · Esc cancel"
    );
    assert_eq!(explorer_footer(None, "Created notes"), "Created notes");
    assert_eq!(
        explorer_footer(None, ""),
        "Enter open · Space choose here · n new folder · h parent · b locations · q quit"
    );
    assert_eq!(footer_label("", "help"), "help");
    assert_eq!(footer_label("status", "help"), "status");
}

#[test]
fn selection_moves_stop_at_the_ends_and_go_on_to_backlinks() {
    let rows = visible(&[1, 2, 3]);
    let step = step_selection(&rows, Some(id(2)), 1);
    assert_eq!(step.selected, Some(id(3)));
    assert!(!step.into_backlinks);
    let step = step_selection(&rows, Some(id(3)), 1);
    assert_eq!(step.selected, Some(id(3)));
    assert!(step.into_backlinks);
    let step = step_selection(&rows, Some(id(1)), -5);
    assert_eq!(step.selected, Some(id(1)));
    assert!(!step.into_backlinks);
    let step = step_selection(&rows, None, 2);
    assert_eq!(step.selected, Some(id(3)));
    let step = step_selection(&Vec::new(), None, 1);
    assert_eq!(step.selected, None);
    assert!(step.into_backlinks);
    assert_eq!(edge_selection(&rows, false), Some(id(1)));
    assert_eq!(edge_selection(&rows, true), Some(id(3)));
    assert_eq!(edge_selection(&Vec::new(), true), None);
}

#[test]
fn backlink_moves_leave_upwards_and_stop_at_the_last() {
    assert_eq!(step_backlink(0, -1, 3), None);
    assert_eq!(step_backlink(2, -1, 3), Some(1));
    assert_eq!(step_backlink(1, 1, 3), Some(2));
    assert_eq!(step_backlink(2, 1, 3), Some(2));
    assert_eq!(step_backlink(0, 1, 0), Some(0));
    assert_eq!(step_backlink(1, 0, 3), Some(1));
}

#[test]
fn focus_title_joins_the_path_from_root() {
    assert_eq!(focus_label(&Vec::new()), "root");
    assert_eq!(
        focus_label(&vec![node(1, "Projects"), node(2, "Two\nlines")]),
        "root › Projects › Two lines"
    );
}

#[test]
fn pasted_text_is_flattened_to_one_line() {
    assert_eq!(flatten_line_breaks("a\r\nb\rc\nd"), "a b c d");
    assert_eq!(flatten_line_breaks(""), "");
    assert_eq!(tag_query_chars("# my tag\n"), "mytag");
}

#[test]
fn inline_spans_mark_references_and_tags() {
    let spans = inline_spans("a [[B]] #c d");
    let kinds: Vec<SpanKind> = spans.iter().map(|span| span.0).collect();
    let texts: Vec<&str> = spans.iter().map(|span| span.1.as_str()).collect();
    assert_eq!(texts, ["a", " ", "[[B]]", " ", "#c", " ", "d"]);
    assert_eq!(
        kinds,
        [
            SpanKind::Plain,
            SpanKind::Plain,
            SpanKind::Reference,
            SpanKind::Plain,
            SpanKind::Tag,
            SpanKind::Plain,
            SpanKind::Plain,
        ]
    );
    let open = inline_spans("x#y [[z");
    assert!(open.iter().all(|span| span.0 == SpanKind::Plain));
    assert!(inline_spans("").is_empty());
}

#[test]
fn sync_messages_report_both_counts() {
    let report = SyncReport { imported: 2, published: 1 };
    assert_eq!(synced_status(report), "Synced: 2 received, 1 sent");
    assert_eq!(initial_sync_status(report), Some("Synced: 2 received, 1 sent".to_string()));
    assert_eq!(initial_sync_status(SyncReport { imported: 0, published: 0 }), None);
    assert_eq!(sync_error_status("offline"), "Sync error: offline");
    assert_eq!(config_error_status("bad"), "Config error: bad");
    assert_eq!(
        unopenable_status("locked"),
        "Current workspace cannot be opened (locked). Choose another folder."
    );
    assert_eq!(
        unavailable_folder_message("/w"),
        "the configured workspace folder is unavailable: /w\nRun `vrac workspace select` or pass another folder with `vrac --workspace`."
    );
    assert_eq!(lines_status(true), "Hierarchy lines enabled");
    assert_eq!(backlinks_status(false), "Contextual backlinks disabled");
}

#[test]
fn received_changes_reload_now_or_after_the_edit() {
    let received = SyncReport { imported: 1, published: 0 };
    let follow = after_sync(received, false, false);
    assert!(follow.reload_now && !follow.reload_after_edit);
    assert_eq!(follow.status, Some("Synced: 1 received, 0 sent".to_string()));
    let follow = after_sync(received, false, true);
    assert!(!follow.reload_now && follow.reload_after_edit);
    let quiet = after_sync(SyncReport { imported: 0, published: 3 }, false, false);
    assert!(!quiet.reload_now && !quiet.reload_after_edit);
    assert_eq!(quiet.status, None);
    let explicit = after_sync(SyncReport { imported: 0, published: 0 }, true, false);
    assert_eq!(explicit.status, Some("Synced: 0 received, 0 sent".to_string()));
}

#[test]
fn home_is_expanded_only_at_the_start() {
    assert_eq!(home_expansion("~"), HomeExpansion::Home);
    assert_eq!(home_expansion("~/notes"), HomeExpansion::UnderHome("notes".to_string()));
    assert_eq!(home_expansion("a/~"), HomeExpansion::Unchanged);
    assert_eq!(home_expansion("~user"), HomeExpansion::Unchanged);
    assert!(may_create_folder(&WorkspaceSelection::Folder("/w".into())));
    assert!(!may_create_folder(&WorkspaceSelection::Remembered));
}

#[test]
fn editor_keys_edit_locally_or_hand_over() {
    let mut e = editor("ab", 1);
    assert_eq!(e.apply_key(EditorKeyAction::Insert('x'), 40), EditorFollowUp::Stay);
    assert_eq!((e.text.as_str(), e.cursor), ("axb", 2));
    assert_eq!(e.apply_key(EditorKeyAction::Backspace, 40), EditorFollowUp::Stay);
    assert_eq!((e.text.as_str(), e.cursor), ("ab", 1));
    assert_eq!(e.apply_key(EditorKeyAction::CharRight, 40), EditorFollowUp::Stay);
    assert_eq!(e.apply_key(EditorKeyAction::CharRight, 40), EditorFollowUp::Stay);
    assert_eq!(e.cursor, 2);
    assert_eq!(e.apply_key(EditorKeyAction::CharLeft, 40), EditorFollowUp::Stay);
    assert_eq!(e.cursor, 1);
    assert_eq!(e.apply_key(EditorKeyAction::TextEnd, 40), EditorFollowUp::Stay);
    assert_eq!(e.cursor, 2);
    assert_eq!(e.apply_key(EditorKeyAction::TextStart, 40), EditorFollowUp::Stay);
    assert_eq!(e.cursor, 0);
    assert_eq!(e.apply_key(EditorKeyAction::Delete, 40), EditorFollowUp::Stay);
    assert_eq!(e.text, "b");
    assert_eq!(e.apply_key(EditorKeyAction::LineUp, 40), EditorFollowUp::PreviousBullet);
    assert_eq!(e.apply_key(EditorKeyAction::LineDown, 40), EditorFollowUp::NextBullet);
    assert_eq!(e.apply_key(EditorKeyAction::Finish, 40), EditorFollowUp::Finish);
    assert_eq!(e.apply_key(EditorKeyAction::Tag, 40), EditorFollowUp::Tag);
    assert_eq!(e.text, "b");
}

#[test]
fn typing_a_second_bracket_opens_reference_completion() {
    let mut e = editor("see ", 4);
    assert_eq!(e.apply_key(EditorKeyAction::Insert('['), 40), EditorFollowUp::Stay);
    assert_eq!(e.apply_key(EditorKeyAction::Insert('['), 40), EditorFollowUp::Reference);
    assert_eq!(e.text, "see [[");
}

#[test]
fn editor_moves_by_words_and_visual_lines() {
    let mut e = editor("one two three", 13);
    assert_eq!(e.apply_key(EditorKeyAction::WordLeft, 40), EditorFollowUp::Stay);
    assert_eq!(e.cursor, 8);
    assert_eq!(e.apply_key(EditorKeyAction::DeleteWord, 40), EditorFollowUp::Stay);
    assert_eq!(e.text, "one three");
    assert_eq!(e.cursor, 4);
    let mut e = editor("abcdefgh", 6);
    assert_eq!(e.apply_key(EditorKeyAction::LineUp, 4), EditorFollowUp::Stay);
    assert_eq!(e.cursor, 2);
    assert_eq!(e.apply_key(EditorKeyAction::LineEnd, 4), EditorFollowUp::Stay);
    assert_eq!(e.apply_key(EditorKeyAction::LineStart, 4), EditorFollowUp::Stay);
    assert_eq!(e.cursor, 0);
}

fn row(selected: bool, cursor: Option<usize>) -> DisplayLine {
    DisplayLine { selected, text: "x".to_string(), cursor, content_start: 0 }
}

#[test]
fn frame_scroll_follows_the_selection_then_the_caret() {
    let mut lines: Vec<DisplayLine> = (0..10).map(|_| row(false, None)).collect();
    lines[7].selected = true;
    assert_eq!(frame_scroll(&lines, 0, 4), 4);
    assert_eq!(frame_scroll(&lines, 9, 4), 6);
    lines[7].selected = false;
    lines[1].selected = true;
    assert_eq!(frame_scroll(&lines, 5, 4), 1);
    lines[8].cursor = Some(0);
    assert_eq!(frame_scroll(&lines, 0, 4), 5);
    assert_eq!(frame_scroll(&Vec::new(), 3, 4), 0);
}

#[test]
fn footers_show_the_status_or_the_keys_of_the_open_view() {
    assert_eq!(footer_mode(true, true, true, None, true, true), FooterMode::Help);
    assert_eq!(footer_mode(false, false, false, Some(LauncherKind::Commands), true, true), FooterMode::Commands);
    assert_eq!(footer_mode(false, false, false, None, true, true), FooterMode::Reference);
    assert_eq!(footer_mode(false, false, false, None, false, true), FooterMode::Editing);
    assert_eq!(footer_mode(false, false, false, None, false, false), FooterMode::Normal);
    assert_eq!(footer_status_row(FooterMode::Normal, "", 40), None);
    assert_eq!(footer_status_row(FooterMode::Normal, "Saved", 40), Some("Saved".to_string()));
    assert_eq!(footer_status_row(FooterMode::Help, "Saved", 40), None);
    assert_eq!(
        footer_status_row(FooterMode::Search, "", 100),
        Some("SEARCH  ↑/↓ select · Enter open · Esc cancel".to_string())
    );
    assert_eq!(footer_status_row(FooterMode::Tag, "", 3), Some("TAG".to_string()));
    assert_eq!(
        footer_status_row(FooterMode::Reference, "Saved", 9),
        Some("REFERENCE".to_string())
    );
    assert_eq!(footer_key_row(FooterMode::Normal, 40), Some("? help".to_string()));
    assert_eq!(footer_key_row(FooterMode::Help, 40), Some("? or Esc close help".to_string()));
    assert_eq!(footer_key_row(FooterMode::Tag, 40), None);
    assert_eq!(location_footer(""), "↑/↓ choose · Enter browse · q quit");
    assert_eq!(location_footer("No folder"), "No folder");
}

#[test]
fn inputs_keep_their_caret_inside_the_footer() {
    assert_eq!(tag_input("work", 40), ("work".to_string(), 6));
    assert_eq!(tag_input("work", 5), ("wor".to_string(), 4));
    assert_eq!(tag_input("", 0), (String::new(), 0));
    assert_eq!(launcher_prompt(LauncherKind::Search), "/ ");
    assert_eq!(launcher_prompt(LauncherKind::Commands), ": ");
    assert_eq!(launcher_input("hello", 5, 40), ("hello".to_string(), 7));
    assert_eq!(launcher_input("hello", 0, 40), ("hello".to_string(), 2));
}

#[test]
fn locations_show_name_and_path_around_the_selection() {
    let entries: Vec<(String, String)> = vec![
        ("Home".to_string(), "/home/a".to_string()),
        ("Documents".to_string(), "/home/a/Documents".to_string()),
        ("Here".to_string(), "/w".to_string()),
    ];
    assert_eq!(
        location_rows(&entries, 1, 20, 80),
        vec![
            "  Home  /home/a".to_string(),
            "› Documents  /home/a/Documents".to_string(),
            "  Here  /w".to_string(),
        ]
    );
    assert_eq!(location_rows(&entries, 2, 8, 80), vec!["  Documents  /home/a/Documents".to_string(), "› Here  /w".to_string()]);
    assert!(location_rows(&entries, 0, 6, 80).is_empty());
}
