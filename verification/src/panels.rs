//! The help page, the completion panel, the folder explorer and the texts
//! of the footers.

use vstd::prelude::*;

use crate::display::{byte_len, line_view, lines_view, str_width, text_columns, LineView};
use crate::layout::{editor_view, input_view};
use crate::layout::DisplayLine;
use crate::outline::strings_view;
use crate::setup::first_location_row;
use crate::prompts::{list_row, LauncherKind, ReferencePrompt, TagPrompt};
use crate::text::{concat2, concat3, push_char, replace_newlines, replace_newlines_spec};
use crate::width::{fit, fitted};

verus! {

/// The texts of the help page, one per row.
pub open spec fn help_texts() -> Seq<Seq<char>> {
    seq![
        "  NAVIGATION"@,
        "    j/k or ↑/↓       move"@,
        "    h/l or ←/→       close/parent · open/child"@,
        "    H                zoom out"@,
        "    Space            collapse / expand"@,
        "    Enter            zoom in"@,
        ""@,
        "  EDITING"@,
        "    i/a              edit start / end"@,
        "    o/O/c            sibling after / before / child"@,
        "    Tab / Shift-Tab  indent / outdent"@,
        "    yy / dd / p      copy / cut / paste subtree"@,
        "    u / Ctrl-R       undo / redo"@,
        ""@,
        "  DISCOVERY"@,
        "    /                search notes"@,
        "    :                commands"@,
        "    # / [[           tags / references while editing"@,
        "    b                backlinks"@,
        "    q / Ctrl-C       quit"@,
    ]
}

/// The rows of the help page: never selected, without caret, content after
/// their first two bytes.
pub open spec fn help_rows() -> Seq<LineView> {
    help_texts().map_values(
        |text: Seq<char>|
            (
                false,
                text,
                None::<nat>,
                if byte_len(text) < 2 {
                    byte_len(text)
                } else {
                    2usize
                },
            ),
    )
}

fn help_row(text: &str) -> (r: DisplayLine)
    ensures
        line_view(r) == (
            false,
            text@,
            None::<nat>,
            if byte_len(text@) < 2 {
                byte_len(text@)
            } else {
                2usize
            },
        ),
{
    let n = text.len();
    DisplayLine {
        selected: false,
        text: String::from_str(text),
        cursor: None,
        content_start: if n < 2 {
            n
        } else {
            2
        },
    }
}

/// The rows of the help page.
pub fn help_lines() -> (lines: Vec<DisplayLine>)
    ensures
        lines_view(lines@) == help_rows(),
{
    let texts = vec![
        "  NAVIGATION",
        "    j/k or ↑/↓       move",
        "    h/l or ←/→       close/parent · open/child",
        "    H                zoom out",
        "    Space            collapse / expand",
        "    Enter            zoom in",
        "",
        "  EDITING",
        "    i/a              edit start / end",
        "    o/O/c            sibling after / before / child",
        "    Tab / Shift-Tab  indent / outdent",
        "    yy / dd / p      copy / cut / paste subtree",
        "    u / Ctrl-R       undo / redo",
        "",
        "  DISCOVERY",
        "    /                search notes",
        "    :                commands",
        "    # / [[           tags / references while editing",
        "    b                backlinks",
        "    q / Ctrl-C       quit",
    ];
    let ghost views = texts@.map_values(|text: &str| text@);
    assert(views =~= help_texts());
    let mut lines: Vec<DisplayLine> = Vec::new();
    let mut i: usize = 0;
    while i < texts.len()
        invariant
            i <= texts@.len(),
            views == texts@.map_values(|text: &str| text@),
            views == help_texts(),
            lines_view(lines@) == help_rows().take(i as int),
        decreases texts@.len() - i,
    {
        let line = help_row(texts[i]);
        let ghost before = lines@;
        lines.push(line);
        assert(views[i as int] == texts@[i as int]@);
        assert(lines_view(lines@) =~= lines_view(before).push(line_view(line)));
        assert(lines_view(lines@) =~= help_rows().take(i + 1));
        i += 1;
    }
    assert(help_rows().take(i as int) =~= help_rows());
    lines
}

/// The options of tag completion: each matching tag as `#tag`, or a hint.
pub open spec fn tag_option_texts(results: Seq<Seq<char>>) -> Seq<Seq<char>> {
    if results.len() == 0 {
        seq!["Type a tag"@]
    } else {
        results.map_values(|tag: Seq<char>| seq!['#'] + tag)
    }
}

/// The options of tag completion.
pub fn tag_options(prompt: &TagPrompt) -> (r: Vec<String>)
    ensures
        strings_view(r@) == tag_option_texts(strings_view(prompt.results@)),
{
    let mut r: Vec<String> = Vec::new();
    if prompt.results.len() == 0 {
        r.push(String::from_str("Type a tag"));
        assert(strings_view(r@) =~= tag_option_texts(strings_view(prompt.results@)));
        return r;
    }
    let ghost want = tag_option_texts(strings_view(prompt.results@));
    let mut i: usize = 0;
    while i < prompt.results.len()
        invariant
            i <= prompt.results@.len(),
            prompt.results@.len() > 0,
            want == tag_option_texts(strings_view(prompt.results@)),
            strings_view(r@) == want.take(i as int),
        decreases prompt.results@.len() - i,
    {
        let mut option = String::new();
        push_char(&mut option, '#');
        option.append(prompt.results[i].as_str());
        let ghost before = strings_view(r@);
        r.push(option);
        assert(strings_view(r@) =~= before.push(option@));
        assert(strings_view(r@) =~= want.take(i + 1));
        i += 1;
    }
    assert(want.take(i as int) =~= want);
    r
}

/// The options of reference completion: the text of each matching node
/// (line breaks as ` ↵ `), or a hint to search or to create the typed
/// concept.
pub open spec fn reference_option_texts(prompt: ReferencePrompt) -> Seq<Seq<char>> {
    if prompt.results@.len() == 0 {
        if prompt.query@.len() == 0 {
            seq!["Type to search concepts"@]
        } else {
            seq!["Create [["@ + prompt.query@ + "]]"@]
        }
    } else {
        prompt.results@.map_values(|node: crate::model::Node| replace_newlines_spec(node.text@, " ↵ "@))
    }
}

/// The options of reference completion.
pub fn reference_options(prompt: &ReferencePrompt) -> (r: Vec<String>)
    ensures
        strings_view(r@) == reference_option_texts(*prompt),
{
    let mut r: Vec<String> = Vec::new();
    if prompt.results.len() == 0 {
        if prompt.query.as_str().unicode_len() == 0 {
            r.push(String::from_str("Type to search concepts"));
        } else {
            r.push(concat3("Create [[", prompt.query.as_str(), "]]"));
        }
        assert(strings_view(r@) =~= reference_option_texts(*prompt));
        return r;
    }
    let ghost want = reference_option_texts(*prompt);
    let mut i: usize = 0;
    while i < prompt.results.len()
        invariant
            i <= prompt.results@.len(),
            prompt.results@.len() > 0,
            want == reference_option_texts(*prompt),
            strings_view(r@) == want.take(i as int),
        decreases prompt.results@.len() - i,
    {
        let option = replace_newlines(prompt.results[i].text.as_str(), " ↵ ");
        let ghost before = strings_view(r@);
        r.push(option);
        assert(strings_view(r@) =~= before.push(option@));
        assert(strings_view(r@) =~= want.take(i + 1));
        i += 1;
    }
    assert(want.take(i as int) =~= want);
    r
}

/// The first option shown in a panel of `visible` rows so that the selected
/// one is in view, without leaving rows empty below the last option.
pub open spec fn window_start(selected: usize, len: nat, visible: nat) -> int {
    let after: int = if selected + 1 <= usize::MAX {
        selected + 1
    } else {
        usize::MAX as int
    };
    let a: int = if after >= visible {
        after - visible
    } else {
        0
    };
    let b: int = if len >= visible {
        len - visible
    } else {
        0
    };
    if a <= b {
        a
    } else {
        b
    }
}

/// The rows of the completion panel, each with whether it is the selected
/// option: a title row `  ── TITLE `, then the options in view as
/// `  › option` (selected) or `    option`, all fitted to `width`.
pub open spec fn completion_rows(
    title: Seq<char>,
    options: Seq<Seq<char>>,
    selected: usize,
    height: nat,
    width: nat,
) -> Seq<(Seq<char>, bool)> {
    if height == 0 {
        seq![]
    } else {
        let visible = (height - 1) as nat;
        let first = window_start(selected, options.len(), visible);
        let count = if options.len() - first < visible {
            options.len() - first
        } else {
            visible as int
        };
        seq![(fitted("  ── "@ + title + seq![' '], width), false)] + Seq::new(
            count as nat,
            |k: int|
                {
                    let index = first + k;
                    let active = index == selected;
                    (
                        fitted(
                            seq![' ', ' '] + (if active {
                                seq!['›']
                            } else {
                                seq![' ']
                            }) + seq![' '] + options[index],
                            width,
                        ),
                        active,
                    )
                },
        )
    }
}

/// The rows of the completion panel at `height` rows and `width` columns.
pub fn completion_panel(
    title: &str,
    options: &Vec<String>,
    selected: usize,
    height: usize,
    width: usize,
) -> (rows: Vec<(String, bool)>)
    ensures
        rows@.map_values(|row: (String, bool)| (row.0@, row.1)) == completion_rows(
            title@,
            strings_view(options@),
            selected,
            height as nat,
            width as nat,
        ),
{
    let mut rows: Vec<(String, bool)> = Vec::new();
    let ghost want = completion_rows(
        title@,
        strings_view(options@),
        selected,
        height as nat,
        width as nat,
    );
    if height == 0 {
        assert(rows@.map_values(|row: (String, bool)| (row.0@, row.1)) =~= want);
        return rows;
    }
    let mut header = concat2("  ── ", title);
    push_char(&mut header, ' ');
    rows.push((fit(header.as_str(), width), false));
    let visible = height - 1;
    let n = options.len();
    let after = selected.saturating_add(1);
    let a = after.saturating_sub(visible);
    let b = n.saturating_sub(visible);
    let first = if a <= b {
        a
    } else {
        b
    };
    let count = if n - first < visible {
        n - first
    } else {
        visible
    };
    let mut k: usize = 0;
    proof {
        let head = (fitted("  ── "@ + title@ + seq![' '], width as nat), false);
        assert(header@ =~= "  ── "@ + title@ + seq![' ']);
        assert(want[0] == head);
        assert(want.take(1) =~= seq![head]);
        assert(rows@.map_values(|row: (String, bool)| (row.0@, row.1)) =~= seq![head]);
    }
    while k < count
        invariant
            k <= count,
            first + count <= n == options@.len(),
            height > 0,
            first == window_start(selected, options@.len(), (height - 1) as nat),
            count == (if options@.len() - first < (height - 1) {
                options@.len() - first
            } else {
                (height - 1) as int
            }),
            want == completion_rows(title@, strings_view(options@), selected, height as nat, width as nat),
            rows@.map_values(|row: (String, bool)| (row.0@, row.1)) == want.take(k + 1),
        decreases count - k,
    {
        let index = first + k;
        let active = index == selected;
        let mut text = String::new();
        push_char(&mut text, ' ');
        push_char(&mut text, ' ');
        push_char(
            &mut text,
            if active {
                '›'
            } else {
                ' '
            },
        );
        push_char(&mut text, ' ');
        text.append(options[index].as_str());
        let fitted_text = fit(text.as_str(), width);
        let ghost before = rows@.map_values(|row: (String, bool)| (row.0@, row.1));
        rows.push((fitted_text, active));
        proof {
            assert(strings_view(options@)[index as int] == options@[index as int]@);
            assert(text@ =~= seq![' ', ' '] + (if active {
                seq!['›']
            } else {
                seq![' ']
            }) + seq![' '] + options@[index as int]@);
            assert(rows@.map_values(|row: (String, bool)| (row.0@, row.1)) =~= before.push(
                (fitted_text@, active),
            ));
            assert(rows@.map_values(|row: (String, bool)| (row.0@, row.1)) =~= want.take(k + 2));
        }
        k += 1;
    }
    assert(want.take(count + 1) =~= want);
    rows
}

/// The choice the reference footer announces: inserting the selected
/// result, creating the typed concept, or a hint to type.
pub open spec fn reference_choice_text(prompt: ReferencePrompt) -> Seq<char> {
    if prompt.selected < prompt.results@.len() {
        "Enter inserts [["@ + replace_newlines_spec(
            prompt.results@[prompt.selected as int].text@,
            seq![' '],
        ) + "]]"@
    } else if prompt.query@.len() == 0 {
        "Type after [[ to search"@
    } else {
        "Enter creates [["@ + prompt.query@ + "]]"@
    }
}

/// The choice the reference footer announces.
pub fn reference_choice(prompt: &ReferencePrompt) -> (r: String)
    ensures
        r@ == reference_choice_text(*prompt),
{
    if prompt.selected < prompt.results.len() {
        let flat = replace_newlines(prompt.results[prompt.selected].text.as_str(), " ");
        proof {
            reveal_strlit(" ");
            assert(" "@ =~= seq![' ']);
        }
        concat3("Enter inserts [[", flat.as_str(), "]]")
    } else if prompt.query.as_str().unicode_len() == 0 {
        String::from_str("Type after [[ to search")
    } else {
        concat3("Enter creates [[", prompt.query.as_str(), "]]")
    }
}

/// The first row of a footer: the status when there is one, else the
/// mode's help.
pub fn footer_label(status: &str, help: &str) -> (r: String)
    ensures
        r@ == (if status@.len() == 0 {
            help@
        } else {
            status@
        }),
{
    if status.unicode_len() == 0 {
        String::from_str(help)
    } else {
        String::from_str(status)
    }
}

/// The title of the folder explorer: opening a workspace already in the
/// folder, or creating one there.
pub fn explorer_title(existing: bool) -> (r: &'static str)
    ensures
        r@ == (if existing {
            "Open this Vrac workspace"@
        } else {
            "Create a Vrac workspace here"@
        }),
{
    if existing {
        "Open this Vrac workspace"
    } else {
        "Create a Vrac workspace here"
    }
}

/// The footer of the folder explorer: the new folder being named, the
/// status, or the keys.
pub fn explorer_footer(new_folder: Option<&str>, status: &str) -> (r: String)
    ensures
        match new_folder {
            Some(name) => r@ == "New folder: "@ + name@ + "█   Enter create · Esc cancel"@,
            None => r@ == (if status@.len() == 0 {
                "Enter open · Space choose here · n new folder · h parent · b locations · q quit"@
            } else {
                status@
            }),
        },
{
    match new_folder {
        Some(name) => concat3("New folder: ", name, "█   Enter create · Esc cancel"),
        None => footer_label(
            status,
            "Enter open · Space choose here · n new folder · h parent · b locations · q quit",
        ),
    }
}

/// The rows of a list from `first` on, at most `count` of them: the
/// selected one as `› text`, the others as `  text`, fitted to `width`.
pub open spec fn list_rows(texts: Seq<Seq<char>>, selected: usize, first: int, count: int, width: nat) -> Seq<LineView> {
    Seq::new(
        count as nat,
        |k: int| list_row(first + k == selected, texts[first + k], width),
    )
}

/// The rows of the folder explorer's body: each folder as `name/`, or a
/// notice when there is none.
pub fn explorer_rows(names: &Vec<String>, selected: usize, scroll: usize, height: usize, width: usize) -> (rows: Vec<String>)
    ensures
        names@.len() == 0 ==> strings_view(rows@) == seq![fitted("  No subfolders"@, width as nat)],
        names@.len() > 0 ==> strings_view(rows@) == list_rows(
            strings_view(names@).map_values(|name: Seq<char>| name.push('/')),
            selected,
            scroll as int,
            if names@.len() >= scroll {
                if names@.len() - scroll < height {
                    names@.len() - scroll
                } else {
                    height as int
                }
            } else {
                0
            },
            width as nat,
        ).map_values(|row: LineView| row.1),
{
    let mut rows: Vec<String> = Vec::new();
    let n = names.len();
    if n == 0 {
        rows.push(fit("  No subfolders", width));
        assert(strings_view(rows@) =~= seq![fitted("  No subfolders"@, width as nat)]);
        return rows;
    }
    let count = if n >= scroll {
        if n - scroll < height {
            n - scroll
        } else {
            height
        }
    } else {
        0
    };
    let ghost texts = strings_view(names@).map_values(|name: Seq<char>| name.push('/'));
    let ghost want = list_rows(texts, selected, scroll as int, count as int, width as nat).map_values(
        |row: LineView| row.1,
    );
    let mut k: usize = 0;
    assert(strings_view(rows@) =~= want.take(0));
    while k < count
        invariant
            k <= count,
            n == names@.len(),
            count == 0 || scroll + count <= n,
            texts == strings_view(names@).map_values(|name: Seq<char>| name.push('/')),
            want == list_rows(texts, selected, scroll as int, count as int, width as nat).map_values(
                |row: LineView| row.1,
            ),
            strings_view(rows@) == want.take(k as int),
        decreases count - k,
    {
        let index = scroll + k;
        let mut text = String::from_str(if index == selected {
            "› "
        } else {
            "  "
        });
        text.append(names[index].as_str());
        push_char(&mut text, '/');
        let line = fit(text.as_str(), width);
        let ghost before = strings_view(rows@);
        rows.push(line);
        proof {
            reveal_strlit("› ");
            reveal_strlit("  ");
            assert(texts[index as int] == names@[index as int]@.push('/'));
            assert(text@ =~= (if index == selected {
                seq!['›', ' ']
            } else {
                seq![' ', ' ']
            }) + texts[index as int]);
            assert(strings_view(rows@) =~= before.push(line@));
            assert(strings_view(rows@) =~= want.take(k + 1));
        }
        k += 1;
    }
    assert(want.take(count as int) =~= want);
    rows
}

/// The label of a known location: its name, two spaces and its path.
pub open spec fn location_label(entry: (Seq<char>, Seq<char>)) -> Seq<char> {
    entry.0 + "  "@ + entry.1
}

/// The first location shown in a body of `body` rows so that the selected
/// one is the last row at most.
pub open spec fn location_start(selected: usize, body: usize) -> int {
    let after: int = if selected + 1 <= usize::MAX {
        selected + 1
    } else {
        usize::MAX as int
    };
    if after >= body {
        after - body
    } else {
        0
    }
}

/// The rows of the location chooser in a screen `height` rows high: the
/// locations in view below its three title rows, each as `name  path`.
pub fn location_rows(entries: &Vec<(String, String)>, selected: usize, height: usize, width: usize) -> (rows: Vec<String>)
    ensures
        ({
            let body: usize = if height >= 6 {
                (height - 6) as usize
            } else {
                0
            };
            let first = location_start(selected, body);
            let n = entries@.len() as int;
            let count: int = if first >= n {
                0
            } else if n - first < body {
                n - first
            } else {
                body as int
            };
            strings_view(rows@) == list_rows(
                entries@.map_values(|entry: (String, String)| location_label((entry.0@, entry.1@))),
                selected,
                first,
                count,
                width as nat,
            ).map_values(|row: LineView| row.1)
        }),
{
    let body = height.saturating_sub(6);
    let first = first_location_row(selected, body);
    let n = entries.len();
    let count = if first >= n {
        0
    } else if n - first < body {
        n - first
    } else {
        body
    };
    let ghost texts = entries@.map_values(|entry: (String, String)| location_label((entry.0@, entry.1@)));
    let ghost want = list_rows(texts, selected, first as int, count as int, width as nat).map_values(
        |row: LineView| row.1,
    );
    let mut rows: Vec<String> = Vec::new();
    let mut k: usize = 0;
    assert(strings_view(rows@) =~= want.take(0));
    while k < count
        invariant
            k <= count,
            n == entries@.len(),
            count == 0 || first + count <= n,
            texts == entries@.map_values(|entry: (String, String)| location_label((entry.0@, entry.1@))),
            want == list_rows(texts, selected, first as int, count as int, width as nat).map_values(
                |row: LineView| row.1,
            ),
            strings_view(rows@) == want.take(k as int),
        decreases count - k,
    {
        let index = first + k;
        let mut text = String::from_str(if index == selected {
            "› "
        } else {
            "  "
        });
        text.append(entries[index].0.as_str());
        text.append("  ");
        text.append(entries[index].1.as_str());
        let line = fit(text.as_str(), width);
        let ghost before = strings_view(rows@);
        rows.push(line);
        proof {
            reveal_strlit("› ");
            reveal_strlit("  ");
            assert(texts[index as int] == location_label((entries@[index as int].0@, entries@[index as int].1@)));
            assert(text@ =~= (if index == selected {
                seq!['›', ' ']
            } else {
                seq![' ', ' ']
            }) + texts[index as int]);
            assert(strings_view(rows@) =~= before.push(line@));
            assert(strings_view(rows@) =~= want.take(k + 1));
        }
        k += 1;
    }
    assert(want.take(count as int) =~= want);
    rows
}

/// The footer of the location chooser: the status or, without one, the keys.
pub fn location_footer(status: &str) -> (r: String)
    ensures
        r@ == (if status@.len() == 0 {
            "↑/↓ choose · Enter browse · q quit"@
        } else {
            status@
        }),
{
    footer_label(status, "↑/↓ choose · Enter browse · q quit")
}

/// Which footer the terminal shows.
#[derive(Clone, Copy, Debug, PartialEq, Eq, Structural)]
pub enum FooterMode {
    /// Browsing the outline.
    Normal,
    /// The help page is open.
    Help,
    /// A node is being edited inline.
    Editing,
    /// The backlinks are open.
    Backlinks,
    /// Tag completion is open.
    Tag,
    /// The search launcher is open.
    Search,
    /// The command launcher is open.
    Commands,
    /// Reference completion is open.
    Reference,
}

/// The footer for the open views, the first of help, backlinks, tag
/// completion, a launcher, reference completion and the editor that is
/// open.
pub open spec fn footer_mode_spec(
    help: bool,
    backlinks: bool,
    tag: bool,
    launcher: Option<LauncherKind>,
    reference: bool,
    editing: bool,
) -> FooterMode {
    if help {
        FooterMode::Help
    } else if backlinks {
        FooterMode::Backlinks
    } else if tag {
        FooterMode::Tag
    } else if launcher == Some(LauncherKind::Search) {
        FooterMode::Search
    } else if launcher == Some(LauncherKind::Commands) {
        FooterMode::Commands
    } else if reference {
        FooterMode::Reference
    } else if editing {
        FooterMode::Editing
    } else {
        FooterMode::Normal
    }
}

/// The footer for the open views.
pub fn footer_mode(
    help: bool,
    backlinks: bool,
    tag: bool,
    launcher: Option<LauncherKind>,
    reference: bool,
    editing: bool,
) -> (r: FooterMode)
    ensures
        r == footer_mode_spec(help, backlinks, tag, launcher, reference, editing),
{
    if help {
        FooterMode::Help
    } else if backlinks {
        FooterMode::Backlinks
    } else if tag {
        FooterMode::Tag
    } else {
        match launcher {
            Some(LauncherKind::Search) => FooterMode::Search,
            Some(LauncherKind::Commands) => FooterMode::Commands,
            None => if reference {
                FooterMode::Reference
            } else if editing {
                FooterMode::Editing
            } else {
                FooterMode::Normal
            },
        }
    }
}

/// The keys a footer lists on its upper row when there is no status.
pub open spec fn footer_hint(mode: FooterMode) -> Option<Seq<char>> {
    match mode {
        FooterMode::Editing => Some(
            " INSERT  Enter sibling · Tab/Shift-Tab depth · Ctrl-Enter zoom · Alt-Bksp word"@,
        ),
        FooterMode::Backlinks => Some("BACKLINKS  j/k select · Enter open · b/Esc close"@),
        FooterMode::Tag => Some("TAG  ↑/↓ select · Enter/Tab toggle · Space/Esc cancel"@),
        FooterMode::Search => Some("SEARCH  ↑/↓ select · Enter open · Esc cancel"@),
        FooterMode::Commands => Some("COMMANDS  ↑/↓ select · Enter run · Esc cancel"@),
        FooterMode::Reference => Some(
            "REFERENCE  ↑/↓ select · Enter/Tab complete · ] or Esc keep literal"@,
        ),
        _ => None,
    }
}

/// The upper footer row: none on the help page, the keys of reference
/// completion, the status in the outline (none without one), and
/// elsewhere the status or, without one, the keys.
pub open spec fn status_row_text(mode: FooterMode, status: Seq<char>) -> Option<Seq<char>> {
    match mode {
        FooterMode::Help => None,
        FooterMode::Reference => footer_hint(mode),
        FooterMode::Normal => if status.len() == 0 {
            None
        } else {
            Some(status)
        },
        _ => if status.len() == 0 {
            footer_hint(mode)
        } else {
            Some(status)
        },
    }
}

fn footer_hint_text(mode: FooterMode) -> (r: Option<&'static str>)
    ensures
        match footer_hint(mode) {
            Some(t) => r matches Some(s) && s@ == t,
            None => r is None,
        },
{
    match mode {
        FooterMode::Editing => Some(
            " INSERT  Enter sibling · Tab/Shift-Tab depth · Ctrl-Enter zoom · Alt-Bksp word",
        ),
        FooterMode::Backlinks => Some("BACKLINKS  j/k select · Enter open · b/Esc close"),
        FooterMode::Tag => Some("TAG  ↑/↓ select · Enter/Tab toggle · Space/Esc cancel"),
        FooterMode::Search => Some("SEARCH  ↑/↓ select · Enter open · Esc cancel"),
        FooterMode::Commands => Some("COMMANDS  ↑/↓ select · Enter run · Esc cancel"),
        FooterMode::Reference => Some(
            "REFERENCE  ↑/↓ select · Enter/Tab complete · ] or Esc keep literal",
        ),
        _ => None,
    }
}

/// The upper footer row, fitted to `width`.
pub fn footer_status_row(mode: FooterMode, status: &str, width: usize) -> (r: Option<String>)
    ensures
        match status_row_text(mode, status@) {
            Some(t) => r matches Some(s) && s@ == fitted(t, width as nat),
            None => r is None,
        },
{
    let empty = status.unicode_len() == 0;
    match mode {
        FooterMode::Help => None,
        FooterMode::Reference => match footer_hint_text(mode) {
            Some(hint) => Some(fit(hint, width)),
            None => None,
        },
        FooterMode::Normal => if empty {
            None
        } else {
            Some(fit(status, width))
        },
        _ => if empty {
            match footer_hint_text(mode) {
                Some(hint) => Some(fit(hint, width)),
                None => None,
            }
        } else {
            Some(fit(status, width))
        },
    }
}

/// The lower footer row where it is fixed text: the keys in the outline,
/// on the help page and in the editor, a note under the backlinks.
pub open spec fn key_row_text(mode: FooterMode) -> Option<Seq<char>> {
    match mode {
        FooterMode::Normal => Some("? help"@),
        FooterMode::Help => Some("? or Esc close help"@),
        FooterMode::Editing => Some(
            "↑/↓ lines/bullets · ←/→ caret · Alt-←/→ words · # tag · [[ ref · Esc normal"@,
        ),
        FooterMode::Backlinks => Some("Context paths are newest Journal day first"@),
        _ => None,
    }
}

/// The lower footer row where it is fixed text, fitted to `width`.
pub fn footer_key_row(mode: FooterMode, width: usize) -> (r: Option<String>)
    ensures
        match key_row_text(mode) {
            Some(t) => r matches Some(s) && s@ == fitted(t, width as nat),
            None => r is None,
        },
{
    match mode {
        FooterMode::Normal => Some(fit("? help", width)),
        FooterMode::Help => Some(fit("? or Esc close help", width)),
        FooterMode::Editing => Some(
            fit("↑/↓ lines/bullets · ←/→ caret · Alt-←/→ words · # tag · [[ ref · Esc normal", width),
        ),
        FooterMode::Backlinks => Some(fit("Context paths are newest Journal day first", width)),
        _ => None,
    }
}

/// `width - 2`, or zero.
pub open spec fn input_width(width: usize) -> usize {
    if width >= 2 {
        (width - 2) as usize
    } else {
        0
    }
}

/// The column of a caret `offset` columns into an input after its two
/// column prompt, kept within `width` columns.
pub open spec fn input_caret(offset: int, width: usize) -> int {
    let last: int = if width >= 1 {
        width - 1
    } else {
        0
    };
    if 2 + offset <= last {
        2 + offset
    } else {
        last
    }
}

fn caret_column(offset: usize, width: usize) -> (r: usize)
    ensures
        r == input_caret(offset as int, width),
{
    let last = width.saturating_sub(1);
    let column = offset.saturating_add(2);
    if column <= last {
        column
    } else {
        last
    }
}

/// The typed part of the tag input after its `# ` prompt, and the caret's
/// column after it.
pub fn tag_input(query: &str, width: usize) -> (r: (String, usize))
    ensures
        r.0@ == fitted(query@, input_width(width) as nat),
        r.1 == input_caret(str_width(r.0@) as int, width),
{
    let text = fit(query, width.saturating_sub(2));
    let columns = text_columns(text.as_str());
    let column = caret_column(columns, width);
    (text, column)
}

/// The prompt of a launcher's input.
pub fn launcher_prompt(kind: LauncherKind) -> (r: &'static str)
    ensures
        r@ == (if kind == LauncherKind::Search {
            "/ "@
        } else {
            ": "@
        }),
{
    match kind {
        LauncherKind::Search => "/ ",
        LauncherKind::Commands => ": ",
    }
}

/// The part of a launcher's text shown after its prompt, and the caret's
/// column.
pub fn launcher_input(text: &str, cursor: usize, width: usize) -> (r: (String, usize))
    requires
        cursor <= text@.len(),
        text@.len() <= usize::MAX / 4,
    ensures
        exists|view: Seq<char>, column: int|
            {
                &&& input_view(text@, cursor as int, input_width(width), view, column)
                &&& r.0@ == fitted(view, input_width(width) as nat)
                &&& r.1 == input_caret(column, width)
            },
{
    let inner = width.saturating_sub(2);
    let (view, column) = editor_view(text, cursor, inner);
    let shown = fit(view.as_str(), inner);
    let caret = caret_column(column, width);
    assert(inner == input_width(width));
    assert(input_view(text@, cursor as int, input_width(width), view@, column as int));
    (shown, caret)
}

} // verus!
