//! Transient state of the launchers and completion prompts, and what keys
//! do to them.

use vstd::prelude::*;

use crate::commands::{command_catalog, commands, CommandEntry};
use crate::display::{lines_view, line_view, node_shown, refs_in_order, shown_node_text, LineView};
use crate::identity::NodeId;
use crate::keys::{Key, KeyCode};
use crate::layout::DisplayLine;
use crate::model::{BacklinkTag, Node};
use crate::outline::{leading_ws, trim_chars, trim_end_at, trimmed};
use crate::setup::{lowercase, to_lowercase};
use crate::pagination::Cursor;
use crate::text::{char_string, chars_of, concat2, concat3, is_whitespace, is_ws, splice};
use crate::width::{fit, fitted};

verus! {

/// One entry of a launcher.
#[derive(Clone, Debug, PartialEq, Eq)]
pub enum LauncherItem {
    /// A command of the catalog.
    Command(CommandEntry),
    /// A node found by search.
    Node(Node),
}

/// Which launcher is open.
#[derive(Clone, Copy, Debug, PartialEq, Eq, Structural)]
pub enum LauncherKind {
    /// `/`: search the notes.
    Search,
    /// `:`: run a command.
    Commands,
}

/// A one-line launcher: its input, caret (in characters), entries and the
/// selected entry.
#[derive(Clone, Debug, PartialEq, Eq)]
pub struct Launcher {
    /// Which launcher this is.
    pub kind: LauncherKind,
    /// Typed text.
    pub text: String,
    /// Caret position, in characters.
    pub cursor: usize,
    /// Entries matching the text.
    pub items: Vec<LauncherItem>,
    /// Index of the selected entry.
    pub selected: usize,
}

/// The node or the draft whose tags a tag prompt edits.
#[derive(Clone, Copy, Debug, PartialEq, Eq)]
pub enum TagTarget {
    /// An existing node.
    Node(NodeId),
    /// The draft of a new node.
    Draft,
}

/// Tag completion: the typed query, the matching tags and the selected one.
#[derive(Clone, Debug, PartialEq, Eq)]
pub struct TagPrompt {
    /// Whose tags are toggled.
    pub target: TagTarget,
    /// Typed query.
    pub query: String,
    /// Matching tags.
    pub results: Vec<String>,
    /// Index of the selected tag.
    pub selected: usize,
}

/// Contextual backlinks of a node.
#[derive(Clone, Debug, PartialEq, Eq)]
pub struct BacklinkView {
    /// The referenced node.
    pub target_id: NodeId,
    /// Tags found in the contexts.
    pub tags: Vec<BacklinkTag>,
    /// Tag that contexts must carry, if any.
    pub filter: Option<String>,
    /// Loaded contexts, each a path from the root to a referencing node.
    pub contexts: Vec<Vec<Node>>,
    /// Continuation of the contexts.
    pub next: Option<Cursor>,
    /// Selected context, if any.
    pub selected: Option<usize>,
    /// Whether the view closes when the selection moves away.
    pub temporary: bool,
}

/// Completion of a backlink tag filter.
#[derive(Clone, Debug, PartialEq, Eq)]
pub struct BacklinkFilterPrompt {
    /// Typed query.
    pub query: String,
    /// Matching tags.
    pub results: Vec<BacklinkTag>,
    /// Index of the selected tag.
    pub selected: usize,
}

/// Completion of an inline `[[reference]]`.
#[derive(Clone, Debug, PartialEq, Eq)]
pub struct ReferencePrompt {
    /// Label typed after `[[`.
    pub query: String,
    /// Matching nodes.
    pub results: Vec<Node>,
    /// Index of the selected node.
    pub selected: usize,
}

/// `index + 1`, kept within a list of `len` entries.
pub open spec fn next_index(index: usize, len: nat) -> usize {
    let last: int = if len >= 1 {
        len - 1
    } else {
        0
    };
    if index + 1 <= last {
        (index + 1) as usize
    } else {
        last as usize
    }
}

/// `index - 1`, stopping at zero.
pub open spec fn previous_index(index: usize) -> usize {
    if index >= 1 {
        (index - 1) as usize
    } else {
        0
    }
}

fn step_down(index: usize, len: usize) -> (r: usize)
    ensures
        r == next_index(index, len as nat),
{
    let last = len.saturating_sub(1);
    if index < last {
        index + 1
    } else {
        last
    }
}

/// What the session must do after a key in a launcher.
#[derive(Clone, Copy, Debug, PartialEq, Eq, Structural)]
pub enum LauncherOutcome {
    /// Nothing more.
    Nothing,
    /// The text changed: search again.
    Refresh,
    /// Run or open the selected entry.
    Commit,
    /// Close the launcher.
    Close,
}

impl Launcher {
    /// The caret lies within the text.
    pub open spec fn wf(&self) -> bool {
        self.cursor <= self.text@.len()
    }

    /// An empty launcher of the given kind.
    pub fn new(kind: LauncherKind) -> (r: Self)
        ensures
            r.kind == kind,
            r.text@.len() == 0,
            r.cursor == 0,
            r.items@.len() == 0,
            r.selected == 0,
            r.wf(),
    {
        Launcher { kind, text: String::new(), cursor: 0, items: Vec::new(), selected: 0 }
    }

    /// Types a character at the caret.
    pub fn insert(&mut self, character: char)
        requires
            old(self).wf(),
            old(self).text@.len() < usize::MAX,
        ensures
            final(self).wf(),
            final(self).text@ == old(self).text@.take(old(self).cursor as int) + seq![character]
                + old(self).text@.skip(old(self).cursor as int),
            final(self).cursor == old(self).cursor + 1,
            final(self).kind == old(self).kind,
            final(self).items == old(self).items,
            final(self).selected == old(self).selected,
    {
        let inserted = char_string(character);
        self.text = splice(self.text.as_str(), self.cursor, self.cursor, inserted.as_str());
        self.cursor = self.cursor + 1;
    }

    /// Types every character of `text` at the caret.
    pub fn insert_text(&mut self, text: &str)
        requires
            old(self).wf(),
            old(self).text@.len() + text@.len() < usize::MAX,
        ensures
            final(self).wf(),
            final(self).text@ == old(self).text@.take(old(self).cursor as int) + text@ + old(
                self,
            ).text@.skip(old(self).cursor as int),
            final(self).cursor == old(self).cursor + text@.len(),
            final(self).kind == old(self).kind,
            final(self).items == old(self).items,
            final(self).selected == old(self).selected,
    {
        let chars = chars_of(text);
        let ghost start = old(self).cursor as int;
        let ghost before = old(self).text@;
        let mut i: usize = 0;
        while i < chars.len()
            invariant
                i <= chars@.len(),
                chars@ == text@,
                self.wf(),
                before.len() + text@.len() < usize::MAX,
                0 <= start <= before.len(),
                self.text@ == before.take(start) + text@.take(i as int) + before.skip(start),
                self.cursor == start + i,
                self.kind == old(self).kind,
                self.items == old(self).items,
                self.selected == old(self).selected,
            decreases chars@.len() - i,
        {
            let ghost cur = self.text@;
            self.insert(chars[i]);
            proof {
                let t = before.take(start) + text@.take(i as int);
                assert(cur.take(start + i) =~= t);
                assert(cur.skip(start + i) =~= before.skip(start));
                assert(text@.take(i + 1) =~= text@.take(i as int).push(chars@[i as int]));
                assert(self.text@ =~= before.take(start) + text@.take(i + 1) + before.skip(start));
            }
            i += 1;
        }
        assert(text@.take(i as int) =~= text@);
    }

    /// Removes the character before the caret.
    pub fn backspace(&mut self)
        requires
            old(self).wf(),
        ensures
            final(self).wf(),
            old(self).cursor == 0 ==> *final(self) == *old(self),
            old(self).cursor > 0 ==> final(self).text@ == old(self).text@.take(
                old(self).cursor - 1,
            ) + old(self).text@.skip(old(self).cursor as int) && final(self).cursor == old(self).cursor - 1,
            final(self).kind == old(self).kind,
            final(self).items == old(self).items,
            final(self).selected == old(self).selected,
    {
        if self.cursor == 0 {
            return;
        }
        self.text = splice(self.text.as_str(), self.cursor - 1, self.cursor, "");
        proof {
            reveal_strlit("");
        }
        self.cursor = self.cursor - 1;
    }

    /// Removes the character after the caret.
    pub fn delete(&mut self)
        requires
            old(self).wf(),
        ensures
            final(self).wf(),
            old(self).cursor == old(self).text@.len() ==> *final(self) == *old(self),
            old(self).cursor < old(self).text@.len() ==> final(self).text@ == old(self).text@.take(old(self).cursor as int) + old(self).text@.skip(old(self).cursor + 1),
            final(self).cursor == old(self).cursor,
            final(self).kind == old(self).kind,
            final(self).items == old(self).items,
            final(self).selected == old(self).selected,
    {
        let count = self.text.as_str().unicode_len();
        if self.cursor == count {
            return;
        }
        self.text = splice(self.text.as_str(), self.cursor, self.cursor + 1, "");
        proof {
            reveal_strlit("");
        }
    }

    /// Handles a key: Escape closes, Enter commits, the arrows move the
    /// selection (up, down) or the caret (left, right), Home and End move
    /// the caret to the ends, Backspace, Delete and plain characters edit
    /// the text and ask for a new search.
    pub fn handle_key(&mut self, key: Key) -> (outcome: LauncherOutcome)
        requires
            old(self).wf(),
            old(self).text@.len() < usize::MAX,
        ensures
            final(self).wf(),
            final(self).kind == old(self).kind,
            final(self).items == old(self).items,
            match key.code {
                KeyCode::Esc => outcome == LauncherOutcome::Close && *final(self) == *old(self),
                KeyCode::Enter => outcome == LauncherOutcome::Commit && *final(self) == *old(self),
                KeyCode::Up => outcome == LauncherOutcome::Nothing && final(self).selected
                    == previous_index(old(self).selected) && final(self).text == old(self).text
                    && final(self).cursor == old(self).cursor,
                KeyCode::Down => outcome == LauncherOutcome::Nothing && final(self).selected
                    == next_index(old(self).selected, old(self).items@.len()) && final(self).text
                    == old(self).text && final(self).cursor == old(self).cursor,
                KeyCode::Left => outcome == LauncherOutcome::Nothing && final(self).cursor
                    == previous_index(old(self).cursor) && final(self).text == old(self).text
                    && final(self).selected == old(self).selected,
                KeyCode::Right => outcome == LauncherOutcome::Nothing && final(self).cursor
                    == next_index(old(self).cursor, old(self).text@.len() + 1) && final(self).text
                    == old(self).text && final(self).selected == old(self).selected,
                KeyCode::Home => outcome == LauncherOutcome::Nothing && final(self).cursor == 0
                    && final(self).text == old(self).text && final(self).selected == old(self).selected,
                KeyCode::End => outcome == LauncherOutcome::Nothing && final(self).cursor == old(self).text@.len() && final(self).text == old(self).text && final(self).selected
                    == old(self).selected,
                KeyCode::Backspace => outcome == LauncherOutcome::Refresh && final(self).selected
                    == old(self).selected && (if old(self).cursor == 0 {
                    final(self).text == old(self).text && final(self).cursor == 0
                } else {
                    final(self).text@ == old(self).text@.take(old(self).cursor - 1) + old(self).text@.skip(old(self).cursor as int) && final(self).cursor == old(self).cursor - 1
                }),
                KeyCode::Delete => outcome == LauncherOutcome::Refresh && final(self).selected
                    == old(self).selected && final(self).cursor == old(self).cursor && (if old(self).cursor == old(self).text@.len() {
                    final(self).text == old(self).text
                } else {
                    final(self).text@ == old(self).text@.take(old(self).cursor as int) + old(self).text@.skip(old(self).cursor + 1)
                }),
                KeyCode::Char(c) => if key.is_shortcut() {
                    outcome == LauncherOutcome::Nothing && *final(self) == *old(self)
                } else {
                    outcome == LauncherOutcome::Refresh && final(self).text@ == old(self).text@.take(old(self).cursor as int) + seq![c] + old(self).text@.skip(
                        old(self).cursor as int,
                    ) && final(self).cursor == old(self).cursor + 1 && final(self).selected
                        == old(self).selected
                },
                _ => outcome == LauncherOutcome::Nothing && *final(self) == *old(self),
            },
    {
        match key.code {
            KeyCode::Esc => LauncherOutcome::Close,
            KeyCode::Enter => LauncherOutcome::Commit,
            KeyCode::Up => {
                self.selected = self.selected.saturating_sub(1);
                LauncherOutcome::Nothing
            },
            KeyCode::Down => {
                self.selected = step_down(self.selected, self.items.len());
                LauncherOutcome::Nothing
            },
            KeyCode::Left => {
                self.cursor = self.cursor.saturating_sub(1);
                LauncherOutcome::Nothing
            },
            KeyCode::Right => {
                let count = self.text.as_str().unicode_len();
                self.cursor = step_down(self.cursor, count + 1);
                LauncherOutcome::Nothing
            },
            KeyCode::Home => {
                self.cursor = 0;
                LauncherOutcome::Nothing
            },
            KeyCode::End => {
                self.cursor = self.text.as_str().unicode_len();
                LauncherOutcome::Nothing
            },
            KeyCode::Backspace => {
                self.backspace();
                LauncherOutcome::Refresh
            },
            KeyCode::Delete => {
                self.delete();
                LauncherOutcome::Refresh
            },
            KeyCode::Char(c) => {
                if key.shortcut() {
                    LauncherOutcome::Nothing
                } else {
                    self.insert(c);
                    LauncherOutcome::Refresh
                }
            },
            _ => LauncherOutcome::Nothing,
        }
    }
}

/// What the session must do after a key in tag completion.
#[derive(Clone, Copy, Debug, PartialEq, Eq, Structural)]
pub enum TagOutcome {
    /// Nothing more.
    Nothing,
    /// The query changed: look the tags up again.
    Refresh,
    /// Toggle the selected tag.
    Commit,
    /// Close the prompt and return to the outline's first row.
    Cancel,
    /// Close the prompt.
    Close,
    /// Close the prompt and type a space in the editor.
    CloseWithSpace,
}

/// `s` without its last character (unchanged when empty), as `String::pop`
/// leaves it.
pub fn without_last_char(s: &str) -> (r: String)
    ensures
        r@ == (if s@.len() == 0 {
            s@
        } else {
            s@.drop_last()
        }),
{
    let n = s.unicode_len();
    if n == 0 {
        return String::from_str(s);
    }
    let r = String::from_str(s.substring_char(0, n - 1));
    assert(r@ =~= s@.drop_last());
    r
}

impl TagPrompt {
    /// Handles a key: Escape cancels, Enter and Tab toggle the selected tag,
    /// the arrows move the selection, Backspace edits the query (or closes
    /// the prompt when it is empty), Space closes the prompt and types a
    /// space, and plain characters extend the query.
    pub fn handle_key(&mut self, key: Key) -> (outcome: TagOutcome)
        ensures
            final(self).target == old(self).target,
            final(self).results == old(self).results,
            match key.code {
                KeyCode::Esc => outcome == TagOutcome::Cancel && *final(self) == *old(self),
                KeyCode::Enter | KeyCode::Tab => outcome == TagOutcome::Commit && *final(self)
                    == *old(self),
                KeyCode::Up => outcome == TagOutcome::Nothing && final(self).selected
                    == previous_index(old(self).selected) && final(self).query == old(self).query,
                KeyCode::Down => outcome == TagOutcome::Nothing && final(self).selected
                    == next_index(old(self).selected, old(self).results@.len()) && final(self).query == old(self).query,
                KeyCode::Backspace => if old(self).query@.len() == 0 {
                    outcome == TagOutcome::Close && *final(self) == *old(self)
                } else {
                    outcome == TagOutcome::Refresh && final(self).query@ == old(self).query@.drop_last() && final(self).selected == old(self).selected
                },
                KeyCode::Char(c) => if c == ' ' {
                    outcome == TagOutcome::CloseWithSpace && *final(self) == *old(self)
                } else if key.is_shortcut() {
                    outcome == TagOutcome::Nothing && *final(self) == *old(self)
                } else {
                    outcome == TagOutcome::Refresh && final(self).query@ == old(self).query@.push(
                        c,
                    ) && final(self).selected == old(self).selected
                },
                _ => outcome == TagOutcome::Nothing && *final(self) == *old(self),
            },
    {
        match key.code {
            KeyCode::Esc => TagOutcome::Cancel,
            KeyCode::Enter | KeyCode::Tab => TagOutcome::Commit,
            KeyCode::Up => {
                self.selected = self.selected.saturating_sub(1);
                TagOutcome::Nothing
            },
            KeyCode::Down => {
                self.selected = step_down(self.selected, self.results.len());
                TagOutcome::Nothing
            },
            KeyCode::Backspace => {
                if self.query.as_str().unicode_len() == 0 {
                    TagOutcome::Close
                } else {
                    self.query = without_last_char(self.query.as_str());
                    TagOutcome::Refresh
                }
            },
            KeyCode::Char(c) => {
                if c == ' ' {
                    TagOutcome::CloseWithSpace
                } else if key.shortcut() {
                    TagOutcome::Nothing
                } else {
                    crate::text::push_char(&mut self.query, c);
                    TagOutcome::Refresh
                }
            },
            _ => TagOutcome::Nothing,
        }
    }
}

/// Number of characters of `s` once white space is trimmed from both ends,
/// as `s.trim().chars().count()` gives it.
pub open spec fn trimmed_count(s: Seq<char>) -> int {
    let end = trim_end_at(s, s.len() as int);
    let start = leading_ws(s);
    if end > start {
        end - start
    } else {
        0
    }
}

proof fn lemma_leading_ws(s: Seq<char>, k: int)
    requires
        0 <= k <= s.len(),
        forall|j: int| 0 <= j < k ==> is_ws(#[trigger] s[j]),
    ensures
        leading_ws(s) == k + leading_ws(s.skip(k)),
    decreases k,
{
    if k > 0 {
        assert(is_ws(s[0]));
        assert forall|j: int| 0 <= j < k - 1 implies is_ws(#[trigger] s.drop_first()[j]) by {
            assert(s.drop_first()[j] == s[j + 1]);
        }
        lemma_leading_ws(s.drop_first(), k - 1);
        assert(s.drop_first().skip(k - 1) =~= s.skip(k));
    } else {
        assert(s.skip(0) =~= s);
    }
}

/// Number of characters of `text` once white space is trimmed from both
/// ends.
pub fn trimmed_char_count(text: &str) -> (r: usize)
    ensures
        r == trimmed_count(text@),
{
    let chars = chars_of(text);
    let n = chars.len();
    let mut start: usize = 0;
    while start < n && is_whitespace(chars[start])
        invariant
            start <= n == chars@.len(),
            chars@ == text@,
            forall|j: int| 0 <= j < start ==> is_ws(#[trigger] text@[j]),
        decreases n - start,
    {
        start += 1;
    }
    proof {
        lemma_leading_ws(text@, start as int);
        if start < n {
            assert(text@.skip(start as int)[0] == text@[start as int]);
        } else {
            assert(text@.skip(start as int).len() == 0);
        }
    }
    let mut end: usize = n;
    while end > 0 && is_whitespace(chars[end - 1])
        invariant
            end <= n == chars@.len(),
            chars@ == text@,
            trim_end_at(text@, n as int) == trim_end_at(text@, end as int),
        decreases end,
    {
        end -= 1;
    }
    if end > start {
        end - start
    } else {
        0
    }
}

/// The text of a launcher entry: `:name  — hint` for a command, `• ` and the
/// node's shown text for a node.
pub open spec fn launcher_item_text(item: LauncherItem) -> Seq<char> {
    match item {
        LauncherItem::Command(entry) => seq![':'] + entry.name@ + "  — "@ + entry.hint@,
        LauncherItem::Node(node) => "• "@ + node_shown(node),
    }
}

/// The row of entry `i` of a list: selected or not, fitted to `width`.
pub open spec fn list_row(selected: bool, text: Seq<char>, width: nat) -> LineView {
    (
        selected,
        fitted(
            if selected {
                seq!['›', ' ']
            } else {
                seq![' ', ' ']
            } + text,
            width,
        ),
        None,
        if selected {
            4usize
        } else {
            2usize
        },
    )
}

/// The rows a launcher shows: one per entry, or a hint when it has none.
pub open spec fn launcher_rows(launcher: Launcher, width: nat) -> Seq<LineView> {
    if launcher.items@.len() == 0 {
        seq![
            (
                false,
                if launcher.kind == LauncherKind::Search && trimmed_count(launcher.text@) < 2 {
                    "  Type at least two characters"@
                } else {
                    "  No results"@
                },
                None,
                2usize,
            ),
        ]
    } else {
        Seq::new(
            launcher.items@.len(),
            |i: int|
                list_row(i == launcher.selected, launcher_item_text(launcher.items@[i]), width),
        )
    }
}

/// Every node entry's inline references are in order.
pub open spec fn launcher_refs_in_order(items: Seq<LauncherItem>) -> bool {
    forall|i: int|
        0 <= i < items.len() ==> ((#[trigger] items[i]) matches LauncherItem::Node(node)
            ==> refs_in_order(node.text@, node.references@))
}

fn item_text(item: &LauncherItem) -> (r: String)
    requires
        item matches LauncherItem::Node(node) ==> refs_in_order(node.text@, node.references@),
    ensures
        r@ == launcher_item_text(*item),
{
    match item {
        LauncherItem::Command(entry) => {
            let mut r = char_string(':');
            r.append(entry.name);
            r.append("  — ");
            r.append(entry.hint);
            r
        },
        LauncherItem::Node(node) => {
            let shown = shown_node_text(node);
            concat2("• ", shown.as_str())
        },
    }
}

fn list_line(selected: bool, text: &str, width: usize) -> (r: DisplayLine)
    ensures
        line_view(r) == list_row(selected, text@, width as nat),
{
    let lead = if selected {
        "› "
    } else {
        "  "
    };
    let full = concat2(lead, text);
    proof {
        reveal_strlit("› ");
        reveal_strlit("  ");
        assert(lead@ =~= if selected {
            seq!['›', ' ']
        } else {
            seq![' ', ' ']
        });
        assert(full@ =~= (if selected {
            seq!['›', ' ']
        } else {
            seq![' ', ' ']
        }) + text@);
    }
    DisplayLine {
        selected,
        cursor: None,
        content_start: if selected {
            4
        } else {
            2
        },
        text: fit(full.as_str(), width),
    }
}

/// The rows of a launcher at `width` columns.
pub fn launcher_lines(launcher: &Launcher, width: usize) -> (lines: Vec<DisplayLine>)
    requires
        launcher_refs_in_order(launcher.items@),
    ensures
        lines_view(lines@) == launcher_rows(*launcher, width as nat),
{
    if launcher.items.len() == 0 {
        let short = launcher.kind == LauncherKind::Search && trimmed_char_count(
            launcher.text.as_str(),
        ) < 2;
        let text = if short {
            String::from_str("  Type at least two characters")
        } else {
            String::from_str("  No results")
        };
        let line = DisplayLine { selected: false, cursor: None, content_start: 2, text };
        let lines = vec![line];
        assert(lines_view(lines@) =~= launcher_rows(*launcher, width as nat));
        return lines;
    }
    let mut lines: Vec<DisplayLine> = Vec::new();
    let mut i: usize = 0;
    while i < launcher.items.len()
        invariant
            i <= launcher.items@.len(),
            launcher_refs_in_order(launcher.items@),
            lines_view(lines@) == launcher_rows(*launcher, width as nat).take(i as int),
        decreases launcher.items@.len() - i,
    {
        let ghost before = lines@;
        assert(launcher_refs_in_order(launcher.items@));
        let item = &launcher.items[i];
        assert(item == launcher.items@[i as int]);
        let text = item_text(item);
        let line = list_line(i == launcher.selected, text.as_str(), width);
        lines.push(line);
        assert(lines_view(lines@) =~= lines_view(before).push(line_view(line)));
        assert(lines_view(lines@) =~= launcher_rows(*launcher, width as nat).take(i + 1));
        i += 1;
    }
    assert(launcher_rows(*launcher, width as nat).take(i as int) =~= launcher_rows(
        *launcher,
        width as nat,
    ));
    lines
}

/// The parts joined with `separator` between them.
pub open spec fn joined(parts: Seq<Seq<char>>, separator: Seq<char>) -> Seq<char>
    decreases parts.len(),
{
    if parts.len() == 0 {
        seq![]
    } else if parts.len() == 1 {
        parts[0]
    } else {
        joined(parts.drop_last(), separator) + separator + parts.last()
    }
}

/// A backlink context as one line: the resolved text of each node of its
/// path, line breaks flattened, separated by ` › `.
pub open spec fn context_text(path: Seq<Node>) -> Seq<char> {
    joined(
        path.map_values(
            |node: Node|
                crate::text::replace_newlines_spec(
                    crate::display::resolved(node.text@, node.references@),
                    seq![' '],
                ),
        ),
        " › "@,
    )
}

/// The rows of a backlink view: one per context, or a notice when there is
/// none.
pub open spec fn backlink_rows(view: BacklinkView, width: nat) -> Seq<LineView> {
    if view.contexts@.len() == 0 {
        seq![(false, "  No backlinks"@, None, 2usize)]
    } else {
        Seq::new(
            view.contexts@.len(),
            |i: int| list_row(view.selected == Some(i as usize), context_text(view.contexts@[i]@), width),
        )
    }
}

/// Every node of every context has its inline references in order.
pub open spec fn contexts_in_order(contexts: Seq<Vec<Node>>) -> bool {
    forall|i: int, j: int|
        0 <= i < contexts.len() && 0 <= j < contexts[i]@.len() ==> refs_in_order(
            (#[trigger] contexts[i]@[j]).text@,
            contexts[i]@[j].references@,
        )
}

fn context_line_text(path: &Vec<Node>) -> (r: String)
    requires
        forall|j: int|
            0 <= j < path@.len() ==> refs_in_order(
                (#[trigger] path@[j]).text@,
                path@[j].references@,
            ),
    ensures
        r@ == context_text(path@),
{
    let ghost parts = path@.map_values(
        |node: Node|
            crate::text::replace_newlines_spec(
                crate::display::resolved(node.text@, node.references@),
                seq![' '],
            ),
    );
    let mut r = String::new();
    let mut j: usize = 0;
    while j < path.len()
        invariant
            j <= path@.len(),
            parts == path@.map_values(
                |node: Node|
                    crate::text::replace_newlines_spec(
                        crate::display::resolved(node.text@, node.references@),
                        seq![' '],
                    ),
            ),
            forall|k: int|
                0 <= k < path@.len() ==> refs_in_order(
                    (#[trigger] path@[k]).text@,
                    path@[k].references@,
                ),
            r@ == joined(parts.take(j as int), " › "@),
        decreases path@.len() - j,
    {
        let ghost before = r@;
        let resolved = crate::display::resolved_text(&path[j]);
        let flat = crate::text::replace_newlines(resolved.as_str(), " ");
        proof {
            reveal_strlit(" ");
            assert(" "@ =~= seq![' ']);
            assert(parts[j as int] == crate::text::replace_newlines_spec(
                crate::display::resolved(path@[j as int].text@, path@[j as int].references@),
                seq![' '],
            ));
        }
        if j > 0 {
            r.append(" › ");
        }
        r.append(flat.as_str());
        proof {
            let t = parts.take(j + 1);
            assert(t.drop_last() =~= parts.take(j as int));
            assert(t.last() == flat@);
            if j == 0 {
                assert(r@ =~= t[0]);
            } else {
                assert(r@ =~= before + " › "@ + t.last());
            }
        }
        j += 1;
    }
    assert(parts.take(j as int) =~= parts);
    r
}

/// The rows of a backlink view at `width` columns.
pub fn backlink_lines(view: &BacklinkView, width: usize) -> (lines: Vec<DisplayLine>)
    requires
        contexts_in_order(view.contexts@),
    ensures
        lines_view(lines@) == backlink_rows(*view, width as nat),
{
    if view.contexts.len() == 0 {
        let line = DisplayLine {
            selected: false,
            text: String::from_str("  No backlinks"),
            cursor: None,
            content_start: 2,
        };
        let lines = vec![line];
        assert(lines_view(lines@) =~= backlink_rows(*view, width as nat));
        return lines;
    }
    let mut lines: Vec<DisplayLine> = Vec::new();
    let mut i: usize = 0;
    while i < view.contexts.len()
        invariant
            i <= view.contexts@.len(),
            contexts_in_order(view.contexts@),
            lines_view(lines@) == backlink_rows(*view, width as nat).take(i as int),
        decreases view.contexts@.len() - i,
    {
        let ghost before = lines@;
        let path = &view.contexts[i];
        assert forall|j: int| 0 <= j < path@.len() implies refs_in_order(
            (#[trigger] path@[j]).text@,
            path@[j].references@,
        ) by {
            assert(view.contexts@[i as int]@[j] == path@[j]);
        }
        let text = context_line_text(path);
        let selected = match view.selected {
            Some(s) => s == i,
            None => false,
        };
        let line = list_line(selected, text.as_str(), width);
        lines.push(line);
        assert(lines_view(lines@) =~= lines_view(before).push(line_view(line)));
        assert(lines_view(lines@) =~= backlink_rows(*view, width as nat).take(i + 1));
        i += 1;
    }
    assert(backlink_rows(*view, width as nat).take(i as int) =~= backlink_rows(
        *view,
        width as nat,
    ));
    lines
}

/// Index of the first tag equal to `tag`.
pub open spec fn tag_position(tags: Seq<Seq<char>>, tag: Seq<char>) -> Option<int>
    decreases tags.len(),
{
    if tags.len() == 0 {
        None
    } else if tags[0] == tag {
        Some(0)
    } else {
        match tag_position(tags.drop_first(), tag) {
            Some(i) => Some(i + 1),
            None => None,
        }
    }
}

proof fn lemma_tag_position(tags: Seq<Seq<char>>, tag: Seq<char>, i: int)
    requires
        0 <= i <= tags.len(),
        forall|k: int| 0 <= k < i ==> tags[k] != tag,
        i < tags.len() ==> tags[i] == tag,
    ensures
        tag_position(tags, tag) == if i < tags.len() {
            Some(i)
        } else {
            None::<int>
        },
    decreases i,
{
    if i > 0 {
        assert forall|k: int| 0 <= k < i - 1 implies tags.drop_first()[k] != tag by {
            assert(tags.drop_first()[k] == tags[k + 1]);
        }
        lemma_tag_position(tags.drop_first(), tag, i - 1);
    }
}

/// The tags after toggling `tag`: its first occurrence removed, or the tag
/// added at the end; and whether it was removed.
pub open spec fn toggled_tags(tags: Seq<Seq<char>>, tag: Seq<char>) -> (Seq<Seq<char>>, bool) {
    match tag_position(tags, tag) {
        Some(i) => (tags.remove(i), true),
        None => (tags.push(tag), false),
    }
}

/// Toggles `tag` among `tags`: removes it when present, adds it otherwise.
/// Returns whether it was removed.
pub fn toggle_tag(tags: &mut Vec<String>, tag: &str) -> (removed: bool)
    ensures
        (crate::outline::strings_view(final(tags)@), removed) == toggled_tags(
            crate::outline::strings_view(old(tags)@),
            tag@,
        ),
{
    let ghost before = crate::outline::strings_view(tags@);
    let wanted = chars_of(tag);
    let mut i: usize = 0;
    while i < tags.len()
        invariant
            i <= tags@.len(),
            before == crate::outline::strings_view(tags@),
            tags@ == old(tags)@,
            wanted@ == tag@,
            forall|k: int| 0 <= k < i ==> before[k] != tag@,
        decreases tags@.len() - i,
    {
        let current = chars_of(tags[i].as_str());
        if same_text(&current, &wanted) {
            proof {
                assert(before[i as int] == tags@[i as int]@);
                lemma_tag_position(before, tag@, i as int);
            }
            let _ = tags.remove(i);
            assert(crate::outline::strings_view(tags@) =~= before.remove(i as int));
            return true;
        }
        i += 1;
    }
    proof {
        lemma_tag_position(before, tag@, i as int);
    }
    tags.push(String::from_str(tag));
    assert(crate::outline::strings_view(tags@) =~= before.push(tag@));
    false
}

fn same_text(a: &Vec<char>, b: &Vec<char>) -> (r: bool)
    ensures
        r == (a@ == b@),
{
    if a.len() != b.len() {
        return false;
    }
    let mut i: usize = 0;
    while i < a.len()
        invariant
            i <= a@.len() == b@.len(),
            forall|j: int| 0 <= j < i ==> a@[j] == b@[j],
        decreases a@.len() - i,
    {
        if a[i] != b[i] {
            return false;
        }
        i += 1;
    }
    assert(a@ =~= b@);
    true
}

/// Toggling a tag that is absent, then toggling it again, gives the tags
/// back unchanged.
pub proof fn lemma_toggle_absent_tag_twice(tags: Seq<Seq<char>>, tag: Seq<char>)
    requires
        tag_position(tags, tag) is None,
    ensures
        toggled_tags(toggled_tags(tags, tag).0, tag) == (tags, true),
{
    let added = tags.push(tag);
    assert forall|k: int| 0 <= k < tags.len() implies added[k] != tag by {
        if added[k] == tag {
            assert(tags[k] == tag);
            lemma_position_found(tags, tag, k);
        }
    }
    lemma_tag_position(added, tag, tags.len() as int);
    assert(added.remove(tags.len() as int) =~= tags);
}

proof fn lemma_position_found(tags: Seq<Seq<char>>, tag: Seq<char>, k: int)
    requires
        0 <= k < tags.len(),
        tags[k] == tag,
    ensures
        tag_position(tags, tag) is Some,
    decreases k,
{
    if k > 0 && tags[0] != tag {
        assert(tags.drop_first()[k - 1] == tags[k]);
        lemma_position_found(tags.drop_first(), tag, k - 1);
    }
}

/// After a toggle, a tag that occurred at most once is present exactly
/// when it was absent before.
pub proof fn lemma_toggle_flips_membership(tags: Seq<Seq<char>>, tag: Seq<char>)
    requires
        forall|i: int, j: int| 0 <= i < j < tags.len() && tags[i] == tag ==> tags[j] != tag,
    ensures
        toggled_tags(tags, tag).0.contains(tag) == !tags.contains(tag),
        toggled_tags(tags, tag).1 == tags.contains(tag),
{
    match tag_position(tags, tag) {
        Some(i) => {
            lemma_position_bounds(tags, tag);
            let rest = tags.remove(i);
            assert forall|k: int| 0 <= k < rest.len() implies rest[k] != tag by {
                if k < i {
                    assert(rest[k] == tags[k]);
                    lemma_position_first(tags, tag, k);
                } else {
                    assert(rest[k] == tags[k + 1]);
                }
            }
        },
        None => {
            assert forall|k: int| 0 <= k < tags.len() implies tags[k] != tag by {
                if tags[k] == tag {
                    lemma_position_found(tags, tag, k);
                }
            }
            assert(tags.push(tag)[tags.len() as int] == tag);
        },
    }
}

proof fn lemma_position_bounds(tags: Seq<Seq<char>>, tag: Seq<char>)
    requires
        tag_position(tags, tag) is Some,
    ensures
        0 <= tag_position(tags, tag)->0 < tags.len(),
        tags[tag_position(tags, tag)->0] == tag,
    decreases tags.len(),
{
    if tags.len() > 0 && tags[0] != tag {
        lemma_position_bounds(tags.drop_first(), tag);
    }
}

proof fn lemma_position_first(tags: Seq<Seq<char>>, tag: Seq<char>, k: int)
    requires
        tag_position(tags, tag) is Some,
        0 <= k < tag_position(tags, tag)->0,
    ensures
        tags[k] != tag,
    decreases tags.len(),
{
    lemma_position_bounds(tags, tag);
    if tags[0] != tag && k > 0 {
        lemma_position_first(tags.drop_first(), tag, k - 1);
        assert(tags.drop_first()[k - 1] == tags[k]);
    }
}

/// The status after toggling a tag: `Removed #tag` or `Added #tag`.
pub fn tag_status(tag: &str, removed: bool) -> (r: String)
    ensures
        r@ == (if removed {
            "Removed #"@
        } else {
            "Added #"@
        }) + tag@,
{
    if removed {
        concat2("Removed #", tag)
    } else {
        concat2("Added #", tag)
    }
}

/// `s` without its leading `#` characters.
pub open spec fn without_hashes(s: Seq<char>) -> Seq<char>
    decreases s.len(),
{
    if s.len() > 0 && s[0] == '#' {
        without_hashes(s.drop_first())
    } else {
        s
    }
}

/// What a tag filter query looks for: the query without surrounding white
/// space and leading `#`, in lowercase.
pub open spec fn filter_needle(query: Seq<char>) -> Seq<char> {
    lowercase(without_hashes(trimmed(query)))
}

/// Whether `needle` occurs in `hay` at index `i`.
pub open spec fn occurs_at(hay: Seq<char>, needle: Seq<char>, i: int) -> bool {
    0 <= i && i + needle.len() <= hay.len() && hay.subrange(i, i + needle.len()) == needle
}

/// Whether `needle` occurs in `hay`.
pub open spec fn has_infix(hay: Seq<char>, needle: Seq<char>) -> bool {
    exists|i: int| occurs_at(hay, needle, i)
}

/// The tags that a filter looking for `needle` keeps: all of them for an
/// empty needle, else those whose text holds it, in their order.
pub open spec fn matching_tags(tags: Seq<BacklinkTag>, needle: Seq<char>) -> Seq<BacklinkTag>
    decreases tags.len(),
{
    if tags.len() == 0 {
        seq![]
    } else {
        let kept = matching_tags(tags.drop_last(), needle);
        if needle.len() == 0 || has_infix(tags.last().tag@, needle) {
            kept.push(tags.last())
        } else {
            kept
        }
    }
}

pub(crate) fn occurs(hay: &Vec<char>, needle: &Vec<char>) -> (r: bool)
    ensures
        r == has_infix(hay@, needle@),
{
    let h = hay.len();
    let n = needle.len();
    if n > h {
        return false;
    }
    let mut i: usize = 0;
    while i <= h - n
        invariant
            n <= h,
            h == hay@.len(),
            n == needle@.len(),
            forall|k: int| 0 <= k < i ==> !occurs_at(hay@, needle@, k),
        decreases h - n + 1 - i,
    {
        let mut j: usize = 0;
        while j < n && hay[i + j] == needle[j]
            invariant
                i <= h - n,
                n <= h,
                h == hay@.len(),
                n == needle@.len(),
                j <= n,
                forall|m: int| 0 <= m < j ==> hay@[i + m] == needle@[m],
            decreases n - j,
        {
            j += 1;
        }
        if j == n {
            assert(hay@.subrange(i as int, i + n) =~= needle@);
            assert(occurs_at(hay@, needle@, i as int));
            return true;
        }
        assert(!occurs_at(hay@, needle@, i as int)) by {
            if occurs_at(hay@, needle@, i as int) {
                assert(hay@.subrange(i as int, i + n)[j as int] == hay@[i + j]);
            }
        }
        i += 1;
    }
    assert forall|k: int| !occurs_at(hay@, needle@, k) by {
        if 0 <= k && k + n <= h {
            assert(k < i);
        }
    }
    false
}

fn copy_tag(tag: &BacklinkTag) -> (r: BacklinkTag)
    ensures
        r == *tag,
{
    BacklinkTag { tag: tag.tag.clone(), count: tag.count }
}

fn strip_hashes(s: &Vec<char>) -> (r: Vec<char>)
    ensures
        r@ == without_hashes(s@),
{
    let mut k: usize = 0;
    assert(s@.skip(0) =~= s@);
    while k < s.len() && s[k] == '#'
        invariant
            k <= s@.len(),
            without_hashes(s@) == without_hashes(s@.skip(k as int)),
        decreases s@.len() - k,
    {
        assert(s@.skip(k as int).drop_first() =~= s@.skip(k + 1));
        k += 1;
    }
    let mut r: Vec<char> = Vec::new();
    let mut i = k;
    while i < s.len()
        invariant
            k <= i <= s@.len(),
            r@ == s@.subrange(k as int, i as int),
        decreases s@.len() - i,
    {
        r.push(s[i]);
        assert(r@ =~= s@.subrange(k as int, i + 1));
        i += 1;
    }
    assert(r@ =~= s@.skip(k as int));
    r
}

impl BacklinkFilterPrompt {
    /// Recomputes the tags the filter offers from the tags of the open
    /// backlinks, keeping the selection within them (or just past them).
    pub fn refresh(&mut self, tags: &Vec<BacklinkTag>)
        ensures
            final(self).query == old(self).query,
            final(self).results@ == matching_tags(tags@, filter_needle(old(self).query@)),
            final(self).selected == (if old(self).selected <= final(self).results@.len() {
                old(self).selected as int
            } else {
                final(self).results@.len() as int
            }),
    {
        let query = chars_of(self.query.as_str());
        let trimmed_query = trim_chars(&query);
        let stripped = strip_hashes(&trimmed_query);
        let stripped_text = crate::text::string_of(stripped.as_slice());
        let needle_text = to_lowercase(stripped_text.as_str());
        let needle = chars_of(needle_text.as_str());
        let ghost wanted = filter_needle(self.query@);
        assert(needle@ == wanted);
        let mut results: Vec<BacklinkTag> = Vec::new();
        let mut i: usize = 0;
        assert(tags@.take(0) =~= Seq::<BacklinkTag>::empty());
        while i < tags.len()
            invariant
                i <= tags@.len(),
                needle@ == wanted,
                results@ == matching_tags(tags@.take(i as int), wanted),
            decreases tags@.len() - i,
        {
            assert(tags@.take(i + 1).drop_last() =~= tags@.take(i as int));
            let text = chars_of(tags[i].tag.as_str());
            if needle.len() == 0 || occurs(&text, &needle) {
                results.push(copy_tag(&tags[i]));
            }
            i += 1;
        }
        assert(tags@.take(i as int) =~= tags@);
        let len = results.len();
        self.results = results;
        if self.selected > len {
            self.selected = len;
        }
    }
}

/// What a launcher query looks for: the text without surrounding white
/// space, in lowercase.
pub open spec fn launcher_needle(text: Seq<char>) -> Seq<char> {
    lowercase(trimmed(text))
}

/// The commands whose name or hint holds `needle` (all of them for an
/// empty needle), in catalog order.
pub open spec fn command_matches(entries: Seq<CommandEntry>, needle: Seq<char>) -> Seq<CommandEntry>
    decreases entries.len(),
{
    if entries.len() == 0 {
        seq![]
    } else {
        let kept = command_matches(entries.drop_last(), needle);
        let last = entries.last();
        if needle.len() == 0 || has_infix(last.name@, needle) || has_infix(last.hint@, needle) {
            kept.push(last)
        } else {
            kept
        }
    }
}

/// The entries the command launcher lists for its text.
pub fn matching_commands(text: &str) -> (r: Vec<CommandEntry>)
    ensures
        r@ == command_matches(command_catalog(), launcher_needle(text@)),
{
    let catalog = commands();
    let chars = chars_of(text);
    let trimmed_text = trim_chars(&chars);
    let trimmed_string = crate::text::string_of(trimmed_text.as_slice());
    let needle_text = to_lowercase(trimmed_string.as_str());
    let needle = chars_of(needle_text.as_str());
    let ghost wanted = launcher_needle(text@);
    assert(needle@ == wanted);
    let mut r: Vec<CommandEntry> = Vec::new();
    let mut i: usize = 0;
    assert(catalog@.take(0) =~= Seq::<CommandEntry>::empty());
    while i < catalog.len()
        invariant
            i <= catalog@.len(),
            needle@ == wanted,
            r@ == command_matches(catalog@.take(i as int), wanted),
        decreases catalog@.len() - i,
    {
        assert(catalog@.take(i + 1).drop_last() =~= catalog@.take(i as int));
        let entry = catalog[i];
        let keep = needle.len() == 0 || occurs(&chars_of(entry.name), &needle) || occurs(
            &chars_of(entry.hint),
            &needle,
        );
        if keep {
            r.push(entry);
        }
        i += 1;
    }
    assert(catalog@.take(i as int) =~= catalog@);
    r
}

/// Whether the search launcher has enough text to search: two characters
/// once trimmed and lowercased.
pub fn search_ready(text: &str) -> (r: bool)
    ensures
        r == (launcher_needle(text@).len() >= 2),
{
    let chars = chars_of(text);
    let trimmed_text = trim_chars(&chars);
    let trimmed_string = crate::text::string_of(trimmed_text.as_slice());
    let needle_text = to_lowercase(trimmed_string.as_str());
    needle_text.as_str().unicode_len() >= 2
}

} // verus!
