//! Keys of the terminal client and what each one asks of the outline, the
//! editor and the prompts.

use vstd::prelude::*;

verus! {

/// Whether a key event is a press, an auto-repeat or a release.
#[derive(Clone, Copy, Debug, PartialEq, Eq, Structural)]
pub enum KeyKind {
    /// The key went down.
    Press,
    /// The key is held and repeats.
    Repeat,
    /// The key went up.
    Release,
}

/// Presses and repeats are acted on; releases are not.
pub fn actionable_key(kind: KeyKind) -> (r: bool)
    ensures
        r == (kind is Press || kind is Repeat),
{
    match kind {
        KeyKind::Press | KeyKind::Repeat => true,
        KeyKind::Release => false,
    }
}

/// The key that was pressed.
#[derive(Clone, Copy, Debug, PartialEq, Eq, Structural)]
pub enum KeyCode {
    /// A character key.
    Char(char),
    /// Enter.
    Enter,
    /// Tab.
    Tab,
    /// Shift-Tab.
    BackTab,
    /// Escape.
    Esc,
    /// Backspace.
    Backspace,
    /// Delete.
    Delete,
    /// Left arrow.
    Left,
    /// Right arrow.
    Right,
    /// Up arrow.
    Up,
    /// Down arrow.
    Down,
    /// Home.
    Home,
    /// End.
    End,
    /// Page up.
    PageUp,
    /// Page down.
    PageDown,
    /// Any other key.
    Other,
}

/// Modifier keys held with a key.
#[derive(Clone, Copy, Debug, PartialEq, Eq, Structural)]
pub struct KeyModifiers {
    /// Shift.
    pub shift: bool,
    /// Control.
    pub control: bool,
    /// Alt (Option).
    pub alt: bool,
    /// Super (Command, Windows).
    pub super_key: bool,
}

/// A key press with its modifiers.
#[derive(Clone, Copy, Debug, PartialEq, Eq, Structural)]
pub struct Key {
    /// The key.
    pub code: KeyCode,
    /// The modifiers held.
    pub modifiers: KeyModifiers,
}

impl Key {
    /// Whether Control, Alt or Super is held: such a character key is a
    /// shortcut, not text.
    pub open spec fn is_shortcut(self) -> bool {
        self.modifiers.control || self.modifiers.alt || self.modifiers.super_key
    }

    /// Whether Control, Alt or Super is held.
    pub fn shortcut(&self) -> (r: bool)
        ensures
            r == self.is_shortcut(),
    {
        self.modifiers.control || self.modifiers.alt || self.modifiers.super_key
    }
}

/// What a key does to an open inline editor.
#[derive(Clone, Copy, Debug, PartialEq, Eq, Structural)]
pub enum EditorKeyAction {
    /// Persist the text and leave the editor.
    Finish,
    /// Persist the text and zoom into the edited node.
    Zoom,
    /// Persist the text and continue with a sibling draft.
    CreateSibling,
    /// Move the edited node under its previous sibling.
    Indent,
    /// Move the edited node after its parent.
    Outdent,
    /// Caret one visual line up, or into the previous bullet.
    LineUp,
    /// Caret one visual line down, or into the next bullet.
    LineDown,
    /// Caret to the start of the previous word.
    WordLeft,
    /// Caret one character left.
    CharLeft,
    /// Caret to the end of the next word.
    WordRight,
    /// Caret one character right.
    CharRight,
    /// Caret to the start of the text.
    TextStart,
    /// Caret to the start of its visual line.
    LineStart,
    /// Caret to the end of the text.
    TextEnd,
    /// Caret to the end of its visual line.
    LineEnd,
    /// Remove the word before the caret.
    DeleteWord,
    /// Remove the character before the caret.
    Backspace,
    /// Remove the character after the caret.
    Delete,
    /// Open tag completion for the edited node.
    Tag,
    /// Insert a character at the caret.
    Insert(char),
    /// Nothing.
    Ignore,
}

/// The editing action of a key: Escape finishes, Enter continues with a
/// sibling (with Control or Super it zooms), Tab and Shift-Tab change the
/// depth, arrows, Home and End move the caret (by word with Control or Alt,
/// over the whole text with Control or Super), Backspace and Delete remove
/// (a word with Alt or Control-W), Control-A and Control-E go to the line
/// edges, `#` opens tag completion and other plain characters are typed.
pub open spec fn editor_key_spec(key: Key) -> EditorKeyAction {
    let m = key.modifiers;
    match key.code {
        KeyCode::Esc => EditorKeyAction::Finish,
        KeyCode::Enter => if m.control || m.super_key {
            EditorKeyAction::Zoom
        } else {
            EditorKeyAction::CreateSibling
        },
        KeyCode::Tab => EditorKeyAction::Indent,
        KeyCode::BackTab => EditorKeyAction::Outdent,
        KeyCode::Up => EditorKeyAction::LineUp,
        KeyCode::Down => EditorKeyAction::LineDown,
        KeyCode::Left => if m.control || m.alt {
            EditorKeyAction::WordLeft
        } else {
            EditorKeyAction::CharLeft
        },
        KeyCode::Right => if m.control || m.alt {
            EditorKeyAction::WordRight
        } else {
            EditorKeyAction::CharRight
        },
        KeyCode::Home => if m.control || m.super_key {
            EditorKeyAction::TextStart
        } else {
            EditorKeyAction::LineStart
        },
        KeyCode::End => if m.control || m.super_key {
            EditorKeyAction::TextEnd
        } else {
            EditorKeyAction::LineEnd
        },
        KeyCode::Backspace => if m.alt {
            EditorKeyAction::DeleteWord
        } else {
            EditorKeyAction::Backspace
        },
        KeyCode::Delete => EditorKeyAction::Delete,
        KeyCode::Char(c) => if c == 'w' && m.control {
            EditorKeyAction::DeleteWord
        } else if c == 'a' && m.control {
            EditorKeyAction::LineStart
        } else if c == 'e' && m.control {
            EditorKeyAction::LineEnd
        } else if key.is_shortcut() {
            EditorKeyAction::Ignore
        } else if c == '#' {
            EditorKeyAction::Tag
        } else {
            EditorKeyAction::Insert(c)
        },
        _ => EditorKeyAction::Ignore,
    }
}

/// What a key does to an open inline editor.
pub fn editor_key_action(key: Key) -> (r: EditorKeyAction)
    ensures
        r == editor_key_spec(key),
{
    let m = key.modifiers;
    match key.code {
        KeyCode::Esc => EditorKeyAction::Finish,
        KeyCode::Enter => if m.control || m.super_key {
            EditorKeyAction::Zoom
        } else {
            EditorKeyAction::CreateSibling
        },
        KeyCode::Tab => EditorKeyAction::Indent,
        KeyCode::BackTab => EditorKeyAction::Outdent,
        KeyCode::Up => EditorKeyAction::LineUp,
        KeyCode::Down => EditorKeyAction::LineDown,
        KeyCode::Left => if m.control || m.alt {
            EditorKeyAction::WordLeft
        } else {
            EditorKeyAction::CharLeft
        },
        KeyCode::Right => if m.control || m.alt {
            EditorKeyAction::WordRight
        } else {
            EditorKeyAction::CharRight
        },
        KeyCode::Home => if m.control || m.super_key {
            EditorKeyAction::TextStart
        } else {
            EditorKeyAction::LineStart
        },
        KeyCode::End => if m.control || m.super_key {
            EditorKeyAction::TextEnd
        } else {
            EditorKeyAction::LineEnd
        },
        KeyCode::Backspace => if m.alt {
            EditorKeyAction::DeleteWord
        } else {
            EditorKeyAction::Backspace
        },
        KeyCode::Delete => EditorKeyAction::Delete,
        KeyCode::Char(c) => if c == 'w' && m.control {
            EditorKeyAction::DeleteWord
        } else if c == 'a' && m.control {
            EditorKeyAction::LineStart
        } else if c == 'e' && m.control {
            EditorKeyAction::LineEnd
        } else if key.shortcut() {
            EditorKeyAction::Ignore
        } else if c == '#' {
            EditorKeyAction::Tag
        } else {
            EditorKeyAction::Insert(c)
        },
        _ => EditorKeyAction::Ignore,
    }
}

/// In the inline editor, Tab indents and Shift-Tab outdents the edited
/// bullet, whatever modifiers are held, and no other key changes its depth;
/// Control or Alt with Left and Right, and only those, move the caret by a
/// word.
pub proof fn lemma_editor_depth_and_word_keys(key: Key)
    ensures
        (editor_key_spec(key) == EditorKeyAction::Indent) <==> key.code == KeyCode::Tab,
        (editor_key_spec(key) == EditorKeyAction::Outdent) <==> key.code == KeyCode::BackTab,
        (editor_key_spec(key) == EditorKeyAction::WordRight) <==> (key.code == KeyCode::Right && (
        key.modifiers.control || key.modifiers.alt)),
        (editor_key_spec(key) == EditorKeyAction::WordLeft) <==> (key.code == KeyCode::Left && (
        key.modifiers.control || key.modifiers.alt)),
{
}

/// What each key means to the inline editor: Escape finishes; Enter
/// continues with a sibling, or zooms with Control or Super; Up and Down
/// move by visual line; Left and Right move by character unless Control or
/// Alt is held; Home and End go to the line edge, or the text edge with
/// Control or Super, as Control-A and Control-E go to the line edge;
/// Backspace removes a character, or a word with Alt, as Control-W does;
/// Delete removes the next character; `#` opens tag completion and any other
/// character typed without a shortcut modifier is inserted.
pub proof fn lemma_editor_key_meanings(key: Key)
    ensures
        (editor_key_spec(key) == EditorKeyAction::Finish) <==> key.code == KeyCode::Esc,
        (editor_key_spec(key) == EditorKeyAction::Zoom) <==> (key.code == KeyCode::Enter && (
        key.modifiers.control || key.modifiers.super_key)),
        (editor_key_spec(key) == EditorKeyAction::CreateSibling) <==> (key.code == KeyCode::Enter
            && !key.modifiers.control && !key.modifiers.super_key),
        (editor_key_spec(key) == EditorKeyAction::LineUp) <==> key.code == KeyCode::Up,
        (editor_key_spec(key) == EditorKeyAction::LineDown) <==> key.code == KeyCode::Down,
        (editor_key_spec(key) == EditorKeyAction::CharLeft) <==> (key.code == KeyCode::Left
            && !key.modifiers.control && !key.modifiers.alt),
        (editor_key_spec(key) == EditorKeyAction::CharRight) <==> (key.code == KeyCode::Right
            && !key.modifiers.control && !key.modifiers.alt),
        (editor_key_spec(key) == EditorKeyAction::TextStart) <==> (key.code == KeyCode::Home && (
        key.modifiers.control || key.modifiers.super_key)),
        (editor_key_spec(key) == EditorKeyAction::TextEnd) <==> (key.code == KeyCode::End && (
        key.modifiers.control || key.modifiers.super_key)),
        (editor_key_spec(key) == EditorKeyAction::LineStart) <==> ((key.code == KeyCode::Home
            && !key.modifiers.control && !key.modifiers.super_key) || (key.code == KeyCode::Char('a')
            && key.modifiers.control)),
        (editor_key_spec(key) == EditorKeyAction::LineEnd) <==> ((key.code == KeyCode::End
            && !key.modifiers.control && !key.modifiers.super_key) || (key.code == KeyCode::Char('e')
            && key.modifiers.control)),
        (editor_key_spec(key) == EditorKeyAction::DeleteWord) <==> ((key.code == KeyCode::Backspace
            && key.modifiers.alt) || (key.code == KeyCode::Char('w') && key.modifiers.control)),
        (editor_key_spec(key) == EditorKeyAction::Backspace) <==> (key.code == KeyCode::Backspace
            && !key.modifiers.alt),
        (editor_key_spec(key) == EditorKeyAction::Delete) <==> key.code == KeyCode::Delete,
        (editor_key_spec(key) == EditorKeyAction::Tag) <==> (key.code == KeyCode::Char('#')
            && !key.is_shortcut()),
        forall|c: char|
            (#[trigger] editor_key_spec(key) == EditorKeyAction::Insert(c)) <==> (key.code
                == KeyCode::Char(c) && !key.is_shortcut() && c != '#'),
{
}

/// What a key does in normal (navigation) mode.
#[derive(Clone, Copy, Debug, PartialEq, Eq, Structural)]
pub enum NormalAction {
    /// Quit the client.
    Quit,
    /// Move the selection by this many visible rows.
    MoveSelection(isize),
    /// Move the selection by a page of this many rows.
    MovePage(isize),
    /// Select the first visible node.
    SelectFirst,
    /// Select the last visible node.
    SelectLast,
    /// Open the selected node, or select its first child.
    MoveRight,
    /// Close the selected node, or select its parent.
    MoveLeft,
    /// Zoom out to the parent view.
    ZoomOut,
    /// Expand or collapse the selected node.
    Toggle,
    /// Zoom into the selected node.
    Zoom,
    /// Open the search launcher.
    Search,
    /// Open the command launcher.
    Commands,
    /// Open tag completion for the selected node.
    Tag,
    /// Show the backlinks of the selected node.
    Backlinks,
    /// Show the help page.
    Help,
    /// Edit the selected node with the caret at its start.
    EditAtStart,
    /// Edit the selected node with the caret at its end.
    EditAtEnd,
    /// Draft a sibling after the selected node.
    NewSibling,
    /// Draft a sibling before the selected node.
    NewBefore,
    /// Draft a child of the selected node.
    NewChild,
    /// Wait for the second key of a two-key command.
    Prefix(char),
    /// Copy the selected subtree (`yy`).
    Copy,
    /// Copy and delete the selected subtree (`dd`).
    Cut,
    /// Paste after the selected node.
    Paste,
    /// Indent the selected node.
    Indent,
    /// Outdent the selected node.
    Outdent,
    /// Undo the latest change.
    Undo,
    /// Redo the latest undone change.
    Redo,
    /// Nothing.
    Ignore,
}

/// The normal-mode action of a key, given the first key of a pending
/// two-key command (`y` or `d`): repeating it completes the command; any
/// other key drops it and acts on its own.
pub open spec fn normal_key_spec(pending: Option<char>, key: Key) -> NormalAction {
    let ctrl = key.modifiers.control;
    if pending matches Some(p) && key.code == KeyCode::Char(p) {
        if pending == Some('y') {
            NormalAction::Copy
        } else {
            NormalAction::Cut
        }
    } else {
        match key.code {
            KeyCode::Char(c) => if c == 'q' {
                NormalAction::Quit
            } else if c == 'j' {
                NormalAction::MoveSelection(1isize)
            } else if c == 'k' {
                NormalAction::MoveSelection(-1isize)
            } else if c == 'd' && ctrl {
                NormalAction::MovePage(10isize)
            } else if c == 'u' && ctrl {
                NormalAction::MovePage(-10isize)
            } else if c == 'g' {
                NormalAction::SelectFirst
            } else if c == 'G' {
                NormalAction::SelectLast
            } else if c == 'l' {
                NormalAction::MoveRight
            } else if c == 'h' {
                NormalAction::MoveLeft
            } else if c == 'H' {
                NormalAction::ZoomOut
            } else if c == ' ' {
                NormalAction::Toggle
            } else if c == '/' {
                NormalAction::Search
            } else if c == ':' {
                NormalAction::Commands
            } else if c == '#' {
                NormalAction::Tag
            } else if c == 'b' {
                NormalAction::Backlinks
            } else if c == '?' {
                NormalAction::Help
            } else if c == 'i' || c == 'I' {
                NormalAction::EditAtStart
            } else if c == 'a' || c == 'A' {
                NormalAction::EditAtEnd
            } else if c == 'o' {
                NormalAction::NewSibling
            } else if c == 'O' {
                NormalAction::NewBefore
            } else if c == 'c' {
                NormalAction::NewChild
            } else if c == 'y' || c == 'd' {
                NormalAction::Prefix(c)
            } else if c == 'p' {
                NormalAction::Paste
            } else if c == 'u' {
                NormalAction::Undo
            } else if c == 'r' && ctrl {
                NormalAction::Redo
            } else {
                NormalAction::Ignore
            },
            KeyCode::Down => NormalAction::MoveSelection(1isize),
            KeyCode::Up => NormalAction::MoveSelection(-1isize),
            KeyCode::PageDown => NormalAction::MovePage(10isize),
            KeyCode::PageUp => NormalAction::MovePage(-10isize),
            KeyCode::Home => NormalAction::SelectFirst,
            KeyCode::End => NormalAction::SelectLast,
            KeyCode::Right => NormalAction::MoveRight,
            KeyCode::Left => NormalAction::MoveLeft,
            KeyCode::Enter => NormalAction::Zoom,
            KeyCode::Tab => NormalAction::Indent,
            KeyCode::BackTab => NormalAction::Outdent,
            _ => NormalAction::Ignore,
        }
    }
}

/// The normal-mode action of a key, given the pending first key of a
/// two-key command.
pub fn normal_key_action(pending: Option<char>, key: Key) -> (r: NormalAction)
    requires
        pending matches Some(p) ==> p == 'y' || p == 'd',
    ensures
        r == normal_key_spec(pending, key),
{
    let ctrl = key.modifiers.control;
    if let Some(p) = pending {
        if key.code == KeyCode::Char(p) {
            return if p == 'y' {
                NormalAction::Copy
            } else {
                NormalAction::Cut
            };
        }
    }
    match key.code {
        KeyCode::Char(c) => if c == 'q' {
            NormalAction::Quit
        } else if c == 'j' {
            NormalAction::MoveSelection(1)
        } else if c == 'k' {
            NormalAction::MoveSelection(-1)
        } else if c == 'd' && ctrl {
            NormalAction::MovePage(10)
        } else if c == 'u' && ctrl {
            NormalAction::MovePage(-10)
        } else if c == 'g' {
            NormalAction::SelectFirst
        } else if c == 'G' {
            NormalAction::SelectLast
        } else if c == 'l' {
            NormalAction::MoveRight
        } else if c == 'h' {
            NormalAction::MoveLeft
        } else if c == 'H' {
            NormalAction::ZoomOut
        } else if c == ' ' {
            NormalAction::Toggle
        } else if c == '/' {
            NormalAction::Search
        } else if c == ':' {
            NormalAction::Commands
        } else if c == '#' {
            NormalAction::Tag
        } else if c == 'b' {
            NormalAction::Backlinks
        } else if c == '?' {
            NormalAction::Help
        } else if c == 'i' || c == 'I' {
            NormalAction::EditAtStart
        } else if c == 'a' || c == 'A' {
            NormalAction::EditAtEnd
        } else if c == 'o' {
            NormalAction::NewSibling
        } else if c == 'O' {
            NormalAction::NewBefore
        } else if c == 'c' {
            NormalAction::NewChild
        } else if c == 'y' || c == 'd' {
            NormalAction::Prefix(c)
        } else if c == 'p' {
            NormalAction::Paste
        } else if c == 'u' {
            NormalAction::Undo
        } else if c == 'r' && ctrl {
            NormalAction::Redo
        } else {
            NormalAction::Ignore
        },
        KeyCode::Down => NormalAction::MoveSelection(1),
        KeyCode::Up => NormalAction::MoveSelection(-1),
        KeyCode::PageDown => NormalAction::MovePage(10),
        KeyCode::PageUp => NormalAction::MovePage(-10),
        KeyCode::Home => NormalAction::SelectFirst,
        KeyCode::End => NormalAction::SelectLast,
        KeyCode::Right => NormalAction::MoveRight,
        KeyCode::Left => NormalAction::MoveLeft,
        KeyCode::Enter => NormalAction::Zoom,
        KeyCode::Tab => NormalAction::Indent,
        KeyCode::BackTab => NormalAction::Outdent,
        _ => NormalAction::Ignore,
    }
}

/// Tab and Shift-Tab change the depth of a bullet in the same way in
/// normal mode as in the inline editor: Tab indents and Shift-Tab outdents
/// in both, and no other key indents or outdents in either.
pub proof fn lemma_depth_keys_agree(pending: Option<char>, key: Key)
    requires
        pending matches Some(p) ==> p == 'y' || p == 'd',
    ensures
        (normal_key_spec(pending, key) == NormalAction::Indent) <==> key.code == KeyCode::Tab,
        (normal_key_spec(pending, key) == NormalAction::Outdent) <==> key.code == KeyCode::BackTab,
        (normal_key_spec(pending, key) == NormalAction::Indent) <==> (editor_key_spec(key)
            == EditorKeyAction::Indent),
        (normal_key_spec(pending, key) == NormalAction::Outdent) <==> (editor_key_spec(key)
            == EditorKeyAction::Outdent),
{
}

/// The two-key commands of normal mode: `yy` copies and `dd` cuts; any
/// other key after a pending `y` or `d` drops it and acts as it would alone.
pub proof fn lemma_normal_pending_keys(pending: Option<char>, key: Key)
    requires
        pending matches Some(p) ==> p == 'y' || p == 'd',
    ensures
        (normal_key_spec(pending, key) == NormalAction::Copy) <==> (pending == Some('y')
            && key.code == KeyCode::Char('y')),
        (normal_key_spec(pending, key) == NormalAction::Cut) <==> (pending == Some('d')
            && key.code == KeyCode::Char('d')),
        !(pending matches Some(p) && key.code == KeyCode::Char(p)) ==> normal_key_spec(pending, key)
            == normal_key_spec(None, key),
{
}

/// What each key means in normal mode, with no two-key command pending:
/// `j` and Down select the next row and `k` and Up the previous one;
/// Page Down and Control-D go ten rows down, Page Up and Control-U ten rows
/// up; `g` and Home select the first row, `G` and End the last; `l` and
/// Right expand, `h` and Left collapse; Enter zooms in and `H` zooms out;
/// Space toggles; `y` and `d` (without Control) start a two-key command;
/// `q` quits, `p` pastes, `u` undoes and Control-R redoes.
pub proof fn lemma_normal_key_meanings(key: Key)
    ensures
        (normal_key_spec(None, key) == NormalAction::MoveSelection(1isize)) <==> (key.code
            == KeyCode::Down || key.code == KeyCode::Char('j')),
        (normal_key_spec(None, key) == NormalAction::MoveSelection(-1isize)) <==> (key.code
            == KeyCode::Up || key.code == KeyCode::Char('k')),
        (normal_key_spec(None, key) == NormalAction::MovePage(10isize)) <==> (key.code
            == KeyCode::PageDown || (key.code == KeyCode::Char('d') && key.modifiers.control)),
        (normal_key_spec(None, key) == NormalAction::MovePage(-10isize)) <==> (key.code
            == KeyCode::PageUp || (key.code == KeyCode::Char('u') && key.modifiers.control)),
        (normal_key_spec(None, key) == NormalAction::SelectFirst) <==> (key.code == KeyCode::Home
            || key.code == KeyCode::Char('g')),
        (normal_key_spec(None, key) == NormalAction::SelectLast) <==> (key.code == KeyCode::End
            || key.code == KeyCode::Char('G')),
        (normal_key_spec(None, key) == NormalAction::MoveRight) <==> (key.code == KeyCode::Right
            || key.code == KeyCode::Char('l')),
        (normal_key_spec(None, key) == NormalAction::MoveLeft) <==> (key.code == KeyCode::Left
            || key.code == KeyCode::Char('h')),
        (normal_key_spec(None, key) == NormalAction::Zoom) <==> key.code == KeyCode::Enter,
        (normal_key_spec(None, key) == NormalAction::ZoomOut) <==> key.code == KeyCode::Char('H'),
        (normal_key_spec(None, key) == NormalAction::Toggle) <==> key.code == KeyCode::Char(' '),
        (normal_key_spec(None, key) == NormalAction::Quit) <==> key.code == KeyCode::Char('q'),
        (normal_key_spec(None, key) == NormalAction::Paste) <==> key.code == KeyCode::Char('p'),
        (normal_key_spec(None, key) == NormalAction::Undo) <==> (key.code == KeyCode::Char('u')
            && !key.modifiers.control),
        (normal_key_spec(None, key) == NormalAction::Redo) <==> (key.code == KeyCode::Char('r')
            && key.modifiers.control),
        forall|c: char|
            (#[trigger] normal_key_spec(None, key) == NormalAction::Prefix(c)) <==> (key.code
                == KeyCode::Char(c) && (c == 'y' || (c == 'd' && !key.modifiers.control))),
{
}

/// Which part of the client a key goes to.
#[derive(Clone, Copy, Debug, PartialEq, Eq, Structural)]
pub enum KeyRoute {
    /// Control-C: persist any edit and quit.
    Quit,
    /// Escape or `?` on the help page: close it.
    CloseHelp,
    /// Any other key on the help page: nothing.
    Nothing,
    /// Reference completion.
    Reference,
    /// The backlinks.
    Backlinks,
    /// Tag completion.
    Tag,
    /// A launcher.
    Launcher,
    /// The inline editor.
    Editor,
    /// Navigation.
    Normal,
}

/// Where a key goes: Control-C quits from anywhere; the help page only
/// closes; otherwise the first open of reference completion, backlinks,
/// tag completion, a launcher and the editor gets it, else navigation.
pub open spec fn key_route_spec(
    key: Key,
    help: bool,
    reference: bool,
    backlinks: bool,
    tag: bool,
    launcher: bool,
    editing: bool,
) -> KeyRoute {
    if key.code == KeyCode::Char('c') && key.modifiers.control {
        KeyRoute::Quit
    } else if help {
        if key.code == KeyCode::Esc || key.code == KeyCode::Char('?') {
            KeyRoute::CloseHelp
        } else {
            KeyRoute::Nothing
        }
    } else if reference {
        KeyRoute::Reference
    } else if backlinks {
        KeyRoute::Backlinks
    } else if tag {
        KeyRoute::Tag
    } else if launcher {
        KeyRoute::Launcher
    } else if editing {
        KeyRoute::Editor
    } else {
        KeyRoute::Normal
    }
}

/// Where a key goes.
pub fn key_route(
    key: Key,
    help: bool,
    reference: bool,
    backlinks: bool,
    tag: bool,
    launcher: bool,
    editing: bool,
) -> (r: KeyRoute)
    ensures
        r == key_route_spec(key, help, reference, backlinks, tag, launcher, editing),
{
    let control_c = match key.code {
        KeyCode::Char(c) => c == 'c' && key.modifiers.control,
        _ => false,
    };
    if control_c {
        KeyRoute::Quit
    } else if help {
        match key.code {
            KeyCode::Esc => KeyRoute::CloseHelp,
            KeyCode::Char(c) => if c == '?' {
                KeyRoute::CloseHelp
            } else {
                KeyRoute::Nothing
            },
            _ => KeyRoute::Nothing,
        }
    } else if reference {
        KeyRoute::Reference
    } else if backlinks {
        KeyRoute::Backlinks
    } else if tag {
        KeyRoute::Tag
    } else if launcher {
        KeyRoute::Launcher
    } else if editing {
        KeyRoute::Editor
    } else {
        KeyRoute::Normal
    }
}

/// What a key does in the backlinks.
#[derive(Clone, Copy, Debug, PartialEq, Eq, Structural)]
pub enum BacklinkKeyAction {
    /// Escape or `b`: close the backlinks.
    Close,
    /// Enter: focus the node of the selected context.
    Open,
    /// Up or `k`: select the previous context.
    Up,
    /// Down or `j`: select the next context.
    Down,
    /// Nothing.
    Ignore,
}

/// What a key does in the backlinks.
pub open spec fn backlink_key_spec(key: Key) -> BacklinkKeyAction {
    match key.code {
        KeyCode::Esc => BacklinkKeyAction::Close,
        KeyCode::Enter => BacklinkKeyAction::Open,
        KeyCode::Up => BacklinkKeyAction::Up,
        KeyCode::Down => BacklinkKeyAction::Down,
        KeyCode::Char(c) => if c == 'b' {
            BacklinkKeyAction::Close
        } else if c == 'k' {
            BacklinkKeyAction::Up
        } else if c == 'j' {
            BacklinkKeyAction::Down
        } else {
            BacklinkKeyAction::Ignore
        },
        _ => BacklinkKeyAction::Ignore,
    }
}

/// What a key does in the backlinks.
pub fn backlink_key_action(key: Key) -> (r: BacklinkKeyAction)
    ensures
        r == backlink_key_spec(key),
{
    match key.code {
        KeyCode::Esc => BacklinkKeyAction::Close,
        KeyCode::Enter => BacklinkKeyAction::Open,
        KeyCode::Up => BacklinkKeyAction::Up,
        KeyCode::Down => BacklinkKeyAction::Down,
        KeyCode::Char(c) => if c == 'b' {
            BacklinkKeyAction::Close
        } else if c == 'k' {
            BacklinkKeyAction::Up
        } else if c == 'j' {
            BacklinkKeyAction::Down
        } else {
            BacklinkKeyAction::Ignore
        },
        _ => BacklinkKeyAction::Ignore,
    }
}

} // verus!
