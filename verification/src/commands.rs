//! The catalog of commands offered by the `:` launcher.

use vstd::prelude::*;

verus! {

/// A command of the `:` launcher.
#[derive(Clone, Copy, Debug, PartialEq, Eq, Structural)]
pub enum Command {
    /// Draft a sibling after the selected bullet.
    New,
    /// Draft a sibling before the selected bullet.
    NewBefore,
    /// Draft a child under the selected bullet.
    NewChild,
    /// Focus the selected bullet.
    Zoom,
    /// Return to the parent view.
    ZoomOut,
    /// Open today's Journal page.
    Today,
    /// Open the workspace root.
    Root,
    /// Collapse or select the parent bullet.
    FocusParent,
    /// Expand or select the first child.
    FocusChild,
    /// Expand or collapse the selected bullet.
    Toggle,
    /// Move the bullet under its previous sibling.
    Indent,
    /// Move the bullet after its parent.
    Outdent,
    /// Copy and delete the selected subtree.
    Delete,
    /// Copy the selected subtree.
    Copy,
    /// Paste after the selected bullet.
    Paste,
    /// Undo the latest change.
    Undo,
    /// Redo the latest undone change.
    Redo,
    /// Open tag completion for the selected bullet.
    Tag,
    /// Jump to contextual backlinks.
    Backlinks,
    /// Always show contextual backlinks.
    BacklinksOn,
    /// Hide contextual backlinks until requested.
    BacklinksOff,
    /// Show hierarchy lines.
    LinesOn,
    /// Hide hierarchy lines.
    LinesOff,
    /// Synchronize the current workspace now.
    Sync,
    /// Choose or create another workspace folder.
    Workspace,
    /// Close the client.
    Quit,
}

/// A command with the name typed in the launcher and its description.
#[derive(Clone, Copy, Debug, PartialEq, Eq)]
pub struct CommandEntry {
    /// The command.
    pub command: Command,
    /// Name matched by the launcher.
    pub name: &'static str,
    /// One-line description.
    pub hint: &'static str,
}

fn entry(command: Command, name: &'static str, hint: &'static str) -> (r: CommandEntry)
    ensures
        r.command == command && r.name == name && r.hint == hint,
{
    CommandEntry { command, name, hint }
}

/// The catalog of commands, in the order the launcher lists them.
pub open spec fn command_catalog() -> Seq<CommandEntry> {
    seq![
        CommandEntry { command: Command::New, name: "new", hint: "create a sibling after the selected bullet" },
        CommandEntry { command: Command::NewBefore, name: "new_before", hint: "create a sibling before the selected bullet" },
        CommandEntry { command: Command::NewChild, name: "new_child", hint: "create a child under the selected bullet" },
        CommandEntry { command: Command::Zoom, name: "zoom", hint: "focus the selected bullet" },
        CommandEntry { command: Command::ZoomOut, name: "zoom_out", hint: "return to the parent view" },
        CommandEntry { command: Command::Today, name: "today", hint: "open today's Journal page" },
        CommandEntry { command: Command::Root, name: "root", hint: "open the workspace root" },
        CommandEntry { command: Command::FocusParent, name: "focus_parent", hint: "collapse or select the parent bullet" },
        CommandEntry { command: Command::FocusChild, name: "focus_child", hint: "expand or select the first child" },
        CommandEntry { command: Command::Toggle, name: "toggle", hint: "expand or collapse the selected bullet" },
        CommandEntry { command: Command::Indent, name: "indent", hint: "move the bullet under its previous sibling" },
        CommandEntry { command: Command::Outdent, name: "outdent", hint: "move the bullet after its parent" },
        CommandEntry { command: Command::Delete, name: "delete", hint: "copy and delete the selected subtree" },
        CommandEntry { command: Command::Copy, name: "copy", hint: "copy the selected subtree" },
        CommandEntry { command: Command::Paste, name: "paste", hint: "paste after the selected bullet" },
        CommandEntry { command: Command::Undo, name: "undo", hint: "undo the latest change" },
        CommandEntry { command: Command::Redo, name: "redo", hint: "redo the latest undone change" },
        CommandEntry { command: Command::Tag, name: "tag", hint: "open tag completion for the selected bullet" },
        CommandEntry { command: Command::Backlinks, name: "backlinks", hint: "jump to contextual backlinks" },
        CommandEntry { command: Command::BacklinksOn, name: "backlinks on", hint: "always show contextual backlinks" },
        CommandEntry { command: Command::BacklinksOff, name: "backlinks off", hint: "hide contextual backlinks until requested" },
        CommandEntry { command: Command::LinesOn, name: "lines on", hint: "show hierarchy lines" },
        CommandEntry { command: Command::LinesOff, name: "lines off", hint: "hide hierarchy lines" },
        CommandEntry { command: Command::Sync, name: "sync", hint: "synchronize the current workspace now" },
        CommandEntry { command: Command::Workspace, name: "workspace", hint: "choose or create another workspace folder" },
        CommandEntry { command: Command::Quit, name: "quit", hint: "close Vrac TUI" },
    ]
}

/// Number of commands in the catalog.
pub const COMMAND_COUNT: usize = 26;

/// The commands of the launcher, in the order they are offered: one entry
/// for each command, in the order the commands are declared.
pub fn commands() -> (r: Vec<CommandEntry>)
    ensures
        r@ == command_catalog(),
        r@.len() == COMMAND_COUNT,
        r@[0].command == Command::New,
        r@[1].command == Command::NewBefore,
        r@[2].command == Command::NewChild,
        r@[3].command == Command::Zoom,
        r@[4].command == Command::ZoomOut,
        r@[5].command == Command::Today,
        r@[6].command == Command::Root,
        r@[7].command == Command::FocusParent,
        r@[8].command == Command::FocusChild,
        r@[9].command == Command::Toggle,
        r@[10].command == Command::Indent,
        r@[11].command == Command::Outdent,
        r@[12].command == Command::Delete,
        r@[13].command == Command::Copy,
        r@[14].command == Command::Paste,
        r@[15].command == Command::Undo,
        r@[16].command == Command::Redo,
        r@[17].command == Command::Tag,
        r@[18].command == Command::Backlinks,
        r@[19].command == Command::BacklinksOn,
        r@[20].command == Command::BacklinksOff,
        r@[21].command == Command::LinesOn,
        r@[22].command == Command::LinesOff,
        r@[23].command == Command::Sync,
        r@[24].command == Command::Workspace,
        r@[25].command == Command::Quit,
{
    vec![
        entry(Command::New, "new", "create a sibling after the selected bullet"),
        entry(Command::NewBefore, "new_before", "create a sibling before the selected bullet"),
        entry(Command::NewChild, "new_child", "create a child under the selected bullet"),
        entry(Command::Zoom, "zoom", "focus the selected bullet"),
        entry(Command::ZoomOut, "zoom_out", "return to the parent view"),
        entry(Command::Today, "today", "open today's Journal page"),
        entry(Command::Root, "root", "open the workspace root"),
        entry(Command::FocusParent, "focus_parent", "collapse or select the parent bullet"),
        entry(Command::FocusChild, "focus_child", "expand or select the first child"),
        entry(Command::Toggle, "toggle", "expand or collapse the selected bullet"),
        entry(Command::Indent, "indent", "move the bullet under its previous sibling"),
        entry(Command::Outdent, "outdent", "move the bullet after its parent"),
        entry(Command::Delete, "delete", "copy and delete the selected subtree"),
        entry(Command::Copy, "copy", "copy the selected subtree"),
        entry(Command::Paste, "paste", "paste after the selected bullet"),
        entry(Command::Undo, "undo", "undo the latest change"),
        entry(Command::Redo, "redo", "redo the latest undone change"),
        entry(Command::Tag, "tag", "open tag completion for the selected bullet"),
        entry(Command::Backlinks, "backlinks", "jump to contextual backlinks"),
        entry(Command::BacklinksOn, "backlinks on", "always show contextual backlinks"),
        entry(Command::BacklinksOff, "backlinks off", "hide contextual backlinks until requested"),
        entry(Command::LinesOn, "lines on", "show hierarchy lines"),
        entry(Command::LinesOff, "lines off", "hide hierarchy lines"),
        entry(Command::Sync, "sync", "synchronize the current workspace now"),
        entry(Command::Workspace, "workspace", "choose or create another workspace folder"),
        entry(Command::Quit, "quit", "close Vrac TUI"),
    ]
}

/// What the session loop must do after a key, beyond the outline itself.
#[derive(Clone, Copy, Debug, PartialEq, Eq, Structural)]
pub enum Action {
    /// Keep running.
    Continue,
    /// Synchronize the workspace now.
    Sync,
    /// Open the workspace folder picker.
    ChooseWorkspace,
    /// Turn hierarchy lines on or off, persistently.
    SetLines(bool),
    /// Show or hide contextual backlinks, persistently.
    SetBacklinks(bool),
    /// Quit the client.
    Quit,
}

/// The session request of a command that the session loop carries out,
/// or `None` for a command that works on the outline.
pub open spec fn command_request_spec(command: Command) -> Option<Action> {
    match command {
        Command::BacklinksOn => Some(Action::SetBacklinks(true)),
        Command::BacklinksOff => Some(Action::SetBacklinks(false)),
        Command::LinesOn => Some(Action::SetLines(true)),
        Command::LinesOff => Some(Action::SetLines(false)),
        Command::Sync => Some(Action::Sync),
        Command::Workspace => Some(Action::ChooseWorkspace),
        Command::Quit => Some(Action::Quit),
        _ => None,
    }
}

/// The session request of a command, or `None` for an outline command.
pub fn command_request(command: Command) -> (r: Option<Action>)
    ensures
        r == command_request_spec(command),
{
    match command {
        Command::BacklinksOn => Some(Action::SetBacklinks(true)),
        Command::BacklinksOff => Some(Action::SetBacklinks(false)),
        Command::LinesOn => Some(Action::SetLines(true)),
        Command::LinesOff => Some(Action::SetLines(false)),
        Command::Sync => Some(Action::Sync),
        Command::Workspace => Some(Action::ChooseWorkspace),
        Command::Quit => Some(Action::Quit),
        _ => None,
    }
}

} // verus!
