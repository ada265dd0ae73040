//! Launch choices of the terminal client and the status messages of its
//! session loop.

use vstd::prelude::*;

use crate::text::{concat2, concat3, decimal, decimal_text};
use crate::workspace::SyncReport;

verus! {

/// How the terminal client chooses its initial workspace.
#[derive(Debug)]
pub enum WorkspaceSelection {
    /// The folder remembered from the previous session.
    Remembered,
    /// This folder.
    Folder(std::path::PathBuf),
    /// A folder picked interactively.
    Select,
}

/// Context supplied by the product binary when launching the terminal client.
#[derive(Debug)]
pub struct LaunchOptions {
    /// Local application data.
    pub data_directory: std::path::PathBuf,
    /// How the workspace is chosen.
    pub workspace: WorkspaceSelection,
}

/// Seconds between two automatic synchronization rounds.
pub const SYNC_INTERVAL_SECONDS: u64 = 2;

/// Whether a chosen folder may be created when it does not exist: only one
/// given explicitly may.
pub fn may_create_folder(selection: &WorkspaceSelection) -> (r: bool)
    ensures
        r == (*selection is Folder),
{
    match selection {
        WorkspaceSelection::Folder(_) => true,
        _ => false,
    }
}

/// The report of a synchronization round: packages received and sent.
pub open spec fn synced_text(report: SyncReport) -> Seq<char> {
    "Synced: "@ + decimal(report.imported as nat) + " received, "@ + decimal(
        report.published as nat,
    ) + " sent"@
}

/// The status line that reports a synchronization round.
pub fn synced_status(report: SyncReport) -> (r: String)
    ensures
        r@ == synced_text(report),
{
    let imported = decimal_text(report.imported as u64);
    let mut r = concat3("Synced: ", imported.as_str(), " received, ");
    r.append(decimal_text(report.published as u64).as_str());
    r.append(" sent");
    r
}

/// The status shown after opening a workspace: its initial round when it
/// moved any package.
pub fn initial_sync_status(report: SyncReport) -> (r: Option<String>)
    ensures
        report.imported > 0 || report.published > 0 ==> (r matches Some(s) && s@ == synced_text(report)),
        report.imported == 0 && report.published == 0 ==> r is None,
{
    if report.imported > 0 || report.published > 0 {
        Some(synced_status(report))
    } else {
        None
    }
}

/// What follows a successful synchronization round.
#[derive(Debug)]
pub struct SyncFollowUp {
    /// Reload the outline now.
    pub reload_now: bool,
    /// Reload the outline once the open editor closes.
    pub reload_after_edit: bool,
    /// Status line to show, if any.
    pub status: Option<String>,
}

/// What follows a successful round: received packages reload the outline
/// (after the open editor closes, if one is open); the round is reported
/// when it was asked for or received packages.
pub fn after_sync(report: SyncReport, explicit: bool, editing: bool) -> (r: SyncFollowUp)
    ensures
        r.reload_now == (report.imported > 0 && !editing),
        r.reload_after_edit == (report.imported > 0 && editing),
        (explicit || report.imported > 0) ==> (r.status matches Some(s) && s@ == synced_text(report)),
        !(explicit || report.imported > 0) ==> r.status is None,
{
    let received = report.imported > 0;
    SyncFollowUp {
        reload_now: received && !editing,
        reload_after_edit: received && editing,
        status: if explicit || received {
            Some(synced_status(report))
        } else {
            None
        },
    }
}

/// The status after turning a presentation setting on or off.
pub fn setting_status(setting: &str, enabled: bool) -> (r: String)
    ensures
        r@ == setting@ + (if enabled {
            " enabled"@
        } else {
            " disabled"@
        }),
{
    if enabled {
        concat2(setting, " enabled")
    } else {
        concat2(setting, " disabled")
    }
}

/// The status after hierarchy lines are turned on or off.
pub fn lines_status(enabled: bool) -> (r: String)
    ensures
        r@ == "Hierarchy lines"@ + (if enabled {
            " enabled"@
        } else {
            " disabled"@
        }),
{
    setting_status("Hierarchy lines", enabled)
}

/// The status after contextual backlinks are turned on or off.
pub fn backlinks_status(enabled: bool) -> (r: String)
    ensures
        r@ == "Contextual backlinks"@ + (if enabled {
            " enabled"@
        } else {
            " disabled"@
        }),
{
    setting_status("Contextual backlinks", enabled)
}

/// The status after a synchronization round failed.
pub fn sync_error_status(error: &str) -> (r: String)
    ensures
        r@ == "Sync error: "@ + error@,
{
    concat2("Sync error: ", error)
}

/// The status after the settings file could not be written.
pub fn config_error_status(error: &str) -> (r: String)
    ensures
        r@ == "Config error: "@ + error@,
{
    concat2("Config error: ", error)
}

/// The status that asks for another folder when the current workspace
/// cannot be opened.
pub fn unopenable_status(error: &str) -> (r: String)
    ensures
        r@ == "Current workspace cannot be opened ("@ + error@ + "). Choose another folder."@,
{
    concat3("Current workspace cannot be opened (", error, "). Choose another folder.")
}

/// The message of a remembered folder that no longer exists.
pub fn unavailable_folder_message(folder: &str) -> (r: String)
    ensures
        r@ == "the configured workspace folder is unavailable: "@ + folder@
            + "\nRun `vrac workspace select` or pass another folder with `vrac --workspace`."@,
{
    concat3(
        "the configured workspace folder is unavailable: ",
        folder,
        "\nRun `vrac workspace select` or pass another folder with `vrac --workspace`.",
    )
}

/// Where a folder argument points once `~` is expanded.
#[derive(Clone, Debug, PartialEq, Eq)]
pub enum HomeExpansion {
    /// The home directory itself (`~`).
    Home,
    /// A path below the home directory (`~/rest` or `~\rest`).
    UnderHome(String),
    /// The argument as it is.
    Unchanged,
}

/// How `~` expands in a folder argument.
pub open spec fn home_expansion_spec(value: Seq<char>) -> Option<Option<Seq<char>>> {
    if value == seq!['~'] {
        Some(None)
    } else if value.len() >= 2 && value[0] == '~' && (value[1] == '/' || value[1] == '\\') {
        Some(Some(value.skip(2)))
    } else {
        None
    }
}

/// How `~` expands in a folder argument.
pub fn home_expansion(value: &str) -> (r: HomeExpansion)
    ensures
        match home_expansion_spec(value@) {
            Some(None) => r is Home,
            Some(Some(rest)) => r matches HomeExpansion::UnderHome(s) && s@ == rest,
            None => r is Unchanged,
        },
{
    let n = value.unicode_len();
    if n == 1 && value.get_char(0) == '~' {
        assert(value@ =~= seq!['~']);
        return HomeExpansion::Home;
    }
    if n >= 2 && value.get_char(0) == '~' && (value.get_char(1) == '/' || value.get_char(1) == '\\') {
        let rest = String::from_str(value.substring_char(2, n));
        assert(rest@ =~= value@.skip(2));
        return HomeExpansion::UnderHome(rest);
    }
    proof {
        if value@ == seq!['~'] {
            assert(value@.len() == 1);
        }
    }
    HomeExpansion::Unchanged
}

} // verus!
