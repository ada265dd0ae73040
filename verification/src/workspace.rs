//! The provider folder of a workspace: its remembered location, the
//! identifiers it stores, and the report of a synchronization round.

use vstd::prelude::*;

use crate::error::Error as EngineError;
use crate::hex::{all_hex, decode_hex, decode_hex_spec, hex_text, lemma_hex_round_trip};
use crate::identity::{SyncDeviceId, WorkspaceId};
use crate::outline::{trim_chars, trimmed};
use crate::text::{chars_of, concat2, push_char, string_of};

verus! {

#[verifier::external_type_specification]
#[verifier::external_body]
pub struct ExPathBuf(std::path::PathBuf);

/// Name of the file holding the workspace identifier in a provider folder.
pub const WORKSPACE_ID_FILE: &'static str = "workspace-id";

/// Name of the checkpoint file in a provider folder.
pub const CHECKPOINT_FILE: &'static str = "checkpoint.vrac";

/// Name of the directory of synchronization packages in a provider folder.
pub const CHANGES_DIRECTORY: &'static str = "changes";

/// Name of the file that remembers the provider folder in local data.
pub const CONFIG_FILE: &'static str = "workspace-folder";

/// A validated provider folder associated with one Vrac workspace.
pub struct Workspace {
    folder: std::path::PathBuf,
}

impl Workspace {
    /// The provider folder of the workspace.
    pub closed spec fn folder_buf(self) -> std::path::PathBuf {
        self.folder
    }

    /// The workspace of a provider folder that was validated.
    pub fn new(folder: std::path::PathBuf) -> (r: Self)
        ensures
            r.folder_buf() == folder,
    {
        Workspace { folder }
    }

    /// Returns the provider folder associated with this workspace.
    pub fn folder(&self) -> (r: &std::path::PathBuf)
        ensures
            *r == self.folder_buf(),
    {
        &self.folder
    }
}

/// Outcome of one synchronization round.
#[derive(Clone, Copy, Debug, Eq, PartialEq, Structural)]
pub struct SyncReport {
    /// Packages imported into the active local database.
    pub imported: usize,
    /// Packages published to the provider folder.
    pub published: usize,
}

impl Default for SyncReport {
    fn default() -> (r: Self)
        ensures
            r.imported == 0 && r.published == 0,
    {
        SyncReport { imported: 0, published: 0 }
    }
}

/// Error returned while opening, configuring, or synchronizing a workspace.
#[derive(Debug)]
pub enum Error {
    /// Failure reported by the storage engine.
    Engine(EngineError),
    /// Failure reported by the local filesystem.
    Io(std::io::Error),
    /// Invalid or inconsistent workspace configuration.
    InvalidWorkspace(String),
}

/// An invalid-workspace error with the given message.
pub open spec fn invalid(error: Error, message: Seq<char>) -> bool {
    error matches Error::InvalidWorkspace(m) && m@ == message
}

impl Error {
    /// The human-readable message of the error: the engine's message, the
    /// filesystem's, or the configuration problem.
    pub fn to_string(&self) -> (s: String)
        ensures
            match self {
                Error::Engine(e) => !(e is Io) ==> s@ == crate::error::error_message(*e),
                Error::Io(_) => true,
                Error::InvalidWorkspace(m) => s@ == m@,
            },
    {
        match self {
            Error::Engine(e) => e.to_string(),
            Error::Io(e) => crate::error::io_error_text(e),
            Error::InvalidWorkspace(m) => m.clone(),
        }
    }
}

impl From<String> for Error {
    fn from(message: String) -> (r: Self) {
        Error::InvalidWorkspace(message)
    }
}

impl vstd::std_specs::convert::FromSpecImpl<String> for Error {
    open spec fn obeys_from_spec() -> bool {
        true
    }

    open spec fn from_spec(message: String) -> Self {
        Error::InvalidWorkspace(message)
    }
}

impl From<EngineError> for Error {
    fn from(error: EngineError) -> (r: Self) {
        Error::Engine(error)
    }
}

impl vstd::std_specs::convert::FromSpecImpl<EngineError> for Error {
    open spec fn obeys_from_spec() -> bool {
        true
    }

    open spec fn from_spec(error: EngineError) -> Self {
        Error::Engine(error)
    }
}

impl From<std::io::Error> for Error {
    fn from(error: std::io::Error) -> (r: Self) {
        Error::Io(error)
    }
}

impl vstd::std_specs::convert::FromSpecImpl<std::io::Error> for Error {
    open spec fn obeys_from_spec() -> bool {
        true
    }

    open spec fn from_spec(error: std::io::Error) -> Self {
        Error::Io(error)
    }
}

fn invalid_workspace(message: &str) -> (r: Error)
    ensures
        invalid(r, message@),
{
    Error::InvalidWorkspace(String::from_str(message))
}

/// Whether `s` holds a line feed or a carriage return.
pub open spec fn has_line_break(s: Seq<char>) -> bool {
    exists|i: int| 0 <= i < s.len() && (s[i] == '\n' || s[i] == '\r')
}

/// Whether `s` holds a line feed or a carriage return.
pub fn contains_line_break(s: &str) -> (r: bool)
    ensures
        r == has_line_break(s@),
{
    let chars = chars_of(s);
    let mut i: usize = 0;
    while i < chars.len()
        invariant
            i <= chars@.len(),
            chars@ == s@,
            forall|j: int| 0 <= j < i ==> s@[j] != '\n' && s@[j] != '\r',
        decreases chars@.len() - i,
    {
        if chars[i] == '\n' || chars[i] == '\r' {
            return true;
        }
        i += 1;
    }
    false
}

/// `Path::is_absolute` on `value` taken as a path. Nothing is claimed of the
/// answer, which follows the conventions of the platform.
#[verifier::external_body]
fn is_absolute_path(value: &str) -> (r: bool) {
    std::path::Path::new(value).is_absolute()
}

/// Checks a remembered folder value, given whether it is an absolute path:
/// it may hold no line break and must be absolute. The accepted value is
/// returned as it is, to be used as a path.
pub fn folder_path_checked(value: &str, absolute: bool) -> (r: Result<String, Error>)
    ensures
        has_line_break(value@) ==> (r matches Err(e) && invalid(
            e,
            "the workspace folder path contains an unsupported line break"@,
        )),
        !has_line_break(value@) && !absolute ==> (r matches Err(e) && invalid(
            e,
            "the configured workspace folder path must be absolute"@,
        )),
        !has_line_break(value@) && absolute ==> (r matches Ok(path) && path@ == value@),
{
    if contains_line_break(value) {
        return Err(invalid_workspace("the workspace folder path contains an unsupported line break"));
    }
    if !absolute {
        return Err(invalid_workspace("the configured workspace folder path must be absolute"));
    }
    Ok(String::from_str(value))
}

/// The provider folder named by a remembered value: it may hold no line
/// break and must be an absolute path. The accepted value is returned as it
/// is, to be used as a path.
pub fn folder_path(value: &str) -> (r: Result<String, Error>)
    ensures
        has_line_break(value@) ==> (r matches Err(e) && invalid(
            e,
            "the workspace folder path contains an unsupported line break"@,
        )),
        r matches Ok(path) ==> path@ == value@,
        r matches Err(e) ==> (invalid(e, "the workspace folder path contains an unsupported line break"@)
            || invalid(e, "the configured workspace folder path must be absolute"@)),
{
    if contains_line_break(value) {
        return Err(invalid_workspace("the workspace folder path contains an unsupported line break"));
    }
    folder_path_checked(value, is_absolute_path(value))
}

/// The contents of the file that remembers a provider folder: its path and
/// a line feed.
pub open spec fn folder_record(value: Seq<char>) -> Seq<char> {
    value.push('\n')
}

/// The remembered path in the contents of that file: one final line feed
/// removed.
pub open spec fn recorded_folder(contents: Seq<char>) -> Seq<char> {
    if contents.len() > 0 && contents.last() == '\n' {
        contents.drop_last()
    } else {
        contents
    }
}

/// The contents that remember the provider folder `value`, which may hold
/// no line break.
pub fn folder_config_contents(value: &str) -> (r: Result<String, Error>)
    ensures
        has_line_break(value@) ==> (r matches Err(e) && invalid(
            e,
            "the workspace folder path contains an unsupported line break"@,
        )),
        !has_line_break(value@) ==> (r matches Ok(s) && s@ == folder_record(value@)),
{
    if contains_line_break(value) {
        return Err(invalid_workspace("the workspace folder path contains an unsupported line break"));
    }
    let mut s = String::from_str(value);
    push_char(&mut s, '\n');
    Ok(s)
}

/// The remembered folder value in the contents of the file that records it.
pub fn recorded_folder_value(contents: &str) -> (r: String)
    ensures
        r@ == recorded_folder(contents@),
{
    let n = contents.unicode_len();
    if n > 0 && contents.get_char(n - 1) == '\n' {
        let r = String::from_str(contents.substring_char(0, n - 1));
        assert(r@ =~= contents@.drop_last());
        r
    } else {
        String::from_str(contents)
    }
}

/// Remembering a folder and reading the record back gives the same folder,
/// still without line breaks.
pub proof fn lemma_folder_record_round_trip(value: Seq<char>)
    ensures
        recorded_folder(folder_record(value)) == value,
        !has_line_break(value) ==> !has_line_break(recorded_folder(folder_record(value))),
{
    assert(folder_record(value).drop_last() =~= value);
}

/// Parses the local synchronization device identifier: 32 hexadecimal
/// digits.
pub fn parse_device_id(value: &str) -> (r: Result<SyncDeviceId, Error>)
    ensures
        match decode_hex_spec(value@) {
            Some(bytes) => r matches Ok(id) && id@ == bytes,
            None => r matches Err(e) && invalid(
                e,
                "the local synchronization device identifier is invalid"@,
            ),
        },
        !all_hex(value@) ==> r is Err,
{
    match decode_hex(value) {
        Some(bytes) => Ok(SyncDeviceId::from_bytes(bytes)),
        None => Err(invalid_workspace("the local synchronization device identifier is invalid")),
    }
}

/// The stored text of a device identifier parses back to the identifier.
pub proof fn lemma_device_id_round_trip(id: SyncDeviceId)
    ensures
        decode_hex_spec(hex_text(id@)) == Some(id@),
{
    id.lemma_len();
    lemma_hex_round_trip(id@);
}

/// Reads the workspace identifier stored in a provider folder (surrounding
/// white space ignored).
pub fn provider_id(contents: &str) -> (r: Result<WorkspaceId, Error>)
    ensures
        match decode_hex_spec(trimmed(contents@)) {
            Some(bytes) => r matches Ok(id) && id@ == bytes,
            None => r matches Err(e) && invalid(
                e,
                "a workspace identifier must contain exactly 32 hexadecimal characters"@,
            ),
        },
{
    let chars = chars_of(contents);
    let kept = trim_chars(&chars);
    let text = string_of(kept.as_slice());
    match WorkspaceId::parse(text.as_str()) {
        Ok(id) => Ok(id),
        Err(error) => Err(Error::InvalidWorkspace(error.to_string())),
    }
}

/// File name of the local database of a workspace: its identifier and
/// `.vrac`.
pub fn database_file_name(workspace_id: WorkspaceId) -> (r: String)
    ensures
        r@ == hex_text(workspace_id@) + ".vrac"@,
{
    concat2(workspace_id.to_string().as_str(), ".vrac")
}

} // verus!
