//! Errors reported by the outline engine, and their messages.

use vstd::prelude::*;

use crate::hex::hex_text;
use crate::identity::{NodeId, SyncDeviceId};
use crate::model::CheckReport;
use crate::text::{
    concat2, concat3, debug_quoted, debug_text, decimal, decimal_text, signed_decimal,
    signed_decimal_text,
};

verus! {

#[verifier::external_type_specification]
#[verifier::external_body]
pub struct ExIoError(std::io::Error);

/// Error returned by the Vrac engine.
#[derive(Debug)]
pub enum Error {
    /// File contents do not match a valid Vrac workspace.
    InvalidDatabase(String),
    /// Required storage guarantees could not be enabled.
    StorageConfiguration(String),
    /// Workspace schema version is newer or otherwise unsupported.
    UnsupportedSchemaVersion(i64),
    /// Requested node does not exist.
    NodeNotFound(NodeId),
    /// Requested parent does not exist.
    ParentNotFound(NodeId),
    /// Relative placement references a node outside the destination siblings.
    PlacementReferenceNotSibling {
        /// Referenced node.
        reference: NodeId,
        /// Expected parent, or `None` for root siblings.
        parent_id: Option<NodeId>,
    },
    /// Requested move would create a cycle.
    Cycle,
    /// Requested page size is zero or exceeds the largest page size.
    InvalidPageLimit {
        /// Requested page size.
        limit: usize,
        /// Largest accepted page size.
        maximum: usize,
    },
    /// No safe integer remains for a storage position.
    PositionOverflow,
    /// Requested performance dataset cannot be represented in memory.
    GenerationTooLarge(u64),
    /// Performance data generation is disabled on a synchronized workspace.
    GenerationOnSynchronizedWorkspace,
    /// A tag is empty or contains whitespace or `#`.
    InvalidTag(String),
    /// Clipboard text cannot be interpreted as a node outline.
    InvalidClipboard(String),
    /// An inline reference does not cover a valid `[[label]]` range.
    InvalidReferenceRange {
        /// Inclusive UTF-8 byte offset supplied by the client.
        start: usize,
        /// Exclusive UTF-8 byte offset supplied by the client.
        end: usize,
    },
    /// Two inline reference ranges overlap.
    OverlappingReferences,
    /// An inline reference target does not exist.
    ReferenceTargetNotFound(NodeId),
    /// A plain text replacement would discard outgoing references.
    NodeHasReferences(NodeId),
    /// A node in the requested subtree is referenced from outside it.
    NodeReferenced(NodeId),
    /// A product-owned structural node cannot be edited, moved, or removed.
    SystemNodeProtected(NodeId),
    /// A journal day is not a real ISO calendar date.
    InvalidJournalDate(String),
    /// The checkpoint destination already exists and was not modified.
    CheckpointDestinationExists,
    /// A generated checkpoint failed its complete integrity validation.
    InvalidCheckpoint(CheckReport),
    /// A restore checkpoint belongs to another workspace.
    CheckpointWorkspaceMismatch,
    /// The active workspace was supplied as its own restore checkpoint.
    RestoreSourceIsActiveWorkspace,
    /// Synchronization was requested on an engine opened without a device ID.
    SyncNotEnabled,
    /// A synchronized workspace is already active under another device ID.
    SyncDeviceMismatch {
        /// Device currently capturing mutations in this workspace file.
        active: SyncDeviceId,
        /// Device requested by the client.
        requested: SyncDeviceId,
    },
    /// A synchronization package is malformed or corrupted.
    InvalidSyncPackage(String),
    /// A package belongs to another workspace.
    SyncWorkspaceMismatch,
    /// A package is missing an earlier package from the same device.
    SyncPackageOutOfOrder {
        /// Device whose stream has a gap.
        device_id: SyncDeviceId,
        /// Next sequence expected locally.
        expected: u64,
        /// First sequence in the received package.
        received: u64,
    },
    /// A package depends on a package from another device not yet applied.
    SyncDependencyMissing {
        /// Device that produced the deferred package.
        device_id: SyncDeviceId,
        /// First transaction in the deferred package.
        first_sequence: u64,
        /// Last transaction in the deferred package.
        last_sequence: u64,
    },
    /// Applying a package would overwrite a concurrent local change.
    SyncConflict {
        /// Device that produced the conflicting package.
        device_id: SyncDeviceId,
        /// First transaction in the conflicting package.
        first_sequence: u64,
        /// Last transaction in the conflicting package.
        last_sequence: u64,
    },
    /// Undo or redo no longer matches the current workspace state.
    HistoryConflict,
    /// Secure random bytes could not be obtained.
    Randomness(String),
    /// A filesystem operation failed.
    Io(std::io::Error),
}

/// The message of every error but `Io`, whose text comes from the system.
pub open spec fn error_message(error: Error) -> Seq<char> {
    match error {
        Error::InvalidDatabase(reason) => "invalid Vrac database: "@ + reason@,
        Error::StorageConfiguration(reason) => "invalid SQLite configuration: "@ + reason@,
        Error::UnsupportedSchemaVersion(version) => "unsupported schema version: "@
            + signed_decimal(version as int),
        Error::NodeNotFound(id) => "node not found: "@ + hex_text(id@),
        Error::ParentNotFound(id) => "parent not found: "@ + hex_text(id@),
        Error::PlacementReferenceNotSibling { reference, parent_id } => match parent_id {
            Some(parent) => "placement reference "@ + hex_text(reference@) + " is not a child of "@
                + hex_text(parent@),
            None => "placement reference "@ + hex_text(reference@) + " is not a root node"@,
        },
        Error::Cycle => "this move would create a cycle"@,
        Error::InvalidPageLimit { limit, maximum } => "invalid page size ("@ + decimal(
            limit as nat,
        ) + "), maximum: "@ + decimal(maximum as nat),
        Error::PositionOverflow => "no integer position remains available"@,
        Error::GenerationTooLarge(count) => "the generator cannot create "@ + decimal(count as nat)
            + " nodes at once"@,
        Error::GenerationOnSynchronizedWorkspace =>
            "performance data generation is disabled on synchronized workspaces"@,
        Error::InvalidTag(tag) => "invalid tag: "@ + debug_text(tag@),
        Error::InvalidClipboard(reason) => "invalid clipboard outline: "@ + reason@,
        Error::InvalidReferenceRange { start, end } => "invalid reference range: "@ + decimal(
            start as nat,
        ) + ".."@ + decimal(end as nat),
        Error::OverlappingReferences => "reference ranges overlap"@,
        Error::ReferenceTargetNotFound(id) => "reference target not found: "@ + hex_text(id@),
        Error::NodeHasReferences(id) => "node "@ + hex_text(id@)
            + " has outgoing references; replace its content instead"@,
        Error::NodeReferenced(id) => "node "@ + hex_text(id@)
            + " is referenced from outside its subtree"@,
        Error::SystemNodeProtected(id) => "system node is protected: "@ + hex_text(id@),
        Error::InvalidJournalDate(date) => "invalid journal date: "@ + debug_text(date@),
        Error::CheckpointDestinationExists => "checkpoint destination already exists"@,
        Error::InvalidCheckpoint(report) => "checkpoint validation reported "@ + decimal(
            report.issues@.len(),
        ) + " integrity issues"@,
        Error::CheckpointWorkspaceMismatch => "checkpoint belongs to another workspace"@,
        Error::RestoreSourceIsActiveWorkspace => "the active workspace cannot restore itself"@,
        Error::SyncNotEnabled =>
            "synchronization requires opening the workspace with a device identifier"@,
        Error::SyncDeviceMismatch { active, requested } =>
            "workspace synchronization is active for device "@ + hex_text(active@) + ", not "@
            + hex_text(requested@),
        Error::InvalidSyncPackage(reason) => "invalid synchronization package: "@ + reason@,
        Error::SyncWorkspaceMismatch => "synchronization package belongs to another workspace"@,
        Error::SyncPackageOutOfOrder { device_id, expected, received } =>
            "synchronization package from "@ + hex_text(device_id@) + " starts at "@ + decimal(
            received as nat,
        ) + ", expected "@ + decimal(expected as nat),
        Error::SyncDependencyMissing { device_id, first_sequence, last_sequence } =>
            "synchronization package "@ + decimal(first_sequence as nat) + "..="@ + decimal(
            last_sequence as nat,
        ) + " from "@ + hex_text(device_id@) + " depends on changes not yet applied"@,
        Error::SyncConflict { device_id, first_sequence, last_sequence } =>
            "synchronization conflict with "@ + hex_text(device_id@) + " package "@ + decimal(
            first_sequence as nat,
        ) + "..="@ + decimal(last_sequence as nat),
        Error::HistoryConflict => "undo history no longer matches the workspace state"@,
        Error::Randomness(reason) => "secure randomness failed: "@ + reason@,
        Error::Io(_) => "I/O error: "@,
    }
}

/// `<std::io::Error as Display>::fmt`: the description of a filesystem
/// error. Nothing is claimed of the text, which may come from the system.
#[verifier::external_body]
pub(crate) fn io_error_text(error: &std::io::Error) -> (r: String) {
    error.to_string()
}

impl Error {
    /// The human-readable message of the error.
    pub fn to_string(&self) -> (s: String)
        ensures
            self is Io ==> "I/O error: "@.is_prefix_of(s@),
            !(self is Io) ==> s@ == error_message(*self),
    {
        match self {
            Error::InvalidDatabase(reason) => concat2("invalid Vrac database: ", reason.as_str()),
            Error::StorageConfiguration(reason) => concat2(
                "invalid SQLite configuration: ",
                reason.as_str(),
            ),
            Error::UnsupportedSchemaVersion(version) => {
                let v = signed_decimal_text(*version);
                concat2("unsupported schema version: ", v.as_str())
            },
            Error::NodeNotFound(id) => concat2("node not found: ", id.to_string().as_str()),
            Error::ParentNotFound(id) => concat2("parent not found: ", id.to_string().as_str()),
            Error::PlacementReferenceNotSibling { reference, parent_id } => {
                let r = reference.to_string();
                match parent_id {
                    Some(parent) => {
                        let mut s = concat3(
                            "placement reference ",
                            r.as_str(),
                            " is not a child of ",
                        );
                        s.append(parent.to_string().as_str());
                        s
                    },
                    None => concat3("placement reference ", r.as_str(), " is not a root node"),
                }
            },
            Error::Cycle => String::from_str("this move would create a cycle"),
            Error::InvalidPageLimit { limit, maximum } => {
                let l = decimal_text(*limit as u64);
                let mut s = concat3("invalid page size (", l.as_str(), "), maximum: ");
                s.append(decimal_text(*maximum as u64).as_str());
                s
            },
            Error::PositionOverflow => String::from_str("no integer position remains available"),
            Error::GenerationTooLarge(count) => {
                let c = decimal_text(*count);
                concat3("the generator cannot create ", c.as_str(), " nodes at once")
            },
            Error::GenerationOnSynchronizedWorkspace => String::from_str(
                "performance data generation is disabled on synchronized workspaces",
            ),
            Error::InvalidTag(tag) => concat2("invalid tag: ", debug_quoted(tag.as_str()).as_str()),
            Error::InvalidClipboard(reason) => concat2(
                "invalid clipboard outline: ",
                reason.as_str(),
            ),
            Error::InvalidReferenceRange { start, end } => {
                let a = decimal_text(*start as u64);
                let mut s = concat3("invalid reference range: ", a.as_str(), "..");
                s.append(decimal_text(*end as u64).as_str());
                s
            },
            Error::OverlappingReferences => String::from_str("reference ranges overlap"),
            Error::ReferenceTargetNotFound(id) => concat2(
                "reference target not found: ",
                id.to_string().as_str(),
            ),
            Error::NodeHasReferences(id) => concat3(
                "node ",
                id.to_string().as_str(),
                " has outgoing references; replace its content instead",
            ),
            Error::NodeReferenced(id) => concat3(
                "node ",
                id.to_string().as_str(),
                " is referenced from outside its subtree",
            ),
            Error::SystemNodeProtected(id) => concat2(
                "system node is protected: ",
                id.to_string().as_str(),
            ),
            Error::InvalidJournalDate(date) => concat2(
                "invalid journal date: ",
                debug_quoted(date.as_str()).as_str(),
            ),
            Error::CheckpointDestinationExists => String::from_str(
                "checkpoint destination already exists",
            ),
            Error::InvalidCheckpoint(report) => {
                let n = decimal_text(report.issues.len() as u64);
                concat3("checkpoint validation reported ", n.as_str(), " integrity issues")
            },
            Error::CheckpointWorkspaceMismatch => String::from_str(
                "checkpoint belongs to another workspace",
            ),
            Error::RestoreSourceIsActiveWorkspace => String::from_str(
                "the active workspace cannot restore itself",
            ),
            Error::SyncNotEnabled => String::from_str(
                "synchronization requires opening the workspace with a device identifier",
            ),
            Error::SyncDeviceMismatch { active, requested } => {
                let a = active.to_string();
                let mut s = concat3(
                    "workspace synchronization is active for device ",
                    a.as_str(),
                    ", not ",
                );
                s.append(requested.to_string().as_str());
                s
            },
            Error::InvalidSyncPackage(reason) => concat2(
                "invalid synchronization package: ",
                reason.as_str(),
            ),
            Error::SyncWorkspaceMismatch => String::from_str(
                "synchronization package belongs to another workspace",
            ),
            Error::SyncPackageOutOfOrder { device_id, expected, received } => {
                let d = device_id.to_string();
                let mut s = concat3("synchronization package from ", d.as_str(), " starts at ");
                s.append(decimal_text(*received).as_str());
                s.append(", expected ");
                s.append(decimal_text(*expected).as_str());
                s
            },
            Error::SyncDependencyMissing { device_id, first_sequence, last_sequence } => {
                let f = decimal_text(*first_sequence);
                let mut s = concat3("synchronization package ", f.as_str(), "..=");
                s.append(decimal_text(*last_sequence).as_str());
                s.append(" from ");
                s.append(device_id.to_string().as_str());
                s.append(" depends on changes not yet applied");
                s
            },
            Error::SyncConflict { device_id, first_sequence, last_sequence } => {
                let d = device_id.to_string();
                let mut s = concat3("synchronization conflict with ", d.as_str(), " package ");
                s.append(decimal_text(*first_sequence).as_str());
                s.append("..=");
                s.append(decimal_text(*last_sequence).as_str());
                s
            },
            Error::HistoryConflict => String::from_str(
                "undo history no longer matches the workspace state",
            ),
            Error::Randomness(reason) => concat2("secure randomness failed: ", reason.as_str()),
            Error::Io(error) => {
                let t = io_error_text(error);
                concat2("I/O error: ", t.as_str())
            },
        }
    }
}

} // verus!
