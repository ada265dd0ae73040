//! Opaque identifiers of nodes, workspaces and synchronizing devices.

use vstd::prelude::*;

use crate::error::Error;
use crate::hex::{all_hex, decode_hex, decode_hex_spec, encode_hex, hex_text, lemma_hex_round_trip};

verus! {

/// Number of bytes in a node identifier.
pub const NODE_ID_LENGTH: usize = 16;

/// Number of bytes in a synchronization device identifier.
pub const SYNC_DEVICE_ID_LENGTH: usize = 16;

/// Number of bytes in a workspace identifier.
pub const WORKSPACE_ID_LENGTH: usize = 16;

/// Opaque, stable node identifier.
#[derive(Clone, Copy, Debug, Eq, Hash, PartialOrd, Ord)]
pub struct NodeId([u8; 16]);

/// Whether two 16-byte arrays hold the same bytes.
fn same_bytes(a: &[u8; 16], b: &[u8; 16]) -> (r: bool)
    ensures
        r == (a@ == b@),
{
    let mut i: usize = 0;
    while i < 16
        invariant
            i <= 16,
            a@.len() == 16 && b@.len() == 16,
            forall|j: int| 0 <= j < i ==> a@[j] == b@[j],
        decreases 16 - i,
    {
        if a[i] != b[i] {
            return false;
        }
        i += 1;
    }
    assert(a@ =~= b@);
    true
}

impl PartialEq for NodeId {
    fn eq(&self, other: &Self) -> (r: bool) {
        same_bytes(&self.0, &other.0)
    }
}

impl vstd::std_specs::cmp::PartialEqSpecImpl for NodeId {
    open spec fn obeys_eq_spec() -> bool {
        true
    }

    open spec fn eq_spec(&self, other: &Self) -> bool {
        self@ == other@
    }
}

impl View for NodeId {
    type V = Seq<u8>;

    closed spec fn view(&self) -> Seq<u8> {
        self.0@
    }
}

impl NodeId {
    /// Creates an identifier from its canonical 16-byte representation.
    pub fn from_bytes(bytes: [u8; 16]) -> (id: Self)
        ensures
            id@ == bytes@,
    {
        NodeId(bytes)
    }

    /// Returns the canonical 16-byte representation.
    pub fn as_bytes(&self) -> (bytes: &[u8; 16])
        ensures
            bytes@ == self@,
    {
        &self.0
    }

    /// The canonical text of the identifier: 32 lowercase hexadecimal digits.
    pub fn to_string(&self) -> (s: String)
        ensures
            s@ == hex_text(self@),
    {
        encode_hex(&self.0)
    }

    /// Parses 32 hexadecimal digits (either case).
    pub fn parse(value: &str) -> (r: Result<Self, ParseNodeIdError>)
        ensures
            match decode_hex_spec(value@) {
                Some(bytes) => r matches Ok(id) && id@ == bytes,
                None => r is Err,
            },
            !all_hex(value@) ==> r is Err,
    {
        match decode_hex(value) {
            Some(bytes) => Ok(NodeId(bytes)),
            None => Err(ParseNodeIdError),
        }
    }

    /// Every node identifier has exactly 16 bytes.
    pub proof fn lemma_len(self)
        ensures
            self@.len() == NODE_ID_LENGTH,
    {
    }

    /// Two node identifiers with the same bytes are the same identifier.
    pub proof fn lemma_view_injective(self, other: Self)
        requires
            self@ == other@,
        ensures
            self == other,
    {
        assert(self.0 =~= other.0);
    }
}

/// Parsing the text of a node identifier gives the identifier back.
pub proof fn lemma_node_id_text_round_trip(id: NodeId)
    ensures
        decode_hex_spec(hex_text(id@)) == Some(id@),
{
    id.lemma_len();
    lemma_hex_round_trip(id@);
}

impl core::str::FromStr for NodeId {
    type Err = ParseNodeIdError;

    fn from_str(value: &str) -> (r: Result<Self, Self::Err>)
        ensures
            match decode_hex_spec(value@) {
                Some(bytes) => r matches Ok(id) && id@ == bytes,
                None => r is Err,
            },
            !all_hex(value@) ==> r is Err,
    {
        NodeId::parse(value)
    }
}

/// Error returned when parsing a textual node identifier.
#[derive(Clone, Copy, Debug, PartialEq, Eq, Structural)]
pub struct ParseNodeIdError;

impl ParseNodeIdError {
    /// The human-readable description of the error.
    pub fn to_string(&self) -> (s: String)
        ensures
            s@ == "a node identifier must contain exactly 32 hexadecimal characters"@,
    {
        String::from_str("a node identifier must contain exactly 32 hexadecimal characters")
    }
}

/// Opaque identity shared by every local copy of one workspace.
#[derive(Clone, Copy, Debug, PartialEq, Eq, Hash, PartialOrd, Ord)]
pub struct WorkspaceId([u8; 16]);

impl View for WorkspaceId {
    type V = Seq<u8>;

    closed spec fn view(&self) -> Seq<u8> {
        self.0@
    }
}

impl WorkspaceId {
    /// Creates an identifier from its canonical bytes.
    pub fn from_bytes(bytes: [u8; 16]) -> (id: Self)
        ensures
            id@ == bytes@,
    {
        WorkspaceId(bytes)
    }

    /// Returns the canonical bytes.
    pub fn as_bytes(&self) -> (bytes: &[u8; 16])
        ensures
            bytes@ == self@,
    {
        &self.0
    }

    /// The canonical text of the identifier: 32 lowercase hexadecimal digits.
    pub fn to_string(&self) -> (s: String)
        ensures
            s@ == hex_text(self@),
    {
        encode_hex(&self.0)
    }

    /// Parses 32 hexadecimal digits (either case).
    pub fn parse(value: &str) -> (r: Result<Self, ParseWorkspaceIdError>)
        ensures
            match decode_hex_spec(value@) {
                Some(bytes) => r matches Ok(id) && id@ == bytes,
                None => r is Err,
            },
            !all_hex(value@) ==> r is Err,
    {
        match decode_hex(value) {
            Some(bytes) => Ok(WorkspaceId(bytes)),
            None => Err(ParseWorkspaceIdError),
        }
    }

    /// Every workspace identifier has exactly 16 bytes.
    pub proof fn lemma_len(self)
        ensures
            self@.len() == WORKSPACE_ID_LENGTH,
    {
    }

    /// Two workspace identifiers with the same bytes are the same identifier.
    pub proof fn lemma_view_injective(self, other: Self)
        requires
            self@ == other@,
        ensures
            self == other,
    {
        assert(self.0 =~= other.0);
    }
}

/// Parsing the text of a workspace identifier gives the identifier back.
pub proof fn lemma_workspace_id_text_round_trip(id: WorkspaceId)
    ensures
        decode_hex_spec(hex_text(id@)) == Some(id@),
{
    id.lemma_len();
    lemma_hex_round_trip(id@);
}

impl core::str::FromStr for WorkspaceId {
    type Err = ParseWorkspaceIdError;

    fn from_str(value: &str) -> (r: Result<Self, Self::Err>)
        ensures
            match decode_hex_spec(value@) {
                Some(bytes) => r matches Ok(id) && id@ == bytes,
                None => r is Err,
            },
            !all_hex(value@) ==> r is Err,
    {
        WorkspaceId::parse(value)
    }
}

/// Error returned when parsing a textual workspace identifier.
#[derive(Clone, Copy, Debug, PartialEq, Eq, Structural)]
pub struct ParseWorkspaceIdError;

impl ParseWorkspaceIdError {
    /// The human-readable description of the error.
    pub fn to_string(&self) -> (s: String)
        ensures
            s@ == "a workspace identifier must contain exactly 32 hexadecimal characters"@,
    {
        String::from_str("a workspace identifier must contain exactly 32 hexadecimal characters")
    }
}

/// Stable identity of one local application installation.
///
/// Clients generate it once and keep it in their local application data. It
/// must not be copied with a workspace or stored in a synchronized folder.
#[derive(Clone, Copy, Debug, PartialEq, Eq, Hash, PartialOrd, Ord)]
pub struct SyncDeviceId([u8; 16]);

impl View for SyncDeviceId {
    type V = Seq<u8>;

    closed spec fn view(&self) -> Seq<u8> {
        self.0@
    }
}

/// `getrandom::fill` on a fresh 16-byte buffer: the bytes on success, the
/// error's text on failure. Nothing is claimed of the bytes, which come from
/// the system's random source.
#[verifier::external_body]
fn random_bytes() -> (r: Result<[u8; 16], String>) {
    let mut bytes = [0u8; 16];
    match getrandom::fill(&mut bytes) {
        Ok(()) => Ok(bytes),
        Err(error) => Err(error.to_string()),
    }
}

impl SyncDeviceId {
    /// Generates a cryptographically random device identifier.
    pub fn generate() -> (r: Result<Self, Error>)
        ensures
            r matches Err(e) ==> e is Randomness,
    {
        Self::from_random(random_bytes())
    }

    /// The identifier made of freshly drawn random bytes, or the randomness
    /// failure that prevented drawing them.
    pub fn from_random(outcome: Result<[u8; 16], String>) -> (r: Result<Self, Error>)
        ensures
            match outcome {
                Ok(bytes) => r matches Ok(id) && id@ == bytes@,
                Err(reason) => r == Err::<Self, Error>(Error::Randomness(reason)),
            },
    {
        match outcome {
            Ok(bytes) => Ok(SyncDeviceId(bytes)),
            Err(reason) => Err(Error::Randomness(reason)),
        }
    }

    /// Creates an identifier from its canonical bytes.
    pub fn from_bytes(bytes: [u8; 16]) -> (id: Self)
        ensures
            id@ == bytes@,
    {
        SyncDeviceId(bytes)
    }

    /// Returns the canonical bytes.
    pub fn as_bytes(&self) -> (bytes: &[u8; 16])
        ensures
            bytes@ == self@,
    {
        &self.0
    }

    /// The canonical text of the identifier: 32 lowercase hexadecimal digits.
    pub fn to_string(&self) -> (s: String)
        ensures
            s@ == hex_text(self@),
    {
        encode_hex(&self.0)
    }

    /// Every device identifier has exactly 16 bytes.
    pub proof fn lemma_len(self)
        ensures
            self@.len() == SYNC_DEVICE_ID_LENGTH,
    {
    }

    /// Two device identifiers with the same bytes are the same identifier.
    pub proof fn lemma_view_injective(self, other: Self)
        requires
            self@ == other@,
        ensures
            self == other,
    {
        assert(self.0 =~= other.0);
    }
}

} // verus!
