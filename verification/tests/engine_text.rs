use vrac::error::Error;
use vrac::identity::{NodeId, SyncDeviceId, WorkspaceId};
use vrac::model::{CheckIssue, CheckReport};
use vrac::pagination::Cursor;
use vrac::text::{decimal_text, signed_decimal_text};

#[test]
fn numbers_are_written_in_decimal() {
    assert_eq!(decimal_text(0), "0");
    assert_eq!(decimal_text(1_000_007), "1000007");
    assert_eq!(decimal_text(u64::MAX), u64::MAX.to_string());
    assert_eq!(signed_decimal_text(-42), "-42");
    assert_eq!(signed_decimal_text(i64::MIN), i64::MIN.to_string());
}

#[test]
fn error_messages_name_what_went_wrong() {
    let id = NodeId::from_bytes([0x1f; 16]);
    assert_eq!(Error::Cycle.to_string(), "this move would create a cycle");
    assert_eq!(Error::NodeNotFound(id).to_string(), format!("node not found: {}", "1f".repeat(16)));
    assert_eq!(
        Error::PlacementReferenceNotSibling { reference: id, parent_id: None }.to_string(),
        format!("placement reference {} is not a root node", "1f".repeat(16))
    );
    assert_eq!(
        Error::InvalidPageLimit { limit: 0, maximum: 1000 }.to_string(),
        "invalid page size (0), maximum: 1000"
    );
    assert_eq!(Error::UnsupportedSchemaVersion(-3).to_string(), "unsupported schema version: -3");
    assert_eq!(Error::InvalidTag("a b".into()).to_string(), "invalid tag: \"a b\"");
    assert_eq!(
        Error::InvalidJournalDate("2024-02-30".into()).to_string(),
        "invalid journal date: \"2024-02-30\""
    );
    assert_eq!(
        Error::InvalidReferenceRange { start: 4, end: 2 }.to_string(),
        "invalid reference range: 4..2"
    );
    let report = CheckReport { node_count: 3, issues: vec![CheckIssue::MissingJournal] };
    assert_eq!(
        Error::InvalidCheckpoint(report).to_string(),
        "checkpoint validation reported 1 integrity issues"
    );
    let device = SyncDeviceId::from_bytes([0; 16]);
    assert_eq!(
        Error::SyncDependencyMissing { device_id: device, first_sequence: 3, last_sequence: 9 }.to_string(),
        format!("synchronization package 3..=9 from {} depends on changes not yet applied", "0".repeat(32))
    );
    assert_eq!(
        Error::SyncPackageOutOfOrder { device_id: device, expected: 2, received: 5 }.to_string(),
        format!("synchronization package from {} starts at 5, expected 2", "0".repeat(32))
    );
    assert_eq!(Error::Randomness("no entropy".into()).to_string(), "secure randomness failed: no entropy");
    let io = Error::Io(std::io::Error::other("disk full"));
    assert_eq!(io.to_string(), "I/O error: disk full");
}

#[test]
fn identifiers_read_back_from_their_text() {
    let id = NodeId::from_bytes([0xa5; 16]);
    assert_eq!(NodeId::parse(&id.to_string()).unwrap(), id);
    assert_eq!(NodeId::parse(&id.to_string().to_uppercase()).unwrap(), id);
    assert!(NodeId::parse("a5").is_err());
    let workspace = WorkspaceId::from_bytes([9; 16]);
    assert_eq!(WorkspaceId::parse(&workspace.to_string()).unwrap(), workspace);
}

#[test]
fn cursors_read_back_from_their_text() {
    let text = format!("v1:{:016x}:{}", 42u64, "0a".repeat(16));
    let cursor = Cursor::parse(&text).unwrap();
    assert_eq!(cursor.to_string(), text);
    assert!(Cursor::parse("v2:0000000000000000:00").is_err());
}

#[test]
fn identifiers_accept_hexadecimal_digits_only() {
    let signed = "+0".repeat(16);
    assert!(NodeId::parse(&signed).is_err());
    assert!(signed.parse::<NodeId>().is_err());
    assert!(WorkspaceId::parse(&signed).is_err());
    assert!(signed.parse::<WorkspaceId>().is_err());
    assert_eq!(
        "0".repeat(32).parse::<NodeId>().unwrap(),
        NodeId::from_bytes([0; 16])
    );
}

#[test]
fn identifiers_with_the_same_bytes_are_equal() {
    let mut bytes = [7u8; 16];
    assert_eq!(NodeId::from_bytes(bytes), NodeId::from_bytes(bytes));
    assert_eq!(WorkspaceId::from_bytes(bytes), WorkspaceId::from_bytes(bytes));
    assert_eq!(SyncDeviceId::from_bytes(bytes), SyncDeviceId::from_bytes(bytes));
    let first = NodeId::from_bytes(bytes);
    bytes[15] = 8;
    assert_ne!(first, NodeId::from_bytes(bytes));
}
