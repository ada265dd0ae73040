use vrac::identity::{SyncDeviceId, WorkspaceId};
use vrac::workspace::{
    database_file_name, folder_config_contents, folder_path_checked, parse_device_id, provider_id,
    recorded_folder_value, Error, SyncReport, Workspace,
};

fn message(error: Error) -> String {
    error.to_string()
}

#[test]
fn workspace_invalid_unicode_device_ids_are_rejected() {
    assert!(parse_device_id(&"é".repeat(16)).is_err());
}

#[test]
fn lib_invalid_unicode_device_ids_are_rejected() {
    assert!(parse_device_id(&"é".repeat(16)).is_err());
}

#[test]
fn device_ids_read_back_from_their_text() {
    let id = SyncDeviceId::from_bytes([0xab; 16]);
    let parsed = parse_device_id(&id.to_string()).unwrap();
    assert_eq!(parsed, id);
    assert_eq!(
        message(parse_device_id("abc").unwrap_err()),
        "the local synchronization device identifier is invalid"
    );
    assert!(parse_device_id(&"0g".repeat(16)).is_err());
}

#[test]
fn workspace_configuration_round_trips_an_absolute_folder() {
    let folder = "/data/Vrac workspace";
    let contents = folder_config_contents(folder).unwrap();
    assert_eq!(contents, "/data/Vrac workspace\n");
    assert_eq!(recorded_folder_value(&contents), folder);
    assert_eq!(
        std::path::PathBuf::from(folder_path_checked(&recorded_folder_value(&contents), true).unwrap()),
        std::path::PathBuf::from(folder)
    );
}

#[test]
fn lib_configuration_round_trips_an_absolute_folder() {
    let folder = "/data/Vrac workspace";
    let contents = folder_config_contents(folder).unwrap();
    assert_eq!(recorded_folder_value(&contents), folder);
}

#[test]
fn remembered_folders_must_be_single_absolute_lines() {
    assert_eq!(
        message(folder_config_contents("/a\nb").unwrap_err()),
        "the workspace folder path contains an unsupported line break"
    );
    assert_eq!(
        message(folder_path_checked("relative/path", false).unwrap_err()),
        "the configured workspace folder path must be absolute"
    );
    assert_eq!(
        message(folder_path_checked("/a\rb", true).unwrap_err()),
        "the workspace folder path contains an unsupported line break"
    );
}

#[test]
fn provider_identifiers_ignore_surrounding_white_space() {
    let id = WorkspaceId::from_bytes([3; 16]);
    let text = format!("  {}\n", id.to_string());
    assert_eq!(provider_id(&text).unwrap(), id);
    assert_eq!(
        message(provider_id("nope").unwrap_err()),
        "a workspace identifier must contain exactly 32 hexadecimal characters"
    );
    assert_eq!(database_file_name(id), format!("{}.vrac", "03".repeat(16)));
}

#[test]
fn a_sync_report_starts_empty() {
    assert_eq!(SyncReport::default(), SyncReport { imported: 0, published: 0 });
}

#[test]
fn signed_pairs_are_not_device_ids() {
    assert!(parse_device_id(&"+0".repeat(16)).is_err());
    assert!(parse_device_id(&"0+".repeat(16)).is_err());
}

#[test]
fn a_workspace_keeps_the_folder_it_was_given() {
    let folder = std::path::PathBuf::from("/data/Vrac workspace");
    let workspace = Workspace::new(folder.clone());
    assert_eq!(workspace.folder(), &folder);
}

#[test]
fn an_accepted_folder_path_is_the_value_itself() {
    assert_eq!(folder_path_checked("/srv/notes", true).unwrap(), "/srv/notes");
    assert_eq!(folder_path_checked("C:\\notes", true).unwrap(), "C:\\notes");
}
