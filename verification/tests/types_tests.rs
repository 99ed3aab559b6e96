use proton_drive_sync::types::{
    parse_sync_event_type, parse_sync_job_status, Config, RemoteDeleteBehavior, SyncEventType,
    SyncJobStatus,
};

#[test]
fn test_sync_event_type_display() {
    assert_eq!(SyncEventType::CreateFile.to_string(), "CREATE_FILE");
    assert_eq!(SyncEventType::CreateDir.to_string(), "CREATE_DIR");
    assert_eq!(SyncEventType::Update.to_string(), "UPDATE");
    assert_eq!(SyncEventType::Delete.to_string(), "DELETE");
}

#[test]
fn test_sync_job_status_display() {
    assert_eq!(SyncJobStatus::Pending.to_string(), "PENDING");
    assert_eq!(SyncJobStatus::Processing.to_string(), "PROCESSING");
    assert_eq!(SyncJobStatus::Synced.to_string(), "SYNCED");
    assert_eq!(SyncJobStatus::Blocked.to_string(), "BLOCKED");
}

#[test]
fn types_test_config_default() {
    let config = Config::default();
    assert_eq!(config.sync_concurrency, 4);
    assert_eq!(config.dashboard_host, "127.0.0.1");
    assert_eq!(config.dashboard_port, 4242);
    assert!(config.sync_dirs.is_empty());
    assert!(config.exclude_patterns.is_empty());
    assert_eq!(config.remote_delete_behavior, RemoteDeleteBehavior::Trash);
}

#[test]
fn test_sync_event_type_equality() {
    assert_eq!(SyncEventType::CreateFile, SyncEventType::CreateFile);
    assert_ne!(SyncEventType::CreateFile, SyncEventType::CreateDir);
}

#[test]
fn test_sync_job_status_equality() {
    assert_eq!(SyncJobStatus::Pending, SyncJobStatus::Pending);
    assert_ne!(SyncJobStatus::Pending, SyncJobStatus::Processing);
}

#[test]
fn test_parse_round_trip() {
    assert_eq!(parse_sync_event_type("CREATE_FILE"), SyncEventType::CreateFile);
    assert_eq!(parse_sync_event_type("CREATE_DIR"), SyncEventType::CreateDir);
    assert_eq!(parse_sync_event_type("UPDATE"), SyncEventType::Update);
    assert_eq!(parse_sync_event_type("DELETE"), SyncEventType::Delete);
    assert_eq!(parse_sync_event_type("nonsense"), SyncEventType::Update);
    assert_eq!(parse_sync_job_status("PENDING"), SyncJobStatus::Pending);
    assert_eq!(parse_sync_job_status("PROCESSING"), SyncJobStatus::Processing);
    assert_eq!(parse_sync_job_status("SYNCED"), SyncJobStatus::Synced);
    assert_eq!(parse_sync_job_status("BLOCKED"), SyncJobStatus::Blocked);
    assert_eq!(parse_sync_job_status("nonsense"), SyncJobStatus::Pending);
}
