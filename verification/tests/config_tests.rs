use proton_drive_sync::error::Error;
use proton_drive_sync::types::{Config, ExcludePattern, RemoteDeleteBehavior, SyncDir};

#[test]
fn config_test_config_default() {
    let config = Config::default();
    assert_eq!(config.sync_concurrency, 4);
    assert!(config.sync_dirs.is_empty());
    assert!(config.exclude_patterns.is_empty());
}

#[test]
fn test_add_sync_dir() {
    let mut config = Config::default();
    assert_eq!(config.sync_dirs.len(), 0);

    config.sync_dirs.push(SyncDir {
        source_path: "/local/path".to_string(),
        remote_root: "/remote/path".to_string(),
    });

    assert_eq!(config.sync_dirs.len(), 1);
    assert_eq!(config.sync_dirs[0].source_path, "/local/path");
    assert_eq!(config.sync_dirs[0].remote_root, "/remote/path");
}

#[test]
fn test_remove_sync_dir() {
    let mut config = Config::default();

    config.sync_dirs.push(SyncDir {
        source_path: "/local/path1".to_string(),
        remote_root: "/remote/path1".to_string(),
    });
    config.sync_dirs.push(SyncDir {
        source_path: "/local/path2".to_string(),
        remote_root: "/remote/path2".to_string(),
    });

    assert_eq!(config.sync_dirs.len(), 2);

    config.sync_dirs.remove(0);
    assert_eq!(config.sync_dirs.len(), 1);
    assert_eq!(config.sync_dirs[0].source_path, "/local/path2");
}

#[test]
fn test_set_concurrency() {
    let mut config = Config::default();
    assert_eq!(config.sync_concurrency, 4);

    config.sync_concurrency = 10;
    assert_eq!(config.sync_concurrency, 10);
}

#[test]
fn test_add_exclude_pattern() {
    let mut config = Config::default();
    assert_eq!(config.exclude_patterns.len(), 0);

    config.exclude_patterns.push(ExcludePattern {
        path: "/test/path".to_string(),
        globs: vec!["*.tmp".to_string(), "*.log".to_string()],
    });

    assert_eq!(config.exclude_patterns.len(), 1);
    assert_eq!(config.exclude_patterns[0].path, "/test/path");
    assert_eq!(config.exclude_patterns[0].globs.len(), 2);
}

#[test]
fn test_remote_delete_behavior() {
    let config1 = Config {
        sync_concurrency: 4,
        sync_dirs: vec![],
        exclude_patterns: vec![],
        remote_delete_behavior: RemoteDeleteBehavior::Trash,
        dashboard_host: "127.0.0.1".to_string(),
        dashboard_port: 4242,
    };

    let config2 = Config {
        sync_concurrency: 4,
        sync_dirs: vec![],
        exclude_patterns: vec![],
        remote_delete_behavior: RemoteDeleteBehavior::Permanent,
        dashboard_host: "127.0.0.1".to_string(),
        dashboard_port: 4242,
    };

    assert_eq!(config1.remote_delete_behavior, RemoteDeleteBehavior::Trash);
    assert_eq!(config2.remote_delete_behavior, RemoteDeleteBehavior::Permanent);
}

#[test]
fn test_config_edit_methods() {
    let mut config = Config::default();
    config.add_sync_dir("/a".to_string(), "/r".to_string());
    config.add_sync_dir("/b".to_string(), "/s".to_string());
    assert_eq!(config.sync_dirs.len(), 2);

    assert!(config.remove_sync_dir(0).is_ok());
    assert_eq!(config.sync_dirs.len(), 1);
    assert_eq!(config.sync_dirs[0].source_path, "/b");

    match config.remove_sync_dir(5) {
        Err(Error::Config(m)) => assert_eq!(m, "Invalid sync directory index: 5"),
        _ => panic!("out-of-bounds removal must fail with a Config error"),
    }

    config.set_concurrency(9);
    assert_eq!(config.sync_concurrency, 9);

    config.set_remote_delete_behavior(RemoteDeleteBehavior::Permanent);
    assert_eq!(config.remote_delete_behavior, RemoteDeleteBehavior::Permanent);

    config.add_exclude_pattern("/b".to_string(), vec!["*.tmp".to_string()]);
    assert_eq!(config.exclude_patterns.len(), 1);
    assert!(config.remove_exclude_pattern(0).is_ok());
    assert!(config.exclude_patterns.is_empty());
    match config.remove_exclude_pattern(0) {
        Err(Error::Config(m)) => assert_eq!(m, "Invalid exclude pattern index: 0"),
        _ => panic!("out-of-bounds removal must fail with a Config error"),
    }
}
