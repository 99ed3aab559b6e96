use proton_drive_sync::store::Store;
use proton_drive_sync::types::{Config, ExcludePattern, SyncDir, SyncEventType, SyncJobStatus};
use proton_drive_sync::watcher::{
    classify_event, evaluate_event, handle_event, is_excluded, is_temp_file, FileScanner,
    FsEventKind, ScanEntry,
};

fn one_root_config() -> Config {
    let mut config = Config::default();
    config.add_sync_dir("/a".to_string(), "/r".to_string());
    config
}

#[test]
fn test_noise_filter_drops_temp_names() {
    let config = one_root_config();
    let mut store = Store::new();
    let noisy = ["/a/.hidden", "/a/backup~file", "/a/x.tmp", "/a/x.swp", "/a/._resource"];
    let kinds = [FsEventKind::Create, FsEventKind::Modify, FsEventKind::Remove];
    for path in noisy.iter() {
        assert!(is_temp_file(path), "{} should be noise", path);
        for kind in kinds.iter() {
            let enqueued =
                handle_event(&mut store, path, *kind, false, Some((1, 1)), &config, 100).unwrap();
            assert!(!enqueued, "{} must never enqueue", path);
        }
    }
    assert_eq!(store.get_pending_jobs(100, 0).len(), 0);
    assert!(!is_temp_file("/a/plain.txt"));
}

#[test]
fn test_event_classification() {
    assert_eq!(classify_event(FsEventKind::Create, false), Some(SyncEventType::CreateFile));
    assert_eq!(classify_event(FsEventKind::Create, true), Some(SyncEventType::CreateDir));
    assert_eq!(classify_event(FsEventKind::Modify, false), Some(SyncEventType::Update));
    assert_eq!(classify_event(FsEventKind::Remove, false), Some(SyncEventType::Delete));
    assert_eq!(classify_event(FsEventKind::Other, false), None);
}

#[test]
fn test_exclusion_globs() {
    let patterns = vec![ExcludePattern {
        path: "/a".to_string(),
        globs: vec!["*.tmp".to_string(), "*.log".to_string()],
    }];
    assert!(is_excluded("/a/x.tmp", &patterns));
    assert!(is_excluded("/a/sub/deep.log", &patterns));
    assert!(!is_excluded("/a/x.txt", &patterns));
    // An invalid pattern matches nothing.
    let broken = vec![ExcludePattern { path: "/a".to_string(), globs: vec!["[".to_string()] }];
    assert!(!is_excluded("/a/x.txt", &broken));
}

#[test]
fn test_evaluate_event_builds_remote_path() {
    let config = one_root_config();
    let plan = evaluate_event("/a/x.txt", FsEventKind::Create, false, &config).unwrap();
    assert_eq!(plan.event_type, SyncEventType::CreateFile);
    assert_eq!(plan.local_path, "/a/x.txt");
    assert_eq!(plan.remote_path, "/r/x.txt");
    assert!(plan.needs_token);

    let del = evaluate_event("/a/x.txt", FsEventKind::Remove, false, &config).unwrap();
    assert_eq!(del.event_type, SyncEventType::Delete);
    assert!(!del.needs_token);

    // A path under no configured root is dropped.
    assert!(evaluate_event("/elsewhere/x.txt", FsEventKind::Create, false, &config).is_none());
    // An excluded path is dropped.
    let mut excluding = one_root_config();
    excluding.add_exclude_pattern("/a".to_string(), vec!["*.iso".to_string()]);
    assert!(evaluate_event("/a/big.iso", FsEventKind::Create, false, &excluding).is_none());
}

#[test]
fn test_watch_event_enqueues_job_with_token() {
    let config = one_root_config();
    let mut store = Store::new();
    let enqueued = handle_event(
        &mut store,
        "/a/x.txt",
        FsEventKind::Create,
        false,
        Some((1700000000, 3)),
        &config,
        100,
    )
    .unwrap();
    assert!(enqueued);
    let jobs = store.get_pending_jobs(10, 100);
    assert_eq!(jobs.len(), 1);
    assert_eq!(jobs[0].event_type, SyncEventType::CreateFile);
    assert_eq!(jobs[0].local_path, "/a/x.txt");
    assert_eq!(jobs[0].remote_path, "/r/x.txt");
    assert_eq!(jobs[0].status, SyncJobStatus::Pending);
    assert_eq!(jobs[0].change_token.as_deref(), Some("1700000000:3"));
    assert_eq!(jobs[0].n_retries, 0);
    assert_eq!(jobs[0].retry_at, None);

    // A non-delete event whose file vanished is an I/O failure, and nothing
    // is enqueued for it.
    let r = handle_event(&mut store, "/a/gone.txt", FsEventKind::Modify, false, None, &config, 101);
    assert!(r.is_err());
    assert_eq!(store.get_pending_jobs(10, 101).len(), 1);
}

#[test]
fn test_scanner_enqueues_only_changed_files() {
    let mut store = Store::new();
    // The stored fingerprint matches the first entry exactly.
    store.update_file_state("/a/x.txt", "1700000000:3", 50);
    let exclusions: Vec<ExcludePattern> = Vec::new();
    let entries = vec![
        ScanEntry { path: "/a".to_string(), is_dir: true, mtime: 0, size: 0 },
        ScanEntry { path: "/a/x.txt".to_string(), is_dir: false, mtime: 1700000000, size: 3 },
    ];
    let count = FileScanner::scan_directory(&mut store, "/a", "/r", &exclusions, &entries, 100);
    assert_eq!(count, 0);
    assert_eq!(store.get_pending_jobs(10, 100).len(), 0);

    // Scanning again with nothing changed still enqueues nothing.
    let again = FileScanner::scan_directory(&mut store, "/a", "/r", &exclusions, &entries, 101);
    assert_eq!(again, 0);

    // The file changed: one UPDATE job with the new token.
    let changed = vec![ScanEntry {
        path: "/a/x.txt".to_string(),
        is_dir: false,
        mtime: 1700000100,
        size: 5,
    }];
    let count = FileScanner::scan_directory(&mut store, "/a", "/r", &exclusions, &changed, 102);
    assert_eq!(count, 1);
    let jobs = store.get_pending_jobs(10, 102);
    assert_eq!(jobs.len(), 1);
    assert_eq!(jobs[0].event_type, SyncEventType::Update);
    assert_eq!(jobs[0].remote_path, "/r/x.txt");
    assert_eq!(jobs[0].change_token.as_deref(), Some("1700000100:5"));

    // A file never seen before is enqueued too.
    let fresh = vec![ScanEntry {
        path: "/a/new.txt".to_string(),
        is_dir: false,
        mtime: 7,
        size: 7,
    }];
    let mut store2 = Store::new();
    assert_eq!(
        FileScanner::scan_directory(&mut store2, "/a", "/r", &exclusions, &fresh, 103),
        1
    );
}

#[test]
fn test_scanner_skips_excluded_entries() {
    let mut store = Store::new();
    let exclusions = vec![ExcludePattern {
        path: "/a".to_string(),
        globs: vec!["*.tmp".to_string()],
    }];
    let entries = vec![
        ScanEntry { path: "/a/x.tmp".to_string(), is_dir: false, mtime: 1, size: 1 },
        ScanEntry { path: "/a/y.txt".to_string(), is_dir: false, mtime: 1, size: 1 },
    ];
    let count = FileScanner::scan_directory(&mut store, "/a", "/r", &exclusions, &entries, 100);
    assert_eq!(count, 1);
    let jobs = store.get_pending_jobs(10, 100);
    assert_eq!(jobs[0].local_path, "/a/y.txt");
}
