use proton_drive_sync::queue::{cleanup_old_jobs, clear_stale_processing, get_status_counts};
use proton_drive_sync::store::Store;
use proton_drive_sync::sync::{RootScan, SyncEngine, SyncState};
use proton_drive_sync::types::{Config, SyncEvent, SyncEventType, SyncJobStatus};
use proton_drive_sync::watcher::ScanEntry;

fn pending_event(path: &str) -> SyncEvent {
    SyncEvent {
        event_type: SyncEventType::CreateFile,
        local_path: path.to_string(),
        remote_path: "/r/x".to_string(),
        change_token: Some("1:1".to_string()),
        old_local_path: None,
        old_remote_path: None,
    }
}

#[test]
fn test_lifecycle_transitions_and_flags() {
    let mut store = Store::new();
    let mut engine = SyncEngine::new(Config::default());
    assert_eq!(engine.get_state(), SyncState::Idle);

    engine.start(&mut store);
    assert_eq!(engine.get_state(), SyncState::Running);
    assert!(store.get_flag("running"));

    engine.pause(&mut store);
    assert_eq!(engine.get_state(), SyncState::Paused);
    assert!(store.get_flag("paused"));

    // Pausing a non-running engine changes nothing.
    engine.pause(&mut store);
    assert_eq!(engine.get_state(), SyncState::Paused);

    engine.resume(&mut store);
    assert_eq!(engine.get_state(), SyncState::Running);
    assert!(!store.get_flag("paused"));

    engine.stop(&mut store);
    assert_eq!(engine.get_state(), SyncState::Idle);
    assert!(!store.get_flag("running"));
}

#[test]
fn test_paused_engine_claims_nothing() {
    let mut store = Store::new();
    let mut engine = SyncEngine::new(Config::default());
    engine.start(&mut store);
    store.enqueue_job(&pending_event("/a/x"), 0);

    // Running: the job is claimed.
    assert_eq!(engine.claim_ready_jobs(&store, 10, 1).len(), 1);

    // Paused: the next tick claims zero jobs.
    engine.pause(&mut store);
    assert_eq!(engine.claim_ready_jobs(&store, 10, 2).len(), 0);

    // Resumed: claiming is restored.
    engine.resume(&mut store);
    assert_eq!(engine.claim_ready_jobs(&store, 10, 3).len(), 1);
}

#[test]
fn test_signals_drain_exactly_once() {
    let mut store = Store::new();
    let mut engine = SyncEngine::new(Config::default());
    engine.start(&mut store);

    store.send_signal("pause");
    store.send_signal("resume");
    store.send_signal("pause");
    store.send_signal("unknown");
    engine.drain_signals(&mut store);

    // Applied in insertion order: running -> paused -> running -> paused.
    assert_eq!(engine.get_state(), SyncState::Paused);
    assert!(store.get_flag("paused"));

    // No signal persists after the draining tick; a second drain is a no-op.
    assert!(store.receive_signals().is_empty());
    engine.drain_signals(&mut store);
    assert_eq!(engine.get_state(), SyncState::Paused);

    store.send_signal("stop");
    engine.drain_signals(&mut store);
    assert_eq!(engine.get_state(), SyncState::Idle);
    assert!(!store.get_flag("running"));
}

#[test]
fn test_reconcile_counts_and_backlog_gate() {
    let mut store = Store::new();
    let mut config = Config::default();
    config.add_sync_dir("/a".to_string(), "/r".to_string());
    let mut engine = SyncEngine::new(config);
    engine.start(&mut store);
    assert!(engine.should_reconcile(&store));

    let walks = vec![RootScan {
        source_path: "/a".to_string(),
        remote_root: "/r".to_string(),
        entries: vec![
            ScanEntry { path: "/a/x.txt".to_string(), is_dir: false, mtime: 1, size: 1 },
            ScanEntry { path: "/a/y.txt".to_string(), is_dir: false, mtime: 1, size: 1 },
        ],
    }];
    assert_eq!(engine.reconcile(&mut store, &walks, 10), 2);
    // The same filesystem rescanned before processing enqueues the same
    // changes again; after the states are recorded it enqueues none.
    store.update_file_state("/a/x.txt", "1:1", 11);
    store.update_file_state("/a/y.txt", "1:1", 11);
    assert_eq!(engine.reconcile(&mut store, &walks, 12), 0);

    // A backlog above one hundred pending jobs skips reconciliation.
    for i in 0..101 {
        store.enqueue_job(&pending_event(&format!("/a/f{}", i)), 20);
    }
    assert!(!engine.should_reconcile(&store));
}

#[test]
fn test_status_counts_partition_jobs() {
    let mut store = Store::new();
    store.enqueue_job(&pending_event("/a/1"), 0);
    store.enqueue_job(&pending_event("/a/2"), 1);
    let id = store.enqueue_job(&pending_event("/a/3"), 2);
    store.mark_job_processing(id);
    let counts = get_status_counts(&store);
    assert_eq!(counts.pending, 2);
    assert_eq!(counts.processing, 1);
    assert_eq!(counts.synced, 0);
    assert_eq!(counts.blocked, 0);
    assert_eq!(counts.total(), 3);
}

#[test]
fn test_gc_and_stale_lease_sweep() {
    let mut store = Store::new();
    let id = store.enqueue_job(&pending_event("/a/old"), 100);
    store.mark_job_processing(id);
    store.update_job_status(id, SyncJobStatus::Synced, None);
    store.enqueue_job(&pending_event("/a/new"), 5000);

    // Only synced rows older than the cutoff are collected.
    assert_eq!(cleanup_old_jobs(&mut store, 1000, 5000), 1);
    let counts = get_status_counts(&store);
    assert_eq!(counts.pending, 1);
    assert_eq!(counts.synced, 0);

    // A lease left by a dead worker is swept once it ages out.
    store.add_to_processing_queue("/a/stuck", 0);
    store.add_to_processing_queue("/a/fresh", 4000);
    assert_eq!(clear_stale_processing(&mut store, 3600, 5000), 1);
    assert!(!store.has_lease("/a/stuck"));
    assert!(store.has_lease("/a/fresh"));
}

#[test]
fn test_queue_filters_retrying_jobs() {
    let mut store = Store::new();
    store.enqueue_job(&pending_event("/a/p"), 0);
    let id = store.enqueue_job(&pending_event("/a/r"), 1);
    store.mark_job_processing(id);
    store.increment_job_retry(id, 50);

    // The raw claim query selects both once the deadline passed...
    assert_eq!(store.get_pending_jobs(10, 60).len(), 2);
    // ...while the queue view keeps only still-pending rows.
    let only_pending = proton_drive_sync::queue::get_pending_jobs(&store, 10, 60);
    assert_eq!(only_pending.len(), 1);
    assert_eq!(only_pending[0].local_path, "/a/p");
}

#[test]
fn test_reboot_resumes_overdue_retry_rows() {
    // A store restarted with a PROCESSING row whose retry deadline lies in
    // the past hands that row straight back to the claim query.
    let mut store = Store::new();
    let id = store.enqueue_job(&pending_event("/a/x"), 0);
    store.mark_job_processing(id);
    store.increment_job_retry(id, 30);
    assert!(store.get_pending_jobs(10, 10).is_empty());
    let resumed = store.get_pending_jobs(10, 31);
    assert_eq!(resumed.len(), 1);
    assert_eq!(resumed[0].status, SyncJobStatus::Processing);
    assert_eq!(resumed[0].n_retries, 1);
}

#[test]
fn test_store_under_queries() {
    let mut store = Store::new();
    store.update_file_state("/a/x", "1:1", 0);
    store.update_file_state("/a/y", "2:2", 0);
    store.update_file_state("/b/z", "3:3", 0);
    let under = store.get_file_states_under("/a");
    assert_eq!(under.len(), 2);
    assert!(under.iter().all(|f| f.local_path.starts_with("/a")));
}
