use proton_drive_sync::error::Error;
use proton_drive_sync::processor::{
    backoff_seconds, begin_job, complete_job, detect_mime_for_create, detect_mime_for_update,
    plan_job, RemoteOp,
};
use proton_drive_sync::store::Store;
use proton_drive_sync::types::{
    NodeMapping, RemoteDeleteBehavior, SyncEvent, SyncEventType, SyncJob, SyncJobStatus,
};

fn enqueue(store: &mut Store, event_type: SyncEventType, token: Option<&str>, now: i64) -> i64 {
    store.enqueue_job(
        &SyncEvent {
            event_type,
            local_path: "/a/x.txt".to_string(),
            remote_path: "/r/x.txt".to_string(),
            change_token: token.map(|t| t.to_string()),
            old_local_path: None,
            old_remote_path: None,
        },
        now,
    )
}

fn claim_one(store: &mut Store, now: i64) -> SyncJob {
    let jobs = store.get_pending_jobs(10, now);
    assert!(!jobs.is_empty(), "expected a claimable job");
    let job = jobs.into_iter().next().unwrap();
    begin_job(store, &job, now);
    job
}

#[test]
fn test_backoff_schedule() {
    assert_eq!(backoff_seconds(0), 60);
    assert_eq!(backoff_seconds(1), 120);
    assert_eq!(backoff_seconds(2), 240);
    assert_eq!(backoff_seconds(3), 480);
    assert_eq!(backoff_seconds(4), 960);
}

#[test]
fn test_mime_detection() {
    assert_eq!(detect_mime_for_create("/a/photo.png"), "image/png");
    assert_eq!(detect_mime_for_create("/a/notes.txt"), "text/plain");
    assert_eq!(detect_mime_for_create("/a/README"), "application/octet-stream");
    assert_eq!(detect_mime_for_update("/a/photo.jpg"), "image/jpeg");
    assert_eq!(detect_mime_for_update("/a/README"), "application/octet-stream");
}

#[test]
fn test_plan_create_file() {
    let mut store = Store::new();
    enqueue(&mut store, SyncEventType::CreateFile, Some("1:3"), 0);
    let job = claim_one(&mut store, 0);

    // The local file vanished: the job cannot start.
    match plan_job(&job, None, RemoteDeleteBehavior::Trash, false, "root") {
        Err(Error::FileNotFound(p)) => assert_eq!(p, "/a/x.txt"),
        _ => panic!("a vanished file must yield FileNotFound"),
    }

    match plan_job(&job, None, RemoteDeleteBehavior::Trash, true, "root") {
        Ok(RemoteOp::CreateFile { parent_uid, name, mime_type }) => {
            assert_eq!(parent_uid, "root");
            assert_eq!(name, "x.txt");
            assert_eq!(mime_type, "text/plain");
        }
        _ => panic!("expected a create-file operation"),
    }
}

#[test]
fn test_plan_update_and_delete() {
    let mut store = Store::new();
    enqueue(&mut store, SyncEventType::Update, Some("1:3"), 0);
    let job = claim_one(&mut store, 0);

    // No mapping yet: the update upgrades to a create.
    match plan_job(&job, None, RemoteDeleteBehavior::Trash, true, "root") {
        Ok(RemoteOp::CreateFile { .. }) => {}
        _ => panic!("an unmapped update must plan a create"),
    }

    let mapping = NodeMapping {
        local_path: "/a/x.txt".to_string(),
        remote_path: "/r/x.txt".to_string(),
        node_uid: "N1".to_string(),
        parent_node_uid: "root".to_string(),
        is_directory: false,
        updated_at: 0,
    };
    match plan_job(&job, Some(&mapping), RemoteDeleteBehavior::Trash, true, "root") {
        Ok(RemoteOp::DeleteThenCreate { old_uid, parent_uid, name, .. }) => {
            assert_eq!(old_uid, "N1");
            assert_eq!(parent_uid, "root");
            assert_eq!(name, "x.txt");
        }
        _ => panic!("a mapped update must plan delete-then-create"),
    }

    let delete_job = SyncJob { event_type: SyncEventType::Delete, ..job };
    match plan_job(&delete_job, Some(&mapping), RemoteDeleteBehavior::Trash, false, "root") {
        Ok(RemoteOp::Delete { uid, permanent }) => {
            assert_eq!(uid, "N1");
            assert!(!permanent);
        }
        _ => panic!("a mapped delete must plan a remote delete"),
    }
    // Flipping the configured behavior flips the call.
    match plan_job(&delete_job, Some(&mapping), RemoteDeleteBehavior::Permanent, false, "root") {
        Ok(RemoteOp::Delete { permanent, .. }) => assert!(permanent),
        _ => panic!("expected a remote delete"),
    }
    // Deleting an unmapped path is already done.
    match plan_job(&delete_job, None, RemoteDeleteBehavior::Trash, false, "root") {
        Ok(RemoteOp::NoOp) => {}
        _ => panic!("an unmapped delete needs no remote work"),
    }
}

#[test]
fn test_successful_create_updates_state() {
    let mut store = Store::new();
    enqueue(&mut store, SyncEventType::CreateFile, Some("1700000000:3"), 0);
    let job = claim_one(&mut store, 1);
    assert!(store.has_lease("/a/x.txt"));

    let op = plan_job(&job, None, RemoteDeleteBehavior::Trash, true, "root").unwrap();
    let r = complete_job(&mut store, &job, &op, Ok(Some("N1".to_string())), 2);
    assert!(r.is_ok());
    assert!(!store.has_lease("/a/x.txt"));

    // The row is synced, with no retry deadline and no error.
    let counts = proton_drive_sync::queue::get_status_counts(&store);
    assert_eq!(counts.synced, 1);
    assert_eq!(counts.pending + counts.processing + counts.blocked, 0);

    // The file state carries the job's token and the mapping the new uid.
    let fs = store.get_file_state("/a/x.txt").unwrap();
    assert_eq!(fs.change_token, "1700000000:3");
    let mapping = store.get_node_mapping("/a/x.txt", "/r/x.txt").unwrap();
    assert_eq!(mapping.node_uid, "N1");
    assert_eq!(mapping.parent_node_uid, "root");
    assert!(!mapping.is_directory);
}

#[test]
fn test_failure_retries_then_blocks() {
    let mut store = Store::new();
    enqueue(&mut store, SyncEventType::CreateFile, Some("1:3"), 0);

    // First failure at t=0: one retry recorded, deadline at t+60.
    let job = claim_one(&mut store, 0);
    let op = plan_job(&job, None, RemoteDeleteBehavior::Trash, true, "root").unwrap();
    let r = complete_job(&mut store, &job, &op, Err(Error::Sync("boom".to_string())), 0);
    assert!(r.is_err());
    let counts = proton_drive_sync::queue::get_status_counts(&store);
    assert_eq!(counts.processing, 1);

    // Not claimable before the deadline, claimable after it.
    assert!(store.get_pending_jobs(10, 59).is_empty());
    let after = store.get_pending_jobs(10, 61);
    assert_eq!(after.len(), 1);
    assert_eq!(after[0].n_retries, 1);
    assert_eq!(after[0].retry_at, Some(60));

    // Fail four more times: the deadlines follow the doubling schedule, and
    // the fifth failure blocks the row with the error recorded.
    let mut now: i64 = 61;
    for expected_delay in [120i64, 240, 480, 960] {
        let job = claim_one(&mut store, now);
        let op = plan_job(&job, None, RemoteDeleteBehavior::Trash, true, "root").unwrap();
        let _ = complete_job(&mut store, &job, &op, Err(Error::Sync("boom".to_string())), now);
        let reclaim = store.get_pending_jobs(10, now + expected_delay + 1);
        assert_eq!(reclaim.len(), 1);
        assert_eq!(reclaim[0].retry_at, Some(now + expected_delay));
        now = now + expected_delay + 1;
    }
    let job = claim_one(&mut store, now);
    assert_eq!(job.n_retries, 5);
    let op = plan_job(&job, None, RemoteDeleteBehavior::Trash, true, "root").unwrap();
    let _ = complete_job(&mut store, &job, &op, Err(Error::Sync("boom".to_string())), now);
    let counts = proton_drive_sync::queue::get_status_counts(&store);
    assert_eq!(counts.blocked, 1);
    assert!(store.get_pending_jobs(10, now + 100000).is_empty());
}

#[test]
fn test_create_then_delete_round_trip() {
    let mut store = Store::new();
    enqueue(&mut store, SyncEventType::CreateFile, Some("1:3"), 0);
    let job = claim_one(&mut store, 0);
    let op = plan_job(&job, None, RemoteDeleteBehavior::Trash, true, "root").unwrap();
    complete_job(&mut store, &job, &op, Ok(Some("N1".to_string())), 1).unwrap();
    assert!(store.get_file_state("/a/x.txt").is_some());
    assert!(store.get_node_mapping("/a/x.txt", "/r/x.txt").is_some());

    enqueue(&mut store, SyncEventType::Delete, None, 2);
    let job = claim_one(&mut store, 3);
    assert_eq!(job.event_type, SyncEventType::Delete);
    let mapping = store.get_node_mapping("/a/x.txt", "/r/x.txt");
    let op = plan_job(&job, mapping.as_ref(), RemoteDeleteBehavior::Trash, false, "root").unwrap();
    complete_job(&mut store, &job, &op, Ok(None), 4).unwrap();

    // No trace of the path is left.
    assert!(store.get_file_state("/a/x.txt").is_none());
    assert!(store.get_node_mapping("/a/x.txt", "/r/x.txt").is_none());
    let counts = proton_drive_sync::queue::get_status_counts(&store);
    assert_eq!(counts.synced, 2);
}

#[test]
fn test_delete_removes_file_state_create_records_it() {
    // A successful non-delete job writes FileState[P] = token; a successful
    // delete removes the row.
    let mut store = Store::new();
    store.update_file_state("/a/x.txt", "1:1", 0);
    enqueue(&mut store, SyncEventType::Delete, None, 1);
    let job = claim_one(&mut store, 2);
    let op = plan_job(&job, None, RemoteDeleteBehavior::Trash, false, "root").unwrap();
    complete_job(&mut store, &job, &op, Ok(None), 3).unwrap();
    assert!(store.get_file_state("/a/x.txt").is_none());
}

#[test]
fn test_lease_excludes_second_worker_on_same_path() {
    // Two jobs queued for the same local path: the lease taken by the first
    // keeps a second worker off the path until the first completes.
    let mut store = Store::new();
    enqueue(&mut store, SyncEventType::CreateFile, Some("1:3"), 0);
    enqueue(&mut store, SyncEventType::Delete, None, 1);
    let jobs = store.get_pending_jobs(10, 2);
    assert_eq!(jobs.len(), 2);

    begin_job(&mut store, &jobs[0], 2);
    assert!(store.has_lease("/a/x.txt"));

    let op = plan_job(&jobs[0], None, RemoteDeleteBehavior::Trash, true, "root").unwrap();
    complete_job(&mut store, &jobs[0], &op, Ok(Some("N1".to_string())), 3).unwrap();
    assert!(!store.has_lease("/a/x.txt"));

    // Now the delete can run; the end state has no mapping and no file state.
    let delete = store.get_pending_jobs(10, 4).into_iter().next().unwrap();
    begin_job(&mut store, &delete, 4);
    let mapping = store.get_node_mapping("/a/x.txt", "/r/x.txt");
    let op = plan_job(&delete, mapping.as_ref(), RemoteDeleteBehavior::Trash, false, "root").unwrap();
    complete_job(&mut store, &delete, &op, Ok(None), 5).unwrap();
    assert!(store.get_node_mapping("/a/x.txt", "/r/x.txt").is_none());
    assert!(store.get_file_state("/a/x.txt").is_none());
}
