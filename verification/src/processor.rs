//! The processor: drive one claimed job through the remote operation and the
//! job state machine.
//!
//! The remote calls themselves (HTTP against the object store) are I/O and
//! happen outside.  This module decides everything around them: which remote
//! operation a job asks for ([`plan_job`]), the claim bookkeeping
//! ([`begin_job`]), and how the store changes once the remote call came back
//! ([`complete_job`]) — success marks the row `Synced` and settles the file
//! state and node mapping; failure retries with bounded exponential backoff
//! and blocks the row on the fifth failure.

use vstd::prelude::*;

verus! {

use crate::error::Error;
use crate::paths::{spec_filename, spec_parent, PathUtils};
use crate::store::{
    job_at,
    job_row_inv,
    jobs_contain,
    spec_bump_retry,
    spec_find_job,
    spec_mark_processing,
    spec_set_status,
    Store,
    StoreModel,
};
use crate::strutil::{ends_with, find_last_char, spec_ends_with};
use crate::types::{
    FileStateModel,
    JobModel,
    NodeMapping,
    NodeMappingModel,
    RemoteDeleteBehavior,
    SyncEventType,
    SyncJob,
    SyncJobStatus,
};
use crate::watcher::spec_basename;

// === MIME detection ===

/// What the MIME-guessing table says for a path.  The table belongs to the
/// `mime_guess` crate; its answer depends on the path's extension alone, so
/// on the path string alone.
pub uninterp spec fn mime_of(path: Seq<char>) -> Option<Seq<char>>;

/// Relies on `mime_guess::from_path` and `MimeGuess::first`: the guessed
/// type is a function of the path string alone.
#[verifier::external_body]
fn guess_mime(path: &str) -> (r: Option<String>)
    ensures
        match r {
            Some(m) => mime_of(path@) == Some(m@),
            None => mime_of(path@) is None,
        },
{
    mime_guess::from_path(path).first().map(|m| m.to_string())
}

/// Does the path's base name carry a `.txt` extension?
pub open spec fn spec_txt_extension(p: Seq<char>) -> bool {
    spec_ends_with(spec_basename(p), ".txt"@) && spec_basename(p).len() > 4
}

/// Test for a `.txt` extension.
pub fn has_txt_extension(path: &str) -> (r: bool)
    ensures
        r == spec_txt_extension(path@),
{
    let n = path.unicode_len();
    let name = match find_last_char(path, '/') {
        None => path.substring_char(0, n),
        Some(i) => path.substring_char(i + 1, n),
    };
    proof {
        assert(name@ == spec_basename(path@));
    }
    ends_with(name, ".txt") && name.unicode_len() > 4
}

/// The MIME type a create sends: the guessed one, else `text/plain` for a
/// `.txt` name, else `application/octet-stream`.
pub open spec fn spec_mime_for_create(path: Seq<char>) -> Seq<char> {
    match mime_of(path) {
        Some(m) => m,
        None => if spec_txt_extension(path) {
            "text/plain"@
        } else {
            "application/octet-stream"@
        },
    }
}

/// The MIME type an update sends: the guessed one, else
/// `application/octet-stream`.
pub open spec fn spec_mime_for_update(path: Seq<char>) -> Seq<char> {
    match mime_of(path) {
        Some(m) => m,
        None => "application/octet-stream"@,
    }
}

/// Detect the MIME type for a create.
pub fn detect_mime_for_create(path: &str) -> (m: String)
    ensures
        m@ == spec_mime_for_create(path@),
{
    match guess_mime(path) {
        Some(m) => m,
        None => if has_txt_extension(path) {
            "text/plain".to_owned()
        } else {
            "application/octet-stream".to_owned()
        },
    }
}

/// Detect the MIME type for an update.
pub fn detect_mime_for_update(path: &str) -> (m: String)
    ensures
        m@ == spec_mime_for_update(path@),
{
    match guess_mime(path) {
        Some(m) => m,
        None => "application/octet-stream".to_owned(),
    }
}

// === Backoff ===

/// The retry delay after the `n`-th failure: one minute doubled each time.
pub open spec fn spec_backoff(n: int) -> int {
    60 * (vstd::arithmetic::power2::pow2(n as nat) as int)
}

/// The five retry delays are exactly 60, 120, 240, 480 and 960 seconds, so a
/// job failing at some instant has its deadlines at that instant plus these.
pub proof fn lemma_backoff_schedule()
    ensures
        spec_backoff(0) == 60,
        spec_backoff(1) == 120,
        spec_backoff(2) == 240,
        spec_backoff(3) == 480,
        spec_backoff(4) == 960,
{
    vstd::arithmetic::power2::lemma2_to64();
}

/// Compute the retry delay after the `n`-th failure.
pub fn backoff_seconds(n_retries: i32) -> (r: i64)
    requires
        0 <= n_retries < 5,
    ensures
        r == spec_backoff(n_retries as int),
        60 <= r <= 960,
{
    proof {
        lemma_backoff_schedule();
    }
    if n_retries == 0 {
        60
    } else if n_retries == 1 {
        120
    } else if n_retries == 2 {
        240
    } else if n_retries == 3 {
        480
    } else {
        960
    }
}

// === Planning ===

/// The remote operation a job asks for.  The content bytes of a create are
/// read from disk by the I/O layer; the plan carries everything else.
pub enum RemoteOp {
    /// Create a file node under `parent_uid`.
    CreateFile { parent_uid: String, name: String, mime_type: String },
    /// Create a folder node under `parent_uid`.
    CreateFolder { parent_uid: String, name: String },
    /// Delete the old node, then create the file anew under `parent_uid`
    /// (the remote treats update as delete-then-create; the two calls are
    /// not atomic).
    DeleteThenCreate { old_uid: String, parent_uid: String, name: String, mime_type: String },
    /// Delete a node, to trash or for good.
    Delete { uid: String, permanent: bool },
    /// Nothing to do remotely (deleting an unmapped path is already done).
    NoOp,
}

/// The mathematical shadow of a remote operation.
#[verifier::ext_equal]
pub enum RemoteOpModel {
    CreateFile { parent_uid: Seq<char>, name: Seq<char>, mime_type: Seq<char> },
    CreateFolder { parent_uid: Seq<char>, name: Seq<char> },
    DeleteThenCreate {
        old_uid: Seq<char>,
        parent_uid: Seq<char>,
        name: Seq<char>,
        mime_type: Seq<char>,
    },
    Delete { uid: Seq<char>, permanent: bool },
    NoOp,
}

impl View for RemoteOp {
    type V = RemoteOpModel;

    open spec fn view(&self) -> RemoteOpModel {
        match self {
            RemoteOp::CreateFile { parent_uid, name, mime_type } => RemoteOpModel::CreateFile {
                parent_uid: parent_uid@,
                name: name@,
                mime_type: mime_type@,
            },
            RemoteOp::CreateFolder { parent_uid, name } => RemoteOpModel::CreateFolder {
                parent_uid: parent_uid@,
                name: name@,
            },
            RemoteOp::DeleteThenCreate { old_uid, parent_uid, name, mime_type } => RemoteOpModel::DeleteThenCreate {
                old_uid: old_uid@,
                parent_uid: parent_uid@,
                name: name@,
                mime_type: mime_type@,
            },
            RemoteOp::Delete { uid, permanent } => RemoteOpModel::Delete {
                uid: uid@,
                permanent: *permanent,
            },
            RemoteOp::NoOp => RemoteOpModel::NoOp,
        }
    }
}

/// What planning decides: the remote operation, or why it cannot start.
pub enum PlanOutcome {
    /// Perform this remote operation.
    Op(RemoteOpModel),
    /// The local file vanished between enqueue and processing.
    MissingFile,
    /// The remote path has no parent directory.
    MissingParent,
}

/// The plan for a create-file job: the file must still exist, the remote
/// path must have a parent, and the node goes under the account root (the
/// remote hierarchy is flat at present: parents are not walked).
pub open spec fn spec_plan_create_file(
    job: JobModel,
    file_exists: bool,
    root_id: Seq<char>,
) -> PlanOutcome {
    if !file_exists {
        PlanOutcome::MissingFile
    } else if spec_parent(job.remote_path) is None {
        PlanOutcome::MissingParent
    } else {
        PlanOutcome::Op(
            RemoteOpModel::CreateFile {
                parent_uid: root_id,
                name: spec_filename(job.remote_path),
                mime_type: spec_mime_for_create(job.local_path),
            },
        )
    }
}

/// The whole planning decision, by event type.  `mapping` is the stored node
/// mapping of the job's (local path, remote path) pair; `file_exists` is
/// whether the local path is still on disk.
pub open spec fn spec_plan_job(
    job: JobModel,
    mapping: Option<NodeMappingModel>,
    behavior: RemoteDeleteBehavior,
    file_exists: bool,
    root_id: Seq<char>,
) -> PlanOutcome {
    match job.event_type {
        SyncEventType::CreateFile => spec_plan_create_file(job, file_exists, root_id),
        SyncEventType::CreateDir => if spec_parent(job.remote_path) is None {
            PlanOutcome::MissingParent
        } else {
            PlanOutcome::Op(
                RemoteOpModel::CreateFolder {
                    parent_uid: root_id,
                    name: spec_filename(job.remote_path),
                },
            )
        },
        SyncEventType::Update => if !file_exists {
            PlanOutcome::MissingFile
        } else {
            match mapping {
                None => spec_plan_create_file(job, file_exists, root_id),
                Some(m) => PlanOutcome::Op(
                    RemoteOpModel::DeleteThenCreate {
                        old_uid: m.node_uid,
                        parent_uid: m.parent_node_uid,
                        name: spec_filename(job.remote_path),
                        mime_type: spec_mime_for_update(job.local_path),
                    },
                ),
            }
        },
        SyncEventType::Delete => match mapping {
            Some(m) => PlanOutcome::Op(
                RemoteOpModel::Delete {
                    uid: m.node_uid,
                    permanent: behavior == RemoteDeleteBehavior::Permanent,
                },
            ),
            None => PlanOutcome::Op(RemoteOpModel::NoOp),
        },
    }
}

/// Decide the remote operation for a job.  Fails with `FileNotFound` when a
/// create or update finds the local file gone, and with `InvalidPath` when
/// the remote path has no parent; succeeds on every other input.
pub fn plan_job(
    job: &SyncJob,
    mapping: Option<&NodeMapping>,
    behavior: RemoteDeleteBehavior,
    file_exists: bool,
    root_id: &str,
) -> (r: Result<RemoteOp, Error>)
    ensures
        match r {
            Ok(op) => spec_plan_job(
                job@,
                match mapping {
                    Some(m) => Some(m@),
                    None => None,
                },
                behavior,
                file_exists,
                root_id@,
            ) == PlanOutcome::Op(op@),
            Err(e) => match spec_plan_job(
                job@,
                match mapping {
                    Some(m) => Some(m@),
                    None => None,
                },
                behavior,
                file_exists,
                root_id@,
            ) {
                PlanOutcome::MissingFile => e matches Error::FileNotFound(p) && p@
                    == job.local_path@,
                PlanOutcome::MissingParent => e matches Error::InvalidPath(m) && m@
                    == "No parent directory"@,
                PlanOutcome::Op(_) => false,
            },
        },
{
    match job.event_type {
        SyncEventType::CreateFile => plan_create_file(job, file_exists, root_id),
        SyncEventType::CreateDir => {
            match PathUtils::parent(job.remote_path.as_str()) {
                None => Err(Error::InvalidPath("No parent directory".to_owned())),
                Some(_) => Ok(
                    RemoteOp::CreateFolder {
                        parent_uid: root_id.to_owned(),
                        name: PathUtils::filename(job.remote_path.as_str()),
                    },
                ),
            }
        },
        SyncEventType::Update => {
            if !file_exists {
                return Err(Error::FileNotFound(job.local_path.clone()));
            }
            match mapping {
                None => plan_create_file(job, file_exists, root_id),
                Some(m) => Ok(
                    RemoteOp::DeleteThenCreate {
                        old_uid: m.node_uid.clone(),
                        parent_uid: m.parent_node_uid.clone(),
                        name: PathUtils::filename(job.remote_path.as_str()),
                        mime_type: detect_mime_for_update(job.local_path.as_str()),
                    },
                ),
            }
        },
        SyncEventType::Delete => {
            match mapping {
                Some(m) => Ok(
                    RemoteOp::Delete {
                        uid: m.node_uid.clone(),
                        permanent: match behavior {
                            RemoteDeleteBehavior::Permanent => true,
                            RemoteDeleteBehavior::Trash => false,
                        },
                    },
                ),
                None => Ok(RemoteOp::NoOp),
            }
        },
    }
}

/// Plan the create-file operation shared by `CREATE_FILE` jobs and `UPDATE`
/// jobs with no existing mapping.
fn plan_create_file(job: &SyncJob, file_exists: bool, root_id: &str) -> (r: Result<
    RemoteOp,
    Error,
>)
    ensures
        match r {
            Ok(op) => spec_plan_create_file(job@, file_exists, root_id@) == PlanOutcome::Op(op@),
            Err(e) => match spec_plan_create_file(job@, file_exists, root_id@) {
                PlanOutcome::MissingFile => e matches Error::FileNotFound(p) && p@
                    == job.local_path@,
                PlanOutcome::MissingParent => e matches Error::InvalidPath(m) && m@
                    == "No parent directory"@,
                PlanOutcome::Op(_) => false,
            },
        },
{
    if !file_exists {
        return Err(Error::FileNotFound(job.local_path.clone()));
    }
    match PathUtils::parent(job.remote_path.as_str()) {
        None => Err(Error::InvalidPath("No parent directory".to_owned())),
        Some(_) => Ok(
            RemoteOp::CreateFile {
                parent_uid: root_id.to_owned(),
                name: PathUtils::filename(job.remote_path.as_str()),
                mime_type: detect_mime_for_create(job.local_path.as_str()),
            },
        ),
    }
}

// === Claim and completion ===

/// Claim a job: mark its row `Processing`, clear its retry deadline, and
/// take the processing lease on its local path.
pub fn begin_job(store: &mut Store, job: &SyncJob, now: i64)
    requires
        old(store).wf(),
    ensures
        final(store).wf(),
        final(store)@ == (StoreModel {
            jobs: spec_mark_processing(old(store)@.jobs, job@.id),
            leases: old(store)@.leases.insert(job.local_path@, now as int),
            ..old(store)@
        }),
{
    store.mark_job_processing(job.id);
    store.add_to_processing_queue(job.local_path.as_str(), now);
    proof {
        assert(store@ =~= (StoreModel {
            jobs: spec_mark_processing(old(store)@.jobs, job@.id),
            leases: old(store)@.leases.insert(job.local_path@, now as int),
            ..old(store)@
        }));
    }
}

/// The store after a job finished successfully: the lease is released, the
/// row is `Synced` with no error, a create records its node mapping (when
/// the remote reported the new node's uid), a delete removes the mapping,
/// and the file state now carries the job's change token — or is gone, for a
/// delete.
pub open spec fn spec_success_model(
    m: StoreModel,
    job: JobModel,
    op: RemoteOpModel,
    uid: Option<Seq<char>>,
    now: int,
) -> StoreModel {
    let key = (job.local_path, job.remote_path);
    let mappings = match op {
        RemoteOpModel::CreateFile { parent_uid, .. } => match uid {
            Some(u) => m.mappings.insert(
                key,
                NodeMappingModel {
                    node_uid: u,
                    parent_node_uid: parent_uid,
                    is_directory: false,
                    updated_at: now,
                },
            ),
            None => m.mappings,
        },
        RemoteOpModel::CreateFolder { parent_uid, .. } => match uid {
            Some(u) => m.mappings.insert(
                key,
                NodeMappingModel {
                    node_uid: u,
                    parent_node_uid: parent_uid,
                    is_directory: true,
                    updated_at: now,
                },
            ),
            None => m.mappings,
        },
        RemoteOpModel::DeleteThenCreate { .. } => m.mappings,
        RemoteOpModel::Delete { .. } => m.mappings.remove(key),
        RemoteOpModel::NoOp => m.mappings.remove(key),
    };
    let file_states = if job.event_type == SyncEventType::Delete {
        m.file_states.remove(job.local_path)
    } else {
        match job.change_token {
            Some(t) => m.file_states.insert(
                job.local_path,
                FileStateModel { change_token: t, updated_at: now },
            ),
            None => m.file_states,
        }
    };
    StoreModel {
        jobs: spec_set_status(m.jobs, job.id, SyncJobStatus::Synced, None),
        mappings: mappings,
        file_states: file_states,
        leases: m.leases.remove(job.local_path),
        ..m
    }
}

/// The store after a job failed: the lease is released and the row either
/// gets one more retry with its deadline `spec_backoff(n_retries)` seconds
/// from now (below five retries), or is blocked with the error recorded (on
/// the fifth failure).
pub open spec fn spec_failure_model(
    m: StoreModel,
    job: JobModel,
    message: Seq<char>,
    now: int,
) -> StoreModel {
    let jobs = if job.n_retries < 5 {
        spec_bump_retry(m.jobs, job.id, now + spec_backoff(job.n_retries))
    } else {
        spec_set_status(m.jobs, job.id, SyncJobStatus::Blocked, Some(message))
    };
    StoreModel { jobs: jobs, leases: m.leases.remove(job.local_path), ..m }
}

/// Record the outcome of a job's remote operation.  `result` carries the
/// created node's uid on success (for creates that reported one) or the
/// error.  The claimed row must still be the one claimed: mid-flight, with
/// no retry deadline, and with the claimed retry count.
pub fn complete_job(
    store: &mut Store,
    job: &SyncJob,
    op: &RemoteOp,
    result: Result<Option<String>, Error>,
    now: i64,
) -> (r: Result<(), Error>)
    requires
        old(store).wf(),
        0 <= job@.n_retries,
        match spec_find_job(old(store)@.jobs, job@.id) {
            Some(j) => j.status == SyncJobStatus::Processing && j.retry_at is None && j.n_retries
                == job@.n_retries,
            None => true,
        },
        now + 960 <= i64::MAX,
    ensures
        final(store).wf(),
        match result {
            Ok(uid) => r is Ok && final(store)@ == spec_success_model(
                old(store)@,
                job@,
                op@,
                crate::types::view_opt_str(uid),
                now as int,
            ),
            Err(e) => (r matches Err(e2) && e2.spec_message() == e.spec_message())
                && final(store)@ == spec_failure_model(
                old(store)@,
                job@,
                e.spec_message(),
                now as int,
            ),
        },
{
    store.remove_from_processing_queue(job.local_path.as_str());
    match result {
        Ok(uid) => {
            match op {
                RemoteOp::CreateFile { parent_uid, .. } => {
                    if let Some(u) = &uid {
                        let row = NodeMapping {
                            local_path: job.local_path.clone(),
                            remote_path: job.remote_path.clone(),
                            node_uid: u.clone(),
                            parent_node_uid: parent_uid.clone(),
                            is_directory: false,
                            updated_at: now,
                        };
                        store.update_node_mapping(&row);
                    }
                },
                RemoteOp::CreateFolder { parent_uid, .. } => {
                    if let Some(u) = &uid {
                        let row = NodeMapping {
                            local_path: job.local_path.clone(),
                            remote_path: job.remote_path.clone(),
                            node_uid: u.clone(),
                            parent_node_uid: parent_uid.clone(),
                            is_directory: true,
                            updated_at: now,
                        };
                        store.update_node_mapping(&row);
                    }
                },
                RemoteOp::DeleteThenCreate { .. } => {},
                RemoteOp::Delete { .. } => {
                    store.delete_node_mapping(
                        job.local_path.as_str(),
                        job.remote_path.as_str(),
                    );
                },
                RemoteOp::NoOp => {
                    store.delete_node_mapping(
                        job.local_path.as_str(),
                        job.remote_path.as_str(),
                    );
                },
            }
            store.update_job_status(job.id, SyncJobStatus::Synced, None);
            match job.event_type {
                SyncEventType::Delete => {
                    store.delete_file_state(job.local_path.as_str());
                },
                _ => {
                    if let Some(token) = &job.change_token {
                        store.update_file_state(job.local_path.as_str(), token.as_str(), now);
                    }
                },
            }
            proof {
                assert(store@ =~= spec_success_model(
                    old(store)@,
                    job@,
                    op@,
                    crate::types::view_opt_str(uid),
                    now as int,
                ));
            }
            Ok(())
        },
        Err(e) => {
            if job.n_retries < 5 {
                let retry_at = now + backoff_seconds(job.n_retries);
                store.increment_job_retry(job.id, retry_at);
            } else {
                let message = e.message();
                proof {
                    store.lemma_job_rows_invariant();
                    if jobs_contain(store@.jobs, job.id as int) {
                        let k = choose|k: int|
                            0 <= k < store@.jobs.len() && store@.jobs[k].id == job.id as int;
                        assert(job_row_inv(store@.jobs[k]));
                        assert(job_at(store@.jobs, job.id as int) == store@.jobs[k]);
                    }
                }
                store.update_job_status(job.id, SyncJobStatus::Blocked, Some(message.as_str()));
            }
            proof {
                assert(store@ =~= spec_failure_model(
                    old(store)@,
                    job@,
                    e.spec_message(),
                    now as int,
                ));
            }
            Err(e)
        },
    }
}

/// A successful non-delete job on a path settles its file state at the
/// job's change token; a successful delete removes the row.
pub proof fn lemma_success_settles_file_state(
    m: StoreModel,
    job: JobModel,
    op: RemoteOpModel,
    uid: Option<Seq<char>>,
    now: int,
)
    ensures
        (job.event_type != SyncEventType::Delete && job.change_token is Some)
            ==> spec_success_model(m, job, op, uid, now).file_states.contains_key(job.local_path)
            && spec_success_model(m, job, op, uid, now).file_states[job.local_path]
            == (FileStateModel { change_token: job.change_token->Some_0, updated_at: now }),
        job.event_type == SyncEventType::Delete ==> !spec_success_model(
            m,
            job,
            op,
            uid,
            now,
        ).file_states.contains_key(job.local_path),
{
}

/// What a failure does to the claimed row: below five retries it schedules
/// the next attempt exactly `spec_backoff(n_retries)` seconds after the
/// failure instant, leaving the status alone; the failure after the fifth
/// retry blocks the row with the error recorded.
pub proof fn lemma_failure_dichotomy(
    m: StoreModel,
    job: JobModel,
    message: Seq<char>,
    now: int,
    i: int,
)
    requires
        0 <= i < m.jobs.len(),
        m.jobs[i].id == job.id,
    ensures
        ({
            let after = spec_failure_model(m, job, message, now);
            &&& after.jobs.len() == m.jobs.len()
            &&& (job.n_retries < 5 ==> after.jobs[i].n_retries == m.jobs[i].n_retries + 1
                && after.jobs[i].retry_at == Some(now + spec_backoff(job.n_retries))
                && after.jobs[i].status == m.jobs[i].status)
            &&& (job.n_retries >= 5 ==> after.jobs[i].status == SyncJobStatus::Blocked
                && after.jobs[i].last_error == Some(message) && after.jobs[i].n_retries
                == m.jobs[i].n_retries)
        }),
{
}

/// Round trip: process a non-delete job for a path to `Synced`, then a
/// delete job for the same path pair to `Synced` — afterwards the store
/// holds no node mapping and no file state for that path.
pub proof fn lemma_create_then_delete_round_trip(
    m0: StoreModel,
    create_job: JobModel,
    create_op: RemoteOpModel,
    uid: Option<Seq<char>>,
    t1: int,
    delete_job: JobModel,
    delete_op: RemoteOpModel,
    t2: int,
)
    requires
        create_job.event_type != SyncEventType::Delete,
        delete_job.event_type == SyncEventType::Delete,
        delete_job.local_path == create_job.local_path,
        delete_job.remote_path == create_job.remote_path,
        delete_op is Delete || delete_op is NoOp,
    ensures
        ({
            let m1 = spec_success_model(m0, create_job, create_op, uid, t1);
            let m2 = spec_success_model(m1, delete_job, delete_op, None, t2);
            &&& !m2.file_states.contains_key(create_job.local_path)
            &&& !m2.mappings.contains_key((create_job.local_path, create_job.remote_path))
        }),
{
}

} // verus!
