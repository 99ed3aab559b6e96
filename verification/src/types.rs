//! Core data types of the sync pipeline.
//!
//! Every timestamp is a UTC instant with second granularity, carried as an
//! `i64` count of seconds since the Unix epoch.

use vstd::prelude::*;

verus! {

use crate::strutil::str_eq;

/// The kind of replication work a job asks for.
#[derive(Debug, Clone, Copy, PartialEq, Eq, Structural)]
pub enum SyncEventType {
    CreateFile,
    CreateDir,
    Update,
    Delete,
}

/// Where a job stands in its lifecycle.
#[derive(Debug, Clone, Copy, PartialEq, Eq, Structural)]
pub enum SyncJobStatus {
    Pending,
    Processing,
    Synced,
    Blocked,
}

/// What a remote DELETE does: move to trash or remove for good.
#[derive(Debug, Clone, Copy, PartialEq, Eq, Structural)]
pub enum RemoteDeleteBehavior {
    Trash,
    Permanent,
}

impl SyncEventType {
    /// The wire name of the event type, as stored in the job table.
    pub open spec fn spec_name(self) -> Seq<char> {
        match self {
            SyncEventType::CreateFile => "CREATE_FILE"@,
            SyncEventType::CreateDir => "CREATE_DIR"@,
            SyncEventType::Update => "UPDATE"@,
            SyncEventType::Delete => "DELETE"@,
        }
    }

    /// Render the wire name.
    pub fn to_string(&self) -> (s: String)
        ensures
            s@ == self.spec_name(),
    {
        match self {
            SyncEventType::CreateFile => "CREATE_FILE".to_owned(),
            SyncEventType::CreateDir => "CREATE_DIR".to_owned(),
            SyncEventType::Update => "UPDATE".to_owned(),
            SyncEventType::Delete => "DELETE".to_owned(),
        }
    }
}

impl SyncJobStatus {
    /// The wire name of the status, as stored in the job table.
    pub open spec fn spec_name(self) -> Seq<char> {
        match self {
            SyncJobStatus::Pending => "PENDING"@,
            SyncJobStatus::Processing => "PROCESSING"@,
            SyncJobStatus::Synced => "SYNCED"@,
            SyncJobStatus::Blocked => "BLOCKED"@,
        }
    }

    /// Render the wire name.
    pub fn to_string(&self) -> (s: String)
        ensures
            s@ == self.spec_name(),
    {
        match self {
            SyncJobStatus::Pending => "PENDING".to_owned(),
            SyncJobStatus::Processing => "PROCESSING".to_owned(),
            SyncJobStatus::Synced => "SYNCED".to_owned(),
            SyncJobStatus::Blocked => "BLOCKED".to_owned(),
        }
    }
}

/// What `parse_sync_event_type` yields on a given wire name: the matching
/// variant, with `Update` as the fallback for unrecognized input.
pub open spec fn spec_parse_sync_event_type(s: Seq<char>) -> SyncEventType {
    if s == "CREATE_FILE"@ {
        SyncEventType::CreateFile
    } else if s == "CREATE_DIR"@ {
        SyncEventType::CreateDir
    } else if s == "DELETE"@ {
        SyncEventType::Delete
    } else {
        SyncEventType::Update
    }
}

/// What `parse_sync_job_status` yields on a given wire name: the matching
/// variant, with `Pending` as the fallback for unrecognized input.
pub open spec fn spec_parse_sync_job_status(s: Seq<char>) -> SyncJobStatus {
    if s == "PROCESSING"@ {
        SyncJobStatus::Processing
    } else if s == "SYNCED"@ {
        SyncJobStatus::Synced
    } else if s == "BLOCKED"@ {
        SyncJobStatus::Blocked
    } else {
        SyncJobStatus::Pending
    }
}

/// Parse a wire name back into an event type; unrecognized input falls back
/// to `Update`.
pub fn parse_sync_event_type(s: &str) -> (t: SyncEventType)
    ensures
        t == spec_parse_sync_event_type(s@),
{
    if str_eq(s, "CREATE_FILE") {
        SyncEventType::CreateFile
    } else if str_eq(s, "CREATE_DIR") {
        SyncEventType::CreateDir
    } else if str_eq(s, "DELETE") {
        SyncEventType::Delete
    } else {
        SyncEventType::Update
    }
}

/// Parse a wire name back into a job status; unrecognized input falls back
/// to `Pending`.
pub fn parse_sync_job_status(s: &str) -> (t: SyncJobStatus)
    ensures
        t == spec_parse_sync_job_status(s@),
{
    if str_eq(s, "PROCESSING") {
        SyncJobStatus::Processing
    } else if str_eq(s, "SYNCED") {
        SyncJobStatus::Synced
    } else if str_eq(s, "BLOCKED") {
        SyncJobStatus::Blocked
    } else {
        SyncJobStatus::Pending
    }
}

/// One replication scope: a local root mirrored under a remote root.
#[derive(Debug, Clone)]
pub struct SyncDir {
    pub source_path: String,
    pub remote_root: String,
}

/// Glob patterns excluded from syncing beneath a path scope.
#[derive(Debug, Clone)]
pub struct ExcludePattern {
    pub path: String,
    pub globs: Vec<String>,
}

/// The in-process configuration.
#[derive(Debug, Clone)]
pub struct Config {
    pub sync_dirs: Vec<SyncDir>,
    pub sync_concurrency: usize,
    pub remote_delete_behavior: RemoteDeleteBehavior,
    pub dashboard_host: String,
    pub dashboard_port: u16,
    pub exclude_patterns: Vec<ExcludePattern>,
}

/// Default bound on concurrent in-flight jobs.
pub fn default_concurrency() -> (n: usize)
    ensures
        n == 4,
{
    4
}

/// Default remote delete behavior.
pub fn default_delete_behavior() -> (b: RemoteDeleteBehavior)
    ensures
        b == RemoteDeleteBehavior::Trash,
{
    RemoteDeleteBehavior::Trash
}

/// Default dashboard bind host.
pub fn default_dashboard_host() -> (h: String)
    ensures
        h@ == "127.0.0.1"@,
{
    "127.0.0.1".to_owned()
}

/// Default dashboard port.
pub fn default_dashboard_port() -> (p: u16)
    ensures
        p == 4242,
{
    4242
}

impl Default for Config {
    /// The configuration used when no file exists yet: no roots, no
    /// exclusions, and the documented defaults for everything else.
    fn default() -> (c: Config)
        ensures
            c.sync_dirs@.len() == 0,
            c.sync_concurrency == 4,
            c.remote_delete_behavior == RemoteDeleteBehavior::Trash,
            c.dashboard_host@ == "127.0.0.1"@,
            c.dashboard_port == 4242,
            c.exclude_patterns@.len() == 0,
    {
        Config {
            sync_dirs: Vec::new(),
            sync_concurrency: default_concurrency(),
            remote_delete_behavior: default_delete_behavior(),
            dashboard_host: default_dashboard_host(),
            dashboard_port: default_dashboard_port(),
            exclude_patterns: Vec::new(),
        }
    }
}

/// The view of an optional owned string: the optional character sequence.
pub open spec fn view_opt_str(o: Option<String>) -> Option<Seq<char>> {
    match o {
        Some(s) => Some(s@),
        None => None,
    }
}

/// The view of an optional borrowed string: the optional character sequence.
pub open spec fn view_opt_strref(o: Option<&str>) -> Option<Seq<char>> {
    match o {
        Some(s) => Some(s@),
        None => None,
    }
}

/// The view of an optional timestamp: the optional integer.
pub open spec fn view_opt_i64(o: Option<i64>) -> Option<int> {
    match o {
        Some(t) => Some(t as int),
        None => None,
    }
}

/// Copy an optional owned string.
pub fn clone_opt_string(o: &Option<String>) -> (r: Option<String>)
    ensures
        view_opt_str(r) == view_opt_str(*o),
{
    match o {
        Some(s) => Some(s.clone()),
        None => None,
    }
}

/// A job row: the intent to replicate one local path to one remote path.
#[derive(Debug, Clone)]
pub struct SyncJob {
    pub id: i64,
    pub event_type: SyncEventType,
    pub local_path: String,
    pub remote_path: String,
    pub status: SyncJobStatus,
    pub retry_at: Option<i64>,
    pub n_retries: i32,
    pub last_error: Option<String>,
    pub change_token: Option<String>,
    pub old_local_path: Option<String>,
    pub old_remote_path: Option<String>,
    pub created_at: i64,
}

/// The mathematical shadow of a job row, over character sequences and
/// unbounded integers.
#[verifier::ext_equal]
pub struct JobModel {
    pub id: int,
    pub event_type: SyncEventType,
    pub local_path: Seq<char>,
    pub remote_path: Seq<char>,
    pub status: SyncJobStatus,
    pub retry_at: Option<int>,
    pub n_retries: int,
    pub last_error: Option<Seq<char>>,
    pub change_token: Option<Seq<char>>,
    pub old_local_path: Option<Seq<char>>,
    pub old_remote_path: Option<Seq<char>>,
    pub created_at: int,
}

impl View for SyncJob {
    type V = JobModel;

    open spec fn view(&self) -> JobModel {
        JobModel {
            id: self.id as int,
            event_type: self.event_type,
            local_path: self.local_path@,
            remote_path: self.remote_path@,
            status: self.status,
            retry_at: view_opt_i64(self.retry_at),
            n_retries: self.n_retries as int,
            last_error: view_opt_str(self.last_error),
            change_token: view_opt_str(self.change_token),
            old_local_path: view_opt_str(self.old_local_path),
            old_remote_path: view_opt_str(self.old_remote_path),
            created_at: self.created_at as int,
        }
    }
}

impl SyncJob {
    /// Copy the row.
    pub fn duplicate(&self) -> (r: SyncJob)
        ensures
            r@ == self@,
    {
        let r = SyncJob {
            id: self.id,
            event_type: self.event_type,
            local_path: self.local_path.clone(),
            remote_path: self.remote_path.clone(),
            status: self.status,
            retry_at: self.retry_at,
            n_retries: self.n_retries,
            last_error: clone_opt_string(&self.last_error),
            change_token: clone_opt_string(&self.change_token),
            old_local_path: clone_opt_string(&self.old_local_path),
            old_remote_path: clone_opt_string(&self.old_remote_path),
            created_at: self.created_at,
        };
        proof {
            assert(r@ =~= self@);
        }
        r
    }
}

/// The last successfully replicated fingerprint of a local path.
#[derive(Debug, Clone)]
pub struct FileState {
    pub local_path: String,
    pub change_token: String,
    pub updated_at: i64,
}

/// The mathematical shadow of a file-state row, minus its key.
#[verifier::ext_equal]
pub struct FileStateModel {
    pub change_token: Seq<char>,
    pub updated_at: int,
}

impl View for FileState {
    type V = FileStateModel;

    open spec fn view(&self) -> FileStateModel {
        FileStateModel { change_token: self.change_token@, updated_at: self.updated_at as int }
    }
}

impl FileState {
    /// Copy the row.
    pub fn duplicate(&self) -> (r: FileState)
        ensures
            r@ == self@,
            r.local_path@ == self.local_path@,
    {
        let r = FileState {
            local_path: self.local_path.clone(),
            change_token: self.change_token.clone(),
            updated_at: self.updated_at,
        };
        proof {
            assert(r@ =~= self@);
        }
        r
    }
}

/// The association of a (local path, remote path) pair with the remote
/// service's opaque node identifier.
#[derive(Debug, Clone)]
pub struct NodeMapping {
    pub local_path: String,
    pub remote_path: String,
    pub node_uid: String,
    pub parent_node_uid: String,
    pub is_directory: bool,
    pub updated_at: i64,
}

/// The mathematical shadow of a node-mapping row, minus its key pair.
#[verifier::ext_equal]
pub struct NodeMappingModel {
    pub node_uid: Seq<char>,
    pub parent_node_uid: Seq<char>,
    pub is_directory: bool,
    pub updated_at: int,
}

impl View for NodeMapping {
    type V = NodeMappingModel;

    open spec fn view(&self) -> NodeMappingModel {
        NodeMappingModel {
            node_uid: self.node_uid@,
            parent_node_uid: self.parent_node_uid@,
            is_directory: self.is_directory,
            updated_at: self.updated_at as int,
        }
    }
}

impl NodeMapping {
    /// Copy the row.
    pub fn duplicate(&self) -> (r: NodeMapping)
        ensures
            r@ == self@,
            r.local_path@ == self.local_path@,
            r.remote_path@ == self.remote_path@,
    {
        let r = NodeMapping {
            local_path: self.local_path.clone(),
            remote_path: self.remote_path.clone(),
            node_uid: self.node_uid.clone(),
            parent_node_uid: self.parent_node_uid.clone(),
            is_directory: self.is_directory,
            updated_at: self.updated_at,
        };
        proof {
            assert(r@ =~= self@);
        }
        r
    }
}

/// An authenticated remote session.
#[derive(Debug, Clone)]
pub struct Session {
    pub uid: String,
    pub access_token: String,
    pub refresh_token: String,
    pub key_password: Option<String>,
    pub primary_key: Option<String>,
}

/// A remote node as the listing endpoint reports it.
#[derive(Debug, Clone)]
pub struct NodeData {
    pub uid: String,
    pub parent_uid: Option<String>,
    pub name: String,
    pub node_type: String,
    pub media_type: Option<String>,
    pub active_revision: Option<RevisionData>,
}

/// A remote node revision.
#[derive(Debug, Clone)]
pub struct RevisionData {
    pub uid: String,
    pub size: Option<i64>,
    pub manifest_signature: Option<String>,
}

/// One address of the account.
#[derive(Debug, Clone)]
pub struct AddressData {
    pub email: String,
    pub receive_key: Option<String>,
}

/// What a remote create call reports back.
#[derive(Debug, Clone)]
pub struct CreateResult {
    pub success: bool,
    pub node_uid: Option<String>,
    pub error: Option<String>,
}

/// A change observed on disk, ready to be enqueued.
#[derive(Debug, Clone)]
pub struct SyncEvent {
    pub event_type: SyncEventType,
    pub local_path: String,
    pub remote_path: String,
    pub change_token: Option<String>,
    pub old_local_path: Option<String>,
    pub old_remote_path: Option<String>,
}

} // verus!
