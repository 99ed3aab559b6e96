//! The watcher pipeline: from a filesystem event to an enqueued job.
//!
//! The OS notification subscription itself is I/O and lives outside; it
//! hands this module the event path, the event kind (already translated to
//! [`FsEventKind`]), whether the path is currently a directory, and the
//! file's metadata.  Everything after that — the noise filter, root
//! resolution, the exclusion filter, event classification, remote path
//! derivation, the change token and the enqueue — is decided here.

use vstd::prelude::*;

verus! {

use crate::error::Error;
use crate::paths::{
    get_relative_path,
    spec_is_path_prefix,
    spec_join,
    spec_relative_path,
    PathUtils,
};
use crate::store::{spec_enqueue_created_at, spec_event_job, Store, StoreModel};
use crate::types::{view_opt_str, JobModel, SyncJobStatus};
use crate::strutil::{
    contains_char,
    ends_with,
    find_last_char,
    last_index_of_char,
    spec_ends_with,
    spec_starts_with,
    starts_with,
};
use crate::token::{make_change_token, token_seq};
use crate::types::{Config, ExcludePattern, SyncDir, SyncEvent, SyncEventType};

/// The kind of a filesystem notification, reduced to what the pipeline
/// distinguishes.  The I/O layer translates the OS event kind into this.
#[derive(Debug, Clone, Copy, PartialEq, Eq, Structural)]
pub enum FsEventKind {
    Create,
    Modify,
    Remove,
    Other,
}

/// The text after the last `/`, or the whole path when it has no slash.
pub open spec fn spec_basename(p: Seq<char>) -> Seq<char> {
    let i = last_index_of_char(p, '/');
    if i == -1 {
        p
    } else {
        p.subrange(i + 1, p.len() as int)
    }
}

/// Is this file name noise?  A dotfile, a name containing `~`, a `.tmp` or
/// `.swp` suffix, or a `._` prefix.
pub open spec fn spec_is_temp_name(name: Seq<char>) -> bool {
    ||| spec_starts_with(name, "."@)
    ||| name.contains('~')
    ||| spec_ends_with(name, ".tmp"@)
    ||| spec_ends_with(name, ".swp"@)
    ||| spec_starts_with(name, "._"@)
}

/// Is the base name of this path noise?
pub open spec fn spec_is_temp_file(path: Seq<char>) -> bool {
    spec_is_temp_name(spec_basename(path))
}

/// Test whether a path's base name is noise the watcher drops.
pub fn is_temp_file(path: &str) -> (r: bool)
    ensures
        r == spec_is_temp_file(path@),
{
    let n = path.unicode_len();
    let name = match find_last_char(path, '/') {
        None => path.substring_char(0, n),
        Some(i) => path.substring_char(i + 1, n),
    };
    proof {
        assert(name@ == spec_basename(path@));
    }
    if starts_with(name, ".") {
        return true;
    }
    if contains_char(name, '~') {
        return true;
    }
    if ends_with(name, ".tmp") {
        return true;
    }
    if ends_with(name, ".swp") {
        return true;
    }
    if starts_with(name, "._") {
        return true;
    }
    false
}

/// What a glob pattern matches.  The matching algorithm belongs to the
/// `glob` crate; its verdict depends on the pattern and the path alone.
pub uninterp spec fn glob_match(pattern: Seq<char>, path: Seq<char>) -> bool;

/// Relies on `glob::Pattern::new` and `glob::Pattern::matches`: whether a
/// path matches a Unix-shell-style pattern is a function of the two strings
/// alone, and an invalid pattern matches nothing.
#[verifier::external_body]
fn glob_matches(pattern: &str, path: &str) -> (r: bool)
    ensures
        r == glob_match(pattern@, path@),
{
    match glob::Pattern::new(pattern) {
        Ok(p) => p.matches(path),
        Err(_) => false,
    }
}

/// Does any glob of any exclusion pattern match this path?
pub open spec fn spec_is_excluded(path: Seq<char>, patterns: Seq<ExcludePattern>) -> bool {
    exists|i: int, j: int|
        0 <= i < patterns.len() && 0 <= j < patterns[i].globs@.len() && #[trigger] glob_match(
            patterns[i].globs@[j]@,
            path,
        )
}

/// Evaluate the exclusion patterns against a path.
pub fn is_excluded(path: &str, patterns: &Vec<ExcludePattern>) -> (r: bool)
    ensures
        r == spec_is_excluded(path@, patterns@),
{
    let n = patterns.len();
    let mut i: usize = 0;
    while i < n
        invariant
            n == patterns@.len(),
            i <= n,
            forall|a: int, b: int|
                0 <= a < i && 0 <= b < patterns@[a].globs@.len() ==> !(#[trigger] glob_match(
                    patterns@[a].globs@[b]@,
                    path@,
                )),
        decreases n - i,
    {
        let globs_len = patterns[i].globs.len();
        let mut j: usize = 0;
        while j < globs_len
            invariant
                n == patterns@.len(),
                i < n,
                globs_len == patterns@[i as int].globs@.len(),
                j <= globs_len,
                forall|b: int|
                    0 <= b < j ==> !(#[trigger] glob_match(
                        patterns@[i as int].globs@[b]@,
                        path@,
                    )),
            decreases globs_len - j,
        {
            if glob_matches(patterns[i].globs[j].as_str(), path) {
                return true;
            }
            j = j + 1;
        }
        i = i + 1;
    }
    false
}

/// The first configured root whose source path is a component-wise prefix of
/// `path`, scanning in configuration order.
pub open spec fn spec_first_sync_dir(dirs: Seq<SyncDir>, path: Seq<char>) -> Option<int>
    decreases dirs.len(),
{
    if dirs.len() == 0 {
        None
    } else if spec_is_path_prefix(dirs[0].source_path@, path) {
        Some(0)
    } else {
        match spec_first_sync_dir(dirs.drop_first(), path) {
            Some(i) => Some(i + 1),
            None => None,
        }
    }
}

proof fn lemma_first_sync_dir_at(dirs: Seq<SyncDir>, path: Seq<char>, i: int)
    requires
        0 <= i < dirs.len(),
        spec_is_path_prefix(dirs[i].source_path@, path),
        forall|k: int| 0 <= k < i ==> !spec_is_path_prefix((#[trigger] dirs[k]).source_path@, path),
    ensures
        spec_first_sync_dir(dirs, path) == Some(i),
    decreases dirs.len(),
{
    if i == 0 {
    } else {
        let rest = dirs.drop_first();
        assert(forall|k: int| 0 <= k < rest.len() ==> #[trigger] rest[k] == dirs[k + 1]);
        lemma_first_sync_dir_at(rest, path, i - 1);
    }
}

proof fn lemma_first_sync_dir_none(dirs: Seq<SyncDir>, path: Seq<char>)
    requires
        forall|k: int|
            0 <= k < dirs.len() ==> !spec_is_path_prefix((#[trigger] dirs[k]).source_path@, path),
    ensures
        spec_first_sync_dir(dirs, path) is None,
    decreases dirs.len(),
{
    if dirs.len() > 0 {
        let rest = dirs.drop_first();
        assert(forall|k: int| 0 <= k < rest.len() ==> #[trigger] rest[k] == dirs[k + 1]);
        lemma_first_sync_dir_none(rest, path);
    }
}

/// Find the configured root containing `path`, if any.
pub fn find_sync_dir(path: &str, dirs: &Vec<SyncDir>) -> (r: Option<usize>)
    ensures
        match r {
            Some(i) => spec_first_sync_dir(dirs@, path@) == Some(i as int) && i < dirs@.len()
                && spec_is_path_prefix(dirs@[i as int].source_path@, path@),
            None => spec_first_sync_dir(dirs@, path@) is None,
        },
{
    let n = dirs.len();
    let mut i: usize = 0;
    while i < n
        invariant
            n == dirs@.len(),
            i <= n,
            forall|k: int|
                0 <= k < i ==> !spec_is_path_prefix((#[trigger] dirs@[k]).source_path@, path@),
        decreases n - i,
    {
        if crate::paths::is_path_prefix(dirs[i].source_path.as_str(), path) {
            proof {
                lemma_first_sync_dir_at(dirs@, path@, i as int);
            }
            return Some(i);
        }
        i = i + 1;
    }
    proof {
        lemma_first_sync_dir_none(dirs@, path@);
    }
    None
}

/// How an OS event kind classifies: a creation becomes `CreateDir` or
/// `CreateFile` by what the path currently is, a modification becomes
/// `Update`, a removal becomes `Delete`, anything else is dropped.
pub open spec fn spec_classify(kind: FsEventKind, is_dir: bool) -> Option<SyncEventType> {
    match kind {
        FsEventKind::Create => Some(
            if is_dir {
                SyncEventType::CreateDir
            } else {
                SyncEventType::CreateFile
            },
        ),
        FsEventKind::Modify => Some(SyncEventType::Update),
        FsEventKind::Remove => Some(SyncEventType::Delete),
        FsEventKind::Other => None,
    }
}

/// Classify an OS event kind.
pub fn classify_event(kind: FsEventKind, is_dir: bool) -> (r: Option<SyncEventType>)
    ensures
        r == spec_classify(kind, is_dir),
{
    match kind {
        FsEventKind::Create => Some(
            if is_dir {
                SyncEventType::CreateDir
            } else {
                SyncEventType::CreateFile
            },
        ),
        FsEventKind::Modify => Some(SyncEventType::Update),
        FsEventKind::Remove => Some(SyncEventType::Delete),
        FsEventKind::Other => None,
    }
}

/// What the watcher decides to do with an event, before any I/O: the job to
/// enqueue, minus its change token.
pub struct EventPlan {
    pub event_type: SyncEventType,
    pub local_path: String,
    pub remote_path: String,
    pub needs_token: bool,
}

/// The mathematical shadow of an event plan.
#[verifier::ext_equal]
pub struct EventPlanModel {
    pub event_type: SyncEventType,
    pub local_path: Seq<char>,
    pub remote_path: Seq<char>,
    pub needs_token: bool,
}

impl View for EventPlan {
    type V = EventPlanModel;

    open spec fn view(&self) -> EventPlanModel {
        EventPlanModel {
            event_type: self.event_type,
            local_path: self.local_path@,
            remote_path: self.remote_path@,
            needs_token: self.needs_token,
        }
    }
}

/// The watcher's whole per-event decision: drop noise, drop paths outside
/// every configured root, drop unclassifiable kinds, derive the remote path
/// under the root's remote prefix, drop excluded paths, and ask for a change
/// token exactly when the event is not a deletion.
pub open spec fn spec_evaluate_event(
    path: Seq<char>,
    kind: FsEventKind,
    is_dir: bool,
    dirs: Seq<SyncDir>,
    excl: Seq<ExcludePattern>,
) -> Option<EventPlanModel> {
    if spec_is_temp_file(path) {
        None
    } else {
        match spec_first_sync_dir(dirs, path) {
            None => None,
            Some(i) => match spec_classify(kind, is_dir) {
                None => None,
                Some(et) => if spec_is_excluded(path, excl) {
                    None
                } else {
                    Some(
                        EventPlanModel {
                            event_type: et,
                            local_path: path,
                            remote_path: spec_join(
                                dirs[i].remote_root@,
                                spec_relative_path(dirs[i].source_path@, path),
                            ),
                            needs_token: et != SyncEventType::Delete,
                        },
                    )
                },
            },
        }
    }
}

/// Decide what to do with one filesystem event.
pub fn evaluate_event(path: &str, kind: FsEventKind, is_dir: bool, config: &Config) -> (r: Option<
    EventPlan,
>)
    ensures
        match r {
            Some(plan) => spec_evaluate_event(
                path@,
                kind,
                is_dir,
                config.sync_dirs@,
                config.exclude_patterns@,
            ) == Some(plan@),
            None => spec_evaluate_event(
                path@,
                kind,
                is_dir,
                config.sync_dirs@,
                config.exclude_patterns@,
            ) is None,
        },
{
    if is_temp_file(path) {
        return None;
    }
    let dir_index = match find_sync_dir(path, &config.sync_dirs) {
        Some(i) => i,
        None => {
            return None;
        },
    };
    let event_type = match classify_event(kind, is_dir) {
        Some(et) => et,
        None => {
            return None;
        },
    };
    if is_excluded(path, &config.exclude_patterns) {
        return None;
    }
    // The root was found as a component-wise prefix of the path, so the
    // relative path cannot fail.
    let relative = match get_relative_path(config.sync_dirs[dir_index].source_path.as_str(), path) {
        Ok(rel) => rel,
        Err(_) => {
            proof {
                assert(false);
            }
            return None;
        },
    };
    let remote_path = PathUtils::join(
        config.sync_dirs[dir_index].remote_root.as_str(),
        relative.as_str(),
    );
    let plan = EventPlan {
        event_type: event_type,
        local_path: path.to_owned(),
        remote_path: remote_path,
        needs_token: match event_type {
            SyncEventType::Delete => false,
            _ => true,
        },
    };
    Some(plan)
}

/// A noisy name — a dotfile, a `~`-containing name, a `.tmp` or `.swp`
/// suffix, a `._` prefix — produces no plan, whatever the event kind, so it
/// is never enqueued.
pub proof fn lemma_noise_filtered(
    path: Seq<char>,
    kind: FsEventKind,
    is_dir: bool,
    dirs: Seq<SyncDir>,
    excl: Seq<ExcludePattern>,
)
    requires
        spec_is_temp_name(spec_basename(path)),
    ensures
        spec_evaluate_event(path, kind, is_dir, dirs, excl) is None,
{
}

/// The store change that handling one event makes: nothing when the plan is
/// dropped, one pending job otherwise.
pub open spec fn spec_handle_event_model(
    m: StoreModel,
    path: Seq<char>,
    kind: FsEventKind,
    is_dir: bool,
    dirs: Seq<SyncDir>,
    excl: Seq<ExcludePattern>,
    token: Option<Seq<char>>,
    now: int,
) -> StoreModel {
    match spec_evaluate_event(path, kind, is_dir, dirs, excl) {
        None => m,
        Some(plan) => StoreModel {
            jobs: m.jobs.push(
                JobModel {
                    id: m.next_job_id,
                    event_type: plan.event_type,
                    local_path: plan.local_path,
                    remote_path: plan.remote_path,
                    status: SyncJobStatus::Pending,
                    retry_at: None,
                    n_retries: 0,
                    last_error: None,
                    change_token: token,
                    old_local_path: None,
                    old_remote_path: None,
                    created_at: spec_enqueue_created_at(m.jobs, now),
                },
            ),
            next_job_id: m.next_job_id + 1,
            ..m
        },
    }
}

/// Handle one filesystem event end to end: evaluate it and, when it
/// survives the filters, enqueue a pending job.  `metadata` carries the
/// file's (mtime, size) as read from disk, `None` when the file could not be
/// read; a non-delete event whose file vanished is an I/O failure.  Returns
/// whether a job was enqueued.
pub fn handle_event(
    store: &mut Store,
    path: &str,
    kind: FsEventKind,
    is_dir: bool,
    metadata: Option<(u64, u64)>,
    config: &Config,
    now: i64,
) -> (r: Result<bool, Error>)
    requires
        old(store).wf(),
        old(store)@.next_job_id < i64::MAX,
    ensures
        final(store).wf(),
        match r {
            Ok(enqueued) => {
                let plan = spec_evaluate_event(
                    path@,
                    kind,
                    is_dir,
                    config.sync_dirs@,
                    config.exclude_patterns@,
                );
                &&& enqueued == plan is Some
                &&& final(store)@ == spec_handle_event_model(
                    old(store)@,
                    path@,
                    kind,
                    is_dir,
                    config.sync_dirs@,
                    config.exclude_patterns@,
                    match (plan, metadata) {
                        (Some(p), Some(md)) => if p.needs_token {
                            Some(token_seq(md.0, md.1))
                        } else {
                            None
                        },
                        _ => None,
                    },
                    now as int,
                )
                &&& (enqueued && plan->Some_0.needs_token ==> metadata is Some)
            },
            Err(e) => {
                &&& final(store)@ == old(store)@
                &&& e is Io
                &&& spec_evaluate_event(
                    path@,
                    kind,
                    is_dir,
                    config.sync_dirs@,
                    config.exclude_patterns@,
                ) matches Some(p) && p.needs_token
                &&& metadata is None
            },
        },
{
    let plan = match evaluate_event(path, kind, is_dir, config) {
        Some(p) => p,
        None => {
            return Ok(false);
        },
    };
    let change_token: Option<String> = if plan.needs_token {
        match metadata {
            Some((mtime, size)) => Some(make_change_token(mtime, size)),
            None => {
                return Err(Error::Io("file metadata unavailable".to_owned()));
            },
        }
    } else {
        None
    };
    let event = SyncEvent {
        event_type: plan.event_type,
        local_path: plan.local_path,
        remote_path: plan.remote_path,
        change_token: change_token,
        old_local_path: None,
        old_remote_path: None,
    };
    let _job_id: i64 = store.enqueue_job(&event, now);
    proof {
        assert(store@ =~= spec_handle_event_model(
            old(store)@,
            path@,
            kind,
            is_dir,
            config.sync_dirs@,
            config.exclude_patterns@,
            view_opt_str(event.change_token),
            now as int,
        ));
    }
    Ok(true)
}


/// One filesystem entry a reconciliation walk found: its path, whether it is
/// a directory, and its metadata.  The walk itself is I/O and happens
/// outside; it does not follow symlinks.
pub struct ScanEntry {
    pub path: String,
    pub is_dir: bool,
    pub mtime: u64,
    pub size: u64,
}

/// Does the scanner enqueue a job for this entry?  Yes exactly when it is a
/// file, is not excluded, and its current change token differs from the
/// stored one (or none is stored).
pub open spec fn spec_scan_enqueues(
    fs: Map<Seq<char>, crate::types::FileStateModel>,
    excl: Seq<ExcludePattern>,
    e: ScanEntry,
) -> bool {
    &&& !e.is_dir
    &&& !spec_is_excluded(e.path@, excl)
    &&& (!fs.contains_key(e.path@) || fs[e.path@].change_token != token_seq(e.mtime, e.size))
}

/// The job row the scanner enqueues for a changed entry: an `UPDATE` (which
/// covers both create and modify; the processor upgrades to a create when no
/// mapping exists) carrying the entry's current change token.
pub open spec fn spec_scan_job(
    e: ScanEntry,
    directory: Seq<char>,
    remote_root: Seq<char>,
    id: int,
    created_at: int,
) -> JobModel {
    JobModel {
        id: id,
        event_type: SyncEventType::Update,
        local_path: e.path@,
        remote_path: spec_join(remote_root, spec_relative_path(directory, e.path@)),
        status: SyncJobStatus::Pending,
        retry_at: None,
        n_retries: 0,
        last_error: None,
        change_token: Some(token_seq(e.mtime, e.size)),
        old_local_path: None,
        old_remote_path: None,
        created_at: created_at,
    }
}

/// The store after scanning the given entries in order, starting from `m`.
/// The skip decision always reads `m`'s file states: a scan never writes
/// them, so every entry is judged against the same stored fingerprints.
pub open spec fn spec_scan_model(
    m: StoreModel,
    directory: Seq<char>,
    remote_root: Seq<char>,
    excl: Seq<ExcludePattern>,
    entries: Seq<ScanEntry>,
    now: int,
) -> StoreModel
    decreases entries.len(),
{
    if entries.len() == 0 {
        m
    } else {
        let prev = spec_scan_model(m, directory, remote_root, excl, entries.drop_last(), now);
        let e = entries.last();
        if spec_scan_enqueues(m.file_states, excl, e) {
            StoreModel {
                jobs: prev.jobs.push(
                    spec_scan_job(
                        e,
                        directory,
                        remote_root,
                        prev.next_job_id,
                        spec_enqueue_created_at(prev.jobs, now),
                    ),
                ),
                next_job_id: prev.next_job_id + 1,
                ..prev
            }
        } else {
            prev
        }
    }
}

/// How many jobs a scan of the given entries enqueues.
pub open spec fn spec_scan_count(
    fs: Map<Seq<char>, crate::types::FileStateModel>,
    excl: Seq<ExcludePattern>,
    entries: Seq<ScanEntry>,
) -> int
    decreases entries.len(),
{
    if entries.len() == 0 {
        0
    } else {
        spec_scan_count(fs, excl, entries.drop_last()) + if spec_scan_enqueues(
            fs,
            excl,
            entries.last(),
        ) {
            1int
        } else {
            0int
        }
    }
}

/// Reconciliation is idempotent: a scan over entries whose current tokens
/// all match the stored fingerprints enqueues zero jobs and leaves the store
/// as it was.  In particular, when nothing on disk changed after a scan-and-
/// sync cycle, the next scan over the same tree is a no-op.
pub proof fn lemma_scan_idempotent(
    m: StoreModel,
    directory: Seq<char>,
    remote_root: Seq<char>,
    excl: Seq<ExcludePattern>,
    entries: Seq<ScanEntry>,
    now: int,
)
    requires
        forall|k: int|
            0 <= k < entries.len() ==> !spec_scan_enqueues(m.file_states, excl, #[trigger] entries[k]),
    ensures
        spec_scan_model(m, directory, remote_root, excl, entries, now) == m,
        spec_scan_count(m.file_states, excl, entries) == 0,
    decreases entries.len(),
{
    if entries.len() > 0 {
        let head = entries.drop_last();
        assert(forall|k: int| 0 <= k < head.len() ==> #[trigger] head[k] == entries[k]);
        lemma_scan_idempotent(m, directory, remote_root, excl, head, now);
        assert(!spec_scan_enqueues(m.file_states, excl, entries[entries.len() - 1]));
    }
}

/// A scan leaves everything but the job table and the id counter alone, and
/// advances the id counter by exactly the number of jobs it enqueues.
pub proof fn lemma_scan_model_fields(
    m: StoreModel,
    directory: Seq<char>,
    remote_root: Seq<char>,
    excl: Seq<ExcludePattern>,
    entries: Seq<ScanEntry>,
    now: int,
)
    ensures
        ({
            let after = spec_scan_model(m, directory, remote_root, excl, entries, now);
            &&& after.next_job_id == m.next_job_id + spec_scan_count(m.file_states, excl, entries)
            &&& after.file_states == m.file_states
            &&& after.mappings == m.mappings
            &&& after.leases == m.leases
            &&& after.flags == m.flags
            &&& after.signals == m.signals
        }),
    decreases entries.len(),
{
    if entries.len() > 0 {
        lemma_scan_model_fields(m, directory, remote_root, excl, entries.drop_last(), now);
    }
}

/// The reconciliation scanner.
pub struct FileScanner;

impl FileScanner {
    /// Scan one root: for every file entry whose current fingerprint differs
    /// from the stored one, enqueue an `UPDATE` job.  Returns the number of
    /// jobs enqueued.  The entries come from a recursive walk of
    /// `directory`, so each lies under it.
    pub fn scan_directory(
        store: &mut Store,
        directory: &str,
        remote_root: &str,
        exclusions: &Vec<ExcludePattern>,
        entries: &Vec<ScanEntry>,
        now: i64,
    ) -> (count: usize)
        requires
            old(store).wf(),
            forall|k: int|
                0 <= k < entries@.len() ==> spec_is_path_prefix(
                    directory@,
                    (#[trigger] entries@[k]).path@,
                ),
            old(store)@.next_job_id + entries@.len() <= i64::MAX,
        ensures
            final(store).wf(),
            final(store)@ == spec_scan_model(
                old(store)@,
                directory@,
                remote_root@,
                exclusions@,
                entries@,
                now as int,
            ),
            count == spec_scan_count(old(store)@.file_states, exclusions@, entries@),
    {
        let n = entries.len();
        proof {
            assert(entries@.take(0) =~= Seq::<ScanEntry>::empty());
        }
        let mut count: usize = 0;
        let mut i: usize = 0;
        while i < n
            invariant
                store.wf(),
                n == entries@.len(),
                i <= n,
                count <= i,
                forall|k: int|
                    0 <= k < entries@.len() ==> spec_is_path_prefix(
                        directory@,
                        (#[trigger] entries@[k]).path@,
                    ),
                old(store)@.next_job_id + entries@.len() <= i64::MAX,
                store@ == spec_scan_model(
                    old(store)@,
                    directory@,
                    remote_root@,
                    exclusions@,
                    entries@.take(i as int),
                    now as int,
                ),
                count == spec_scan_count(old(store)@.file_states, exclusions@, entries@.take(i as int)),
                store@.file_states == old(store)@.file_states,
                store@.next_job_id == old(store)@.next_job_id + count,
            decreases n - i,
        {
            let ghost prev_model = store@;
            proof {
                assert(entries@.take(i + 1).drop_last() =~= entries@.take(i as int));
                assert(entries@.take(i + 1).last() == entries@[i as int]);
            }
            let e = &entries[i];
            if !e.is_dir && !is_excluded(e.path.as_str(), exclusions) {
                let token = make_change_token(e.mtime, e.size);
                let stored = store.get_file_state(e.path.as_str());
                let changed = match stored {
                    Some(f) => !crate::strutil::str_eq(f.change_token.as_str(), token.as_str()),
                    None => true,
                };
                if changed {
                    proof {
                        assert(spec_scan_enqueues(
                            old(store)@.file_states,
                            exclusions@,
                            entries@[i as int],
                        ));
                    }
                    // Every entry lies under the walked root, so the
                    // relative path cannot fail.
                    let relative = match get_relative_path(directory, e.path.as_str()) {
                        Ok(rel) => rel,
                        Err(_) => {
                            proof {
                                assert(false);
                            }
                            return count;
                        },
                    };
                    let remote_path = PathUtils::join(remote_root, relative.as_str());
                    let event = SyncEvent {
                        event_type: SyncEventType::Update,
                        local_path: e.path.clone(),
                        remote_path: remote_path,
                        change_token: Some(token),
                        old_local_path: None,
                        old_remote_path: None,
                    };
                    let _job_id: i64 = store.enqueue_job(&event, now);
                    count = count + 1;
                    proof {
                        assert(spec_event_job(
                            event,
                            prev_model.next_job_id,
                            spec_enqueue_created_at(prev_model.jobs, now as int),
                        ) =~= spec_scan_job(
                            entries@[i as int],
                            directory@,
                            remote_root@,
                            prev_model.next_job_id,
                            spec_enqueue_created_at(prev_model.jobs, now as int),
                        ));
                        assert(store@ =~= spec_scan_model(
                            old(store)@,
                            directory@,
                            remote_root@,
                            exclusions@,
                            entries@.take(i + 1),
                            now as int,
                        ));
                    }
                } else {
                    proof {
                        assert(!spec_scan_enqueues(
                            old(store)@.file_states,
                            exclusions@,
                            entries@[i as int],
                        ));
                    }
                }
            } else {
                proof {
                    assert(!spec_scan_enqueues(
                        old(store)@.file_states,
                        exclusions@,
                        entries@[i as int],
                    ));
                }
            }
            i = i + 1;
        }
        proof {
            assert(entries@.take(n as int) =~= entries@);
        }
        count
    }
}

} // verus!
