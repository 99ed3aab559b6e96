//! The store: durable rows behind the whole pipeline.
//!
//! The store owns every persistent row — jobs, file states, node mappings,
//! processing leases, flags and signals — and is the only component that
//! mutates them.  It is modeled as a record of sequences, maps and sets
//! (`StoreModel`); every operation states exactly how the model changes.
//! Persisting the rows to disk is I/O and happens outside the library.

use vstd::prelude::*;

verus! {

use crate::strutil::{spec_starts_with, starts_with, str_eq};
use crate::types::{
    clone_opt_string,
    view_opt_str,
    view_opt_strref,
    FileState,
    FileStateModel,
    JobModel,
    NodeMapping,
    NodeMappingModel,
    SyncEvent,
    SyncJob,
    SyncJobStatus,
};

/// A row asserting that a worker is currently acting on a local path.
#[derive(Debug, Clone)]
pub struct ProcessingLease {
    pub local_path: String,
    pub started_at: i64,
}

/// The mathematical shadow of the whole store.
#[verifier::ext_equal]
pub struct StoreModel {
    /// Job rows in table order, which is ascending `created_at` order.
    pub jobs: Seq<JobModel>,
    /// The id the next enqueued job will get.
    pub next_job_id: int,
    /// Last replicated fingerprint, keyed by local path.
    pub file_states: Map<Seq<char>, FileStateModel>,
    /// Remote node identity, keyed by (local path, remote path).
    pub mappings: Map<(Seq<char>, Seq<char>), NodeMappingModel>,
    /// In-flight leases: local path to claim instant.
    pub leases: Map<Seq<char>, int>,
    /// Named boolean flags: a name is set iff it is in the set.
    pub flags: Set<Seq<char>>,
    /// Pending control signals, oldest first.
    pub signals: Seq<Seq<char>>,
}

/// A `SyncJob` invariant that every row in the store satisfies: retries are
/// bounded by five; a `Synced` row carries neither a retry deadline nor an
/// error; a `Blocked` row records its fifth failure.
pub open spec fn job_row_inv(j: JobModel) -> bool {
    &&& 0 <= j.n_retries <= 5
    &&& j.status == SyncJobStatus::Synced ==> j.retry_at is None && j.last_error is None
    &&& j.status == SyncJobStatus::Blocked ==> j.n_retries == 5 && j.last_error is Some
}

// --- file_state table helpers ---
pub open spec fn fs_contains(ss: Seq<FileState>, p: Seq<char>) -> bool {
    exists|i: int| 0 <= i < ss.len() && ss[i].local_path@ == p
}

pub open spec fn fs_value(ss: Seq<FileState>, p: Seq<char>) -> FileStateModel {
    ss[choose|i: int| 0 <= i < ss.len() && ss[i].local_path@ == p]@
}

pub open spec fn fs_unique(ss: Seq<FileState>) -> bool {
    forall|i: int, j: int|
        0 <= i < j < ss.len() ==> ss[i].local_path@ != ss[j].local_path@
}

pub open spec fn fs_map(ss: Seq<FileState>) -> Map<Seq<char>, FileStateModel> {
    Map::new(|p: Seq<char>| fs_contains(ss, p), |p: Seq<char>| fs_value(ss, p))
}

proof fn lemma_fs_value_at(ss: Seq<FileState>, i: int)
    requires
        fs_unique(ss),
        0 <= i < ss.len(),
    ensures
        fs_contains(ss, ss[i].local_path@),
        fs_value(ss, ss[i].local_path@) == ss[i]@,
{
    let p = ss[i].local_path@;
    assert(fs_contains(ss, p));
    let j = choose|j: int| 0 <= j < ss.len() && ss[j].local_path@ == p;
    assert(j == i);
}

/// Removing row `i` removes exactly its key from the derived map.
proof fn lemma_fs_remove_row(old_rows: Seq<FileState>, new_rows: Seq<FileState>, i: int)
    requires
        fs_unique(old_rows),
        0 <= i < old_rows.len(),
        new_rows == old_rows.remove(i),
    ensures
        fs_unique(new_rows),
        fs_map(new_rows) == fs_map(old_rows).remove(old_rows[i].local_path@),
{
    let p = old_rows[i].local_path@;
    assert(forall|k: int|
        0 <= k < new_rows.len() ==> #[trigger] new_rows[k] == if k < i {
            old_rows[k]
        } else {
            old_rows[k + 1]
        });
    assert forall|q: Seq<char>| q != p && fs_contains(old_rows, q) implies fs_contains(
        new_rows,
        q,
    ) by {
        let k = choose|k: int| 0 <= k < old_rows.len() && old_rows[k].local_path@ == q;
        assert(k != i);
        if k < i {
            assert(new_rows[k] == old_rows[k]);
        } else {
            assert(new_rows[k - 1] == old_rows[k]);
        }
    }
    assert forall|q: Seq<char>| fs_contains(new_rows, q) implies q != p && fs_contains(
        old_rows,
        q,
    ) by {
        let k = choose|k: int| 0 <= k < new_rows.len() && new_rows[k].local_path@ == q;
        if k < i {
            assert(old_rows[k].local_path@ == q);
        } else {
            assert(old_rows[k + 1].local_path@ == q);
        }
    }
    assert forall|q: Seq<char>| fs_contains(new_rows, q) implies fs_value(new_rows, q) == fs_value(
        old_rows,
        q,
    ) by {
        let k = choose|k: int| 0 <= k < new_rows.len() && new_rows[k].local_path@ == q;
        lemma_fs_value_at(new_rows, k);
        if k < i {
            lemma_fs_value_at(old_rows, k);
        } else {
            lemma_fs_value_at(old_rows, k + 1);
        }
    }
    assert(fs_map(new_rows) =~= fs_map(old_rows).remove(p));
}

/// Pushing a row with a fresh key inserts exactly that key into the derived
/// map.
proof fn lemma_fs_push_row(old_rows: Seq<FileState>, row: FileState)
    requires
        fs_unique(old_rows),
        !fs_contains(old_rows, row.local_path@),
    ensures
        fs_unique(old_rows.push(row)),
        fs_map(old_rows.push(row)) == fs_map(old_rows).insert(row.local_path@, row@),
{
    let p = row.local_path@;
    let new_rows = old_rows.push(row);
    let n = old_rows.len() as int;
    assert(forall|k: int|
        0 <= k < n ==> #[trigger] new_rows[k] == old_rows[k]);
    assert(new_rows[n] == row);
    assert forall|q: Seq<char>| fs_contains(new_rows, q) implies q == p || fs_contains(
        old_rows,
        q,
    ) by {
        let k = choose|k: int| 0 <= k < new_rows.len() && new_rows[k].local_path@ == q;
        if k < n {
            assert(old_rows[k].local_path@ == q);
        }
    }
    assert forall|q: Seq<char>| fs_contains(old_rows, q) implies fs_contains(new_rows, q) by {
        let k = choose|k: int| 0 <= k < old_rows.len() && old_rows[k].local_path@ == q;
        assert(new_rows[k].local_path@ == q);
    }
    assert(fs_contains(new_rows, p));
    assert forall|q: Seq<char>| fs_contains(new_rows, q) implies fs_value(new_rows, q) == if q == p {
        row@
    } else {
        fs_value(old_rows, q)
    } by {
        let k = choose|k: int| 0 <= k < new_rows.len() && new_rows[k].local_path@ == q;
        lemma_fs_value_at(new_rows, k);
        if k < n {
            lemma_fs_value_at(old_rows, k);
        }
    }
    assert(fs_map(new_rows) =~= fs_map(old_rows).insert(p, row@));
}

// --- node_mapping table helpers ---
pub open spec fn nm_contains(ss: Seq<NodeMapping>, k: (Seq<char>, Seq<char>)) -> bool {
    exists|i: int| 0 <= i < ss.len() && ss[i].local_path@ == k.0 && ss[i].remote_path@ == k.1
}

pub open spec fn nm_value(ss: Seq<NodeMapping>, k: (Seq<char>, Seq<char>)) -> NodeMappingModel {
    ss[choose|i: int|
        0 <= i < ss.len() && ss[i].local_path@ == k.0 && ss[i].remote_path@ == k.1]@
}

pub open spec fn nm_unique(ss: Seq<NodeMapping>) -> bool {
    forall|i: int, j: int|
        0 <= i < j < ss.len() ==> !(ss[i].local_path@ == ss[j].local_path@ && ss[i].remote_path@
            == ss[j].remote_path@)
}

pub open spec fn nm_map(ss: Seq<NodeMapping>) -> Map<(Seq<char>, Seq<char>), NodeMappingModel> {
    Map::new(|k: (Seq<char>, Seq<char>)| nm_contains(ss, k), |k: (Seq<char>, Seq<char>)| nm_value(ss, k))
}

/// Removing row `i` removes exactly its key pair from the derived map.
proof fn lemma_nm_remove_row(old_rows: Seq<NodeMapping>, new_rows: Seq<NodeMapping>, i: int)
    requires
        nm_unique(old_rows),
        0 <= i < old_rows.len(),
        new_rows == old_rows.remove(i),
    ensures
        nm_unique(new_rows),
        nm_map(new_rows) == nm_map(old_rows).remove((old_rows[i].local_path@, old_rows[i].remote_path@)),
{
    let p = (old_rows[i].local_path@, old_rows[i].remote_path@);
    assert(forall|k: int|
        0 <= k < new_rows.len() ==> #[trigger] new_rows[k] == if k < i {
            old_rows[k]
        } else {
            old_rows[k + 1]
        });
    assert forall|q: (Seq<char>, Seq<char>)| q != p && nm_contains(old_rows, q) implies nm_contains(
        new_rows,
        q,
    ) by {
        let k = choose|k: int|
            0 <= k < old_rows.len() && old_rows[k].local_path@ == q.0 && old_rows[k].remote_path@
                == q.1;
        assert(k != i);
        if k < i {
            assert(new_rows[k] == old_rows[k]);
        } else {
            assert(new_rows[k - 1] == old_rows[k]);
        }
    }
    assert forall|q: (Seq<char>, Seq<char>)| nm_contains(new_rows, q) implies q != p && nm_contains(
        old_rows,
        q,
    ) by {
        let k = choose|k: int|
            0 <= k < new_rows.len() && new_rows[k].local_path@ == q.0 && new_rows[k].remote_path@
                == q.1;
        if k < i {
            assert(old_rows[k].local_path@ == q.0 && old_rows[k].remote_path@ == q.1);
        } else {
            assert(old_rows[k + 1].local_path@ == q.0 && old_rows[k + 1].remote_path@ == q.1);
        }
    }
    assert forall|q: (Seq<char>, Seq<char>)| nm_contains(new_rows, q) implies nm_value(new_rows, q)
        == nm_value(old_rows, q) by {
        let k = choose|k: int|
            0 <= k < new_rows.len() && new_rows[k].local_path@ == q.0 && new_rows[k].remote_path@
                == q.1;
        lemma_nm_value_at(new_rows, k);
        if k < i {
            lemma_nm_value_at(old_rows, k);
        } else {
            lemma_nm_value_at(old_rows, k + 1);
        }
    }
    assert(nm_map(new_rows) =~= nm_map(old_rows).remove(p));
}

/// Pushing a row with a fresh key pair inserts exactly that pair into the
/// derived map.
proof fn lemma_nm_push_row(old_rows: Seq<NodeMapping>, row: NodeMapping)
    requires
        nm_unique(old_rows),
        !nm_contains(old_rows, (row.local_path@, row.remote_path@)),
    ensures
        nm_unique(old_rows.push(row)),
        nm_map(old_rows.push(row)) == nm_map(old_rows).insert(
            (row.local_path@, row.remote_path@),
            row@,
        ),
{
    let p = (row.local_path@, row.remote_path@);
    let new_rows = old_rows.push(row);
    let n = old_rows.len() as int;
    assert(forall|k: int| 0 <= k < n ==> #[trigger] new_rows[k] == old_rows[k]);
    assert(new_rows[n] == row);
    assert forall|q: (Seq<char>, Seq<char>)| nm_contains(new_rows, q) implies q == p || nm_contains(
        old_rows,
        q,
    ) by {
        let k = choose|k: int|
            0 <= k < new_rows.len() && new_rows[k].local_path@ == q.0 && new_rows[k].remote_path@
                == q.1;
        if k < n {
            assert(old_rows[k].local_path@ == q.0 && old_rows[k].remote_path@ == q.1);
        }
    }
    assert forall|q: (Seq<char>, Seq<char>)| nm_contains(old_rows, q) implies nm_contains(
        new_rows,
        q,
    ) by {
        let k = choose|k: int|
            0 <= k < old_rows.len() && old_rows[k].local_path@ == q.0 && old_rows[k].remote_path@
                == q.1;
        assert(new_rows[k].local_path@ == q.0 && new_rows[k].remote_path@ == q.1);
    }
    assert(nm_contains(new_rows, p));
    assert forall|q: (Seq<char>, Seq<char>)| nm_contains(new_rows, q) implies nm_value(new_rows, q)
        == if q == p {
        row@
    } else {
        nm_value(old_rows, q)
    } by {
        let k = choose|k: int|
            0 <= k < new_rows.len() && new_rows[k].local_path@ == q.0 && new_rows[k].remote_path@
                == q.1;
        lemma_nm_value_at(new_rows, k);
        if k < n {
            lemma_nm_value_at(old_rows, k);
        }
    }
    assert(nm_map(new_rows) =~= nm_map(old_rows).insert(p, row@));
}

proof fn lemma_nm_value_at(ss: Seq<NodeMapping>, i: int)
    requires
        nm_unique(ss),
        0 <= i < ss.len(),
    ensures
        nm_contains(ss, (ss[i].local_path@, ss[i].remote_path@)),
        nm_value(ss, (ss[i].local_path@, ss[i].remote_path@)) == ss[i]@,
{
    let k = (ss[i].local_path@, ss[i].remote_path@);
    assert(nm_contains(ss, k));
    let j = choose|j: int|
        0 <= j < ss.len() && ss[j].local_path@ == k.0 && ss[j].remote_path@ == k.1;
    assert(j == i);
}

// --- processing lease table helpers ---
pub open spec fn lease_contains(ss: Seq<ProcessingLease>, p: Seq<char>) -> bool {
    exists|i: int| 0 <= i < ss.len() && ss[i].local_path@ == p
}

pub open spec fn lease_value(ss: Seq<ProcessingLease>, p: Seq<char>) -> int {
    ss[choose|i: int| 0 <= i < ss.len() && ss[i].local_path@ == p].started_at as int
}

pub open spec fn lease_unique(ss: Seq<ProcessingLease>) -> bool {
    forall|i: int, j: int|
        0 <= i < j < ss.len() ==> ss[i].local_path@ != ss[j].local_path@
}

pub open spec fn lease_map(ss: Seq<ProcessingLease>) -> Map<Seq<char>, int> {
    Map::new(|p: Seq<char>| lease_contains(ss, p), |p: Seq<char>| lease_value(ss, p))
}

proof fn lemma_lease_value_at(ss: Seq<ProcessingLease>, i: int)
    requires
        lease_unique(ss),
        0 <= i < ss.len(),
    ensures
        lease_contains(ss, ss[i].local_path@),
        lease_value(ss, ss[i].local_path@) == ss[i].started_at as int,
{
    let p = ss[i].local_path@;
    assert(lease_contains(ss, p));
    let j = choose|j: int| 0 <= j < ss.len() && ss[j].local_path@ == p;
    assert(j == i);
}

/// Removing lease row `i` removes exactly its key from the derived map.
proof fn lemma_lease_remove_row(old_rows: Seq<ProcessingLease>, new_rows: Seq<ProcessingLease>, i: int)
    requires
        lease_unique(old_rows),
        0 <= i < old_rows.len(),
        new_rows == old_rows.remove(i),
    ensures
        lease_unique(new_rows),
        lease_map(new_rows) == lease_map(old_rows).remove(old_rows[i].local_path@),
{
    let p = old_rows[i].local_path@;
    assert(forall|k: int|
        0 <= k < new_rows.len() ==> #[trigger] new_rows[k] == if k < i {
            old_rows[k]
        } else {
            old_rows[k + 1]
        });
    assert forall|q: Seq<char>| q != p && lease_contains(old_rows, q) implies lease_contains(
        new_rows,
        q,
    ) by {
        let k = choose|k: int| 0 <= k < old_rows.len() && old_rows[k].local_path@ == q;
        assert(k != i);
        if k < i {
            assert(new_rows[k] == old_rows[k]);
        } else {
            assert(new_rows[k - 1] == old_rows[k]);
        }
    }
    assert forall|q: Seq<char>| lease_contains(new_rows, q) implies q != p && lease_contains(
        old_rows,
        q,
    ) by {
        let k = choose|k: int| 0 <= k < new_rows.len() && new_rows[k].local_path@ == q;
        if k < i {
            assert(old_rows[k].local_path@ == q);
        } else {
            assert(old_rows[k + 1].local_path@ == q);
        }
    }
    assert forall|q: Seq<char>| lease_contains(new_rows, q) implies lease_value(new_rows, q)
        == lease_value(old_rows, q) by {
        let k = choose|k: int| 0 <= k < new_rows.len() && new_rows[k].local_path@ == q;
        lemma_lease_value_at(new_rows, k);
        if k < i {
            lemma_lease_value_at(old_rows, k);
        } else {
            lemma_lease_value_at(old_rows, k + 1);
        }
    }
    assert(lease_map(new_rows) =~= lease_map(old_rows).remove(p));
}

/// Pushing a lease with a fresh key inserts exactly that key into the
/// derived map.
proof fn lemma_lease_push_row(old_rows: Seq<ProcessingLease>, row: ProcessingLease)
    requires
        lease_unique(old_rows),
        !lease_contains(old_rows, row.local_path@),
    ensures
        lease_unique(old_rows.push(row)),
        lease_map(old_rows.push(row)) == lease_map(old_rows).insert(
            row.local_path@,
            row.started_at as int,
        ),
{
    let p = row.local_path@;
    let new_rows = old_rows.push(row);
    let n = old_rows.len() as int;
    assert(forall|k: int| 0 <= k < n ==> #[trigger] new_rows[k] == old_rows[k]);
    assert(new_rows[n] == row);
    assert forall|q: Seq<char>| lease_contains(new_rows, q) implies q == p || lease_contains(
        old_rows,
        q,
    ) by {
        let k = choose|k: int| 0 <= k < new_rows.len() && new_rows[k].local_path@ == q;
        if k < n {
            assert(old_rows[k].local_path@ == q);
        }
    }
    assert forall|q: Seq<char>| lease_contains(old_rows, q) implies lease_contains(new_rows, q) by {
        let k = choose|k: int| 0 <= k < old_rows.len() && old_rows[k].local_path@ == q;
        assert(new_rows[k].local_path@ == q);
    }
    assert(lease_contains(new_rows, p));
    assert forall|q: Seq<char>| lease_contains(new_rows, q) implies lease_value(new_rows, q) == if q
        == p {
        row.started_at as int
    } else {
        lease_value(old_rows, q)
    } by {
        let k = choose|k: int| 0 <= k < new_rows.len() && new_rows[k].local_path@ == q;
        lemma_lease_value_at(new_rows, k);
        if k < n {
            lemma_lease_value_at(old_rows, k);
        }
    }
    assert(lease_map(new_rows) =~= lease_map(old_rows).insert(p, row.started_at as int));
}

/// The rows of `ss` whose claim instant is at least `cutoff`, in order.
pub open spec fn spec_keep_fresh(ss: Seq<ProcessingLease>, cutoff: int) -> Seq<ProcessingLease>
    decreases ss.len(),
{
    if ss.len() == 0 {
        ss
    } else {
        let rest = spec_keep_fresh(ss.drop_last(), cutoff);
        if ss.last().started_at >= cutoff {
            rest.push(ss.last())
        } else {
            rest
        }
    }
}

/// Sweeping the stale rows restricts the derived map to the fresh keys.
proof fn lemma_keep_fresh(ss: Seq<ProcessingLease>, cutoff: int)
    requires
        lease_unique(ss),
    ensures
        lease_unique(spec_keep_fresh(ss, cutoff)),
        spec_keep_fresh(ss, cutoff).len() <= ss.len(),
        lease_map(spec_keep_fresh(ss, cutoff)) == Map::new(
            |p: Seq<char>| lease_contains(ss, p) && lease_value(ss, p) >= cutoff,
            |p: Seq<char>| lease_value(ss, p),
        ),
    decreases ss.len(),
{
    let target = Map::new(
        |p: Seq<char>| lease_contains(ss, p) && lease_value(ss, p) >= cutoff,
        |p: Seq<char>| lease_value(ss, p),
    );
    if ss.len() == 0 {
        assert(lease_map(spec_keep_fresh(ss, cutoff)) =~= target);
    } else {
        let head = ss.drop_last();
        let last = ss.last();
        let n = ss.len() - 1;
        assert(forall|k: int| 0 <= k < n ==> #[trigger] head[k] == ss[k]);
        assert(lease_unique(head));
        lemma_keep_fresh(head, cutoff);
        let kept = spec_keep_fresh(head, cutoff);
        lemma_lease_value_at(ss, n);
        assert(!lease_contains(head, last.local_path@));
        assert forall|q: Seq<char>| q != last.local_path@ implies (lease_contains(head, q)
            == lease_contains(ss, q) && (lease_contains(head, q) ==> lease_value(head, q)
            == lease_value(ss, q))) by {
            if lease_contains(head, q) {
                let k = choose|k: int| 0 <= k < head.len() && head[k].local_path@ == q;
                lemma_lease_value_at(head, k);
                lemma_lease_value_at(ss, k);
            }
            if lease_contains(ss, q) {
                let k = choose|k: int| 0 <= k < ss.len() && ss[k].local_path@ == q;
                assert(k != n);
                assert(head[k].local_path@ == q);
            }
        }
        if last.started_at >= cutoff {
            assert(lease_contains(kept, last.local_path@) == lease_map(kept).dom().contains(
                last.local_path@,
            ));
            assert(!lease_contains(kept, last.local_path@));
            lemma_lease_push_row(kept, last);
            assert(lease_map(spec_keep_fresh(ss, cutoff)) =~= target);
        } else {
            assert(lease_map(spec_keep_fresh(ss, cutoff)) =~= target);
        }
    }
}

// --- flag table helpers ---
pub open spec fn flags_contain(ss: Seq<String>, n: Seq<char>) -> bool {
    exists|i: int| 0 <= i < ss.len() && ss[i]@ == n
}

pub open spec fn flags_unique(ss: Seq<String>) -> bool {
    forall|i: int, j: int| 0 <= i < j < ss.len() ==> ss[i]@ != ss[j]@
}

pub open spec fn flag_set(ss: Seq<String>) -> Set<Seq<char>> {
    Set::new(|n: Seq<char>| flags_contain(ss, n))
}

/// The store.  Fields are private: all access goes through the operations,
/// each of which says what it does to the model `self@`.
pub struct Store {
    jobs: Vec<SyncJob>,
    next_job_id: i64,
    file_states: Vec<FileState>,
    node_mappings: Vec<NodeMapping>,
    leases: Vec<ProcessingLease>,
    flags: Vec<String>,
    signals: Vec<String>,
}

impl View for Store {
    type V = StoreModel;

    closed spec fn view(&self) -> StoreModel {
        StoreModel {
            jobs: self.jobs@.map_values(|j: SyncJob| j@),
            next_job_id: self.next_job_id as int,
            file_states: fs_map(self.file_states@),
            mappings: nm_map(self.node_mappings@),
            leases: lease_map(self.leases@),
            flags: flag_set(self.flags@),
            signals: self.signals@.map_values(|s: String| s@),
        }
    }
}

impl Store {
    /// Well-formedness: keyed tables have unique keys, job rows satisfy the
    /// row invariant, ids ascend strictly (so they are unique and below the
    /// next id), and rows sit in ascending `created_at` order.
    pub closed spec fn wf(&self) -> bool {
        &&& fs_unique(self.file_states@)
        &&& nm_unique(self.node_mappings@)
        &&& lease_unique(self.leases@)
        &&& flags_unique(self.flags@)
        &&& forall|i: int| 0 <= i < self.jobs@.len() ==> job_row_inv(#[trigger] self.jobs@[i]@)
        &&& forall|i: int, j: int|
            0 <= i < j < self.jobs@.len() ==> self.jobs@[i]@.id < self.jobs@[j]@.id
        &&& forall|i: int|
            0 <= i < self.jobs@.len() ==> (#[trigger] self.jobs@[i]@).id < self.next_job_id
        &&& forall|i: int, j: int|
            0 <= i < j < self.jobs@.len() ==> self.jobs@[i]@.created_at
                <= self.jobs@[j]@.created_at
    }

    /// The lease keys, row by row.  Exposed so that the per-path mutual
    /// exclusion can be stated about rows, not just about the derived map.
    pub closed spec fn lease_rows(&self) -> Seq<Seq<char>> {
        self.leases@.map_values(|l: ProcessingLease| l.local_path@)
    }

    /// At any instant there is at most one processing lease row per local
    /// path.
    pub proof fn lemma_lease_rows_unique(&self)
        requires
            self.wf(),
        ensures
            forall|i: int, j: int|
                0 <= i < j < self.lease_rows().len() ==> self.lease_rows()[i]
                    != self.lease_rows()[j],
    {
    }

    /// Every job row of a well-formed store satisfies the row invariant: at
    /// most five retries; a synced row has neither retry deadline nor error;
    /// a blocked row records its fifth failure.
    pub proof fn lemma_job_rows_invariant(&self)
        requires
            self.wf(),
        ensures
            forall|i: int| 0 <= i < self@.jobs.len() ==> job_row_inv(#[trigger] self@.jobs[i]),
    {
        assert(forall|i: int|
            0 <= i < self.jobs@.len() ==> #[trigger] self@.jobs[i] == self.jobs@[i]@);
    }

    /// An empty store.
    pub fn new() -> (s: Store)
        ensures
            s.wf(),
            s@ == (StoreModel {
                jobs: Seq::<JobModel>::empty(),
                next_job_id: 1,
                file_states: Map::<Seq<char>, FileStateModel>::empty(),
                mappings: Map::<(Seq<char>, Seq<char>), NodeMappingModel>::empty(),
                leases: Map::<Seq<char>, int>::empty(),
                flags: Set::<Seq<char>>::empty(),
                signals: Seq::<Seq<char>>::empty(),
            }),
    {
        let s = Store {
            jobs: Vec::new(),
            next_job_id: 1,
            file_states: Vec::new(),
            node_mappings: Vec::new(),
            leases: Vec::new(),
            flags: Vec::new(),
            signals: Vec::new(),
        };
        proof {
            assert(s@.jobs =~= Seq::<JobModel>::empty());
            assert(s@.signals =~= Seq::<Seq<char>>::empty());
            assert(s@.file_states =~= Map::<Seq<char>, FileStateModel>::empty());
            assert(s@.mappings =~= Map::<(Seq<char>, Seq<char>), NodeMappingModel>::empty());
            assert(s@.leases =~= Map::<Seq<char>, int>::empty());
            assert(s@.flags =~= Set::<Seq<char>>::empty());
            assert(s@ =~= (StoreModel {
                jobs: Seq::<JobModel>::empty(),
                next_job_id: 1,
                file_states: Map::<Seq<char>, FileStateModel>::empty(),
                mappings: Map::<(Seq<char>, Seq<char>), NodeMappingModel>::empty(),
                leases: Map::<Seq<char>, int>::empty(),
                flags: Set::<Seq<char>>::empty(),
                signals: Seq::<Seq<char>>::empty(),
            }));
        }
        s
    }

    // === Signal operations (IPC) ===

    /// Append a control signal to the queue.
    pub fn send_signal(&mut self, signal: &str)
        requires
            old(self).wf(),
        ensures
            final(self).wf(),
            final(self)@ == (StoreModel { signals: old(self)@.signals.push(signal@), ..old(self)@ }),
    {
        self.signals.push(signal.to_owned());
        proof {
            assert(final(self)@.signals =~= old(self)@.signals.push(signal@));
            assert(final(self)@ =~= (StoreModel {
                signals: old(self)@.signals.push(signal@),
                ..old(self)@
            }));
        }
    }

    /// Read all pending signals in insertion order and delete them: each
    /// signal is observed exactly once, and none survives the drain.
    pub fn receive_signals(&mut self) -> (r: Vec<String>)
        requires
            old(self).wf(),
        ensures
            final(self).wf(),
            r@.map_values(|s: String| s@) == old(self)@.signals,
            final(self)@ == (StoreModel { signals: Seq::<Seq<char>>::empty(), ..old(self)@ }),
    {
        let mut drained: Vec<String> = Vec::new();
        core::mem::swap(&mut drained, &mut self.signals);
        proof {
            assert(drained@.map_values(|s: String| s@) =~= old(self)@.signals);
            assert(final(self)@.signals =~= Seq::<Seq<char>>::empty());
            assert(final(self)@ =~= (StoreModel {
                signals: Seq::<Seq<char>>::empty(),
                ..old(self)@
            }));
        }
        drained
    }

    // === Flag operations ===

    /// Find a flag row by name.
    fn find_flag(&self, name: &str) -> (r: Option<usize>)
        ensures
            match r {
                Some(i) => i < self.flags@.len() && self.flags@[i as int]@ == name@,
                None => !flags_contain(self.flags@, name@),
            },
    {
        let n = self.flags.len();
        let mut i: usize = 0;
        while i < n
            invariant
                n == self.flags@.len(),
                i <= n,
                forall|k: int| 0 <= k < i ==> self.flags@[k]@ != name@,
            decreases n - i,
        {
            if str_eq(self.flags[i].as_str(), name) {
                return Some(i);
            }
            i = i + 1;
        }
        None
    }

    /// Set a named flag.  Setting an already-set flag changes nothing.
    pub fn set_flag(&mut self, name: &str)
        requires
            old(self).wf(),
        ensures
            final(self).wf(),
            final(self)@ == (StoreModel { flags: old(self)@.flags.insert(name@), ..old(self)@ }),
    {
        let found = self.find_flag(name);
        match found {
            Some(_) => {
                proof {
                    assert(old(self)@.flags.contains(name@));
                    assert(final(self)@.flags =~= old(self)@.flags.insert(name@));
                    assert(final(self)@ =~= (StoreModel {
                        flags: old(self)@.flags.insert(name@),
                        ..old(self)@
                    }));
                }
            },
            None => {
                self.flags.push(name.to_owned());
                proof {
                    let new_rows = self.flags@;
                    let old_rows = old(self).flags@;
                    assert(forall|m: Seq<char>|
                        flags_contain(new_rows, m) ==> m == name@ || flags_contain(old_rows, m))
                        by {
                        assert(forall|i: int|
                            0 <= i < new_rows.len() && #[trigger] new_rows[i]@ != name@
                                ==> i < old_rows.len() && new_rows[i] == old_rows[i]);
                    }
                    assert(forall|m: Seq<char>|
                        flags_contain(old_rows, m) ==> flags_contain(new_rows, m)) by {
                        assert(forall|i: int|
                            0 <= i < old_rows.len() ==> #[trigger] old_rows[i] == new_rows[i]);
                    }
                    assert(flags_contain(new_rows, name@)) by {
                        assert(new_rows[new_rows.len() - 1]@ == name@);
                    }
                    assert(final(self)@.flags =~= old(self)@.flags.insert(name@));
                    assert(final(self)@ =~= (StoreModel {
                        flags: old(self)@.flags.insert(name@),
                        ..old(self)@
                    }));
                }
            },
        }
    }

    /// Is a named flag set?
    pub fn get_flag(&self, name: &str) -> (r: bool)
        ensures
            r == self@.flags.contains(name@),
    {
        let found = self.find_flag(name);
        match found {
            Some(i) => {
                proof {
                    assert(flags_contain(self.flags@, name@));
                }
                true
            },
            None => false,
        }
    }

    /// Clear a named flag.  Clearing an absent flag changes nothing.
    pub fn clear_flag(&mut self, name: &str)
        requires
            old(self).wf(),
        ensures
            final(self).wf(),
            final(self)@ == (StoreModel { flags: old(self)@.flags.remove(name@), ..old(self)@ }),
    {
        let found = self.find_flag(name);
        match found {
            Some(i) => {
                self.flags.remove(i);
                proof {
                    let new_rows = self.flags@;
                    let old_rows = old(self).flags@;
                    assert(forall|k: int|
                        0 <= k < new_rows.len() ==> #[trigger] new_rows[k] == if k < i {
                            old_rows[k]
                        } else {
                            old_rows[k + 1]
                        });
                    assert(forall|m: Seq<char>|
                        flags_contain(new_rows, m) ==> m != name@ && flags_contain(old_rows, m));
                    assert(forall|m: Seq<char>|
                        m != name@ && flags_contain(old_rows, m) ==> flags_contain(new_rows, m))
                        by {
                        assert(forall|k: int|
                            0 <= k < old_rows.len() && k != i && #[trigger] old_rows[k]@ != name@
                                ==> (if k < i {
                                new_rows[k]
                            } else {
                                new_rows[k - 1]
                            }) == old_rows[k]);
                        assert(forall|k: int|
                            0 <= k < old_rows.len() && #[trigger] old_rows[k]@ != name@ ==> k != i);
                    }
                    assert(final(self)@.flags =~= old(self)@.flags.remove(name@));
                    assert(final(self)@ =~= (StoreModel {
                        flags: old(self)@.flags.remove(name@),
                        ..old(self)@
                    }));
                }
            },
            None => {
                proof {
                    assert(!old(self)@.flags.contains(name@));
                    assert(final(self)@.flags =~= old(self)@.flags.remove(name@));
                    assert(final(self)@ =~= (StoreModel {
                        flags: old(self)@.flags.remove(name@),
                        ..old(self)@
                    }));
                }
            },
        }
    }
}

impl Store {
    // === File state operations ===

    /// Find a file-state row by local path.
    fn find_file_state(&self, local_path: &str) -> (r: Option<usize>)
        ensures
            match r {
                Some(i) => i < self.file_states@.len() && self.file_states@[i as int].local_path@
                    == local_path@,
                None => !fs_contains(self.file_states@, local_path@),
            },
    {
        let n = self.file_states.len();
        let mut i: usize = 0;
        while i < n
            invariant
                n == self.file_states@.len(),
                i <= n,
                forall|k: int| 0 <= k < i ==> self.file_states@[k].local_path@ != local_path@,
            decreases n - i,
        {
            if str_eq(self.file_states[i].local_path.as_str(), local_path) {
                return Some(i);
            }
            i = i + 1;
        }
        None
    }

    /// Look up the stored fingerprint of a local path.
    pub fn get_file_state(&self, local_path: &str) -> (r: Option<FileState>)
        requires
            self.wf(),
        ensures
            match r {
                Some(f) => self@.file_states.contains_key(local_path@) && f@
                    == self@.file_states[local_path@] && f.local_path@ == local_path@,
                None => !self@.file_states.contains_key(local_path@),
            },
    {
        let found = self.find_file_state(local_path);
        match found {
            Some(i) => {
                proof {
                    lemma_fs_value_at(self.file_states@, i as int);
                }
                Some(self.file_states[i].duplicate())
            },
            None => None,
        }
    }

    /// Delete the fingerprint of a local path.  Deleting an absent row
    /// changes nothing.
    pub fn delete_file_state(&mut self, local_path: &str)
        requires
            old(self).wf(),
        ensures
            final(self).wf(),
            final(self)@ == (StoreModel {
                file_states: old(self)@.file_states.remove(local_path@),
                ..old(self)@
            }),
    {
        let found = self.find_file_state(local_path);
        match found {
            Some(i) => {
                self.file_states.remove(i);
                proof {
                    lemma_fs_remove_row(
                        old(self).file_states@,
                        self.file_states@,
                        i as int,
                    );
                    assert(self@.file_states =~= old(self)@.file_states.remove(local_path@));
                    assert(self@ =~= (StoreModel {
                        file_states: old(self)@.file_states.remove(local_path@),
                        ..old(self)@
                    }));
                }
            },
            None => {
                proof {
                    assert(!old(self)@.file_states.contains_key(local_path@));
                    assert(final(self)@.file_states =~= old(self)@.file_states.remove(
                        local_path@,
                    ));
                    assert(final(self)@ =~= (StoreModel {
                        file_states: old(self)@.file_states.remove(local_path@),
                        ..old(self)@
                    }));
                }
            },
        }
    }

    /// Record the fingerprint of a local path, replacing any earlier one.
    pub fn update_file_state(&mut self, local_path: &str, change_token: &str, now: i64)
        requires
            old(self).wf(),
        ensures
            final(self).wf(),
            final(self)@ == (StoreModel {
                file_states: old(self)@.file_states.insert(
                    local_path@,
                    FileStateModel { change_token: change_token@, updated_at: now as int },
                ),
                ..old(self)@
            }),
    {
        self.delete_file_state(local_path);
        let ghost mid = self@;
        let ghost mid_rows = self.file_states@;
        let row = FileState {
            local_path: local_path.to_owned(),
            change_token: change_token.to_owned(),
            updated_at: now,
        };
        proof {
            assert(!self@.file_states.contains_key(local_path@));
            assert(self@.file_states == fs_map(mid_rows));
            assert(fs_map(mid_rows).dom().contains(local_path@) == fs_contains(
                mid_rows,
                local_path@,
            ));
            lemma_fs_push_row(mid_rows, row);
        }
        self.file_states.push(row);
        proof {
            let m = FileStateModel { change_token: change_token@, updated_at: now as int };
            assert(row@ =~= m);
            assert(self@.file_states =~= old(self)@.file_states.insert(local_path@, m));
            assert(self@ =~= (StoreModel {
                file_states: old(self)@.file_states.insert(local_path@, m),
                ..old(self)@
            }));
        }
    }

    /// All stored fingerprints whose local path starts with `path_prefix`:
    /// each returned row is a stored row under the prefix, and every stored
    /// row under the prefix is returned.
    pub fn get_file_states_under(&self, path_prefix: &str) -> (r: Vec<FileState>)
        requires
            self.wf(),
        ensures
            forall|j: int|
                0 <= j < r@.len() ==> {
                    let key = (#[trigger] r@[j]).local_path@;
                    &&& spec_starts_with(key, path_prefix@)
                    &&& self@.file_states.contains_key(key)
                    &&& r@[j]@ == self@.file_states[key]
                },
            forall|q: Seq<char>|
                self@.file_states.contains_key(q) && spec_starts_with(q, path_prefix@)
                    ==> exists|j: int| 0 <= j < r@.len() && (#[trigger] r@[j]).local_path@ == q,
    {
        let rows_len = self.file_states.len();
        let mut out: Vec<FileState> = Vec::new();
        let mut i: usize = 0;
        while i < rows_len
            invariant
                self.wf(),
                rows_len == self.file_states@.len(),
                i <= rows_len,
                forall|j: int|
                    0 <= j < out@.len() ==> {
                        let key = (#[trigger] out@[j]).local_path@;
                        &&& spec_starts_with(key, path_prefix@)
                        &&& fs_contains(self.file_states@, key)
                        &&& out@[j]@ == fs_value(self.file_states@, key)
                    },
                forall|k: int|
                    0 <= k < i && spec_starts_with(
                        (#[trigger] self.file_states@[k]).local_path@,
                        path_prefix@,
                    ) ==> exists|j: int|
                        0 <= j < out@.len() && (#[trigger] out@[j]).local_path@
                            == self.file_states@[k].local_path@,
            decreases rows_len - i,
        {
            let ghost prev_out = out@;
            if starts_with(self.file_states[i].local_path.as_str(), path_prefix) {
                proof {
                    lemma_fs_value_at(self.file_states@, i as int);
                }
                out.push(self.file_states[i].duplicate());
            }
            proof {
                assert(forall|j: int|
                    0 <= j < prev_out.len() ==> #[trigger] out@[j] == prev_out[j]);
                assert forall|k: int|
                    0 <= k < i + 1 && spec_starts_with(
                        (#[trigger] self.file_states@[k]).local_path@,
                        path_prefix@,
                    ) implies exists|j: int|
                    0 <= j < out@.len() && (#[trigger] out@[j]).local_path@
                        == self.file_states@[k].local_path@ by {
                    if k < i {
                        let j = choose|j: int|
                            0 <= j < prev_out.len() && (#[trigger] prev_out[j]).local_path@
                                == self.file_states@[k].local_path@;
                        assert(out@[j].local_path@ == self.file_states@[k].local_path@);
                    } else {
                        let j = out@.len() - 1;
                        assert(out@[j].local_path@ == self.file_states@[k].local_path@);
                    }
                }
            }
            i = i + 1;
        }
        proof {
            assert forall|q: Seq<char>|
                self@.file_states.contains_key(q) && spec_starts_with(q, path_prefix@) implies exists|j: int|
                0 <= j < out@.len() && (#[trigger] out@[j]).local_path@ == q by {
                let k = choose|k: int|
                    0 <= k < self.file_states@.len() && self.file_states@[k].local_path@ == q;
                assert(spec_starts_with(self.file_states@[k].local_path@, path_prefix@));
            }
        }
        out
    }

    // === Node mapping operations ===

    /// Find a node-mapping row by its key pair.
    fn find_node_mapping(&self, local_path: &str, remote_path: &str) -> (r: Option<usize>)
        ensures
            match r {
                Some(i) => i < self.node_mappings@.len() && self.node_mappings@[i as int].local_path@
                    == local_path@ && self.node_mappings@[i as int].remote_path@ == remote_path@,
                None => !nm_contains(self.node_mappings@, (local_path@, remote_path@)),
            },
    {
        let n = self.node_mappings.len();
        let mut i: usize = 0;
        while i < n
            invariant
                n == self.node_mappings@.len(),
                i <= n,
                forall|k: int|
                    0 <= k < i ==> !((#[trigger] self.node_mappings@[k]).local_path@ == local_path@
                        && self.node_mappings@[k].remote_path@ == remote_path@),
            decreases n - i,
        {
            if str_eq(self.node_mappings[i].local_path.as_str(), local_path) && str_eq(
                self.node_mappings[i].remote_path.as_str(),
                remote_path,
            ) {
                return Some(i);
            }
            i = i + 1;
        }
        None
    }

    /// Look up the node mapping of a (local path, remote path) pair.
    pub fn get_node_mapping(&self, local_path: &str, remote_path: &str) -> (r: Option<NodeMapping>)
        requires
            self.wf(),
        ensures
            match r {
                Some(m) => self@.mappings.contains_key((local_path@, remote_path@)) && m@
                    == self@.mappings[(local_path@, remote_path@)] && m.local_path@ == local_path@
                    && m.remote_path@ == remote_path@,
                None => !self@.mappings.contains_key((local_path@, remote_path@)),
            },
    {
        let found = self.find_node_mapping(local_path, remote_path);
        match found {
            Some(i) => {
                proof {
                    lemma_nm_value_at(self.node_mappings@, i as int);
                }
                Some(self.node_mappings[i].duplicate())
            },
            None => None,
        }
    }

    /// Delete the node mapping of a pair.  Deleting an absent row changes
    /// nothing.
    pub fn delete_node_mapping(&mut self, local_path: &str, remote_path: &str)
        requires
            old(self).wf(),
        ensures
            final(self).wf(),
            final(self)@ == (StoreModel {
                mappings: old(self)@.mappings.remove((local_path@, remote_path@)),
                ..old(self)@
            }),
    {
        let found = self.find_node_mapping(local_path, remote_path);
        match found {
            Some(i) => {
                self.node_mappings.remove(i);
                proof {
                    lemma_nm_remove_row(old(self).node_mappings@, self.node_mappings@, i as int);
                    assert(self@.mappings =~= old(self)@.mappings.remove(
                        (local_path@, remote_path@),
                    ));
                    assert(self@ =~= (StoreModel {
                        mappings: old(self)@.mappings.remove((local_path@, remote_path@)),
                        ..old(self)@
                    }));
                }
            },
            None => {
                proof {
                    assert(!old(self)@.mappings.contains_key((local_path@, remote_path@)));
                    assert(self@.mappings =~= old(self)@.mappings.remove(
                        (local_path@, remote_path@),
                    ));
                    assert(self@ =~= (StoreModel {
                        mappings: old(self)@.mappings.remove((local_path@, remote_path@)),
                        ..old(self)@
                    }));
                }
            },
        }
    }

    /// Record a node mapping, replacing any earlier row for the same pair.
    pub fn update_node_mapping(&mut self, mapping: &NodeMapping)
        requires
            old(self).wf(),
        ensures
            final(self).wf(),
            final(self)@ == (StoreModel {
                mappings: old(self)@.mappings.insert(
                    (mapping.local_path@, mapping.remote_path@),
                    mapping@,
                ),
                ..old(self)@
            }),
    {
        self.delete_node_mapping(mapping.local_path.as_str(), mapping.remote_path.as_str());
        let ghost mid_rows = self.node_mappings@;
        let row = mapping.duplicate();
        proof {
            assert(!self@.mappings.contains_key((mapping.local_path@, mapping.remote_path@)));
            assert(self@.mappings == nm_map(mid_rows));
            assert(nm_map(mid_rows).dom().contains((mapping.local_path@, mapping.remote_path@))
                == nm_contains(mid_rows, (mapping.local_path@, mapping.remote_path@)));
            lemma_nm_push_row(mid_rows, row);
        }
        self.node_mappings.push(row);
        proof {
            assert(self@.mappings =~= old(self)@.mappings.insert(
                (mapping.local_path@, mapping.remote_path@),
                mapping@,
            ));
            assert(self@ =~= (StoreModel {
                mappings: old(self)@.mappings.insert(
                    (mapping.local_path@, mapping.remote_path@),
                    mapping@,
                ),
                ..old(self)@
            }));
        }
    }

    /// All node mappings whose local path starts with `path_prefix`.
    pub fn get_node_mappings_under(&self, path_prefix: &str) -> (r: Vec<NodeMapping>)
        requires
            self.wf(),
        ensures
            forall|j: int|
                0 <= j < r@.len() ==> {
                    let key = ((#[trigger] r@[j]).local_path@, r@[j].remote_path@);
                    &&& spec_starts_with(key.0, path_prefix@)
                    &&& self@.mappings.contains_key(key)
                    &&& r@[j]@ == self@.mappings[key]
                },
            forall|q: (Seq<char>, Seq<char>)|
                self@.mappings.contains_key(q) && spec_starts_with(q.0, path_prefix@)
                    ==> exists|j: int|
                    0 <= j < r@.len() && ((#[trigger] r@[j]).local_path@, r@[j].remote_path@) == q,
    {
        let rows_len = self.node_mappings.len();
        let mut out: Vec<NodeMapping> = Vec::new();
        let mut i: usize = 0;
        while i < rows_len
            invariant
                self.wf(),
                rows_len == self.node_mappings@.len(),
                i <= rows_len,
                forall|j: int|
                    0 <= j < out@.len() ==> {
                        let key = ((#[trigger] out@[j]).local_path@, out@[j].remote_path@);
                        &&& spec_starts_with(key.0, path_prefix@)
                        &&& nm_contains(self.node_mappings@, key)
                        &&& out@[j]@ == nm_value(self.node_mappings@, key)
                    },
                forall|k: int|
                    0 <= k < i && spec_starts_with(
                        (#[trigger] self.node_mappings@[k]).local_path@,
                        path_prefix@,
                    ) ==> exists|j: int|
                        0 <= j < out@.len() && ((#[trigger] out@[j]).local_path@, out@[j].remote_path@)
                            == (self.node_mappings@[k].local_path@,
                        self.node_mappings@[k].remote_path@),
            decreases rows_len - i,
        {
            let ghost prev_out = out@;
            if starts_with(self.node_mappings[i].local_path.as_str(), path_prefix) {
                proof {
                    lemma_nm_value_at(self.node_mappings@, i as int);
                }
                out.push(self.node_mappings[i].duplicate());
            }
            proof {
                assert(forall|j: int|
                    0 <= j < prev_out.len() ==> #[trigger] out@[j] == prev_out[j]);
                assert forall|k: int|
                    0 <= k < i + 1 && spec_starts_with(
                        (#[trigger] self.node_mappings@[k]).local_path@,
                        path_prefix@,
                    ) implies exists|j: int|
                    0 <= j < out@.len() && ((#[trigger] out@[j]).local_path@, out@[j].remote_path@)
                        == (self.node_mappings@[k].local_path@,
                    self.node_mappings@[k].remote_path@) by {
                    if k < i {
                        let j = choose|j: int|
                            0 <= j < prev_out.len() && ((#[trigger] prev_out[j]).local_path@,
                            prev_out[j].remote_path@) == (self.node_mappings@[k].local_path@,
                            self.node_mappings@[k].remote_path@);
                        assert((out@[j].local_path@, out@[j].remote_path@) == (
                            self.node_mappings@[k].local_path@,
                            self.node_mappings@[k].remote_path@,
                        ));
                    } else {
                        let j = out@.len() - 1;
                        assert((out@[j].local_path@, out@[j].remote_path@) == (
                            self.node_mappings@[k].local_path@,
                            self.node_mappings@[k].remote_path@,
                        ));
                    }
                }
            }
            i = i + 1;
        }
        proof {
            assert forall|q: (Seq<char>, Seq<char>)|
                self@.mappings.contains_key(q) && spec_starts_with(q.0, path_prefix@) implies exists|j: int|
                0 <= j < out@.len() && ((#[trigger] out@[j]).local_path@, out@[j].remote_path@)
                    == q by {
                let k = choose|k: int|
                    0 <= k < self.node_mappings@.len() && self.node_mappings@[k].local_path@ == q.0
                        && self.node_mappings@[k].remote_path@ == q.1;
                assert(spec_starts_with(self.node_mappings@[k].local_path@, path_prefix@));
            }
        }
        out
    }

    // === Processing lease operations ===

    /// Find a lease row by local path.
    fn find_lease(&self, local_path: &str) -> (r: Option<usize>)
        ensures
            match r {
                Some(i) => i < self.leases@.len() && self.leases@[i as int].local_path@
                    == local_path@,
                None => !lease_contains(self.leases@, local_path@),
            },
    {
        let n = self.leases.len();
        let mut i: usize = 0;
        while i < n
            invariant
                n == self.leases@.len(),
                i <= n,
                forall|k: int| 0 <= k < i ==> self.leases@[k].local_path@ != local_path@,
            decreases n - i,
        {
            if str_eq(self.leases[i].local_path.as_str(), local_path) {
                return Some(i);
            }
            i = i + 1;
        }
        None
    }

    /// Is a worker currently holding the lease on a local path?
    pub fn has_lease(&self, local_path: &str) -> (r: bool)
        ensures
            r == self@.leases.contains_key(local_path@),
    {
        match self.find_lease(local_path) {
            Some(i) => {
                proof {
                    assert(lease_contains(self.leases@, local_path@));
                }
                true
            },
            None => false,
        }
    }

    /// Take the lease on a local path, recording the claim instant.  Taking
    /// an already-held lease refreshes its instant.
    pub fn add_to_processing_queue(&mut self, local_path: &str, now: i64)
        requires
            old(self).wf(),
        ensures
            final(self).wf(),
            final(self)@ == (StoreModel {
                leases: old(self)@.leases.insert(local_path@, now as int),
                ..old(self)@
            }),
    {
        self.remove_from_processing_queue(local_path);
        let ghost mid_rows = self.leases@;
        let row = ProcessingLease { local_path: local_path.to_owned(), started_at: now };
        proof {
            assert(!self@.leases.contains_key(local_path@));
            assert(self@.leases == lease_map(mid_rows));
            assert(lease_map(mid_rows).dom().contains(local_path@) == lease_contains(
                mid_rows,
                local_path@,
            ));
            lemma_lease_push_row(mid_rows, row);
        }
        self.leases.push(row);
        proof {
            assert(self@.leases =~= old(self)@.leases.insert(local_path@, now as int));
            assert(self@ =~= (StoreModel {
                leases: old(self)@.leases.insert(local_path@, now as int),
                ..old(self)@
            }));
        }
    }

    /// Release the lease on a local path.  Releasing an absent lease changes
    /// nothing.
    pub fn remove_from_processing_queue(&mut self, local_path: &str)
        requires
            old(self).wf(),
        ensures
            final(self).wf(),
            final(self)@ == (StoreModel {
                leases: old(self)@.leases.remove(local_path@),
                ..old(self)@
            }),
    {
        let found = self.find_lease(local_path);
        match found {
            Some(i) => {
                self.leases.remove(i);
                proof {
                    lemma_lease_remove_row(old(self).leases@, self.leases@, i as int);
                    assert(self@.leases =~= old(self)@.leases.remove(local_path@));
                    assert(self@ =~= (StoreModel {
                        leases: old(self)@.leases.remove(local_path@),
                        ..old(self)@
                    }));
                }
            },
            None => {
                proof {
                    assert(!old(self)@.leases.contains_key(local_path@));
                    assert(self@.leases =~= old(self)@.leases.remove(local_path@));
                    assert(self@ =~= (StoreModel {
                        leases: old(self)@.leases.remove(local_path@),
                        ..old(self)@
                    }));
                }
            },
        }
    }

    /// Sweep every lease older than the given age: recovery for workers that
    /// died while holding one.  Returns how many rows were deleted.
    pub fn clear_stale_processing(&mut self, older_than_secs: i64, now: i64) -> (n: usize)
        requires
            old(self).wf(),
            i64::MIN <= now - older_than_secs <= i64::MAX,
        ensures
            final(self).wf(),
            final(self)@ == (StoreModel {
                leases: Map::new(
                    |p: Seq<char>| old(self)@.leases.contains_key(p) && old(self)@.leases[p] >= now
                        - older_than_secs,
                    |p: Seq<char>| old(self)@.leases[p],
                ),
                ..old(self)@
            }),
            n == old(self).lease_rows().len() - final(self).lease_rows().len(),
    {
        let cutoff: i64 = now - older_than_secs;
        let ghost cut: int = cutoff as int;
        let ghost orig = self.leases@;
        proof {
            assert(orig.len() == self.leases.len());
        }
        let mut removed: usize = 0;
        let mut i: usize = 0;
        let ghost mut j: int = 0;
        proof {
            assert(self.leases@ =~= spec_keep_fresh(orig.take(j), cut) + orig.skip(j));
        }
        while i < self.leases.len()
            invariant
                old(self).wf(),
                orig == old(self).leases@,
                cutoff == now - older_than_secs,
                cut == cutoff as int,
                0 <= j <= orig.len(),
                orig.len() <= usize::MAX,
                self.leases@ == spec_keep_fresh(orig.take(j), cut) + orig.skip(j),
                i == spec_keep_fresh(orig.take(j), cut).len(),
                i + removed == j,
                self.jobs@ == old(self).jobs@,
                self.next_job_id == old(self).next_job_id,
                self.file_states@ == old(self).file_states@,
                self.node_mappings@ == old(self).node_mappings@,
                self.flags@ == old(self).flags@,
                self.signals@ == old(self).signals@,
            decreases orig.len() - j,
        {
            proof {
                assert(orig.skip(j).len() > 0);
                assert(self.leases@[i as int] == orig.skip(j)[0]);
                assert(orig.skip(j)[0] == orig[j]);
                assert(orig.take(j + 1).drop_last() =~= orig.take(j));
                assert(orig.take(j + 1).last() == orig[j]);
            }
            if self.leases[i].started_at < cutoff {
                self.leases.remove(i);
                removed = removed + 1;
                proof {
                    assert(self.leases@ =~= spec_keep_fresh(orig.take(j + 1), cut) + orig.skip(
                        j + 1,
                    ));
                    j = j + 1;
                }
            } else {
                i = i + 1;
                proof {
                    assert(spec_keep_fresh(orig.take(j + 1), cut) == spec_keep_fresh(
                        orig.take(j),
                        cut,
                    ).push(orig[j]));
                    assert(self.leases@ =~= spec_keep_fresh(orig.take(j + 1), cut) + orig.skip(
                        j + 1,
                    ));
                    j = j + 1;
                }
            }
        }
        proof {
            assert(orig.skip(j).len() == 0);
            assert(j == orig.len());
            assert(orig.take(j) =~= orig);
            assert(self.leases@ =~= spec_keep_fresh(orig, cut));
            lemma_keep_fresh(orig, cut);
            assert(self@.leases =~= Map::new(
                |p: Seq<char>| old(self)@.leases.contains_key(p) && old(self)@.leases[p] >= now
                    - older_than_secs,
                |p: Seq<char>| old(self)@.leases[p],
            ));
            assert(self@ =~= (StoreModel {
                leases: Map::new(
                    |p: Seq<char>| old(self)@.leases.contains_key(p) && old(self)@.leases[p] >= now
                        - older_than_secs,
                    |p: Seq<char>| old(self)@.leases[p],
                ),
                ..old(self)@
            }));
        }
        removed
    }
}


// --- job table helpers ---
/// Is there a job row with this id?
pub open spec fn jobs_contain(jobs: Seq<JobModel>, id: int) -> bool {
    exists|i: int| 0 <= i < jobs.len() && jobs[i].id == id
}

/// The job row with this id (meaningful when ids are unique).
pub open spec fn job_at(jobs: Seq<JobModel>, id: int) -> JobModel {
    jobs[choose|i: int| 0 <= i < jobs.len() && jobs[i].id == id]
}

/// The job row with this id, if any.
pub open spec fn spec_find_job(jobs: Seq<JobModel>, id: int) -> Option<JobModel> {
    if jobs_contain(jobs, id) {
        Some(job_at(jobs, id))
    } else {
        None
    }
}

/// Ids ascend strictly with the row position.
pub open spec fn jobs_ids_ascend(jobs: Seq<JobModel>) -> bool {
    forall|i: int, j: int| 0 <= i < j < jobs.len() ==> jobs[i].id < jobs[j].id
}

/// Rows sit in ascending `created_at` order.
pub open spec fn jobs_created_sorted(jobs: Seq<JobModel>) -> bool {
    forall|i: int, j: int| 0 <= i < j < jobs.len() ==> jobs[i].created_at <= jobs[j].created_at
}

/// The `created_at` instant an enqueued job gets: the given clock, clamped
/// so that it never runs behind the newest row (table order stays the
/// `created_at` order even if the wall clock steps back).
pub open spec fn spec_enqueue_created_at(jobs: Seq<JobModel>, now: int) -> int {
    if jobs.len() > 0 && jobs.last().created_at > now {
        jobs.last().created_at
    } else {
        now
    }
}

/// The row that `enqueue_job` appends for an event.
pub open spec fn spec_event_job(event: SyncEvent, id: int, created_at: int) -> JobModel {
    JobModel {
        id: id,
        event_type: event.event_type,
        local_path: event.local_path@,
        remote_path: event.remote_path@,
        status: SyncJobStatus::Pending,
        retry_at: None,
        n_retries: 0,
        last_error: None,
        change_token: view_opt_str(event.change_token),
        old_local_path: view_opt_str(event.old_local_path),
        old_remote_path: view_opt_str(event.old_remote_path),
        created_at: created_at,
    }
}

/// Is a row selectable by the claim query at instant `now`?  A `Pending` row
/// always is; a `Processing` row is once its retry deadline has passed.
pub open spec fn job_eligible(j: JobModel, now: int) -> bool {
    ||| j.status == SyncJobStatus::Pending
    ||| (j.status == SyncJobStatus::Processing && match j.retry_at {
        Some(t) => t < now,
        None => false,
    })
}

/// The rows the claim query selects at instant `now`, in table order.
pub open spec fn spec_claimable(jobs: Seq<JobModel>, now: int) -> Seq<JobModel>
    decreases jobs.len(),
{
    if jobs.len() == 0 {
        jobs
    } else {
        let rest = spec_claimable(jobs.drop_last(), now);
        if job_eligible(jobs.last(), now) {
            rest.push(jobs.last())
        } else {
            rest
        }
    }
}

/// The claim query returns rows oldest first: it keeps the table order,
/// which is ascending `created_at` order.
pub proof fn lemma_claimable_keeps_order(jobs: Seq<JobModel>, now: int)
    requires
        jobs_created_sorted(jobs),
        jobs_ids_ascend(jobs),
    ensures
        jobs_created_sorted(spec_claimable(jobs, now)),
        forall|a: int|
            0 <= a < spec_claimable(jobs, now).len() ==> exists|k: int|
                0 <= k < jobs.len() && #[trigger] spec_claimable(jobs, now)[a] == jobs[k],
    decreases jobs.len(),
{
    if jobs.len() > 0 {
        let head = jobs.drop_last();
        let n = jobs.len() - 1;
        assert(forall|k: int| 0 <= k < n ==> #[trigger] head[k] == jobs[k]);
        lemma_claimable_keeps_order(head, now);
        let kept = spec_claimable(head, now);
        assert forall|a: int| 0 <= a < kept.len() implies exists|k: int|
            0 <= k < jobs.len() && #[trigger] kept[a] == jobs[k] by {
            let k = choose|k: int| 0 <= k < head.len() && kept[a] == head[k];
            assert(kept[a] == jobs[k]);
        }
        if job_eligible(jobs.last(), now) {
            let full = kept.push(jobs.last());
            assert forall|a: int, b: int| 0 <= a < b < full.len() implies full[a].created_at
                <= full[b].created_at by {
                if b < full.len() - 1 {
                    assert(full[a] == kept[a] && full[b] == kept[b]);
                } else {
                    assert(full[b] == jobs[n]);
                    if a < full.len() - 1 {
                        let k = choose|k: int| 0 <= k < head.len() && kept[a] == head[k];
                        assert(full[a] == jobs[k]);
                        assert(jobs[k].created_at <= jobs[n].created_at);
                    }
                }
            }
            assert forall|a: int| 0 <= a < full.len() implies exists|k: int|
                0 <= k < jobs.len() && #[trigger] full[a] == jobs[k] by {
                if a < full.len() - 1 {
                    let k = choose|k: int| 0 <= k < jobs.len() && kept[a] == jobs[k];
                    assert(full[a] == jobs[k]);
                } else {
                    assert(full[a] == jobs[n]);
                }
            }
        }
    }
}

/// Every eligible row is selected by the claim query: in particular, a
/// `Processing` row whose retry deadline has passed — say one left over from
/// before a restart — is claimed again once `now` passes the deadline.
pub proof fn lemma_claimable_selects_eligible(jobs: Seq<JobModel>, now: int, i: int)
    requires
        0 <= i < jobs.len(),
        job_eligible(jobs[i], now),
    ensures
        spec_claimable(jobs, now).contains(jobs[i]),
    decreases jobs.len(),
{
    if i == jobs.len() - 1 {
        let rest = spec_claimable(jobs.drop_last(), now);
        assert(spec_claimable(jobs, now) == rest.push(jobs[i]));
        assert(spec_claimable(jobs, now)[rest.len() as int] == jobs[i]);
    } else {
        let head = jobs.drop_last();
        assert(head[i] == jobs[i]);
        lemma_claimable_selects_eligible(head, now, i);
        let rest = spec_claimable(head, now);
        let k = choose|k: int| 0 <= k < rest.len() && rest[k] == jobs[i];
        if job_eligible(jobs.last(), now) {
            assert(spec_claimable(jobs, now)[k] == jobs[i]);
        } else {
            assert(spec_claimable(jobs, now)[k] == jobs[i]);
        }
    }
}

/// The row with id `id`, with status and error replaced.
pub open spec fn spec_set_status(
    jobs: Seq<JobModel>,
    id: int,
    status: SyncJobStatus,
    error: Option<Seq<char>>,
) -> Seq<JobModel> {
    jobs.map_values(
        |j: JobModel|
            if j.id == id {
                JobModel { status: status, last_error: error, ..j }
            } else {
                j
            },
    )
}

/// The row with id `id`, marked `Processing` with its retry deadline
/// cleared.
pub open spec fn spec_mark_processing(jobs: Seq<JobModel>, id: int) -> Seq<JobModel> {
    jobs.map_values(
        |j: JobModel|
            if j.id == id {
                JobModel { status: SyncJobStatus::Processing, retry_at: None, ..j }
            } else {
                j
            },
    )
}

/// The row with id `id`, with one more retry and a new deadline.
pub open spec fn spec_bump_retry(jobs: Seq<JobModel>, id: int, retry_at: int) -> Seq<JobModel> {
    jobs.map_values(
        |j: JobModel|
            if j.id == id {
                JobModel { n_retries: j.n_retries + 1, retry_at: Some(retry_at), ..j }
            } else {
                j
            },
    )
}

/// Has a synced row outlived the garbage-collection cutoff?
pub open spec fn job_expired(j: JobModel, cutoff: int) -> bool {
    j.status == SyncJobStatus::Synced && j.created_at < cutoff
}

/// The rows that survive garbage collection, in table order.
pub open spec fn spec_gc_jobs(jobs: Seq<JobModel>, cutoff: int) -> Seq<JobModel>
    decreases jobs.len(),
{
    if jobs.len() == 0 {
        jobs
    } else {
        let rest = spec_gc_jobs(jobs.drop_last(), cutoff);
        if job_expired(jobs.last(), cutoff) {
            rest
        } else {
            rest.push(jobs.last())
        }
    }
}

/// How many rows carry this status.
pub open spec fn spec_count_status(jobs: Seq<JobModel>, status: SyncJobStatus) -> nat
    decreases jobs.len(),
{
    if jobs.len() == 0 {
        0
    } else {
        spec_count_status(jobs.drop_last(), status) + if jobs.last().status == status {
            1nat
        } else {
            0nat
        }
    }
}

proof fn lemma_job_at(jobs: Seq<JobModel>, i: int)
    requires
        jobs_ids_ascend(jobs),
        0 <= i < jobs.len(),
    ensures
        jobs_contain(jobs, jobs[i].id),
        job_at(jobs, jobs[i].id) == jobs[i],
{
    let id = jobs[i].id;
    assert(jobs_contain(jobs, id));
    let j = choose|j: int| 0 <= j < jobs.len() && jobs[j].id == id;
    if j < i {
        assert(jobs[j].id < jobs[i].id);
    }
    if i < j {
        assert(jobs[i].id < jobs[j].id);
    }
    assert(j == i);
}

/// Garbage collection keeps a subsequence: every surviving row is an
/// original row, orders are kept, and the row invariant survives.
proof fn lemma_gc_jobs(jobs: Seq<JobModel>, cutoff: int)
    requires
        jobs_ids_ascend(jobs),
        jobs_created_sorted(jobs),
        forall|i: int| 0 <= i < jobs.len() ==> job_row_inv(#[trigger] jobs[i]),
    ensures
        spec_gc_jobs(jobs, cutoff).len() <= jobs.len(),
        forall|a: int|
            0 <= a < spec_gc_jobs(jobs, cutoff).len() ==> exists|k: int|
                0 <= k < jobs.len() && #[trigger] spec_gc_jobs(jobs, cutoff)[a] == jobs[k],
        jobs_ids_ascend(spec_gc_jobs(jobs, cutoff)),
        jobs_created_sorted(spec_gc_jobs(jobs, cutoff)),
        forall|a: int|
            0 <= a < spec_gc_jobs(jobs, cutoff).len() ==> job_row_inv(
                #[trigger] spec_gc_jobs(jobs, cutoff)[a],
            ),
    decreases jobs.len(),
{
    if jobs.len() == 0 {
    } else {
        let head = jobs.drop_last();
        let last = jobs.last();
        let n = jobs.len() - 1;
        assert(forall|k: int| 0 <= k < n ==> #[trigger] head[k] == jobs[k]);
        lemma_gc_jobs(head, cutoff);
        let kept = spec_gc_jobs(head, cutoff);
        assert forall|a: int| 0 <= a < kept.len() implies exists|k: int|
            0 <= k < jobs.len() && #[trigger] kept[a] == jobs[k] by {
            let k = choose|k: int| 0 <= k < head.len() && kept[a] == head[k];
            assert(kept[a] == jobs[k]);
        }
        if !job_expired(last, cutoff) {
            let full = kept.push(last);
            assert forall|a: int, b: int| 0 <= a < b < full.len() implies full[a].id < full[b].id
                && full[a].created_at <= full[b].created_at by {
                if b < full.len() - 1 {
                    assert(full[a] == kept[a] && full[b] == kept[b]);
                } else {
                    assert(full[b] == last);
                    if a < full.len() - 1 {
                        let k = choose|k: int| 0 <= k < head.len() && kept[a] == head[k];
                        assert(full[a] == jobs[k]);
                        assert(jobs[k].id < jobs[n].id);
                        assert(jobs[k].created_at <= jobs[n].created_at);
                    }
                }
            }
            assert forall|a: int| 0 <= a < full.len() implies exists|k: int|
                0 <= k < jobs.len() && #[trigger] full[a] == jobs[k] by {
                if a < full.len() - 1 {
                    let k = choose|k: int| 0 <= k < jobs.len() && kept[a] == jobs[k];
                    assert(full[a] == jobs[k]);
                } else {
                    assert(full[a] == jobs[n]);
                }
            }
        }
    }
}

impl Store {
    // === Sync job operations ===

    /// Find the position of the job row with this id.
    fn find_job_index(&self, id: i64) -> (r: Option<usize>)
        ensures
            match r {
                Some(i) => i < self.jobs@.len() && self.jobs@[i as int]@.id == id as int,
                None => !jobs_contain(self@.jobs, id as int),
            },
    {
        let n = self.jobs.len();
        let mut i: usize = 0;
        while i < n
            invariant
                n == self.jobs@.len(),
                i <= n,
                forall|k: int| 0 <= k < i ==> (#[trigger] self.jobs@[k])@.id != id as int,
            decreases n - i,
        {
            if self.jobs[i].id == id {
                return Some(i);
            }
            i = i + 1;
        }
        proof {
            assert forall|k: int| 0 <= k < self@.jobs.len() implies (#[trigger] self@.jobs[k]).id
                != id as int by {
                assert(self@.jobs[k] == self.jobs@[k]@);
            }
        }
        None
    }

    /// Insert a pending job for an event.  Returns the new row's id.
    pub fn enqueue_job(&mut self, event: &SyncEvent, now: i64) -> (id: i64)
        requires
            old(self).wf(),
            old(self)@.next_job_id < i64::MAX,
        ensures
            final(self).wf(),
            id == old(self)@.next_job_id,
            final(self)@ == (StoreModel {
                jobs: old(self)@.jobs.push(
                    spec_event_job(
                        *event,
                        old(self)@.next_job_id,
                        spec_enqueue_created_at(old(self)@.jobs, now as int),
                    ),
                ),
                next_job_id: old(self)@.next_job_id + 1,
                ..old(self)@
            }),
    {
        let created_at: i64 = if self.jobs.len() > 0 {
            let last_created = self.jobs[self.jobs.len() - 1].created_at;
            proof {
                assert(self.jobs@[self.jobs@.len() - 1]@ == self@.jobs.last());
            }
            if last_created > now {
                last_created
            } else {
                now
            }
        } else {
            now
        };
        let id = self.next_job_id;
        self.next_job_id = self.next_job_id + 1;
        let row = SyncJob {
            id: id,
            event_type: event.event_type,
            local_path: event.local_path.clone(),
            remote_path: event.remote_path.clone(),
            status: SyncJobStatus::Pending,
            retry_at: None,
            n_retries: 0,
            last_error: None,
            change_token: clone_opt_string(&event.change_token),
            old_local_path: clone_opt_string(&event.old_local_path),
            old_remote_path: clone_opt_string(&event.old_remote_path),
            created_at: created_at,
        };
        proof {
            assert(row@ =~= spec_event_job(
                *event,
                old(self)@.next_job_id,
                spec_enqueue_created_at(old(self)@.jobs, now as int),
            ));
        }
        self.jobs.push(row);
        proof {
            assert(self@.jobs =~= old(self)@.jobs.push(row@));
            assert(self@ =~= (StoreModel {
                jobs: old(self)@.jobs.push(
                    spec_event_job(
                        *event,
                        old(self)@.next_job_id,
                        spec_enqueue_created_at(old(self)@.jobs, now as int),
                    ),
                ),
                next_job_id: old(self)@.next_job_id + 1,
                ..old(self)@
            }));
            assert forall|i: int, j: int| 0 <= i < j < self.jobs@.len() implies self.jobs@[i]@.id
                < self.jobs@[j]@.id && self.jobs@[i]@.created_at <= self.jobs@[j]@.created_at by {
                if j < self.jobs@.len() - 1 {
                    assert(self.jobs@[i] == old(self).jobs@[i]);
                    assert(self.jobs@[j] == old(self).jobs@[j]);
                } else {
                    assert(self.jobs@[j] == row);
                    if i < self.jobs@.len() - 1 {
                        assert(self.jobs@[i] == old(self).jobs@[i]);
                        if old(self).jobs@.len() > 0 && i < old(self).jobs@.len() - 1 {
                            assert(old(self).jobs@[i]@.created_at <= old(self).jobs@[
                                old(self).jobs@.len() - 1]@.created_at);
                        }
                    }
                }
            }
        }
        id
    }

    /// The rows the claim query selects: up to `limit` rows, oldest first,
    /// that are `Pending` or `Processing` with an expired retry deadline.
    /// Returning a row does not mutate it.
    pub fn get_pending_jobs(&self, limit: usize, now: i64) -> (r: Vec<SyncJob>)
        requires
            self.wf(),
        ensures
            r@.map_values(|j: SyncJob| j@) == spec_claimable(self@.jobs, now as int).take(
                r@.len() as int,
            ),
            r@.len() == if spec_claimable(self@.jobs, now as int).len() <= limit {
                spec_claimable(self@.jobs, now as int).len()
            } else {
                limit as nat
            },
    {
        let models = Ghost(self@.jobs);
        let n = self.jobs.len();
        proof {
            assert(models@.take(0) =~= Seq::<JobModel>::empty());
        }
        let mut out: Vec<SyncJob> = Vec::new();
        let mut i: usize = 0;
        while i < n
            invariant
                self.wf(),
                models@ == self@.jobs,
                n == self.jobs@.len(),
                i <= n,
                out@.map_values(|j: SyncJob| j@) == spec_claimable(models@.take(i as int), now as int).take(
                    out@.len() as int,
                ),
                out@.len() == if spec_claimable(models@.take(i as int), now as int).len() <= limit {
                    spec_claimable(models@.take(i as int), now as int).len()
                } else {
                    limit as nat
                },
            decreases n - i,
        {
            let ghost prev = spec_claimable(models@.take(i as int), now as int);
            proof {
                assert(models@.take(i + 1).drop_last() =~= models@.take(i as int));
                assert(models@.take(i + 1).last() == models@[i as int]);
                assert(models@[i as int] == self.jobs@[i as int]@);
            }
            let job = &self.jobs[i];
            let eligible = match job.status {
                SyncJobStatus::Pending => true,
                SyncJobStatus::Processing => match job.retry_at {
                    Some(t) => t < now,
                    None => false,
                },
                _ => false,
            };
            if eligible && out.len() < limit {
                let ghost old_map = out@.map_values(|j: SyncJob| j@);
                out.push(job.duplicate());
                proof {
                    assert(prev.take(prev.len() as int) =~= prev);
                    assert(old_map == prev);
                    assert(out@.map_values(|j: SyncJob| j@) =~= prev.push(models@[i as int]));
                    assert(spec_claimable(models@.take(i + 1), now as int) == prev.push(
                        models@[i as int],
                    ));
                    assert(out@.map_values(|j: SyncJob| j@) =~= spec_claimable(
                        models@.take(i + 1),
                        now as int,
                    ).take(out@.len() as int));
                }
            } else {
                proof {
                    if eligible {
                        assert(spec_claimable(models@.take(i + 1), now as int) == prev.push(
                            models@[i as int],
                        ));
                        assert(out@.map_values(|j: SyncJob| j@) =~= prev.push(
                            models@[i as int],
                        ).take(out@.len() as int));
                    } else {
                        assert(spec_claimable(models@.take(i + 1), now as int) == prev);
                    }
                }
            }
            i = i + 1;
        }
        proof {
            assert(models@.take(n as int) =~= models@);
        }
        out
    }

    /// Set the status and error text of the row with this id.  Updating an
    /// absent id changes nothing.  A row may be marked `Synced` only with no
    /// error and no pending retry deadline, and `Blocked` only on its fifth
    /// failure with an error recorded.
    pub fn update_job_status(&mut self, id: i64, status: SyncJobStatus, error: Option<&str>)
        requires
            old(self).wf(),
            status == SyncJobStatus::Synced ==> error is None,
            status == SyncJobStatus::Blocked ==> error is Some,
            match spec_find_job(old(self)@.jobs, id as int) {
                Some(j) => {
                    &&& (status == SyncJobStatus::Synced ==> j.retry_at is None)
                    &&& (status == SyncJobStatus::Blocked ==> j.n_retries == 5)
                },
                None => true,
            },
        ensures
            final(self).wf(),
            final(self)@ == (StoreModel {
                jobs: spec_set_status(old(self)@.jobs, id as int, status, view_opt_strref(error)),
                ..old(self)@
            }),
    {
        let found = self.find_job_index(id);
        match found {
            Some(i) => {
                proof {
                    lemma_job_at(old(self)@.jobs, i as int);
                }
                let mut row = self.jobs[i].duplicate();
                row.status = status;
                row.last_error = match error {
                    Some(e) => Some(e.to_owned()),
                    None => None,
                };
                self.jobs[i] = row;
                proof {
                    assert forall|k: int| 0 <= k < self.jobs@.len() && k != i implies
                        old(self).jobs@[k]@.id != id as int by {
                        if k < i {
                            assert(old(self).jobs@[k]@.id < old(self).jobs@[i as int]@.id);
                        } else {
                            assert(old(self).jobs@[i as int]@.id < old(self).jobs@[k]@.id);
                        }
                    }
                    assert(self@.jobs =~= spec_set_status(
                        old(self)@.jobs,
                        id as int,
                        status,
                        view_opt_strref(error),
                    ));
                    assert(self@ =~= (StoreModel {
                        jobs: spec_set_status(
                            old(self)@.jobs,
                            id as int,
                            status,
                            view_opt_strref(error),
                        ),
                        ..old(self)@
                    }));
                }
            },
            None => {
                proof {
                    assert forall|k: int| 0 <= k < old(self)@.jobs.len() implies
                        (#[trigger] old(self)@.jobs[k]).id != id as int by {
                        assert(old(self)@.jobs[k] == old(self).jobs@[k]@);
                    }
                    assert(self@.jobs =~= spec_set_status(
                        old(self)@.jobs,
                        id as int,
                        status,
                        view_opt_strref(error),
                    ));
                    assert(self@ =~= (StoreModel {
                        jobs: spec_set_status(
                            old(self)@.jobs,
                            id as int,
                            status,
                            view_opt_strref(error),
                        ),
                        ..old(self)@
                    }));
                }
            },
        }
    }

    /// Mark the row with this id `Processing` and clear its retry deadline.
    /// Marking an absent id changes nothing.
    pub fn mark_job_processing(&mut self, id: i64)
        requires
            old(self).wf(),
        ensures
            final(self).wf(),
            final(self)@ == (StoreModel {
                jobs: spec_mark_processing(old(self)@.jobs, id as int),
                ..old(self)@
            }),
    {
        let found = self.find_job_index(id);
        match found {
            Some(i) => {
                let mut row = self.jobs[i].duplicate();
                row.status = SyncJobStatus::Processing;
                row.retry_at = None;
                self.jobs[i] = row;
                proof {
                    assert forall|k: int| 0 <= k < self.jobs@.len() && k != i implies
                        old(self).jobs@[k]@.id != id as int by {
                        if k < i {
                            assert(old(self).jobs@[k]@.id < old(self).jobs@[i as int]@.id);
                        } else {
                            assert(old(self).jobs@[i as int]@.id < old(self).jobs@[k]@.id);
                        }
                    }
                    assert(self@.jobs =~= spec_mark_processing(old(self)@.jobs, id as int));
                    assert(self@ =~= (StoreModel {
                        jobs: spec_mark_processing(old(self)@.jobs, id as int),
                        ..old(self)@
                    }));
                }
            },
            None => {
                proof {
                    assert forall|k: int| 0 <= k < old(self)@.jobs.len() implies
                        (#[trigger] old(self)@.jobs[k]).id != id as int by {
                        assert(old(self)@.jobs[k] == old(self).jobs@[k]@);
                    }
                    assert(self@.jobs =~= spec_mark_processing(old(self)@.jobs, id as int));
                    assert(self@ =~= (StoreModel {
                        jobs: spec_mark_processing(old(self)@.jobs, id as int),
                        ..old(self)@
                    }));
                }
            },
        }
    }

    /// Add one to the retry count of the row with this id and set its next
    /// retry deadline, leaving the status alone so that the claim query
    /// re-selects the row once the deadline passes.  The row must still have
    /// retries left and be mid-flight.  Bumping an absent id changes nothing.
    pub fn increment_job_retry(&mut self, id: i64, retry_at: i64)
        requires
            old(self).wf(),
            match spec_find_job(old(self)@.jobs, id as int) {
                Some(j) => j.n_retries < 5 && j.status == SyncJobStatus::Processing,
                None => true,
            },
        ensures
            final(self).wf(),
            final(self)@ == (StoreModel {
                jobs: spec_bump_retry(old(self)@.jobs, id as int, retry_at as int),
                ..old(self)@
            }),
    {
        let found = self.find_job_index(id);
        match found {
            Some(i) => {
                proof {
                    lemma_job_at(old(self)@.jobs, i as int);
                }
                let mut row = self.jobs[i].duplicate();
                row.n_retries = row.n_retries + 1;
                row.retry_at = Some(retry_at);
                self.jobs[i] = row;
                proof {
                    assert forall|k: int| 0 <= k < self.jobs@.len() && k != i implies
                        old(self).jobs@[k]@.id != id as int by {
                        if k < i {
                            assert(old(self).jobs@[k]@.id < old(self).jobs@[i as int]@.id);
                        } else {
                            assert(old(self).jobs@[i as int]@.id < old(self).jobs@[k]@.id);
                        }
                    }
                    assert(self@.jobs =~= spec_bump_retry(old(self)@.jobs, id as int, retry_at as int));
                    assert(self@ =~= (StoreModel {
                        jobs: spec_bump_retry(old(self)@.jobs, id as int, retry_at as int),
                        ..old(self)@
                    }));
                }
            },
            None => {
                proof {
                    assert forall|k: int| 0 <= k < old(self)@.jobs.len() implies
                        (#[trigger] old(self)@.jobs[k]).id != id as int by {
                        assert(old(self)@.jobs[k] == old(self).jobs@[k]@);
                    }
                    assert(self@.jobs =~= spec_bump_retry(old(self)@.jobs, id as int, retry_at as int));
                    assert(self@ =~= (StoreModel {
                        jobs: spec_bump_retry(old(self)@.jobs, id as int, retry_at as int),
                        ..old(self)@
                    }));
                }
            },
        }
    }

    /// Delete every `Synced` row created before `now - older_than_secs`.
    /// Returns how many rows were deleted.
    pub fn delete_completed_jobs(&mut self, older_than_secs: i64, now: i64) -> (n: usize)
        requires
            old(self).wf(),
            i64::MIN <= now - older_than_secs <= i64::MAX,
        ensures
            final(self).wf(),
            final(self)@ == (StoreModel {
                jobs: spec_gc_jobs(old(self)@.jobs, now - older_than_secs),
                ..old(self)@
            }),
            n == old(self)@.jobs.len() - final(self)@.jobs.len(),
    {
        let cutoff: i64 = now - older_than_secs;
        let ghost cut: int = cutoff as int;
        let ghost orig = self@.jobs;
        let total = self.jobs.len();
        proof {
            assert(orig.take(0) =~= Seq::<JobModel>::empty());
        }
        let mut out: Vec<SyncJob> = Vec::new();
        let mut i: usize = 0;
        while i < total
            invariant
                self.wf(),
                orig == self@.jobs,
                cutoff == now - older_than_secs,
                cut == cutoff as int,
                total == self.jobs@.len(),
                i <= total,
                out@.map_values(|j: SyncJob| j@) == spec_gc_jobs(orig.take(i as int), cut),
                out@.len() <= i,
            decreases total - i,
        {
            let ghost old_map = out@.map_values(|j: SyncJob| j@);
            proof {
                assert(orig.take(i + 1).drop_last() =~= orig.take(i as int));
                assert(orig.take(i + 1).last() == orig[i as int]);
                assert(orig[i as int] == self.jobs@[i as int]@);
            }
            let keep = match self.jobs[i].status {
                SyncJobStatus::Synced => !(self.jobs[i].created_at < cutoff),
                _ => true,
            };
            if keep {
                out.push(self.jobs[i].duplicate());
                proof {
                    assert(!job_expired(orig[i as int], cut));
                    assert(out@.map_values(|j: SyncJob| j@) =~= old_map.push(orig[i as int]));
                }
            } else {
                proof {
                    assert(job_expired(orig[i as int], cut));
                }
            }
            i = i + 1;
        }
        proof {
            assert(orig.take(total as int) =~= orig);
        }
        let n = self.jobs.len() - out.len();
        self.jobs = out;
        proof {
            lemma_gc_jobs(orig, cut);
            let kept = spec_gc_jobs(orig, cut);
            assert(self@.jobs == kept);
            assert(forall|a: int| 0 <= a < self.jobs@.len() ==> #[trigger] self.jobs@[a]@
                == kept[a]);
            assert forall|a: int| 0 <= a < self.jobs@.len() implies (#[trigger] self.jobs@[a])@.id
                < self.next_job_id as int by {
                let k = choose|k: int| 0 <= k < orig.len() && kept[a] == orig[k];
                assert(orig[k] == old(self).jobs@[k]@);
            }
            assert(self@ =~= (StoreModel {
                jobs: spec_gc_jobs(old(self)@.jobs, now - older_than_secs),
                ..old(self)@
            }));
        }
        n
    }

    /// How many rows carry this status.
    pub fn get_job_count(&self, status: SyncJobStatus) -> (n: usize)
        requires
            self.wf(),
        ensures
            n == spec_count_status(self@.jobs, status),
    {
        let total = self.jobs.len();
        proof {
            assert(self@.jobs.take(0) =~= Seq::<JobModel>::empty());
        }
        let mut n: usize = 0;
        let mut i: usize = 0;
        while i < total
            invariant
                self.wf(),
                total == self.jobs@.len(),
                i <= total,
                n <= i,
                n == spec_count_status(self@.jobs.take(i as int), status),
            decreases total - i,
        {
            proof {
                assert(self@.jobs.take(i + 1).drop_last() =~= self@.jobs.take(i as int));
                assert(self@.jobs.take(i + 1).last() == self@.jobs[i as int]);
                assert(self@.jobs[i as int] == self.jobs@[i as int]@);
            }
            if self.jobs[i].status == status {
                n = n + 1;
            }
            i = i + 1;
        }
        proof {
            assert(self@.jobs.take(total as int) =~= self@.jobs);
        }
        n
    }
}

} // verus!
