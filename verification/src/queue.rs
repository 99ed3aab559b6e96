//! Queue-level helpers over the store's job table.

use vstd::prelude::*;

verus! {

use crate::store::{spec_claimable, spec_count_status, Store};
use crate::types::{JobModel, SyncJob, SyncJobStatus};

/// How many jobs sit in each status.
#[derive(Debug, Clone)]
pub struct StatusCounts {
    pub pending: usize,
    pub processing: usize,
    pub synced: usize,
    pub blocked: usize,
}

impl StatusCounts {
    /// The total across the four statuses.
    pub fn total(&self) -> (t: usize)
        requires
            self.pending + self.processing + self.synced + self.blocked <= usize::MAX,
        ensures
            t == self.pending + self.processing + self.synced + self.blocked,
    {
        self.pending + self.processing + self.synced + self.blocked
    }
}

/// Every job row counts toward exactly one status, so the four counts
/// partition the table.
pub proof fn lemma_status_counts_partition(jobs: Seq<JobModel>)
    ensures
        spec_count_status(jobs, SyncJobStatus::Pending) + spec_count_status(
            jobs,
            SyncJobStatus::Processing,
        ) + spec_count_status(jobs, SyncJobStatus::Synced) + spec_count_status(
            jobs,
            SyncJobStatus::Blocked,
        ) == jobs.len(),
    decreases jobs.len(),
{
    if jobs.len() > 0 {
        lemma_status_counts_partition(jobs.drop_last());
    }
}

/// Count the jobs in each status.
pub fn get_status_counts(store: &Store) -> (counts: StatusCounts)
    requires
        store.wf(),
    ensures
        counts.pending == spec_count_status(store@.jobs, SyncJobStatus::Pending),
        counts.processing == spec_count_status(store@.jobs, SyncJobStatus::Processing),
        counts.synced == spec_count_status(store@.jobs, SyncJobStatus::Synced),
        counts.blocked == spec_count_status(store@.jobs, SyncJobStatus::Blocked),
        counts.pending + counts.processing + counts.synced + counts.blocked == store@.jobs.len(),
{
    proof {
        lemma_status_counts_partition(store@.jobs);
    }
    StatusCounts {
        pending: store.get_job_count(SyncJobStatus::Pending),
        processing: store.get_job_count(SyncJobStatus::Processing),
        synced: store.get_job_count(SyncJobStatus::Synced),
        blocked: store.get_job_count(SyncJobStatus::Blocked),
    }
}

/// The rows of `jobs` whose status is `Pending`, in order.
pub open spec fn spec_only_pending(jobs: Seq<JobModel>) -> Seq<JobModel>
    decreases jobs.len(),
{
    if jobs.len() == 0 {
        jobs
    } else {
        let rest = spec_only_pending(jobs.drop_last());
        if jobs.last().status == SyncJobStatus::Pending {
            rest.push(jobs.last())
        } else {
            rest
        }
    }
}

/// Claim up to `limit` ready jobs and keep only those still `Pending`,
/// leaving out rows that are mid-retry.
pub fn get_pending_jobs(store: &Store, limit: usize, now: i64) -> (r: Vec<SyncJob>)
    requires
        store.wf(),
    ensures
        ({
            let claimable = spec_claimable(store@.jobs, now as int);
            let claimed = claimable.take(
                if claimable.len() <= limit {
                    claimable.len() as int
                } else {
                    limit as int
                },
            );
            r@.map_values(|j: SyncJob| j@) == spec_only_pending(claimed)
        }),
{
    let claimed = store.get_pending_jobs(limit, now);
    let n = claimed.len();
    let ghost claimed_models = claimed@.map_values(|j: SyncJob| j@);
    proof {
        assert(claimed_models.take(0) =~= Seq::<JobModel>::empty());
    }
    let mut out: Vec<SyncJob> = Vec::new();
    let mut i: usize = 0;
    while i < n
        invariant
            n == claimed@.len(),
            claimed_models == claimed@.map_values(|j: SyncJob| j@),
            i <= n,
            out@.map_values(|j: SyncJob| j@) == spec_only_pending(claimed_models.take(i as int)),
        decreases n - i,
    {
        let ghost old_map = out@.map_values(|j: SyncJob| j@);
        proof {
            assert(claimed_models.take(i + 1).drop_last() =~= claimed_models.take(i as int));
            assert(claimed_models.take(i + 1).last() == claimed_models[i as int]);
            assert(claimed_models[i as int] == claimed@[i as int]@);
        }
        match claimed[i].status {
            SyncJobStatus::Pending => {
                out.push(claimed[i].duplicate());
                proof {
                    assert(out@.map_values(|j: SyncJob| j@) =~= old_map.push(
                        claimed_models[i as int],
                    ));
                }
            },
            _ => {},
        }
        i = i + 1;
    }
    proof {
        assert(claimed_models.take(n as int) =~= claimed_models);
    }
    out
}

/// Delete `Synced` rows older than the given age.  Returns how many were
/// deleted.
pub fn cleanup_old_jobs(store: &mut Store, older_than_secs: i64, now: i64) -> (n: usize)
    requires
        old(store).wf(),
        i64::MIN <= now - older_than_secs <= i64::MAX,
    ensures
        final(store).wf(),
        final(store)@ == (crate::store::StoreModel {
            jobs: crate::store::spec_gc_jobs(old(store)@.jobs, now - older_than_secs),
            ..old(store)@
        }),
        n == old(store)@.jobs.len() - final(store)@.jobs.len(),
{
    store.delete_completed_jobs(older_than_secs, now)
}

/// Sweep processing leases older than the given age.  Returns how many were
/// deleted.
pub fn clear_stale_processing(store: &mut Store, older_than_secs: i64, now: i64) -> (n: usize)
    requires
        old(store).wf(),
        i64::MIN <= now - older_than_secs <= i64::MAX,
    ensures
        final(store).wf(),
        final(store)@ == (crate::store::StoreModel {
            leases: Map::new(
                |p: Seq<char>| old(store)@.leases.contains_key(p) && old(store)@.leases[p] >= now
                    - older_than_secs,
                |p: Seq<char>| old(store)@.leases[p],
            ),
            ..old(store)@
        }),
        n == old(store).lease_rows().len() - final(store).lease_rows().len(),
{
    store.clear_stale_processing(older_than_secs, now)
}

} // verus!
