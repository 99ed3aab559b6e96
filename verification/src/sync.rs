//! The engine: component lifecycle and control-plane state.
//!
//! The engine owns the `{Idle, Running, Paused, Error}` state and translates
//! lifecycle calls and control signals into state transitions and flag rows.
//! The periodic loops themselves (timers, task spawning) are plumbing that
//! lives outside; each tick calls back in here to decide what work to do.

use vstd::prelude::*;

verus! {

use crate::queue::get_status_counts;
use crate::store::{spec_claimable, spec_count_status, Store, StoreModel};
use crate::strutil::str_eq;
use crate::types::{Config, SyncJob, SyncJobStatus};
use crate::watcher::{lemma_scan_model_fields, spec_scan_count, spec_scan_model, FileScanner};

/// The engine's lifecycle state.
#[derive(Debug, Clone, Copy, PartialEq, Eq, Structural)]
pub enum SyncState {
    Idle,
    Running,
    Paused,
    Error,
}

/// A snapshot of the engine state and the queue counts.
#[derive(Debug, Clone)]
pub struct SyncStatus {
    pub state: SyncState,
    pub pending_jobs: usize,
    pub processing_jobs: usize,
    pub synced_jobs: usize,
    pub blocked_jobs: usize,
}

/// What one control signal does to the state and the flag rows: `stop` goes
/// to `Idle` and clears `running`; `pause` moves `Running` to `Paused` and
/// sets `paused`; `resume` moves `Paused` back to `Running` and clears
/// `paused`; anything else changes nothing.
pub open spec fn spec_signal_step(state: SyncState, m: StoreModel, sig: Seq<char>) -> (
    SyncState,
    StoreModel,
) {
    if sig == "stop"@ {
        (SyncState::Idle, StoreModel { flags: m.flags.remove("running"@), ..m })
    } else if sig == "pause"@ {
        if state == SyncState::Running {
            (SyncState::Paused, StoreModel { flags: m.flags.insert("paused"@), ..m })
        } else {
            (state, m)
        }
    } else if sig == "resume"@ {
        if state == SyncState::Paused {
            (SyncState::Running, StoreModel { flags: m.flags.remove("paused"@), ..m })
        } else {
            (state, m)
        }
    } else {
        (state, m)
    }
}

/// The state and store after applying a sequence of signals in order.
pub open spec fn spec_apply_signals(state: SyncState, m: StoreModel, sigs: Seq<Seq<char>>) -> (
    SyncState,
    StoreModel,
)
    decreases sigs.len(),
{
    if sigs.len() == 0 {
        (state, m)
    } else {
        let prev = spec_apply_signals(state, m, sigs.drop_last());
        spec_signal_step(prev.0, prev.1, sigs.last())
    }
}

/// The sync engine: the lifecycle state and the in-process configuration.
/// The store is handed in by the caller, which owns it.
pub struct SyncEngine {
    state: SyncState,
    config: Config,
}

impl SyncEngine {
    /// The current lifecycle state.
    pub closed spec fn spec_state(&self) -> SyncState {
        self.state
    }

    /// The current configuration.
    pub closed spec fn spec_config(&self) -> Config {
        self.config
    }

    /// A fresh engine: idle, with the given configuration.
    pub fn new(config: Config) -> (e: SyncEngine)
        ensures
            e.spec_state() == SyncState::Idle,
            e.spec_config() == config,
    {
        SyncEngine { state: SyncState::Idle, config: config }
    }

    /// Read the current state.
    pub fn get_state(&self) -> (s: SyncState)
        ensures
            s == self.spec_state(),
    {
        self.state
    }

    /// Read the current configuration.
    pub fn get_config(&self) -> (c: &Config)
        ensures
            *c == self.spec_config(),
    {
        &self.config
    }

    /// Replace the configuration (hot reload).
    pub fn set_config(&mut self, config: Config)
        ensures
            final(self).spec_state() == old(self).spec_state(),
            final(self).spec_config() == config,
    {
        self.config = config;
    }

    /// Start the engine: go to `Running` and set the `running` flag.
    /// Starting a running engine changes nothing.
    pub fn start(&mut self, store: &mut Store)
        requires
            old(store).wf(),
        ensures
            final(store).wf(),
            final(self).spec_config() == old(self).spec_config(),
            old(self).spec_state() == SyncState::Running ==> final(self).spec_state()
                == SyncState::Running && final(store)@ == old(store)@,
            old(self).spec_state() != SyncState::Running ==> final(self).spec_state()
                == SyncState::Running && final(store)@ == (StoreModel {
                flags: old(store)@.flags.insert("running"@),
                ..old(store)@
            }),
    {
        match self.state {
            SyncState::Running => {},
            _ => {
                self.state = SyncState::Running;
                store.set_flag("running");
            },
        }
    }

    /// Stop the engine: go to `Idle` and clear the `running` flag.
    pub fn stop(&mut self, store: &mut Store)
        requires
            old(store).wf(),
        ensures
            final(store).wf(),
            final(self).spec_config() == old(self).spec_config(),
            final(self).spec_state() == SyncState::Idle,
            final(store)@ == (StoreModel {
                flags: old(store)@.flags.remove("running"@),
                ..old(store)@
            }),
    {
        self.state = SyncState::Idle;
        store.clear_flag("running");
    }

    /// Pause the engine: a running engine goes to `Paused` and sets the
    /// `paused` flag; any other state changes nothing.
    pub fn pause(&mut self, store: &mut Store)
        requires
            old(store).wf(),
        ensures
            final(store).wf(),
            final(self).spec_config() == old(self).spec_config(),
            old(self).spec_state() == SyncState::Running ==> final(self).spec_state()
                == SyncState::Paused && final(store)@ == (StoreModel {
                flags: old(store)@.flags.insert("paused"@),
                ..old(store)@
            }),
            old(self).spec_state() != SyncState::Running ==> final(self).spec_state() == old(
                self,
            ).spec_state() && final(store)@ == old(store)@,
    {
        match self.state {
            SyncState::Running => {
                self.state = SyncState::Paused;
                store.set_flag("paused");
            },
            _ => {},
        }
    }

    /// Resume the engine: a paused engine goes back to `Running` and clears
    /// the `paused` flag; any other state changes nothing.
    pub fn resume(&mut self, store: &mut Store)
        requires
            old(store).wf(),
        ensures
            final(store).wf(),
            final(self).spec_config() == old(self).spec_config(),
            old(self).spec_state() == SyncState::Paused ==> final(self).spec_state()
                == SyncState::Running && final(store)@ == (StoreModel {
                flags: old(store)@.flags.remove("paused"@),
                ..old(store)@
            }),
            old(self).spec_state() != SyncState::Paused ==> final(self).spec_state() == old(
                self,
            ).spec_state() && final(store)@ == old(store)@,
    {
        match self.state {
            SyncState::Paused => {
                self.state = SyncState::Running;
                store.clear_flag("paused");
            },
            _ => {},
        }
    }

    /// Drain the control signals: read them all in insertion order, delete
    /// them, and apply each in turn.  Every signal is observed exactly once,
    /// and none survives the drain.
    pub fn drain_signals(&mut self, store: &mut Store)
        requires
            old(store).wf(),
        ensures
            final(store).wf(),
            final(self).spec_config() == old(self).spec_config(),
            ({
                let drained = StoreModel { signals: Seq::<Seq<char>>::empty(), ..old(store)@ };
                let outcome = spec_apply_signals(
                    old(self).spec_state(),
                    drained,
                    old(store)@.signals,
                );
                final(self).spec_state() == outcome.0 && final(store)@ == outcome.1
            }),
            final(store)@.signals == Seq::<Seq<char>>::empty(),
    {
        let signals = store.receive_signals();
        let n = signals.len();
        let ghost sigs = signals@.map_values(|s: String| s@);
        let ghost base = store@;
        proof {
            assert(sigs.take(0) =~= Seq::<Seq<char>>::empty());
        }
        let mut i: usize = 0;
        while i < n
            invariant
                store.wf(),
                n == signals@.len(),
                sigs == signals@.map_values(|s: String| s@),
                i <= n,
                self.spec_config() == old(self).spec_config(),
                (self.spec_state(), store@) == spec_apply_signals(
                    old(self).spec_state(),
                    base,
                    sigs.take(i as int),
                ),
                store@.signals == base.signals,
            decreases n - i,
        {
            proof {
                assert(sigs.take(i + 1).drop_last() =~= sigs.take(i as int));
                assert(sigs.take(i + 1).last() == sigs[i as int]);
                assert(sigs[i as int] == signals@[i as int]@);
            }
            let sig = &signals[i];
            if str_eq(sig.as_str(), "stop") {
                self.state = SyncState::Idle;
                store.clear_flag("running");
            } else if str_eq(sig.as_str(), "pause") {
                match self.state {
                    SyncState::Running => {
                        self.state = SyncState::Paused;
                        store.set_flag("paused");
                    },
                    _ => {},
                }
            } else if str_eq(sig.as_str(), "resume") {
                match self.state {
                    SyncState::Paused => {
                        self.state = SyncState::Running;
                        store.clear_flag("paused");
                    },
                    _ => {},
                }
            }
            proof {
                assert((self.spec_state(), store@) =~= spec_apply_signals(
                    old(self).spec_state(),
                    base,
                    sigs.take(i + 1),
                ));
            }
            i = i + 1;
        }
        proof {
            assert(sigs.take(n as int) =~= sigs);
        }
    }

    /// One processor tick's claim: nothing unless the engine is `Running`,
    /// else up to `limit` ready rows, oldest first.
    pub fn claim_ready_jobs(&self, store: &Store, limit: usize, now: i64) -> (r: Vec<SyncJob>)
        requires
            store.wf(),
        ensures
            self.spec_state() != SyncState::Running ==> r@.len() == 0,
            self.spec_state() == SyncState::Running ==> {
                let claimable = spec_claimable(store@.jobs, now as int);
                &&& r@.map_values(|j: SyncJob| j@) == claimable.take(r@.len() as int)
                &&& r@.len() == if claimable.len() <= limit {
                    claimable.len()
                } else {
                    limit as nat
                }
            },
    {
        match self.state {
            SyncState::Running => store.get_pending_jobs(limit, now),
            _ => Vec::new(),
        }
    }

    /// Should a reconciliation tick scan now?  Only while `Running`, and
    /// only when the pending backlog is not above one hundred jobs.
    pub fn should_reconcile(&self, store: &Store) -> (r: bool)
        requires
            store.wf(),
        ensures
            r == (self.spec_state() == SyncState::Running && spec_count_status(
                store@.jobs,
                SyncJobStatus::Pending,
            ) <= 100),
    {
        match self.state {
            SyncState::Running => store.get_job_count(SyncJobStatus::Pending) <= 100,
            _ => false,
        }
    }

    /// A snapshot of the engine state and the queue counts.
    pub fn get_status(&self, store: &Store) -> (s: SyncStatus)
        requires
            store.wf(),
        ensures
            s.state == self.spec_state(),
            s.pending_jobs == spec_count_status(store@.jobs, SyncJobStatus::Pending),
            s.processing_jobs == spec_count_status(store@.jobs, SyncJobStatus::Processing),
            s.synced_jobs == spec_count_status(store@.jobs, SyncJobStatus::Synced),
            s.blocked_jobs == spec_count_status(store@.jobs, SyncJobStatus::Blocked),
    {
        let counts = get_status_counts(store);
        SyncStatus {
            state: self.get_state(),
            pending_jobs: counts.pending,
            processing_jobs: counts.processing,
            synced_jobs: counts.synced,
            blocked_jobs: counts.blocked,
        }
    }

    /// A manual reconciliation pass: scan each walked root in order with the
    /// engine's exclusion patterns and return the total number of jobs
    /// enqueued.
    pub fn reconcile(&self, store: &mut Store, walks: &Vec<RootScan>, now: i64) -> (total: usize)
        requires
            old(store).wf(),
            spec_roots_well_formed(walks@),
            old(store)@.next_job_id + spec_total_entries(walks@) <= i64::MAX,
            spec_total_entries(walks@) <= usize::MAX,
        ensures
            final(store).wf(),
            final(store)@ == spec_reconcile_model(
                old(store)@,
                walks@,
                self.spec_config().exclude_patterns@,
                now as int,
            ),
            total == spec_reconcile_count(
                old(store)@.file_states,
                walks@,
                self.spec_config().exclude_patterns@,
            ),
    {
        reconcile_roots(store, walks, &self.config.exclude_patterns, now)
    }
}

/// One walked root: the sync directory pair and the entries found under its
/// source path.
pub struct RootScan {
    pub source_path: String,
    pub remote_root: String,
    pub entries: Vec<crate::watcher::ScanEntry>,
}

/// Every entry of every walked root lies under that root's source path.
pub open spec fn spec_roots_well_formed(walks: Seq<RootScan>) -> bool {
    forall|r: int, k: int|
        0 <= r < walks.len() && 0 <= k < walks[r].entries@.len()
            ==> crate::paths::spec_is_path_prefix(
            walks[r].source_path@,
            (#[trigger] walks[r].entries@[k]).path@,
        )
}

/// The total number of walked entries.
pub open spec fn spec_total_entries(walks: Seq<RootScan>) -> int
    decreases walks.len(),
{
    if walks.len() == 0 {
        0
    } else {
        spec_total_entries(walks.drop_last()) + walks.last().entries@.len()
    }
}

/// The store after scanning each root in order.
pub open spec fn spec_reconcile_model(
    m: StoreModel,
    walks: Seq<RootScan>,
    excl: Seq<crate::types::ExcludePattern>,
    now: int,
) -> StoreModel
    decreases walks.len(),
{
    if walks.len() == 0 {
        m
    } else {
        let prev = spec_reconcile_model(m, walks.drop_last(), excl, now);
        let w = walks.last();
        spec_scan_model(prev, w.source_path@, w.remote_root@, excl, w.entries@, now)
    }
}

/// The total number of jobs a reconciliation pass enqueues.
pub open spec fn spec_reconcile_count(
    fs: Map<Seq<char>, crate::types::FileStateModel>,
    walks: Seq<RootScan>,
    excl: Seq<crate::types::ExcludePattern>,
) -> int
    decreases walks.len(),
{
    if walks.len() == 0 {
        0
    } else {
        spec_reconcile_count(fs, walks.drop_last(), excl) + spec_scan_count(
            fs,
            excl,
            walks.last().entries@,
        )
    }
}

/// Scan each walked root in order; the shared body of the engine's
/// reconciliation.
fn reconcile_roots(
    store: &mut Store,
    walks: &Vec<RootScan>,
    exclusions: &Vec<crate::types::ExcludePattern>,
    now: i64,
) -> (total: usize)
    requires
        old(store).wf(),
        spec_roots_well_formed(walks@),
        old(store)@.next_job_id + spec_total_entries(walks@) <= i64::MAX,
        spec_total_entries(walks@) <= usize::MAX,
    ensures
        final(store).wf(),
        final(store)@ == spec_reconcile_model(old(store)@, walks@, exclusions@, now as int),
        total == spec_reconcile_count(old(store)@.file_states, walks@, exclusions@),
{
    let n = walks.len();
    proof {
        assert(walks@.take(0) =~= Seq::<RootScan>::empty());
    }
    let mut total: usize = 0;
    let mut i: usize = 0;
    while i < n
        invariant
            store.wf(),
            n == walks@.len(),
            i <= n,
            spec_roots_well_formed(walks@),
            old(store)@.next_job_id + spec_total_entries(walks@) <= i64::MAX,
            spec_total_entries(walks@) <= usize::MAX,
            store@ == spec_reconcile_model(old(store)@, walks@.take(i as int), exclusions@, now as int),
            total == spec_reconcile_count(old(store)@.file_states, walks@.take(i as int), exclusions@),
            store@.file_states == old(store)@.file_states,
            store@.next_job_id == old(store)@.next_job_id + total,
            total <= spec_total_entries(walks@.take(i as int)),
        decreases n - i,
    {
        proof {
            assert(walks@.take(i + 1).drop_last() =~= walks@.take(i as int));
            assert(walks@.take(i + 1).last() == walks@[i as int]);
            lemma_prefix_entries_bound(walks@, i + 1);
            lemma_scan_count_bound(old(store)@.file_states, exclusions@, walks@[i as int].entries@);
        }
        let ghost at_call = store@;
        let w = &walks[i];
        let count = FileScanner::scan_directory(
            store,
            w.source_path.as_str(),
            w.remote_root.as_str(),
            exclusions,
            &w.entries,
            now,
        );
        total = total + count;
        proof {
            lemma_scan_model_fields(
                at_call,
                walks@[i as int].source_path@,
                walks@[i as int].remote_root@,
                exclusions@,
                walks@[i as int].entries@,
                now as int,
            );
        }
        i = i + 1;
    }
    proof {
        assert(walks@.take(n as int) =~= walks@);
    }
    total
}

/// A prefix of the roots holds at most all the entries.
proof fn lemma_prefix_entries_bound(walks: Seq<RootScan>, m: int)
    requires
        0 <= m <= walks.len(),
    ensures
        spec_total_entries(walks.take(m)) <= spec_total_entries(walks),
    decreases walks.len() - m,
{
    if m == walks.len() {
        assert(walks.take(m) =~= walks);
    } else {
        assert(walks.take(m + 1).drop_last() =~= walks.take(m));
        assert(walks.take(m + 1).last() == walks[m]);
        lemma_prefix_entries_bound(walks, m + 1);
    }
}

/// A scan enqueues at most one job per entry.
proof fn lemma_scan_count_bound(
    fs: Map<Seq<char>, crate::types::FileStateModel>,
    excl: Seq<crate::types::ExcludePattern>,
    entries: Seq<crate::watcher::ScanEntry>,
)
    ensures
        0 <= spec_scan_count(fs, excl, entries) <= entries.len(),
    decreases entries.len(),
{
    if entries.len() > 0 {
        lemma_scan_count_bound(fs, excl, entries.drop_last());
    }
}

} // verus!
