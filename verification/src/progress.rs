//! Passive host observation and a generation-based wake protocol.
use crate::reservation::SWCapacityUsage;
use vstd::prelude::*;

verus! {

/// Observable state of the worker foundation. Terminal states cannot reopen.
#[derive(Clone, Copy, Debug, PartialEq, Eq, Structural)]
pub enum SWRuntimeState {
    Running,
    Closing,
    Stopped,
    Abandoned,
}

/// CPU and control work still owned by the scheduler. Counts describe current
/// state; full flags identify saturated admission routes, not queued applicants.
#[derive(Clone, Copy, Debug)]
pub struct SWSchedulerProgress {
    pub waiting: usize,
    pub ready: usize,
    pub deferred: usize,
    pub handed: usize,
    pub running: usize,
    pub finalizing: usize,
    pub handoff_wrappers: [usize; 3],
    pub demand_pending: bool,
    pub provider_callbacks: usize,
    pub records_full: bool,
    pub edges_full: bool,
    pub runnable_full: [bool; 3],
    pub handoff_full: [bool; 3],
}

impl SWSchedulerProgress {
    /// Nothing is in progress.
    pub open spec fn idle(self) -> bool {
        &&& self.waiting == 0
        &&& self.ready == 0
        &&& self.deferred == 0
        &&& self.handed == 0
        &&& self.running == 0
        &&& self.finalizing == 0
        &&& forall|c: int| 0 <= c < 3 ==> #[trigger] self.handoff_wrappers@[c] == 0
        &&& !self.demand_pending
        &&& self.provider_callbacks == 0
        &&& !self.records_full
        &&& !self.edges_full
        &&& forall|c: int| 0 <= c < 3 ==> !#[trigger] self.runnable_full@[c]
        &&& forall|c: int| 0 <= c < 3 ==> !#[trigger] self.handoff_full@[c]
    }
}

impl Default for SWSchedulerProgress {
    /// The progress of a runtime without owned work.
    fn default() -> (progress: Self)
        ensures
            progress.idle(),
    {
        SWSchedulerProgress {
            waiting: 0,
            ready: 0,
            deferred: 0,
            handed: 0,
            running: 0,
            finalizing: 0,
            handoff_wrappers: [0, 0, 0],
            demand_pending: false,
            provider_callbacks: 0,
            records_full: false,
            edges_full: false,
            runnable_full: [false, false, false],
            handoff_full: [false, false, false],
        }
    }
}

/// Transferable owner-route bookkeeping. Waiting deliveries still need their
/// producer; ready deliveries need a matching host phase; cleanup is owner-local.
#[derive(Clone, Copy, Debug, PartialEq, Eq, Structural)]
pub struct SWOwnerProgress {
    pub routes: usize,
    pub waiting: usize,
    pub ready: usize,
    pub claimed: usize,
    pub cleanup: usize,
}

impl Default for SWOwnerProgress {
    fn default() -> (progress: Self)
        ensures
            progress == SWOwnerProgress::none(),
    {
        SWOwnerProgress { routes: 0, waiting: 0, ready: 0, claimed: 0, cleanup: 0 }
    }
}

impl SWOwnerProgress {
    pub open spec fn none() -> SWOwnerProgress {
        SWOwnerProgress { routes: 0, waiting: 0, ready: 0, claimed: 0, cleanup: 0 }
    }

    /// Every count of the sum can be represented.
    pub open spec fn can_add(self, other: SWOwnerProgress) -> bool {
        &&& self.routes + other.routes <= usize::MAX
        &&& self.waiting + other.waiting <= usize::MAX
        &&& self.ready + other.ready <= usize::MAX
        &&& self.claimed + other.claimed <= usize::MAX
        &&& self.cleanup + other.cleanup <= usize::MAX
    }

    pub open spec fn plus(self, other: SWOwnerProgress) -> SWOwnerProgress {
        SWOwnerProgress {
            routes: (self.routes + other.routes) as usize,
            waiting: (self.waiting + other.waiting) as usize,
            ready: (self.ready + other.ready) as usize,
            claimed: (self.claimed + other.claimed) as usize,
            cleanup: (self.cleanup + other.cleanup) as usize,
        }
    }

    pub fn add(&mut self, other: Self)
        requires
            old(self).can_add(other),
        ensures
            *final(self) == old(self).plus(other),
    {
        self.routes = self.routes + other.routes;
        self.waiting = self.waiting + other.waiting;
        self.ready = self.ready + other.ready;
        self.claimed = self.claimed + other.claimed;
        self.cleanup = self.cleanup + other.cleanup;
    }
}

/// Work-set responsibilities that can outlive an empty CPU queue.
#[derive(Clone, Copy, Debug, PartialEq, Eq, Structural)]
pub struct SWWorkSetsProgress {
    pub sets: usize,
    pub open: usize,
    pub active_work: usize,
    pub discovery_permits: usize,
}

/// Provider work that is still outstanding.
#[derive(Clone, Copy, Debug, PartialEq, Eq, Structural)]
pub struct SWExternalProgress {
    pub logical: usize,
    pub prepared: usize,
    pub active: usize,
    pub orphaned: usize,
}

/// One passive observation assembled from independently locked components,
/// not an atomic global snapshot or proof of drain. Wait for a change with an
/// explicit host deadline, then take a fresh snapshot. Service pending demand
/// updates and owner/provider work before sleeping; observation does not do so.
#[derive(Clone, Copy, Debug)]
pub struct SWProgress {
    pub state: SWRuntimeState,
    pub scheduler: SWSchedulerProgress,
    pub capacity: Option<SWCapacityUsage>,
    pub owner: SWOwnerProgress,
    pub work_sets: SWWorkSetsProgress,
    pub external: SWExternalProgress,
    /// Runtime leases include admitted CPU work, active scoped/owned invocations
    /// and in-progress owner-root admissions; these overlap scheduler counts.
    pub active_leases: usize,
    pub wake_generation: u64,
}

impl SWProgress {
    /// One turn of a wait for a state change. `forbidden` says that the thread
    /// takes part in CPU work or owns a live owner, `generation` is the current
    /// wake generation, and `expired` says that the deadline has passed. None
    /// means to park until the generation moves on or the deadline passes.
    pub fn wait_for_change(&self, forbidden: bool, generation: u64, expired: bool) -> (step: Result<
        Option<SWProgressWait>,
        SWProgressWaitError,
    >)
        ensures
            step == (if forbidden {
                Err::<Option<SWProgressWait>, SWProgressWaitError>(
                    SWProgressWaitError::InvalidContext,
                )
            } else if generation != self.wake_generation {
                Ok(Some(SWProgressWait::Changed(generation)))
            } else if expired {
                Ok(Some(SWProgressWait::TimedOut(generation)))
            } else {
                Ok(None)
            }),
    {
        if forbidden {
            return Err(SWProgressWaitError::InvalidContext);
        }
        if generation != self.wake_generation {
            return Ok(Some(SWProgressWait::Changed(generation)));
        }
        if expired {
            return Ok(Some(SWProgressWait::TimedOut(generation)));
        }
        Ok(None)
    }
}

/// A wake reports a change, not the new progress snapshot.
#[derive(Clone, Copy, Debug, PartialEq, Eq, Structural)]
pub enum SWProgressWait {
    Changed(u64),
    TimedOut(u64),
}

#[derive(Clone, Copy, Debug, PartialEq, Eq, Structural)]
pub enum SWProgressWaitError {
    InvalidContext,
}

/// After the first host sample, the generation advances for each notified
/// transition. Before that sample nobody compares it, and it stays.
#[derive(Clone, Copy, Debug, PartialEq, Eq, Structural)]
pub struct SWWake {
    generation: u64,
    enabled: bool,
}

impl SWWake {
    pub closed spec fn current(self) -> u64 {
        self.generation
    }

    pub closed spec fn sampled(self) -> bool {
        self.enabled
    }

    pub fn new() -> (wake: Self)
        ensures
            wake.current() == 0,
            !wake.sampled(),
    {
        SWWake { generation: 0, enabled: false }
    }

    /// Samples the generation; from here on changes are counted.
    pub fn generation(&mut self) -> (generation: u64)
        ensures
            generation == old(self).current(),
            final(self).current() == old(self).current(),
            final(self).sampled(),
    {
        self.enabled = true;
        self.generation
    }

    /// Whether one more change can be counted.
    pub fn has_room(&self) -> (room: bool)
        ensures
            room == (self.sampled() ==> self.current() < u64::MAX),
    {
        !self.enabled || self.generation < u64::MAX
    }

    /// Reports whether parked hosts are to be woken.
    pub fn notify(&mut self) -> (woke: bool)
        requires
            old(self).sampled() ==> old(self).current() < u64::MAX,
        ensures
            woke == old(self).sampled(),
            final(self).sampled() == old(self).sampled(),
            final(self).current() == (if woke {
                (old(self).current() + 1) as u64
            } else {
                old(self).current()
            }),
    {
        if self.enabled {
            self.generation = self.generation + 1;
            true
        } else {
            false
        }
    }

    /// One turn of a wait: some result, or none to park again.
    pub fn wait_since(&self, observed: u64, expired: bool) -> (step: Option<bool>)
        ensures
            step == wait_outcome(self.current(), observed, expired),
    {
        if self.generation != observed {
            return Some(true);
        }
        if expired {
            return Some(false);
        }
        None
    }
}

/// Owed notifications after `n` more. A count that is full stays full.
pub open spec fn owing(count: u64, n: int) -> u64 {
    if count + n >= u64::MAX {
        u64::MAX
    } else {
        (count + n) as u64
    }
}

pub fn owe(count: u64, n: u64) -> (owed: u64)
    ensures
        owed == owing(count, n as int),
{
    if count >= u64::MAX - n {
        u64::MAX
    } else {
        count + n
    }
}

/// What a waiting host finds: a change, the end of its time, or nothing yet.
pub open spec fn wait_outcome(current: u64, observed: u64, expired: bool) -> Option<bool> {
    if current != observed {
        Some(true)
    } else if expired {
        Some(false)
    } else {
        None
    }
}

/// A change that is notified after a host has sampled the generation is never
/// missed: however many follow, and whether or not its time is up, the host
/// finds a change before it parks. Without one it never finds any.
pub proof fn no_change_is_missed(sampled: u64, changes: nat, expired: bool)
    requires
        sampled + changes <= u64::MAX,
    ensures
        changes > 0 ==> wait_outcome((sampled + changes) as u64, sampled, expired) == Some(true),
        changes == 0 ==> wait_outcome((sampled + changes) as u64, sampled, expired) != Some(true),
{
}

} // verus!
