//! Runtime phase, admission against closure, and shutdown decisions.
use crate::admission::SWSpawnError;
use crate::config::SWExecutionClass;
use crate::context::is_within_runtime;
use crate::context::within_lane;
use crate::context::within_runtime;
use crate::context::Context;
use crate::context::SWExecutionError;
use crate::external::in_state;
use crate::external::PhysicalRegistry;
use crate::external::PhysicalState;
use crate::external::RegistryView;
use crate::progress::owe;
use crate::progress::owing;
use crate::progress::SWExternalProgress;
use crate::progress::SWOwnerProgress;
use crate::progress::SWRuntimeState;
use crate::progress::SWWorkSetsProgress;
use crate::sums::total;
use crate::sums::total_append;
use crate::sums::total_bounds;
use vstd::prelude::*;

verus! {

/// Terminal shutdown cannot block from within a participating invocation.
#[derive(Clone, Copy, Debug, PartialEq, Eq, Structural)]
pub enum SWShutdownError {
    ExecutionContext,
    /// Close and clean registered owners on their own threads before joining.
    LiveOwners,
    /// Seal or cancel work sets and finish discovery/local cleanup before joining.
    LiveWorkSets,
    /// Finish logical producers and acknowledge physical release before joining.
    LiveExternal,
    /// Service bounded demand/control updates before attempting the join.
    PendingControl,
}

/// What one work set is still responsible for.
#[derive(Clone, Copy, Debug, PartialEq, Eq, Structural)]
pub struct SWWorkSetProgress {
    pub sealed: bool,
    pub active_work: usize,
    pub discovery_permits: usize,
    /// Nothing more can come of the set.
    pub drained: bool,
}

pub open spec fn all_drained(sets: Seq<SWWorkSetProgress>) -> bool {
    forall|i: int| 0 <= i < sets.len() ==> (#[trigger] sets[i]).drained
}

fn are_drained(sets: &Vec<SWWorkSetProgress>) -> (drained: bool)
    ensures
        drained == all_drained(sets@),
{
    let mut index: usize = 0;
    while index < sets.len()
        invariant
            index <= sets@.len(),
            forall|i: int| 0 <= i < index ==> (#[trigger] sets@[i]).drained,
        decreases sets@.len() - index,
    {
        if !sets[index].drained {
            assert(!sets@[index as int].drained);
            return false;
        }
        index += 1;
    }
    true
}

/// A runtime in state `a` may later be in state `b`: terminal states cannot
/// reopen, and abandonment cannot be upgraded to a join.
pub open spec fn follows(a: SWRuntimeState, b: SWRuntimeState) -> bool {
    match a {
        SWRuntimeState::Running => b != SWRuntimeState::Stopped,
        SWRuntimeState::Closing => b != SWRuntimeState::Running,
        SWRuntimeState::Stopped => b == SWRuntimeState::Stopped,
        SWRuntimeState::Abandoned => b == SWRuntimeState::Abandoned,
    }
}

#[verifier::ext_equal]
pub struct ControlView {
    pub id: u64,
    pub phase: SWRuntimeState,
    /// Admitted CPU work, active invocations and owner-root admissions.
    pub active: int,
    /// Accepted provider-owned results.
    pub external: int,
    /// Registered owners, in registration order.
    pub owners: Seq<u64>,
    pub next_owner: int,
    pub physical: RegistryView,
    /// Progress notifications that are owed to the host.
    pub wake: u64,
}

impl ControlView {
    pub open spec fn wf(self) -> bool {
        &&& 0 <= self.active <= usize::MAX
        &&& 0 <= self.external <= usize::MAX
        &&& 1 <= self.next_owner <= u64::MAX
        &&& self.physical.wf()
        &&& forall|i: int, j: int|
            0 <= i < j < self.owners.len() ==> #[trigger] self.owners[i] < #[trigger] self.owners[j]
        &&& forall|i: int|
            0 <= i < self.owners.len() ==> #[trigger] self.owners[i] < self.next_owner
    }

    /// A root is admitted while running; while closing, only what accepted
    /// work or an accounted work set still owes.
    pub open spec fn admits(self, accounted: bool, context: Option<Context>) -> bool {
        ||| self.phase == SWRuntimeState::Running
        ||| self.phase == SWRuntimeState::Closing && (accounted || within_runtime(context, self.id))
    }

    pub open spec fn woken(self) -> ControlView {
        ControlView { wake: owing(self.wake, 1), ..self }
    }

    pub open spec fn woken_by(self, n: int) -> ControlView {
        ControlView { wake: owing(self.wake, n), ..self }
    }

    /// One more lease on the workers.
    pub open spec fn leased(self) -> ControlView {
        ControlView { active: self.active + 1, ..self }.woken()
    }

    /// Accepted work still needs the workers.
    pub open spec fn executing(self) -> bool {
        self.phase == SWRuntimeState::Running || self.phase == SWRuntimeState::Closing
    }

    pub open spec fn quiescent(self, sets: Seq<SWWorkSetProgress>) -> bool {
        &&& self.phase == SWRuntimeState::Closing
        &&& self.active == 0
        &&& self.external == 0
        &&& self.owners.len() == 0
        &&& self.physical.entries.len() == 0
        &&& all_drained(sets)
    }

    /// What the host has to service before the workers can be joined.
    pub open spec fn blocker(self, sets: Seq<SWWorkSetProgress>) -> Option<SWShutdownError> {
        if self.owners.len() > 0 {
            Some(SWShutdownError::LiveOwners)
        } else if self.external != 0 || self.physical.entries.len() != 0 {
            Some(SWShutdownError::LiveExternal)
        } else if !all_drained(sets) {
            Some(SWShutdownError::LiveWorkSets)
        } else {
            None
        }
    }

    /// Root admission closed.
    pub open spec fn closing(self) -> ControlView {
        if self.phase == SWRuntimeState::Running {
            ControlView { phase: SWRuntimeState::Closing, wake: owing(self.wake, 1), ..self }
        } else {
            self
        }
    }

    /// Why a lexical invocation is refused, if it is. Same-lane nesting is
    /// authorized by the outer invocation, including after root closure.
    pub open spec fn acquire_error(
        self,
        class: SWExecutionClass,
        context: Option<Context>,
        backend: bool,
    ) -> Option<SWExecutionError> {
        if context is Some && !within_lane(context, self.id, class) {
            Some(SWExecutionError::InvalidContext)
        } else if self.phase != SWRuntimeState::Running && context is None {
            Some(SWExecutionError::Closed)
        } else if !backend {
            Some(SWExecutionError::Closed)
        } else {
            None
        }
    }
}

/// What a shutdown attempt does next.
#[derive(Clone, Copy, Debug, PartialEq, Eq, Structural)]
pub enum ShutdownStep {
    /// Joined before.
    Stopped,
    /// Abandoned; the workers cannot be joined.
    Abandoned,
    /// The host must go on servicing owners, providers and accepted work.
    Service,
    /// Everything has settled: join the workers, then record the stop.
    Join,
}

/// Admission state that lanes retain. It cannot keep an idle executor alive.
pub struct RuntimeControl {
    id: u64,
    phase: SWRuntimeState,
    active: usize,
    external: usize,
    owners: Vec<u64>,
    next_owner: u64,
    physical: PhysicalRegistry,
    wake: u64,
}

impl View for RuntimeControl {
    type V = ControlView;

    closed spec fn view(&self) -> ControlView {
        ControlView {
            id: self.id,
            phase: self.phase,
            active: self.active as int,
            external: self.external as int,
            owners: self.owners@,
            next_owner: self.next_owner as int,
            physical: self.physical@,
            wake: self.wake,
        }
    }
}

impl RuntimeControl {
    /// The cached physical counts are exact.
    pub closed spec fn counted(self) -> bool {
        self.physical.counted()
    }

    pub open spec fn wf(self) -> bool {
        self@.wf() && self.counted()
    }

    pub fn new(id: u64, physical: PhysicalRegistry) -> (control: Self)
        requires
            physical.wf(),
        ensures
            control.wf(),
            control@ == (ControlView {
                id,
                phase: SWRuntimeState::Running,
                active: 0,
                external: 0,
                owners: Seq::empty(),
                next_owner: 1,
                physical: physical@,
                wake: 0,
            }),
    {
        let control = RuntimeControl {
            id,
            phase: SWRuntimeState::Running,
            active: 0,
            external: 0,
            owners: Vec::new(),
            next_owner: 1,
            physical,
            wake: 0,
        };
        assert(control@.owners =~= Seq::empty());
        control
    }

    pub fn identity(&self) -> (id: u64)
        ensures
            id == self@.id,
    {
        self.id
    }

    pub fn phase(&self) -> (phase: SWRuntimeState)
        ensures
            phase == self@.phase,
    {
        self.phase
    }

    pub fn active_leases(&self) -> (active: usize)
        ensures
            active == self@.active,
    {
        self.active
    }

    /// Whether one more physical access can be named.
    pub fn names_accesses(&self) -> (room: bool)
        ensures
            room == (self@.physical.next_id < u64::MAX),
    {
        self.physical.names_accesses()
    }

    /// Counts notifications of an attempt that left nothing else behind.
    pub fn wake_by(&mut self, n: u64)
        requires
            old(self).wf(),
        ensures
            final(self).wf(),
            final(self)@ == old(self)@.woken_by(n as int),
    {
        self.wake = owe(self.wake, n);
    }

    /// Takes the progress notifications that are owed.
    pub fn take_wake(&mut self) -> (owed: u64)
        requires
            old(self).wf(),
        ensures
            final(self).wf(),
            owed == old(self)@.wake,
            final(self)@ == (ControlView { wake: 0, ..old(self)@ }),
    {
        let owed: u64 = self.wake;
        self.wake = 0;
        owed
    }

    /// Whether owned work can be submitted: `installed` says that the runtime
    /// was built with owned limits, `alive` that its scheduler still exists.
    pub fn owned_scheduler(&self, installed: bool, alive: bool) -> (result: Result<(), SWSpawnError>)
        ensures
            result == (if installed && alive {
                Ok::<(), SWSpawnError>(())
            } else if !installed && self@.phase == SWRuntimeState::Running {
                Err(SWSpawnError::Disabled)
            } else {
                Err(SWSpawnError::Closed)
            }),
    {
        if installed {
            if alive {
                Ok(())
            } else {
                Err(SWSpawnError::Closed)
            }
        } else if self.phase == SWRuntimeState::Running {
            Err(SWSpawnError::Disabled)
        } else {
            Err(SWSpawnError::Closed)
        }
    }

    /// Admits an owner root before closure. The caller holds this through
    /// transport admission so terminal quiescence cannot miss the route.
    pub fn admit_owner_root(&mut self) -> (result: Result<(), SWExecutionError>)
        requires
            old(self).wf(),
            old(self)@.active < usize::MAX,
        ensures
            final(self).wf(),
            match result {
                Ok(()) => {
                    &&& old(self)@.phase == SWRuntimeState::Running
                    &&& final(self)@ == (ControlView {
                        active: old(self)@.active + 1,
                        ..old(self)@
                    }).woken()
                },
                Err(error) => {
                    &&& old(self)@.phase != SWRuntimeState::Running
                    &&& error == SWExecutionError::Closed
                    &&& final(self)@ == old(self)@
                },
            },
    {
        if self.phase != SWRuntimeState::Running {
            return Err(SWExecutionError::Closed);
        }
        self.active = self.active + 1;
        self.wake = owe(self.wake, 1);
        Ok(())
    }

    fn admits_now(&self, accounted: bool, context: Option<Context>) -> (admits: bool)
        ensures
            admits == self@.admits(accounted, context),
    {
        self.phase == SWRuntimeState::Running || (self.phase == SWRuntimeState::Closing && (
        accounted || is_within_runtime(context, self.id)))
    }

    /// Admits a provider-owned result against closure.
    pub fn admit_external(&mut self, accounted: bool, context: Option<Context>) -> (result: Result<
        (),
        SWExecutionError,
    >)
        requires
            old(self).wf(),
            old(self)@.external < usize::MAX,
        ensures
            final(self).wf(),
            match result {
                Ok(()) => {
                    &&& old(self)@.admits(accounted, context)
                    &&& final(self)@ == (ControlView {
                        external: old(self)@.external + 1,
                        ..old(self)@
                    }).woken()
                },
                Err(error) => {
                    &&& !old(self)@.admits(accounted, context)
                    &&& error == SWExecutionError::Closed
                    &&& final(self)@ == old(self)@
                },
            },
    {
        if !self.admits_now(accounted, context) {
            return Err(SWExecutionError::Closed);
        }
        self.external = self.external + 1;
        self.wake = owe(self.wake, 1);
        Ok(())
    }

    /// Ends the admission of a provider-owned result.
    pub fn release_external(&mut self)
        requires
            old(self).wf(),
            old(self)@.external > 0,
        ensures
            final(self).wf(),
            final(self)@ == (ControlView {
                external: old(self)@.external - 1,
                ..old(self)@
            }).woken(),
    {
        self.external = self.external - 1;
        self.wake = owe(self.wake, 1);
    }

    /// Commits a root or an accounted execution descendant against runtime
    /// closure.
    pub fn admit_owned(&mut self, accounted: bool, context: Option<Context>) -> (result: Result<
        (),
        SWExecutionError,
    >)
        requires
            old(self).wf(),
            old(self)@.active < usize::MAX,
        ensures
            final(self).wf(),
            match result {
                Ok(()) => {
                    &&& old(self)@.admits(accounted, context)
                    &&& final(self)@ == (ControlView {
                        active: old(self)@.active + 1,
                        ..old(self)@
                    }).woken()
                },
                Err(error) => {
                    &&& !old(self)@.admits(accounted, context)
                    &&& error == SWExecutionError::Closed
                    &&& final(self)@ == old(self)@
                },
            },
    {
        if !self.admits_now(accounted, context) {
            return Err(SWExecutionError::Closed);
        }
        self.active = self.active + 1;
        self.wake = owe(self.wake, 1);
        Ok(())
    }

    /// Whether owned work would be admitted now.
    pub fn would_admit(&self, accounted: bool, context: Option<Context>) -> (admits: bool)
        ensures
            admits == self@.admits(accounted, context),
    {
        self.admits_now(accounted, context)
    }

    /// Ends an admission, an invocation or an execution lease.
    pub fn release_active(&mut self)
        requires
            old(self).wf(),
            old(self)@.active > 0,
        ensures
            final(self).wf(),
            final(self)@ == (ControlView { active: old(self)@.active - 1, ..old(self)@ }).woken(),
    {
        self.active = self.active - 1;
        self.wake = owe(self.wake, 1);
    }

    /// Temporary backend ownership for an accepted handoff or execution. Ready
    /// successors remain dispatchable during graceful closure.
    pub fn acquire_owned(&mut self, backend: bool) -> (result: Result<(), SWExecutionError>)
        requires
            old(self).wf(),
            old(self)@.active < usize::MAX,
        ensures
            final(self).wf(),
            match result {
                Ok(()) => {
                    &&& old(self)@.executing() && backend
                    &&& final(self)@ == (ControlView {
                        active: old(self)@.active + 1,
                        ..old(self)@
                    }).woken()
                },
                Err(error) => {
                    &&& !(old(self)@.executing() && backend)
                    &&& error == SWExecutionError::Closed
                    &&& final(self)@ == old(self)@
                },
            },
    {
        match self.phase {
            SWRuntimeState::Running | SWRuntimeState::Closing => {},
            _ => {
                return Err(SWExecutionError::Closed);
            },
        }
        if !backend {
            return Err(SWExecutionError::Closed);
        }
        self.active = self.active + 1;
        self.wake = owe(self.wake, 1);
        Ok(())
    }

    /// Backend ownership for a lexical invocation in a lane.
    pub fn acquire(
        &mut self,
        class: SWExecutionClass,
        context: Option<Context>,
        backend: bool,
    ) -> (result: Result<(), SWExecutionError>)
        requires
            old(self).wf(),
            old(self)@.active < usize::MAX,
        ensures
            final(self).wf(),
            match result {
                Ok(()) => {
                    &&& old(self)@.acquire_error(class, context, backend) is None
                    &&& final(self)@ == (ControlView {
                        active: old(self)@.active + 1,
                        ..old(self)@
                    }).woken()
                },
                Err(error) => {
                    &&& old(self)@.acquire_error(class, context, backend) == Some(error)
                    &&& final(self)@ == old(self)@
                },
            },
    {
        let nested = match context {
            Some(current) => {
                if current.runtime != self.id || current.class != class {
                    return Err(SWExecutionError::InvalidContext);
                }
                true
            },
            None => false,
        };
        if self.phase != SWRuntimeState::Running && !nested {
            return Err(SWExecutionError::Closed);
        }
        if !backend {
            return Err(SWExecutionError::Closed);
        }
        self.active = self.active + 1;
        self.wake = owe(self.wake, 1);
        Ok(())
    }

    pub fn reserve_physical(
        &mut self,
        required: bool,
        accounted: bool,
        context: Option<Context>,
    ) -> (result: Result<u64, SWSpawnError>)
        requires
            old(self).wf(),
            old(self)@.physical.next_id < u64::MAX,
        ensures
            final(self).wf(),
            match result {
                Ok(id) => {
                    &&& old(self)@.admits(accounted, context)
                    &&& old(self)@.physical.reserve_error(required) is None
                    &&& id == old(self)@.physical.next_id
                    &&& final(self)@ == (ControlView {
                        physical: old(self)@.physical.reserved(required),
                        ..old(self)@
                    }).woken()
                },
                Err(error) => {
                    &&& Some(error) == (if !old(self)@.admits(accounted, context) {
                        Some(SWSpawnError::Closed)
                    } else {
                        old(self)@.physical.reserve_error(required)
                    })
                    &&& final(self)@ == old(self)@
                },
            },
    {
        if !self.admits_now(accounted, context) {
            return Err(SWSpawnError::Closed);
        }
        match self.physical.reserve(required) {
            Ok(id) => {
                self.wake = owe(self.wake, 1);
                Ok(id)
            },
            Err(error) => Err(error),
        }
    }

    /// Commits a prepared access against closure and set cancellation.
    /// `refused` is the work set's objection, where the access belongs to one.
    pub fn activate_physical(&mut self, id: u64, refused: Option<SWSpawnError>) -> (result: Result<
        (),
        SWSpawnError,
    >)
        requires
            old(self).wf(),
            old(self)@.physical.has(id),
            old(self)@.physical.get(id).state == PhysicalState::Prepared,
        ensures
            final(self).wf(),
            match result {
                Ok(()) => {
                    &&& old(self)@.executing() && refused is None
                    &&& final(self)@ == (ControlView {
                        physical: old(self)@.physical.restated(id, PhysicalState::Active),
                        ..old(self)@
                    }).woken()
                },
                Err(error) => {
                    &&& if !old(self)@.executing() {
                        error == SWSpawnError::Closed
                    } else {
                        refused == Some(error)
                    }
                    &&& final(self)@ == old(self)@
                },
            },
    {
        match self.phase {
            SWRuntimeState::Running | SWRuntimeState::Closing => {},
            _ => {
                return Err(SWSpawnError::Closed);
            },
        }
        if let Some(error) = refused {
            return Err(error);
        }
        self.physical.activate(id);
        self.wake = owe(self.wake, 1);
        Ok(())
    }

    /// Records an access whose release authority was lost.
    pub fn orphan_physical(&mut self, id: u64)
        requires
            old(self).wf(),
            old(self)@.physical.has(id),
        ensures
            final(self).wf(),
            final(self)@ == (ControlView {
                physical: old(self)@.physical.restated(id, PhysicalState::Orphaned),
                ..old(self)@
            }).woken(),
    {
        self.physical.orphan(id);
        self.wake = owe(self.wake, 1);
    }

    /// Ends an access after its release.
    pub fn remove_physical(&mut self, id: u64)
        requires
            old(self).wf(),
            old(self)@.physical.has(id),
        ensures
            final(self).wf(),
            final(self)@ == (ControlView {
                physical: old(self)@.physical.without(id),
                ..old(self)@
            }).woken(),
    {
        self.physical.remove(id);
        self.wake = owe(self.wake, 1);
    }

    /// Logical and physical provider work.
    pub fn external_progress(&self) -> (progress: SWExternalProgress)
        ensures
            progress.logical == self@.external,
            progress.prepared == total(
                self@.physical.entries,
                in_state(PhysicalState::Prepared),
            ),
            progress.active == total(self@.physical.entries, in_state(PhysicalState::Active)),
            progress.orphaned == total(self@.physical.entries, in_state(PhysicalState::Orphaned)),
    {
        let mut progress = self.physical.progress();
        progress.logical = self.external;
        progress
    }

    /// Registers a thread-bound owner. `participating` says that the thread
    /// takes part in CPU work or runs an owner callback.
    pub fn register_owner(&mut self, participating: bool) -> (result: Result<u64, SWExecutionError>)
        requires
            old(self).wf(),
            old(self)@.next_owner < u64::MAX,
        ensures
            final(self).wf(),
            match result {
                Ok(id) => {
                    &&& !participating && old(self)@.phase == SWRuntimeState::Running
                    &&& id == old(self)@.next_owner
                    &&& final(self)@ == (ControlView {
                        owners: old(self)@.owners.push(id),
                        next_owner: id + 1,
                        ..old(self)@
                    }).woken()
                },
                Err(error) => {
                    &&& if participating {
                        error == SWExecutionError::InvalidContext
                    } else {
                        error == SWExecutionError::Closed && old(self)@.phase
                            != SWRuntimeState::Running
                    }
                    &&& final(self)@ == old(self)@
                },
            },
    {
        if participating {
            return Err(SWExecutionError::InvalidContext);
        }
        if self.phase != SWRuntimeState::Running {
            return Err(SWExecutionError::Closed);
        }
        let id: u64 = self.next_owner;
        self.next_owner = id + 1;
        self.owners.push(id);
        self.wake = owe(self.wake, 1);
        Ok(id)
    }

    /// Ends an owner's registration, after its last local callback is cleaned.
    pub fn unregister_owner(&mut self, id: u64)
        requires
            old(self).wf(),
        ensures
            final(self).wf(),
            forall|other: u64| #[trigger]
                final(self)@.owners.contains(other) <==> old(self)@.owners.contains(other) && other
                    != id,
            final(self)@ == (ControlView { owners: final(self)@.owners, ..old(self)@ }).woken(),
    {
        self.wake = owe(self.wake, 1);
        let ghost before = self.owners@;
        let mut index: usize = 0;
        while index < self.owners.len()
            invariant
                index <= self.owners@.len(),
                self.owners@ == before,
                before == old(self)@.owners,
                old(self).wf(),
                self@ == old(self)@.woken(),
                self.counted() == old(self).counted(),
                forall|i: int| 0 <= i < index ==> #[trigger] before[i] != id,
            decreases self.owners@.len() - index,
        {
            if self.owners[index] == id {
                let _ = self.owners.remove(index);
                proof {
                    let after = self.owners@;
                    assert forall|i: int| 0 <= i < after.len() implies #[trigger] after[i]
                        == before[if i < index {
                        i
                    } else {
                        i + 1
                    }] by {}
                    assert forall|other: u64| #[trigger]
                        after.contains(other) <==> before.contains(other) && other != id by {
                        if after.contains(other) {
                            let i = choose|i: int| 0 <= i < after.len() && after[i] == other;
                            let j = if i < index {
                                i
                            } else {
                                i + 1
                            };
                            assert(before[j] == other);
                            if j < index {
                                assert(before[j] < before[index as int]);
                            } else {
                                assert(before[index as int] < before[j]);
                            }
                        }
                        if before.contains(other) && other != id {
                            let j = choose|j: int| 0 <= j < before.len() && before[j] == other;
                            let i = if j < index {
                                j
                            } else {
                                j - 1
                            };
                            assert(after[i] == other);
                        }
                    }
                }
                return ;
            }
            index += 1;
        }
    }

    /// Whether a work set can be created.
    pub fn work_set(&mut self) -> (result: Result<(), SWSpawnError>)
        requires
            old(self).wf(),
        ensures
            final(self).wf(),
            match result {
                Ok(()) => old(self)@.phase == SWRuntimeState::Running && final(self)@ == old(self)@.woken(),
                Err(error) => {
                    &&& old(self)@.phase != SWRuntimeState::Running
                    &&& error == SWSpawnError::Closed
                    &&& final(self)@ == old(self)@
                },
            },
    {
        if self.phase != SWRuntimeState::Running {
            return Err(SWSpawnError::Closed);
        }
        self.wake = owe(self.wake, 1);
        Ok(())
    }

    /// Closes root admission. Reports whether every work set is to be sealed
    /// now.
    pub fn begin_shutdown(&mut self) -> (seal: bool)
        requires
            old(self).wf(),
        ensures
            final(self).wf(),
            seal == (old(self)@.phase == SWRuntimeState::Running),
            final(self)@ == old(self)@.closing(),
    {
        if self.phase != SWRuntimeState::Running {
            return false;
        }
        self.phase = SWRuntimeState::Closing;
        self.wake = owe(self.wake, 1);
        true
    }

    /// Closes root admission, unless the host still has something to service.
    pub fn prepare_shutdown(&mut self, sets: &Vec<SWWorkSetProgress>) -> (result: Result<
        (),
        SWShutdownError,
    >)
        requires
            old(self).wf(),
        ensures
            final(self).wf(),
            match result {
                Ok(()) => old(self)@.blocker(sets@) is None && final(self)@ == old(self)@.closing(),
                Err(error) => old(self)@.blocker(sets@) == Some(error) && final(self)@ == old(self)@,
            },
    {
        match self.shutdown_blocker(sets) {
            Some(error) => Err(error),
            None => {
                let _ = self.begin_shutdown();
                Ok(())
            },
        }
    }

    pub fn is_quiescent(&self, sets: &Vec<SWWorkSetProgress>) -> (quiescent: bool)
        ensures
            quiescent == self@.quiescent(sets@),
    {
        self.phase == SWRuntimeState::Closing && self.active == 0 && self.external == 0
            && self.owners.len() == 0 && self.physical.is_empty() && are_drained(sets)
    }

    pub fn shutdown_blocker(&self, sets: &Vec<SWWorkSetProgress>) -> (blocker: Option<
        SWShutdownError,
    >)
        ensures
            blocker == self@.blocker(sets@),
            blocker is None <==> self@.owners.len() == 0 && self@.external == 0
                && self@.physical.entries.len() == 0 && forall|i: int|
                0 <= i < sets@.len() ==> (#[trigger] sets@[i]).drained,
            blocker == Some(SWShutdownError::LiveOwners) <==> self@.owners.len() > 0,
            blocker == Some(SWShutdownError::LiveExternal) <==> self@.owners.len() == 0 && (
            self@.external != 0 || self@.physical.entries.len() != 0),
    {
        if self.owners.len() > 0 {
            Some(SWShutdownError::LiveOwners)
        } else if self.external != 0 || !self.physical.is_empty() {
            Some(SWShutdownError::LiveExternal)
        } else if !are_drained(sets) {
            Some(SWShutdownError::LiveWorkSets)
        } else {
            None
        }
    }

    /// One attempt to join. `participating` says that the thread takes part in
    /// CPU work or runs a callback of this library; `idle` that the scheduler
    /// holds no accepted work.
    pub fn try_shutdown(&mut self, participating: bool, sets: &Vec<SWWorkSetProgress>, idle: bool) -> (
    result: Result<ShutdownStep, SWShutdownError>)
        requires
            old(self).wf(),
        ensures
            final(self).wf(),
            follows(old(self)@.phase, final(self)@.phase),
            if participating {
                result == Err::<ShutdownStep, SWShutdownError>(SWShutdownError::ExecutionContext)
                    && final(self)@ == old(self)@
            } else {
                match old(self)@.phase {
                    SWRuntimeState::Stopped => result == Ok::<ShutdownStep, SWShutdownError>(
                        ShutdownStep::Stopped,
                    ) && final(self)@ == old(self)@,
                    SWRuntimeState::Abandoned => result == Ok::<ShutdownStep, SWShutdownError>(
                        ShutdownStep::Abandoned,
                    ) && final(self)@ == old(self)@,
                    _ => {
                        &&& final(self)@ == old(self)@.closing()
                        &&& result == Ok::<ShutdownStep, SWShutdownError>(
                            if final(self)@.quiescent(sets@) && idle {
                                ShutdownStep::Join
                            } else {
                                ShutdownStep::Service
                            },
                        )
                    },
                }
            },
    {
        if participating {
            return Err(SWShutdownError::ExecutionContext);
        }
        match self.phase {
            SWRuntimeState::Stopped => {
                return Ok(ShutdownStep::Stopped);
            },
            SWRuntimeState::Abandoned => {
                return Ok(ShutdownStep::Abandoned);
            },
            _ => {},
        }
        let _ = self.begin_shutdown();
        if !self.is_quiescent(sets) || !idle {
            return Ok(ShutdownStep::Service);
        }
        Ok(ShutdownStep::Join)
    }

    /// Records that the workers were joined.
    pub fn stop(&mut self)
        requires
            old(self).wf(),
            old(self)@.phase == SWRuntimeState::Closing,
        ensures
            final(self).wf(),
            final(self)@ == (ControlView {
                phase: SWRuntimeState::Stopped,
                ..old(self)@
            }).woken(),
            follows(old(self)@.phase, final(self)@.phase),
    {
        self.phase = SWRuntimeState::Stopped;
        self.wake = owe(self.wake, 1);
    }

    /// Whether a blocking shutdown may begin at all, and does: participating
    /// callers are refused before closure, and so is a running runtime that
    /// still needs host service. True means that nothing is left to join.
    pub fn shutdown(&mut self, participating: bool, sets: &Vec<SWWorkSetProgress>) -> (result: Result<
        bool,
        SWShutdownError,
    >)
        requires
            old(self).wf(),
        ensures
            final(self).wf(),
            follows(old(self)@.phase, final(self)@.phase),
            if participating {
                result == Err::<bool, SWShutdownError>(SWShutdownError::ExecutionContext) && final(self)@ == old(self)@
            } else {
                match old(self)@.phase {
                    SWRuntimeState::Stopped | SWRuntimeState::Abandoned => result == Ok::<
                        bool,
                        SWShutdownError,
                    >(true) && final(self)@ == old(self)@,
                    SWRuntimeState::Closing => result == Ok::<bool, SWShutdownError>(false)
                        && final(self)@ == old(self)@,
                    SWRuntimeState::Running => match old(self)@.blocker(sets@) {
                        Some(error) => result == Err::<bool, SWShutdownError>(error) && final(self)@ == old(self)@,
                        None => result == Ok::<bool, SWShutdownError>(false) && final(self)@ == old(self)@.closing(),
                    },
                }
            },
    {
        if participating {
            return Err(SWShutdownError::ExecutionContext);
        }
        match self.phase {
            SWRuntimeState::Stopped | SWRuntimeState::Abandoned => Ok(true),
            SWRuntimeState::Closing => Ok(false),
            SWRuntimeState::Running => match self.prepare_shutdown(sets) {
                Ok(()) => Ok(false),
                Err(error) => Err(error),
            },
        }
    }

    /// Why a blocking shutdown cannot go on by waiting, if it cannot:
    /// `control_pending` says that demand updates or provider callbacks are to
    /// be serviced.
    pub fn wait_blocker(&self, sets: &Vec<SWWorkSetProgress>, control_pending: bool) -> (blocker:
        Option<SWShutdownError>)
        ensures
            blocker == (if self@.blocker(sets@) is Some {
                self@.blocker(sets@)
            } else if control_pending {
                Some(SWShutdownError::PendingControl)
            } else {
                None
            }),
    {
        match self.shutdown_blocker(sets) {
            Some(error) => Some(error),
            None => if control_pending {
                Some(SWShutdownError::PendingControl)
            } else {
                None
            },
        }
    }

    /// Requests stop without joining. Reports whether anything was left to
    /// abandon.
    pub fn abandon(&mut self) -> (abandoned: bool)
        requires
            old(self).wf(),
        ensures
            final(self).wf(),
            follows(old(self)@.phase, final(self)@.phase),
            abandoned == old(self)@.executing(),
            final(self)@ == (if abandoned {
                (ControlView { phase: SWRuntimeState::Abandoned, ..old(self)@ }).woken()
            } else {
                old(self)@
            }),
    {
        match self.phase {
            SWRuntimeState::Stopped | SWRuntimeState::Abandoned => false,
            _ => {
                self.phase = SWRuntimeState::Abandoned;
                self.wake = owe(self.wake, 1);
                true
            },
        }
    }
}

/// The sum of what every owner reports.
pub open spec fn owner_sum(snapshots: Seq<SWOwnerProgress>) -> SWOwnerProgress
    decreases snapshots.len(),
{
    if snapshots.len() == 0 {
        SWOwnerProgress::none()
    } else {
        owner_sum(snapshots.drop_last()).plus(snapshots.last())
    }
}

/// Every partial sum can be represented.
pub open spec fn owner_sum_fits(snapshots: Seq<SWOwnerProgress>) -> bool {
    forall|n: int|
        0 <= n < snapshots.len() ==> owner_sum(#[trigger] snapshots.take(n)).can_add(snapshots[n])
}

/// Adds up what every owner reports.
pub fn owner_progress(snapshots: &Vec<SWOwnerProgress>) -> (sum: SWOwnerProgress)
    requires
        owner_sum_fits(snapshots@),
    ensures
        sum == owner_sum(snapshots@),
{
    let mut sum = SWOwnerProgress { routes: 0, waiting: 0, ready: 0, claimed: 0, cleanup: 0 };
    let mut index: usize = 0;
    while index < snapshots.len()
        invariant
            index <= snapshots@.len(),
            owner_sum_fits(snapshots@),
            sum == owner_sum(snapshots@.take(index as int)),
        decreases snapshots@.len() - index,
    {
        proof {
            assert(owner_sum(snapshots@.take(index as int)).can_add(snapshots@[index as int]));
            assert(snapshots@.take(index + 1).drop_last() =~= snapshots@.take(index as int));
            assert(snapshots@.take(index + 1).last() == snapshots@[index as int]);
        }
        sum.add(snapshots[index]);
        index += 1;
    }
    assert(snapshots@.take(index as int) =~= snapshots@);
    sum
}

pub open spec fn open_sets() -> spec_fn(SWWorkSetProgress) -> int {
    |set: SWWorkSetProgress|
        if set.sealed {
            0
        } else {
            1
        }
}

pub open spec fn set_work() -> spec_fn(SWWorkSetProgress) -> int {
    |set: SWWorkSetProgress| set.active_work as int
}

pub open spec fn set_permits() -> spec_fn(SWWorkSetProgress) -> int {
    |set: SWWorkSetProgress| set.discovery_permits as int
}

/// Adds up what every work set is responsible for.
pub fn work_sets_progress(sets: &Vec<SWWorkSetProgress>) -> (progress: SWWorkSetsProgress)
    requires
        total(sets@, set_work()) <= usize::MAX,
        total(sets@, set_permits()) <= usize::MAX,
    ensures
        progress.sets == sets@.len(),
        progress.open == total(sets@, open_sets()),
        progress.active_work == total(sets@, set_work()),
        progress.discovery_permits == total(sets@, set_permits()),
{
    let mut progress = SWWorkSetsProgress {
        sets: sets.len(),
        open: 0,
        active_work: 0,
        discovery_permits: 0,
    };
    let mut index: usize = 0;
    while index < sets.len()
        invariant
            index <= sets@.len(),
            total(sets@, set_work()) <= usize::MAX,
            total(sets@, set_permits()) <= usize::MAX,
            progress.sets == sets@.len(),
            progress.open <= index,
            progress.open == total(sets@.take(index as int), open_sets()),
            progress.active_work == total(sets@.take(index as int), set_work()),
            progress.discovery_permits == total(sets@.take(index as int), set_permits()),
        decreases sets@.len() - index,
    {
        let set = sets[index];
        proof {
            let next = sets@.take(index + 1);
            assert(next.drop_last() =~= sets@.take(index as int));
            assert(next.last() == set);
            partial_total(sets@, index + 1, set_work());
            partial_total(sets@, index + 1, set_permits());
        }
        if !set.sealed {
            progress.open = progress.open + 1;
        }
        progress.active_work = progress.active_work + set.active_work;
        progress.discovery_permits = progress.discovery_permits + set.discovery_permits;
        index += 1;
    }
    assert(sets@.take(index as int) =~= sets@);
    progress
}

/// A partial sum of nonnegative measures is at most the whole.
proof fn partial_total(
    sets: Seq<SWWorkSetProgress>,
    n: int,
    f: spec_fn(SWWorkSetProgress) -> int,
)
    requires
        0 <= n <= sets.len(),
        forall|i: int| 0 <= i < sets.len() ==> f(#[trigger] sets[i]) >= 0,
    ensures
        total(sets.take(n), f) <= total(sets, f),
{
    let rest = sets.skip(n);
    total_append(sets.take(n), rest, f);
    assert(sets =~= sets.take(n) + rest);
    assert forall|i: int| 0 <= i < rest.len() implies f(#[trigger] rest[i]) >= 0 by {
        assert(rest[i] == sets[n + i]);
    }
    total_bounds(rest, f);
}

/// A quiescent runtime admits no root and has nothing that the host must
/// service: joining it cannot lose accepted work.
pub proof fn quiescence_is_settled(control: ControlView, sets: Seq<SWWorkSetProgress>)
    requires
        control.quiescent(sets),
    ensures
        control.blocker(sets) is None,
        !control.admits(false, None),
        control.active == 0 && control.external == 0,
{
}

/// Terminal states never reopen, whatever sequence of states follows.
pub proof fn terminal_states_hold(a: SWRuntimeState, b: SWRuntimeState, c: SWRuntimeState)
    requires
        follows(a, b),
        follows(b, c),
    ensures
        a == SWRuntimeState::Stopped ==> c == SWRuntimeState::Stopped,
        a == SWRuntimeState::Abandoned ==> c == SWRuntimeState::Abandoned,
        a != SWRuntimeState::Running ==> c != SWRuntimeState::Running,
{
}

/// Roots stay closed once closing has begun: only accepted work can admit more.
pub proof fn closure_refuses_roots(control: ControlView)
    requires
        control.phase != SWRuntimeState::Running,
    ensures
        !control.admits(false, None),
        forall|class: SWExecutionClass, backend: bool|
            control.acquire_error(class, None, backend) == Some(SWExecutionError::Closed),
{
}

/// A blocker is named exactly while something of the host's is live: an owner
/// first, then an unsettled provider result or a physical access, then a work
/// set. None is named only if there is none of them.
pub proof fn blockers_name_what_is_live(control: ControlView, sets: Seq<SWWorkSetProgress>)
    ensures
        ({
            let owners = control.owners.len() > 0;
            let external = control.external != 0 || control.physical.entries.len() > 0;
            let undrained = exists|i: int| 0 <= i < sets.len() && !(#[trigger] sets[i]).drained;
            &&& control.blocker(sets) is None <==> !owners && !external && !undrained
            &&& control.blocker(sets) == Some(SWShutdownError::LiveOwners) <==> owners
            &&& control.blocker(sets) == Some(SWShutdownError::LiveExternal) <==> !owners
                && external
            &&& control.blocker(sets) == Some(SWShutdownError::LiveWorkSets) <==> !owners
                && !external && undrained
        }),
{
}

/// The workers are joined exactly once everything has settled: the runtime is
/// closing, nothing is admitted, and no blocker is left.
pub proof fn joining_needs_everything_settled(control: ControlView, sets: Seq<SWWorkSetProgress>)
    requires
        control.wf(),
    ensures
        control.quiescent(sets) <==> {
            &&& control.phase == SWRuntimeState::Closing
            &&& control.active == 0
            &&& control.blocker(sets) is None
        },
        control.quiescent(sets) ==> control.owners.len() == 0 && control.external == 0
            && control.physical.entries.len() == 0 && forall|i: int|
            0 <= i < sets.len() ==> (#[trigger] sets[i]).drained,
{
}

/// Who may still start something: anybody while the runtime runs; while it
/// closes, only what accepted work of this runtime or an accounted set owes; and
/// nobody afterwards. Accepted work itself goes on until the end.
pub proof fn closure_narrows_admission(
    control: ControlView,
    accounted: bool,
    context: Option<Context>,
)
    ensures
        control.admits(accounted, context) <==> match control.phase {
            SWRuntimeState::Running => true,
            SWRuntimeState::Closing => accounted || (context is Some && context->0.runtime
                == control.id),
            SWRuntimeState::Stopped => false,
            SWRuntimeState::Abandoned => false,
        },
        control.executing() <==> control.phase != SWRuntimeState::Stopped && control.phase
            != SWRuntimeState::Abandoned,
{
}

/// A scoped call nests only in its own lane. From outside any invocation it is
/// granted while the runtime runs; inside its lane it is granted after closure
/// too; anywhere else it is refused as misplaced. Either way the workers have to
/// be there.
pub proof fn scoped_calls_nest_in_their_lane(
    control: ControlView,
    class: SWExecutionClass,
    context: Option<Context>,
    backend: bool,
)
    ensures
        ({
            let error = control.acquire_error(class, context, backend);
            let inside = context is Some && context->0.runtime == control.id && context->0.class
                == class;
            let outside = context is None;
            &&& error is None <==> backend && (inside || (outside && control.phase
                == SWRuntimeState::Running))
            &&& error == Some(SWExecutionError::InvalidContext) <==> !inside && !outside
        }),
{
}

/// Closing a running runtime closes it and nothing else; closing any other one
/// changes nothing, and no state of a runtime ever returns to an earlier one.
pub proof fn closing_is_one_way(control: ControlView)
    ensures
        ({
            let after = control.closing();
            &&& control.phase == SWRuntimeState::Running ==> after.phase == SWRuntimeState::Closing
            &&& control.phase != SWRuntimeState::Running ==> after == control
            &&& after.active == control.active && after.external == control.external
                && after.owners == control.owners && after.physical == control.physical
                && after.id == control.id && after.next_owner == control.next_owner
            &&& after.closing() == after
            &&& forall|a: SWRuntimeState, b: SWRuntimeState|
                #![trigger follows(a, b)]
                follows(a, b) && follows(b, a) ==> a == b
            &&& forall|a: SWRuntimeState|
                #![trigger follows(SWRuntimeState::Stopped, a)]
                follows(SWRuntimeState::Stopped, a) ==> a == SWRuntimeState::Stopped
            &&& !follows(SWRuntimeState::Abandoned, SWRuntimeState::Stopped)
            &&& !follows(SWRuntimeState::Running, SWRuntimeState::Stopped)
            &&& follows(SWRuntimeState::Closing, SWRuntimeState::Stopped)
        }),
{
}

} // verus!
