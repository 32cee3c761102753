//! Runtime construction under a validated host budget.
use crate::admission::SWOwnedLimits;
use crate::config::configured_workers;
use crate::config::SWExecutionClass;
use crate::config::SWRuntimeConfig;
use crate::cost::SWCost;
use crate::cost::SWLimitError;
use crate::cost::SWLimits;
use crate::external::PhysicalRegistry;
use crate::external::RegistryView;
use crate::jobs::SchedulerView;
use crate::lane::SWLane;
use crate::lifecycle::ControlView;
use crate::lifecycle::RuntimeControl;
use crate::notification::NotifyDomain;
use crate::notification::NotifyView;
use crate::notification::SWNotifyError;
use crate::notification::SWNotifyLimits;
use crate::notification::SWNotifyRejected;
use crate::notification::SWNotifyRoute;
use crate::platform::SWWorkerSetupError;
use crate::progress::SWRuntimeState;
use crate::queue::LaneView;
use crate::queue::SWPriority;
use crate::reservation::Accounts;
use crate::reservation::SWReservationPool;
use crate::reservation::Usage;
use crate::runtime::Charge;
use crate::runtime::RuntimeView;
use crate::runtime::SWRuntime;
use crate::scheduler::OwnedScheduler;
use crate::startup::Startup;
use crate::startup::StartupPhase;
use vstd::prelude::*;

verus! {

/// A worker could not be created or prepared. Construction joins all workers
/// already created before it reports the error. `S` is the platform's own
/// error.
pub enum SWBuildError<S> {
    Capacity(SWLimitError),
    OwnedWorkDisabled,
    Spawn { class: SWExecutionClass, worker: usize, source: S },
    Setup { class: SWExecutionClass, worker: usize, source: SWWorkerSetupError<S> },
    Hook { class: SWExecutionClass, worker: usize, source: S },
    SetupPanicked { class: SWExecutionClass, worker: usize },
}

/// How the preparation of one worker ended.
pub enum WorkerSetup<S> {
    /// Its OS priority could not be established.
    Priority(SWWorkerSetupError<S>),
    /// The host's hook refused.
    Hook(S),
    /// The host's hook panicked.
    Panicked,
    Ready,
}

impl<S> WorkerSetup<S> {
    /// What a worker reports to the startup barrier: nothing where it is ready.
    pub fn report(self, class: SWExecutionClass, worker: usize) -> (error: Option<SWBuildError<S>>)
        ensures
            error == (match self {
                WorkerSetup::Priority(source) => Some(
                    SWBuildError::Setup { class, worker, source },
                ),
                WorkerSetup::Hook(source) => Some(SWBuildError::Hook { class, worker, source }),
                WorkerSetup::Panicked => Some(SWBuildError::SetupPanicked { class, worker }),
                WorkerSetup::Ready => None,
            }),
    {
        match self {
            WorkerSetup::Priority(source) => Some(SWBuildError::Setup { class, worker, source }),
            WorkerSetup::Hook(source) => Some(SWBuildError::Hook { class, worker, source }),
            WorkerSetup::Panicked => Some(SWBuildError::SetupPanicked { class, worker }),
            WorkerSetup::Ready => None,
        }
    }
}

/// Builder for three dedicated worker pools under a validated host budget. `H`
/// is the host's worker setup hook.
pub struct SWRuntimeBuilder<H> {
    config: SWRuntimeConfig,
    setup: Option<H>,
    owned_limits: Option<SWOwnedLimits>,
    capacity_limits: Option<SWLimits>,
    demand_priorities: Vec<SWPriority>,
    demand_leases: usize,
    external_capacity: Option<usize>,
    notification_limits: Option<SWNotifyLimits>,
}

/// What a builder was told.
#[verifier::ext_equal]
pub struct BuilderView<H> {
    pub config: SWRuntimeConfig,
    pub setup: Option<H>,
    pub owned_limits: Option<SWOwnedLimits>,
    pub capacity_limits: Option<SWLimits>,
    pub demand_priorities: Seq<SWPriority>,
    pub demand_leases: usize,
    pub external_capacity: Option<usize>,
    pub notification_limits: Option<SWNotifyLimits>,
}

impl<H> View for SWRuntimeBuilder<H> {
    type V = BuilderView<H>;

    closed spec fn view(&self) -> BuilderView<H> {
        BuilderView {
            config: self.config,
            setup: self.setup,
            owned_limits: self.owned_limits,
            capacity_limits: self.capacity_limits,
            demand_priorities: self.demand_priorities@,
            demand_leases: self.demand_leases,
            external_capacity: self.external_capacity,
            notification_limits: self.notification_limits,
        }
    }
}

impl<H> BuilderView<H> {
    /// Why a configuration is refused before any worker is created, if it is.
    pub open spec fn error<S>(self) -> Option<SWBuildError<S>> {
        if self.owned_limits is None && (self.capacity_limits is Some
            || self.demand_priorities.len() > 0) {
            Some(SWBuildError::OwnedWorkDisabled)
        } else {
            match self.capacity_limits {
                Some(limits) => match limits.error() {
                    Some(error) => Some(SWBuildError::Capacity(error)),
                    None => None,
                },
                None => None,
            }
        }
    }

    /// Physical places: ordinary ones where the host enabled them, and as many
    /// protected ones as the policy allows required records.
    pub open spec fn registry(self) -> RegistryView {
        RegistryView {
            ordinary_capacity: match self.external_capacity {
                Some(capacity) => capacity,
                None => 0,
            },
            required_capacity: match (self.external_capacity, self.capacity_limits) {
                (Some(_), Some(limits)) => limits.required_allowance.records,
                _ => 0,
            },
            next_id: 0,
            entries: Seq::empty(),
        }
    }

    /// The admission limits in force: a capacity policy is never cut short by
    /// smaller limits.
    pub open spec fn effective_limits(self) -> SWOwnedLimits {
        let limits = self.owned_limits->0;
        match self.capacity_limits {
            Some(policy) => SWOwnedLimits {
                records: larger(
                    limits.records as int,
                    policy.ordinary_target.records + policy.required_allowance.records,
                ) as usize,
                edges: larger(
                    limits.edges as int,
                    policy.ordinary_target.edges + policy.required_allowance.edges,
                ) as usize,
                ..limits
            },
            None => limits,
        }
    }

    /// A runtime that was just built to this configuration.
    pub open spec fn built(self, id: u64, runtime: RuntimeView) -> bool {
        &&& runtime.control == (ControlView {
            id,
            phase: SWRuntimeState::Running,
            active: 0,
            external: 0,
            owners: Seq::empty(),
            next_owner: 1,
            physical: self.registry(),
            wake: 0,
        })
        &&& runtime.owned is Some <==> self.owned_limits is Some
        &&& runtime.owned matches Some(owned) ==> opened(
            owned,
            self.effective_limits(),
            self.demand_priorities,
        )
        &&& runtime.capacity == (match self.capacity_limits {
            Some(limits) => Some(
                Accounts {
                    identity: id,
                    limits,
                    usage: Usage {
                        ordinary: SWCost::zero(),
                        required: SWCost::zero(),
                        pipelines: 0,
                        closed: false,
                    },
                    pipelines: Seq::empty(),
                    banks: Seq::empty(),
                    leases: Seq::empty(),
                    wake: 0,
                },
            ),
            None => None,
        })
        &&& runtime.charges == Seq::<Charge>::empty()
    }
}

pub open spec fn larger(a: int, b: int) -> int {
    if a >= b {
        a
    } else {
        b
    }
}

fn max(a: usize, b: usize) -> (larger: usize)
    ensures
        larger == self::larger(a as int, b as int),
{
    if a >= b {
        a
    } else {
        b
    }
}

/// Owned work that has admitted nothing yet.
pub open spec fn opened(owned: SchedulerView, limits: SWOwnedLimits, bands: Seq<SWPriority>) -> bool {
    &&& owned.limits == limits
    &&& owned.bands == bands
    &&& owned.records.len() == 0
    &&& owned.external.len() == 0
    &&& owned.groups.len() == 0
    &&& owned.next_id == 1
    &&& owned.next_group == 1
    &&& owned.edges == 0
    &&& !owned.abandoned
    &&& forall|c: int|
        0 <= c < 3 ==> #[trigger] owned.lanes[c] == (LaneView {
            ready: Seq::empty(),
            deferred: Seq::empty(),
            runnable: 0,
            handed_off: 0,
        })
}

/// A runtime with what its construction configured beside it.
pub struct Built<H> {
    pub runtime: SWRuntime,
    pub config: SWRuntimeConfig,
    /// Host notification, where it is enabled.
    pub notifications: Option<NotifyDomain>,
    /// How many independent consumer leases demand may hold.
    pub demand_leases: usize,
    pub setup: Option<H>,
}

impl<H> SWRuntimeBuilder<H> {
    pub fn new(config: SWRuntimeConfig) -> (builder: Self)
        ensures
            builder@ == (BuilderView::<H> {
                config,
                setup: None,
                owned_limits: None,
                capacity_limits: None,
                demand_priorities: Seq::empty(),
                demand_leases: 0,
                external_capacity: None,
                notification_limits: None,
            }),
    {
        let builder = SWRuntimeBuilder {
            config,
            setup: None,
            owned_limits: None,
            capacity_limits: None,
            demand_priorities: Vec::new(),
            demand_leases: 0,
            external_capacity: None,
            notification_limits: None,
        };
        assert(builder@.demand_priorities =~= Seq::empty());
        builder
    }

    /// Enables owned jobs with explicit host-supplied admission capacities.
    /// Without this option the runtime provides scoped execution only.
    pub fn with_owned_limits(self, limits: SWOwnedLimits) -> (builder: Self)
        ensures
            builder@ == (BuilderView { owned_limits: Some(limits), ..self@ }),
    {
        SWRuntimeBuilder { owned_limits: Some(limits), ..self }
    }

    /// Enables bounded, optional host notification without creating threads.
    pub fn with_notification_limits(self, limits: SWNotifyLimits) -> (builder: Self)
        ensures
            builder@ == (BuilderView { notification_limits: Some(limits), ..self@ }),
    {
        SWRuntimeBuilder { notification_limits: Some(limits), ..self }
    }

    /// Enables physical provider-access registration. This bounds ordinary
    /// accesses independently of CPU jobs.
    pub fn with_external_capacity(self, capacity: usize) -> (builder: Self)
        requires
            capacity > 0,
        ensures
            builder@ == (BuilderView { external_capacity: Some(capacity), ..self@ }),
    {
        SWRuntimeBuilder { external_capacity: Some(capacity), ..self }
    }

    /// Enables declared-cost admission with a protected required-work allowance.
    pub fn with_capacity_limits(self, limits: SWLimits) -> (builder: Self)
        ensures
            builder@ == (BuilderView { capacity_limits: Some(limits), ..self@ }),
    {
        SWRuntimeBuilder { capacity_limits: Some(limits), ..self }
    }

    /// Fixes resource demand bands and bounds independent consumer leases for
    /// this runtime. Ordinary CPU work retains its FIFO route.
    pub fn with_demand_limits(self, priorities: Vec<SWPriority>, max_leases: usize) -> (builder:
        Self)
        ensures
            builder@ == (BuilderView {
                demand_priorities: priorities@,
                demand_leases: max_leases,
                ..self@
            }),
    {
        SWRuntimeBuilder { demand_priorities: priorities, demand_leases: max_leases, ..self }
    }

    /// Installs a hook called once on each worker, after platform setup and
    /// before any worker enters its executor.
    pub fn with_worker_setup(self, setup: H) -> (builder: Self)
        ensures
            builder@ == (BuilderView { setup: Some(setup), ..self@ }),
    {
        SWRuntimeBuilder { setup: Some(setup), ..self }
    }

    /// The worker split that startup creates.
    pub fn config(&self) -> (config: &SWRuntimeConfig)
        ensures
            *config == self@.config,
    {
        &self.config
    }

    /// The hook that startup calls on each worker.
    pub fn take_setup(&mut self) -> (setup: Option<H>)
        ensures
            setup == old(self)@.setup,
            final(self)@ == (BuilderView { setup: None, ..old(self)@ }),
    {
        self.setup.take()
    }

    /// Why this configuration is refused before any worker is created, if it
    /// is.
    pub fn check<S>(&self) -> (error: Option<SWBuildError<S>>)
        ensures
            error == self@.error::<S>(),
    {
        if self.owned_limits.is_none() && (self.capacity_limits.is_some()
            || self.demand_priorities.len() > 0) {
            return Some(SWBuildError::OwnedWorkDisabled);
        }
        match &self.capacity_limits {
            Some(limits) => match SWLimits::new(
                limits.ordinary_target,
                limits.required_allowance,
                limits.required_pipelines,
                limits.hard_byte_ceiling,
            ) {
                Ok(_) => None,
                Err(error) => Some(SWBuildError::Capacity(error)),
            },
            None => None,
        }
    }

    fn effective(&self, limits: SWOwnedLimits) -> (effective: SWOwnedLimits)
        requires
            self@.owned_limits == Some(limits),
            self@.capacity_limits matches Some(policy) ==> policy.error() is None,
        ensures
            effective == self@.effective_limits(),
    {
        match &self.capacity_limits {
            Some(policy) => SWOwnedLimits {
                records: max(
                    limits.records,
                    policy.ordinary_target.records + policy.required_allowance.records,
                ),
                edges: max(
                    limits.edges,
                    policy.ordinary_target.edges + policy.required_allowance.edges,
                ),
                ..limits
            },
            None => limits,
        }
    }

    /// Builds the runtime once its workers have started. `startup` is the first
    /// worker error, where there was one; no partial runtime is returned then.
    pub fn build<S>(self, id: u64, startup: Result<(), SWBuildError<S>>) -> (result: Result<
        Built<H>,
        SWBuildError<S>,
    >)
        ensures
            match result {
                Ok(built) => {
                    &&& self@.error::<S>() is None
                    &&& startup is Ok
                    &&& built.runtime.wf()
                    &&& self@.built(id, built.runtime@)
                    &&& built.config == self@.config
                    &&& built.demand_leases == self@.demand_leases
                    &&& built.setup == self@.setup
                    &&& built.notifications is Some <==> self@.notification_limits is Some
                    &&& built.notifications matches Some(domain) ==> {
                        &&& domain@.wf()
                        &&& domain@ == NotifyView::fresh(id, self@.notification_limits->0)
                    }
                },
                Err(error) => {
                    if self@.error::<S>() is Some {
                        self@.error::<S>() == Some(error)
                    } else {
                        startup == Err::<(), SWBuildError<S>>(error)
                    }
                },
            },
    {
        match self.check() {
            Some(error) => {
                return Err(error);
            },
            None => {},
        }
        match startup {
            Err(error) => {
                return Err(error);
            },
            Ok(()) => {},
        }
        let required: usize = match &self.capacity_limits {
            Some(limits) => limits.required_allowance.records,
            None => 0,
        };
        let physical = PhysicalRegistry::new(self.external_capacity, required);
        let control = RuntimeControl::new(id, physical);
        let notifications = match self.notification_limits {
            Some(limits) => Some(NotifyDomain::new(id, limits)),
            None => None,
        };
        let limits = match self.owned_limits {
            Some(limits) => Some(self.effective(limits)),
            None => None,
        };
        let ghost view = self@;
        let SWRuntimeBuilder {
            config,
            setup,
            owned_limits: _,
            capacity_limits,
            demand_priorities,
            demand_leases,
            external_capacity: _,
            notification_limits: _,
        } = self;
        let owned = match limits {
            Some(limits) => Some(OwnedScheduler::new(limits, demand_priorities)),
            None => None,
        };
        let capacity = match capacity_limits {
            Some(policy) => Some(SWReservationPool::new(id, policy)),
            None => None,
        };
        let runtime = SWRuntime::new(control, owned, capacity);
        assert(runtime@.control.physical =~= view.registry());
        Ok(Built { runtime, config, notifications, demand_leases, setup })
    }
}

impl SWRuntime {
    pub fn builder<H>(config: SWRuntimeConfig) -> (builder: SWRuntimeBuilder<H>)
        ensures
            builder@ == (BuilderView::<H> {
                config,
                setup: None,
                owned_limits: None,
                capacity_limits: None,
                demand_priorities: Seq::empty(),
                demand_leases: 0,
                external_capacity: None,
                notification_limits: None,
            }),
    {
        SWRuntimeBuilder::new(config)
    }

    /// A reusable class handle. It stays valid after this runtime shuts down,
    /// and is then refused.
    pub fn lane(&self, class: SWExecutionClass) -> (lane: SWLane)
        ensures
            lane.of() == self@.control.id,
            lane.selects() == class,
    {
        SWLane::new(self.identity(), class)
    }

    /// Binds a reusable host signal destination in the runtime's notification
    /// domain, where it has one. Rejection returns the uninvoked signal.
    pub fn notification_route<F>(domain: Option<&mut NotifyDomain>, invoking: bool, signal: F) -> (
    result: Result<(SWNotifyRoute, F), SWNotifyRejected<F>>)
        requires
            domain matches Some(domain) ==> domain@.wf(),
        ensures
            match domain {
                Some(domain) => {
                    &&& final(domain)@.wf()
                    &&& match result {
                        Ok((route, kept)) => {
                            &&& domain@.create_error(invoking) is None
                            &&& final(domain)@ == domain@.created()
                            &&& route.held_in(final(domain)@)
                            &&& kept == signal
                        },
                        Err(rejected) => {
                            &&& domain@.create_error(invoking) == Some(rejected.reason)
                            &&& final(domain)@ == domain@
                            &&& rejected.signal == signal
                        },
                    }
                },
                None => {
                    &&& result is Err
                    &&& result->Err_0.reason == SWNotifyError::Disabled
                    &&& result->Err_0.signal == signal
                },
            },
    {
        match domain {
            Some(domain) => match domain.create_route(invoking) {
                Ok(route) => Ok((route, signal)),
                Err(reason) => Err(SWNotifyRejected { reason, signal }),
            },
            None => Err(SWNotifyRejected { reason: SWNotifyError::Disabled, signal }),
        }
    }
}

/// The worker that is created after `n` others: each class in order, and each
/// class's workers by their local index.
pub open spec fn worker_at(config: SWRuntimeConfig, n: int) -> (SWExecutionClass, int) {
    let low = config.classes()[0].count() as int;
    let mid = config.classes()[1].count() as int;
    if n < low {
        (SWExecutionClass::Low, n)
    } else if n < low + mid {
        (SWExecutionClass::Mid, n - low)
    } else {
        (SWExecutionClass::High, n - low - mid)
    }
}

/// What construction does next.
#[derive(Clone, Copy, Debug, PartialEq, Eq, Structural)]
pub enum LaunchStep {
    /// Create this worker.
    Launch { class: SWExecutionClass, worker: usize },
    /// Every worker is created: wait until this many are ready.
    Await(usize),
    /// Some worker failed: roll back.
    Abort,
}

/// Creation of a runtime's workers, one by one.
pub struct Launcher {
    config: SWRuntimeConfig,
    class: usize,
    worker: usize,
}

impl Launcher {
    pub closed spec fn plan(self) -> SWRuntimeConfig {
        self.config
    }

    /// Workers created so far.
    pub closed spec fn launched(self) -> int {
        let low = self.config.classes()[0].count() as int;
        let mid = self.config.classes()[1].count() as int;
        let high = self.config.classes()[2].count() as int;
        if self.class == 0 {
            self.worker as int
        } else if self.class == 1 {
            low + self.worker
        } else if self.class == 2 {
            low + mid + self.worker
        } else {
            low + mid + high
        }
    }

    pub closed spec fn placed(self) -> bool {
        &&& self.class <= 3
        &&& self.class < 3 ==> self.worker < self.config.classes()[self.class as int].count()
        &&& self.class == 3 ==> self.worker == 0
    }

    pub open spec fn wf(self) -> bool {
        self.plan().valid() && self.placed()
    }

    pub fn new(config: SWRuntimeConfig) -> (launcher: Self)
        requires
            config.valid(),
        ensures
            launcher.wf(),
            launcher.plan() == config,
            launcher.launched() == 0,
    {
        Launcher { config, class: 0, worker: 0 }
    }

    /// The next worker to create, unless startup was aborted.
    pub fn next<E>(&mut self, startup: &Startup<E>) -> (step: LaunchStep)
        requires
            old(self).wf(),
        ensures
            final(self).wf(),
            final(self).plan() == old(self).plan(),
            ({
                let expected = configured_workers(old(self).plan().classes());
                let next = worker_at(old(self).plan(), old(self).launched());
                if old(self).launched() == expected {
                    &&& step == LaunchStep::Await(expected as usize)
                    &&& expected <= usize::MAX
                    &&& final(self).launched() == expected
                } else if startup@.phase == StartupPhase::Aborted {
                    &&& step == LaunchStep::Abort
                    &&& final(self).launched() == old(self).launched()
                } else {
                    &&& step == (LaunchStep::Launch { class: next.0, worker: next.1 as usize })
                    &&& 0 <= next.1 <= usize::MAX
                    &&& old(self).launched() < expected
                    &&& final(self).launched() == old(self).launched() + 1
                }
            }),
    {
        if self.class == 3 {
            return LaunchStep::Await(self.config.expected_workers());
        }
        if startup.is_aborted() {
            return LaunchStep::Abort;
        }
        let class = match self.class {
            0 => SWExecutionClass::Low,
            1 => SWExecutionClass::Mid,
            _ => SWExecutionClass::High,
        };
        let worker: usize = self.worker;
        let count: usize = self.config.workers_for(class).worker_count();
        if worker + 1 < count {
            self.worker = worker + 1;
        } else {
            self.class = self.class + 1;
            self.worker = 0;
        }
        LaunchStep::Launch { class, worker }
    }

    /// A worker could not be created: the barrier opens for rollback before the
    /// workers that exist are joined.
    pub fn spawn_failed<S>(
        startup: &mut Startup<SWBuildError<S>>,
        class: SWExecutionClass,
        worker: usize,
        source: S,
    ) -> (loser: Option<SWBuildError<S>>)
        ensures
            final(startup)@ == old(startup)@.failed(SWBuildError::Spawn { class, worker, source }),
            loser == (if old(startup)@.error is None {
                None
            } else {
                Some(SWBuildError::Spawn { class, worker, source })
            }),
    {
        startup.fail(SWBuildError::Spawn { class, worker, source })
    }
}

/// Construction creates every configured worker exactly once: each worker of
/// each class has one turn, and there are as many turns as workers.
pub proof fn every_worker_is_launched(config: SWRuntimeConfig, class: SWExecutionClass, worker: int)
    requires
        config.valid(),
        0 <= worker < config.classes()[class.slot()].count(),
    ensures
        exists|n: int|
            0 <= n < configured_workers(config.classes()) && #[trigger] worker_at(config, n) == (
                class,
                worker,
            ),
        forall|n: int, m: int|
            0 <= n < configured_workers(config.classes()) && 0 <= m < configured_workers(
                config.classes(),
            ) && #[trigger] worker_at(config, n) == #[trigger] worker_at(config, m) ==> n == m,
{
    let low = config.classes()[0].count() as int;
    let mid = config.classes()[1].count() as int;
    let n = match class {
        SWExecutionClass::Low => worker,
        SWExecutionClass::Mid => low + worker,
        SWExecutionClass::High => low + mid + worker,
    };
    assert(worker_at(config, n) == (class, worker));
}

} // verus!
