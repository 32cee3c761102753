//! Runtime-associated lanes: owned admission, stages, deliveries, and reusable
//! waves.
//!
//! Operations are values here. An accepted job hands its operation back with
//! the record that will claim it; a refused one hands it back untouched.
use crate::admission::SWDependencyPolicy;
use crate::admission::SWSpawnError;
use crate::admission::SWSpawnOptions;
use crate::admission::SWSpawnRejected;
use crate::admission::SWCallerEligibility;
use crate::config::SWExecutionClass;
use crate::context::Context;
use crate::context::SWExecutionError;
use crate::cost::SWCost;
use crate::delivery::TransportView;
use crate::group::GroupInner;
use crate::group::WaveStep;
use crate::group::GroupKey;
use crate::group::HelpStep;
use crate::jobs::group_at;
use crate::jobs::group_found;
use crate::jobs::group_present;
use crate::jobs::group_slot;
use crate::owner::claim_on;
use crate::owner::OwnerView;
use crate::owner::SWDeliveryTicket;
use crate::owner::SWOwner;
use crate::producer::SWProducerControl;
use crate::queue::Selection;
use crate::reservation::SWReservation;
use crate::runtime::committed;
use crate::runtime::declared_need;
use crate::runtime::plain_need;
use crate::runtime::routed;
use crate::runtime::OwnedAccepted;
use crate::runtime::RuntimeView;
use crate::runtime::SWRuntime;
use crate::runtime::WorkLease;
use crate::scheduler::Claim;
use crate::steps::helpable;
use crate::steps::oldest_helpable;
use crate::steps::SubmitRequest;
use crate::supply::reservation_known;
use crate::task::ProducerIdentity;
use crate::task::SWOutcome;
use crate::task::SWRetained;
use crate::task::SWCompletion;
use crate::task::SWTask;
use crate::task::SWTaskStatus;
use crate::task::SignalStep;
use crate::task::SignalView;
use crate::task::Subscription;
use crate::task::TaskView;
use vstd::prelude::*;

verus! {

/// A reusable handle selecting one runtime's dedicated worker class.
#[derive(Clone, Copy, Debug, PartialEq, Eq, Structural)]
pub struct SWLane {
    runtime: u64,
    class: SWExecutionClass,
}

/// How a submission is routed within its lane.
#[derive(Clone, Copy, Debug, PartialEq, Eq, Structural)]
pub struct OwnedRoute {
    pub options: SWSpawnOptions,
    pub group: Option<GroupKey>,
    pub prerequisites: usize,
    pub policy: SWDependencyPolicy,
    pub allow_inline: bool,
}

impl OwnedRoute {
    pub open spec fn plain(options: SWSpawnOptions) -> OwnedRoute {
        OwnedRoute {
            options,
            group: None,
            prerequisites: 0,
            policy: SWDependencyPolicy::SuccessOnly,
            allow_inline: false,
        }
    }

    pub fn new(options: SWSpawnOptions) -> (route: Self)
        ensures
            route == OwnedRoute::plain(options),
    {
        OwnedRoute {
            options,
            group: None,
            prerequisites: 0,
            policy: SWDependencyPolicy::SuccessOnly,
            allow_inline: false,
        }
    }
}

/// An accepted job: its record, its operation, how its returned value counts,
/// its result cell, and the authority to cancel it.
pub struct OwnedJob<F, T> {
    pub accepted: OwnedAccepted,
    pub operation: F,
    /// A returned error counts as application failure.
    pub fallible: bool,
    pub task: SWTask<T>,
    pub control: SWProducerControl,
}

/// The completion of a job that was just accepted: its producer is known, and
/// its promised delivery waits for it.
pub open spec fn job_signal(runtime: u64, record: u64, delivery: Option<u64>) -> SignalView {
    let signal = SignalView {
        producer: Some(ProducerIdentity { runtime, record }),
        ..SignalView::fresh()
    };
    match delivery {
        Some(token) => SignalView {
            subscribers: Seq::<Subscription>::empty().push(Subscription { id: 1, token }),
            next_subscriber: 2,
            ..signal
        },
        None => signal,
    }
}

/// What acceptance makes of a job beside its record.
pub open spec fn job_made<F, T>(
    runtime: u64,
    job: OwnedJob<F, T>,
    operation: F,
    fallible: bool,
    delivery: Option<u64>,
) -> bool {
    &&& job.operation == operation
    &&& job.fallible == fallible
    &&& job.control.target() == job.accepted.id
    &&& job.task@.wf()
    &&& job.task@ == (TaskView::<T> {
        outcome: None,
        signal: job_signal(runtime, job.accepted.id, delivery),
    })
}

/// The pending result of an admitted record, with its promised delivery
/// attached.
pub(crate) fn open_task<T>(runtime: u64, record: u64, delivery: Option<u64>) -> (task: SWTask<T>)
    ensures
        task@.wf(),
        task@ == (TaskView::<T> { outcome: None, signal: job_signal(runtime, record, delivery) }),
{
    let mut task = SWTask::<T>::pending();
    task.set_producer(ProducerIdentity { runtime, record });
    if let Some(token) = delivery {
        let _ = task.subscribe(token);
    }
    assert(task@.signal =~= job_signal(runtime, record, delivery));
    task
}

fn open_job<F, T>(
    runtime: u64,
    accepted: OwnedAccepted,
    operation: F,
    fallible: bool,
    delivery: Option<u64>,
) -> (job: OwnedJob<F, T>)
    ensures
        job.accepted == accepted,
        job_made(runtime, job, operation, fallible, delivery),
{
    let task = open_task(runtime, accepted.id, delivery);
    let control = SWProducerControl::new(accepted.id);
    OwnedJob { accepted, operation, fallible, task, control }
}

/// What a submission without declared cost does: all of it, or nothing.
pub open spec fn submitted<F, T>(
    before: RuntimeView,
    after: RuntimeView,
    request: SubmitRequest,
    lease: WorkLease,
    operation: F,
    fallible: bool,
    result: Result<OwnedJob<F, T>, SWSpawnRejected<F>>,
) -> bool {
    match result {
        Ok(job) => {
            &&& before.submit_error(request, lease) is None
            &&& committed(
                before,
                after,
                routed(request, before.control.id, false),
                None,
                plain_need(request),
                job.accepted,
            )
            &&& job_made(before.control.id, job, operation, fallible, None)
        },
        Err(rejected) => {
            &&& before.submit_error(request, lease) == Some(rejected.reason)
            &&& after == before.after_refused_submit(request, lease)
            &&& rejected.operation == operation
            &&& rejected.options == request.options
        },
    }
}

/// The runtime can name one more record and count one more lease.
pub open spec fn can_count(runtime: RuntimeView) -> bool {
    &&& runtime.owned matches Some(owned) ==> owned.next_id < u64::MAX
    &&& runtime.control.active < usize::MAX
}

impl SWRuntime {
    /// Whether one more record can be named and one more lease counted.
    pub fn has_room(&self) -> (room: bool)
        requires
            self.wf(),
        ensures
            room == can_count(self@),
    {
        self.names_records() && self.counts_leases()
    }
}

impl SWLane {
    pub closed spec fn of(self) -> u64 {
        self.runtime
    }

    pub closed spec fn selects(self) -> SWExecutionClass {
        self.class
    }

    pub fn new(runtime: u64, class: SWExecutionClass) -> (lane: Self)
        ensures
            lane.of() == runtime,
            lane.selects() == class,
    {
        SWLane { runtime, class }
    }

    pub fn class(&self) -> (class: SWExecutionClass)
        ensures
            class == self.selects(),
    {
        self.class
    }

    /// The request that a route makes of admission.
    pub open spec fn request(self, route: OwnedRoute, context: Option<Context>) -> SubmitRequest {
        SubmitRequest {
            runtime: self.of(),
            class: self.selects(),
            group: route.group,
            options: route.options,
            prerequisites: route.prerequisites,
            policy: route.policy,
            allow_inline: route.allow_inline,
            context,
            demand: None,
            reserved: false,
            delivery: None,
        }
    }

    fn make_request(&self, route: OwnedRoute, context: Option<Context>) -> (request: SubmitRequest)
        ensures
            request == self.request(route, context),
    {
        SubmitRequest {
            runtime: self.runtime,
            class: self.class,
            group: route.group,
            options: route.options,
            prerequisites: route.prerequisites,
            policy: route.policy,
            allow_inline: route.allow_inline,
            context,
            demand: None,
            reserved: false,
            delivery: None,
        }
    }

    /// Admits a job on a route. `lease` is what a work set answered, where the
    /// job belongs to one.
    pub fn submit_owned<F, T>(
        &self,
        runtime: &mut SWRuntime,
        context: Option<Context>,
        route: OwnedRoute,
        lease: WorkLease,
        operation: F,
        fallible: bool,
    ) -> (result: Result<OwnedJob<F, T>, SWSpawnRejected<F>>)
        requires
            old(runtime).wf(),
            can_count(old(runtime)@),
        ensures
            final(runtime).wf(),
            submitted(
                old(runtime)@,
                final(runtime)@,
                self.request(route, context),
                lease,
                operation,
                fallible,
                result,
            ),
    {
        let request = self.make_request(route, context);
        let identity: u64 = runtime.identity();
        match runtime.submit(&request, lease) {
            Ok(accepted) => Ok(open_job(identity, accepted, operation, fallible, None)),
            Err(reason) => Err(SWSpawnRejected { reason, operation, options: route.options }),
        }
    }

    /// Admits a job without waiting for capacity or executing it on this caller.
    /// Any returned value, including `Result::Err`, counts as success.
    /// Rejection returns the uninvoked operation.
    pub fn try_spawn<F, T>(
        &self,
        runtime: &mut SWRuntime,
        context: Option<Context>,
        options: SWSpawnOptions,
        operation: F,
    ) -> (result: Result<OwnedJob<F, T>, SWSpawnRejected<F>>)
        requires
            old(runtime).wf(),
            can_count(old(runtime)@),
        ensures
            final(runtime).wf(),
            submitted(
                old(runtime)@,
                final(runtime)@,
                self.request(OwnedRoute::plain(options), context),
                WorkLease::Unset,
                operation,
                false,
                result,
            ),
    {
        let route = OwnedRoute::new(options);
        self.submit_owned(
            runtime,
            context,
            route,
            WorkLease::Unset,
            operation,
            false,
        )
    }

    /// Admits a job without waiting for capacity or executing it on this caller.
    /// Membership is admitted to an open group from this lane.
    /// Any returned value, including `Result::Err`, counts as success.
    /// Rejection returns the uninvoked operation.
    pub fn try_spawn_in<F, T>(
        &self,
        runtime: &mut SWRuntime,
        context: Option<Context>,
        group: &SWGroup,
        options: SWSpawnOptions,
        operation: F,
    ) -> (result: Result<OwnedJob<F, T>, SWSpawnRejected<F>>)
        requires
            old(runtime).wf(),
            can_count(old(runtime)@),
        ensures
            final(runtime).wf(),
            submitted(
                old(runtime)@,
                final(runtime)@,
                self.request(OwnedRoute { group: Some(group.key_of()), ..OwnedRoute::plain(options) }, context),
                WorkLease::Unset,
                operation,
                false,
                result,
            ),
    {
        let route = OwnedRoute { group: Some(group.key()), ..OwnedRoute::new(options) };
        self.submit_owned(
            runtime,
            context,
            route,
            WorkLease::Unset,
            operation,
            false,
        )
    }

    /// Admits a job without waiting for capacity or executing it on this caller.
    /// A returned `Err` marks application failure for success-only dependents.
    /// Rejection returns the uninvoked operation.
    pub fn try_spawn_fallible<F, T>(
        &self,
        runtime: &mut SWRuntime,
        context: Option<Context>,
        options: SWSpawnOptions,
        operation: F,
    ) -> (result: Result<OwnedJob<F, T>, SWSpawnRejected<F>>)
        requires
            old(runtime).wf(),
            can_count(old(runtime)@),
        ensures
            final(runtime).wf(),
            submitted(
                old(runtime)@,
                final(runtime)@,
                self.request(OwnedRoute::plain(options), context),
                WorkLease::Unset,
                operation,
                true,
                result,
            ),
    {
        let route = OwnedRoute::new(options);
        self.submit_owned(
            runtime,
            context,
            route,
            WorkLease::Unset,
            operation,
            true,
        )
    }

    /// Admits a job without waiting for capacity or executing it on this caller.
    /// Membership is admitted to an open group from this lane.
    /// A returned `Err` marks application failure for success-only dependents.
    /// Rejection returns the uninvoked operation.
    pub fn try_spawn_fallible_in<F, T>(
        &self,
        runtime: &mut SWRuntime,
        context: Option<Context>,
        group: &SWGroup,
        options: SWSpawnOptions,
        operation: F,
    ) -> (result: Result<OwnedJob<F, T>, SWSpawnRejected<F>>)
        requires
            old(runtime).wf(),
            can_count(old(runtime)@),
        ensures
            final(runtime).wf(),
            submitted(
                old(runtime)@,
                final(runtime)@,
                self.request(OwnedRoute { group: Some(group.key_of()), ..OwnedRoute::plain(options) }, context),
                WorkLease::Unset,
                operation,
                true,
                result,
            ),
    {
        let route = OwnedRoute { group: Some(group.key()), ..OwnedRoute::new(options) };
        self.submit_owned(
            runtime,
            context,
            route,
            WorkLease::Unset,
            operation,
            true,
        )
    }

    /// May execute caller-eligible work synchronously on runnable saturation.
    /// Record and edge limits still apply. Handoff pressure alone never runs it
    /// inline.
    /// Any returned value, including `Result::Err`, counts as success.
    /// Rejection returns the uninvoked operation.
    pub fn submit_or_run<F, T>(
        &self,
        runtime: &mut SWRuntime,
        context: Option<Context>,
        options: SWSpawnOptions,
        operation: F,
    ) -> (result: Result<OwnedJob<F, T>, SWSpawnRejected<F>>)
        requires
            old(runtime).wf(),
            can_count(old(runtime)@),
        ensures
            final(runtime).wf(),
            submitted(
                old(runtime)@,
                final(runtime)@,
                self.request(OwnedRoute { allow_inline: true, ..OwnedRoute::plain(options) }, context),
                WorkLease::Unset,
                operation,
                false,
                result,
            ),
    {
        let route = OwnedRoute { allow_inline: true, ..OwnedRoute::new(options) };
        self.submit_owned(
            runtime,
            context,
            route,
            WorkLease::Unset,
            operation,
            false,
        )
    }

    /// May execute caller-eligible work synchronously on runnable saturation.
    /// Record and edge limits still apply. Handoff pressure alone never runs it
    /// inline.
    /// Membership is admitted to an open group from this lane.
    /// Any returned value, including `Result::Err`, counts as success.
    /// Rejection returns the uninvoked operation.
    pub fn submit_or_run_in<F, T>(
        &self,
        runtime: &mut SWRuntime,
        context: Option<Context>,
        group: &SWGroup,
        options: SWSpawnOptions,
        operation: F,
    ) -> (result: Result<OwnedJob<F, T>, SWSpawnRejected<F>>)
        requires
            old(runtime).wf(),
            can_count(old(runtime)@),
        ensures
            final(runtime).wf(),
            submitted(
                old(runtime)@,
                final(runtime)@,
                self.request(OwnedRoute { group: Some(group.key_of()), allow_inline: true, ..OwnedRoute::plain(options) }, context),
                WorkLease::Unset,
                operation,
                false,
                result,
            ),
    {
        let route = OwnedRoute { group: Some(group.key()), allow_inline: true, ..OwnedRoute::new(options) };
        self.submit_owned(
            runtime,
            context,
            route,
            WorkLease::Unset,
            operation,
            false,
        )
    }

    /// May execute caller-eligible work synchronously on runnable saturation.
    /// Record and edge limits still apply. Handoff pressure alone never runs it
    /// inline.
    /// A returned `Err` marks application failure for success-only dependents.
    /// Rejection returns the uninvoked operation.
    pub fn submit_or_run_fallible<F, T>(
        &self,
        runtime: &mut SWRuntime,
        context: Option<Context>,
        options: SWSpawnOptions,
        operation: F,
    ) -> (result: Result<OwnedJob<F, T>, SWSpawnRejected<F>>)
        requires
            old(runtime).wf(),
            can_count(old(runtime)@),
        ensures
            final(runtime).wf(),
            submitted(
                old(runtime)@,
                final(runtime)@,
                self.request(OwnedRoute { allow_inline: true, ..OwnedRoute::plain(options) }, context),
                WorkLease::Unset,
                operation,
                true,
                result,
            ),
    {
        let route = OwnedRoute { allow_inline: true, ..OwnedRoute::new(options) };
        self.submit_owned(
            runtime,
            context,
            route,
            WorkLease::Unset,
            operation,
            true,
        )
    }

    /// May execute caller-eligible work synchronously on runnable saturation.
    /// Record and edge limits still apply. Handoff pressure alone never runs it
    /// inline.
    /// Membership is admitted to an open group from this lane.
    /// A returned `Err` marks application failure for success-only dependents.
    /// Rejection returns the uninvoked operation.
    pub fn submit_or_run_fallible_in<F, T>(
        &self,
        runtime: &mut SWRuntime,
        context: Option<Context>,
        group: &SWGroup,
        options: SWSpawnOptions,
        operation: F,
    ) -> (result: Result<OwnedJob<F, T>, SWSpawnRejected<F>>)
        requires
            old(runtime).wf(),
            can_count(old(runtime)@),
        ensures
            final(runtime).wf(),
            submitted(
                old(runtime)@,
                final(runtime)@,
                self.request(OwnedRoute { group: Some(group.key_of()), allow_inline: true, ..OwnedRoute::plain(options) }, context),
                WorkLease::Unset,
                operation,
                true,
                result,
            ),
    {
        let route = OwnedRoute { group: Some(group.key()), allow_inline: true, ..OwnedRoute::new(options) };
        self.submit_owned(
            runtime,
            context,
            route,
            WorkLease::Unset,
            operation,
            true,
        )
    }

    /// Admits a successor without occupying a worker while prerequisites wait.
    /// Any returned value, including `Result::Err`, counts as success.
    /// Rejection returns the uninvoked operation.
    pub fn try_spawn_after<F, T>(
        &self,
        runtime: &mut SWRuntime,
        context: Option<Context>,
        options: SWSpawnOptions,
        prerequisites: usize,
        policy: SWDependencyPolicy,
        operation: F,
    ) -> (result: Result<OwnedJob<F, T>, SWSpawnRejected<F>>)
        requires
            old(runtime).wf(),
            can_count(old(runtime)@),
        ensures
            final(runtime).wf(),
            submitted(
                old(runtime)@,
                final(runtime)@,
                self.request(OwnedRoute { prerequisites, policy, ..OwnedRoute::plain(options) }, context),
                WorkLease::Unset,
                operation,
                false,
                result,
            ),
    {
        let route = OwnedRoute { prerequisites, policy, ..OwnedRoute::new(options) };
        self.submit_owned(
            runtime,
            context,
            route,
            WorkLease::Unset,
            operation,
            false,
        )
    }

    /// Admits a successor without occupying a worker while prerequisites wait.
    /// Membership is admitted to an open group from this lane.
    /// Any returned value, including `Result::Err`, counts as success.
    /// Rejection returns the uninvoked operation.
    pub fn try_spawn_after_in<F, T>(
        &self,
        runtime: &mut SWRuntime,
        context: Option<Context>,
        group: &SWGroup,
        options: SWSpawnOptions,
        prerequisites: usize,
        policy: SWDependencyPolicy,
        operation: F,
    ) -> (result: Result<OwnedJob<F, T>, SWSpawnRejected<F>>)
        requires
            old(runtime).wf(),
            can_count(old(runtime)@),
        ensures
            final(runtime).wf(),
            submitted(
                old(runtime)@,
                final(runtime)@,
                self.request(OwnedRoute { group: Some(group.key_of()), prerequisites, policy, ..OwnedRoute::plain(options) }, context),
                WorkLease::Unset,
                operation,
                false,
                result,
            ),
    {
        let route = OwnedRoute { group: Some(group.key()), prerequisites, policy, ..OwnedRoute::new(options) };
        self.submit_owned(
            runtime,
            context,
            route,
            WorkLease::Unset,
            operation,
            false,
        )
    }

    /// Admits a successor without occupying a worker while prerequisites wait.
    /// A returned `Err` marks application failure for success-only dependents.
    /// Rejection returns the uninvoked operation.
    pub fn try_spawn_after_fallible<F, T>(
        &self,
        runtime: &mut SWRuntime,
        context: Option<Context>,
        options: SWSpawnOptions,
        prerequisites: usize,
        policy: SWDependencyPolicy,
        operation: F,
    ) -> (result: Result<OwnedJob<F, T>, SWSpawnRejected<F>>)
        requires
            old(runtime).wf(),
            can_count(old(runtime)@),
        ensures
            final(runtime).wf(),
            submitted(
                old(runtime)@,
                final(runtime)@,
                self.request(OwnedRoute { prerequisites, policy, ..OwnedRoute::plain(options) }, context),
                WorkLease::Unset,
                operation,
                true,
                result,
            ),
    {
        let route = OwnedRoute { prerequisites, policy, ..OwnedRoute::new(options) };
        self.submit_owned(
            runtime,
            context,
            route,
            WorkLease::Unset,
            operation,
            true,
        )
    }

    /// Admits a successor without occupying a worker while prerequisites wait.
    /// Membership is admitted to an open group from this lane.
    /// A returned `Err` marks application failure for success-only dependents.
    /// Rejection returns the uninvoked operation.
    pub fn try_spawn_after_fallible_in<F, T>(
        &self,
        runtime: &mut SWRuntime,
        context: Option<Context>,
        group: &SWGroup,
        options: SWSpawnOptions,
        prerequisites: usize,
        policy: SWDependencyPolicy,
        operation: F,
    ) -> (result: Result<OwnedJob<F, T>, SWSpawnRejected<F>>)
        requires
            old(runtime).wf(),
            can_count(old(runtime)@),
        ensures
            final(runtime).wf(),
            submitted(
                old(runtime)@,
                final(runtime)@,
                self.request(OwnedRoute { group: Some(group.key_of()), prerequisites, policy, ..OwnedRoute::plain(options) }, context),
                WorkLease::Unset,
                operation,
                true,
                result,
            ),
    {
        let route = OwnedRoute { group: Some(group.key()), prerequisites, policy, ..OwnedRoute::new(options) };
        self.submit_owned(
            runtime,
            context,
            route,
            WorkLease::Unset,
            operation,
            true,
        )
    }
}

/// A retained wave of owned jobs in one execution class. Each handle is counted
/// by its wave.
#[derive(Debug, PartialEq, Eq, Structural)]
pub struct SWGroup {
    id: u64,
    class: SWExecutionClass,
    runtime: u64,
}

impl SWGroup {
    pub closed spec fn key_of(self) -> GroupKey {
        GroupKey { id: self.id, class: self.class, runtime: self.runtime }
    }

    /// The wave of this handle is there.
    pub open spec fn held_in(self, runtime: RuntimeView) -> bool {
        &&& self.key_of().runtime == runtime.control.id
        &&& runtime.has_group(self.key_of().id)
        &&& runtime.get_group(self.key_of().id).class == self.key_of().class
        &&& runtime.get_group(self.key_of().id).public_handles > 0
    }

    fn new(id: u64, class: SWExecutionClass, runtime: u64) -> (group: Self)
        ensures
            group.key_of() == (GroupKey { id, class, runtime }),
    {
        SWGroup { id, class, runtime }
    }

    pub fn key(&self) -> (key: GroupKey)
        ensures
            key == self.key_of(),
    {
        GroupKey { id: self.id, class: self.class, runtime: self.runtime }
    }

    pub fn class(&self) -> (class: SWExecutionClass)
        ensures
            class == self.key_of().class,
    {
        self.class
    }

    /// Another counted handle of the same wave, unless the count is exhausted.
    pub fn share(&self, runtime: &mut SWRuntime) -> (shared: Option<SWGroup>)
        requires
            old(runtime).wf(),
            self.held_in(old(runtime)@),
        ensures
            final(runtime).wf(),
            match shared {
                Some(shared) => {
                    let group = old(runtime)@.get_group(self.key_of().id);
                    &&& shared.key_of() == self.key_of()
                    &&& group.public_handles < usize::MAX
                    &&& final(runtime)@ == old(runtime)@.with_owned(
                        old(runtime)@.owned->0.with_group(
                            group_slot(old(runtime)@.owned->0.groups, self.key_of().id),
                            GroupInner {
                                public_handles: (group.public_handles + 1) as usize,
                                ..group
                            },
                        ),
                    )
                },
                None => {
                    &&& old(runtime)@.get_group(self.key_of().id).public_handles == usize::MAX
                    &&& final(runtime)@ == old(runtime)@
                },
            },
    {
        if runtime.retain_group(self.id) {
            Some(SWGroup { id: self.id, class: self.class, runtime: self.runtime })
        } else {
            None
        }
    }

    /// Ends a handle. Reports whether a sealed wave lost its last one, so that
    /// its storage can be reused.
    pub fn release(self, runtime: &mut SWRuntime) -> (retired: bool)
        requires
            old(runtime).wf(),
            self.held_in(old(runtime)@),
        ensures
            final(runtime).wf(),
            ({
                let group = old(runtime)@.get_group(self.key_of().id);
                retired == (group.public_handles == 1 && group.sealed)
            }),
            final(runtime)@ == old(runtime)@.with_owned(
                old(runtime)@.owned->0.group_released(
                    group_slot(old(runtime)@.owned->0.groups, self.key_of().id),
                ),
            ),
    {
        runtime.release_group(self.id)
    }

    /// Closes membership. Completion follows every member's capture cleanup.
    /// Hands back the status to publish where nobody is left in the wave.
    pub fn seal(&self, runtime: &mut SWRuntime) -> (terminal: Option<SWTaskStatus>)
        requires
            old(runtime).wf(),
            self.held_in(old(runtime)@),
        ensures
            final(runtime).wf(),
            ({
                let sealed = old(runtime)@.get_group(self.key_of().id).closed_membership();
                &&& terminal == sealed.terminal_status()
                &&& final(runtime)@ == old(runtime)@.with_owned(
                    old(runtime)@.owned->0.with_group(
                        group_slot(old(runtime)@.owned->0.groups, self.key_of().id),
                        sealed.handed_out(),
                    ),
                )
            }),
    {
        runtime.seal_group(self.id)
    }

    /// Observes the sealed wave's all-settled boundary as a prerequisite. The
    /// token may be attached before sealing, but membership must eventually be
    /// sealed. Success means that every accepted member succeeded, or that there
    /// was none; otherwise the status is `PrerequisiteFailed`. This token does
    /// not propagate resource demand to members.
    pub fn completion<'a>(&self, wave: &'a mut WaveCell) -> (token: &'a mut SWCompletion)
        requires
            old(wave).key_of() == self.key_of(),
        ensures
            token@ == old(wave).signal(),
            final(wave).signal() == final(token)@,
            final(wave).key_of() == old(wave).key_of(),
    {
        wave.completion()
    }

    /// The published status of the wave.
    pub fn status(&self, runtime: &SWRuntime) -> (status: Option<SWTaskStatus>)
        requires
            runtime.wf(),
            self.held_in(runtime@),
        ensures
            status == runtime@.get_group(self.key_of().id).status,
    {
        match runtime.group_state(self.id) {
            Some(group) => group.status,
            None => None,
        }
    }

    pub fn is_complete(&self, runtime: &SWRuntime) -> (complete: bool)
        requires
            runtime.wf(),
            self.held_in(runtime@),
        ensures
            complete == (runtime@.get_group(self.key_of().id).status is Some),
    {
        self.status(runtime).is_some()
    }

    /// Claims one ready member of this group when the caller is eligible.
    /// `invoking` says that the caller is inside a host signal.
    pub fn help_ready(
        &self,
        runtime: &mut SWRuntime,
        context: Option<Context>,
        invoking: bool,
        backend: bool,
    ) -> (result: Result<Option<(u64, Claim)>, SWExecutionError>)
        requires
            old(runtime).wf(),
            self.held_in(old(runtime)@),
            old(runtime)@.control.active < usize::MAX,
        ensures
            final(runtime).wf(),
            ({
                let key = self.key_of();
                let error = old(runtime)@.get_group(key.id).help_error(
                    key.runtime,
                    context,
                    invoking,
                );
                match result {
                    Err(reason) => error == Some(reason) && final(runtime)@ == old(runtime)@,
                    Ok(helped) => error is None && group_helped(
                        old(runtime)@,
                        final(runtime)@,
                        key.id,
                        backend,
                        helped,
                    ),
                }
            }),
    {
        if let Some(group) = runtime.group_state(self.id) {
            match group.check_context(self.runtime, context, invoking) {
                Err(error) => {
                    return Err(error);
                },
                Ok(()) => {},
            }
        }
        Ok(runtime.help_group(self.id, backend))
    }

    /// One turn of a wait that helps: the wave is complete, or a member of it
    /// was claimed for this caller, or the caller parks until the wave's
    /// generation moves on. Waiting on the group of the current invocation is
    /// refused.
    pub fn wait_helping(
        &self,
        runtime: &mut SWRuntime,
        context: Option<Context>,
        invoking: bool,
        backend: bool,
    ) -> (result: Result<GroupTurn, SWExecutionError>)
        requires
            old(runtime).wf(),
            self.held_in(old(runtime)@),
            old(runtime)@.control.active < usize::MAX,
        ensures
            final(runtime).wf(),
            ({
                let key = self.key_of();
                let group = old(runtime)@.get_group(key.id);
                let own = context matches Some(current) && current.runtime == key.runtime
                    && current.group == Some(key.id);
                match result {
                    Err(reason) => {
                        &&& reason == SWExecutionError::InvalidContext
                        &&& group.help_error(key.runtime, context, invoking) is Some || own
                        &&& final(runtime)@ == old(runtime)@
                    },
                    Ok(turn) => {
                        &&& group.help_error(key.runtime, context, invoking) is None && !own
                        &&& match turn {
                            GroupTurn::Complete => {
                                group.status is Some && final(runtime)@ == old(runtime)@
                            },
                            GroupTurn::Run(id, claim) => {
                                group.status is None && group_helped(
                                    old(runtime)@,
                                    final(runtime)@,
                                    key.id,
                                    backend,
                                    Some((id, claim)),
                                )
                            },
                            GroupTurn::Park(generation) => {
                                &&& group.status is None
                                &&& generation == group.generation
                                &&& group_helped(
                                    old(runtime)@,
                                    final(runtime)@,
                                    key.id,
                                    backend,
                                    None,
                                )
                            },
                        }
                    },
                }
            }),
    {
        let group = match runtime.group_state(self.id) {
            Some(group) => group,
            None => {
                return Ok(GroupTurn::Complete);
            },
        };
        proof {
            let owned = runtime@.owned->0;
            assert(group_at(owned.groups, group_slot(owned.groups, self.id), self.id));
        }
        match group.wait_helping(self.runtime, context, invoking) {
            Err(error) => Err(error),
            Ok(HelpStep::Complete) => Ok(GroupTurn::Complete),
            Ok(HelpStep::Help(generation)) => match runtime.help_group(self.id, backend) {
                Some((id, claim)) => Ok(GroupTurn::Run(id, claim)),
                None => Ok(GroupTurn::Park(generation)),
            },
        }
    }
}

/// The completion of one wave. It belongs to whoever observes the wave, and keeps
/// its terminal status when the wave's storage serves another.
pub struct WaveCell {
    key: GroupKey,
    completion: SWCompletion,
}

impl WaveCell {
    pub closed spec fn key_of(self) -> GroupKey {
        self.key
    }

    pub closed spec fn signal(self) -> SignalView {
        self.completion@
    }

    fn new(key: GroupKey) -> (wave: Self)
        ensures
            wave.key_of() == key,
            wave.signal() == SignalView::fresh(),
            wave.signal().wf(),
    {
        WaveCell { key, completion: SWCompletion::pending() }
    }

    pub fn key(&self) -> (key: GroupKey)
        ensures
            key == self.key_of(),
    {
        self.key
    }

    pub fn status(&self) -> (status: Option<SWTaskStatus>)
        ensures
            status == self.signal().status,
    {
        self.completion.status()
    }

    /// The token of this wave: a prerequisite, which may be attached before the
    /// wave is sealed.
    pub fn completion(&mut self) -> (token: &mut SWCompletion)
        ensures
            token@ == old(self).signal(),
            final(self).signal() == final(token)@,
            final(self).key_of() == old(self).key_of(),
    {
        &mut self.completion
    }

    /// Publishes the terminal status that the wave handed out when it was sealed
    /// or when its last member settled. The status is visible to its group and
    /// its helpers before the edges that now activate are handed out. A wave that
    /// nobody holds any more has its token published all the same.
    pub fn publish(&mut self, runtime: &mut SWRuntime, status: SWTaskStatus) -> (edges: Vec<
        Subscription,
    >)
        requires
            old(runtime).wf(),
            old(self).signal().wf(),
            old(self).signal().status is None,
            old(runtime)@.has_group(old(self).key_of().id) ==> {
                let group = old(runtime)@.get_group(old(self).key_of().id);
                group.publishing && group.verdict() == status
            },
        ensures
            final(runtime).wf(),
            final(self).signal().wf(),
            final(self).key_of() == old(self).key_of(),
            edges@ == old(self).signal().handed_out(SignalStep::Publish(status)),
            final(self).signal() == old(self).signal().after(SignalStep::Publish(status)),
            final(runtime)@ == wave_published(old(runtime)@, old(self).key_of().id),
    {
        let _ = runtime.publish_group(self.key.id);
        self.completion.publish(status)
    }
}

/// The runtime after the status of a wave became visible.
pub open spec fn wave_published(runtime: RuntimeView, id: u64) -> RuntimeView {
    if runtime.has_group(id) {
        runtime.with_owned(
            runtime.owned->0.with_group(
                group_slot(runtime.owned->0.groups, id),
                runtime.get_group(id).after(WaveStep::Publish),
            ),
        )
    } else {
        runtime
    }
}

/// A wave's token tells what its group tells: sealing a wave that nobody is left
/// in hands out the status that both then have, and edges attached before it was
/// sealed leave with it.
pub proof fn tokens_agree_with_their_group(
    runtime: RuntimeView,
    id: u64,
    token: SignalView,
    status: SWTaskStatus,
)
    requires
        runtime.wf(),
        runtime.has_group(id),
        runtime.get_group(id).closed_membership().terminal_status() == Some(status),
        token.wf(),
        token.status is None,
    ensures
        ({
            let slot = group_slot(runtime.owned->0.groups, id);
            let sealed = runtime.with_owned(
                runtime.owned->0.with_group(
                    slot,
                    runtime.get_group(id).after(WaveStep::Seal),
                ),
            );
            let told = token.after(SignalStep::Publish(status));
            &&& sealed.has_group(id)
            &&& sealed.get_group(id).publishing && sealed.get_group(id).verdict() == status
            &&& wave_published(sealed, id).has_group(id)
            &&& wave_published(sealed, id).get_group(id).status == told.status
            &&& told.status == Some(status)
            &&& token.handed_out(SignalStep::Publish(status)) == token.subscribers
        }),
{
    let groups = runtime.owned->0.groups;
    let slot = group_slot(groups, id);
    assert(group_at(groups, slot, id));
    let sealed = runtime.with_owned(
        runtime.owned->0.with_group(slot, runtime.get_group(id).after(WaveStep::Seal)),
    );
    group_kept(groups, sealed.owned->0.groups, slot, id);
    group_kept(sealed.owned->0.groups, wave_published(sealed, id).owned->0.groups, slot, id);
}

/// A wave that changes stays where it is.
proof fn group_kept(before: Seq<GroupInner>, after: Seq<GroupInner>, slot: int, id: u64)
    requires
        forall|i: int, j: int|
            0 <= i < j < before.len() ==> (#[trigger] before[i]).id < (#[trigger] before[j]).id,
        group_at(before, slot, id),
        after.len() == before.len(),
        after == before.update(slot, after[slot]),
        after[slot].id == id,
    ensures
        forall|i: int, j: int|
            0 <= i < j < after.len() ==> (#[trigger] after[i]).id < (#[trigger] after[j]).id,
        group_present(after, id),
        group_slot(after, id) == slot,
{
    assert forall|i: int, j: int| 0 <= i < j < after.len() implies (#[trigger] after[i]).id < (
    #[trigger] after[j]).id by {
        assert(before[i].id < before[j].id);
    }
    assert(group_at(after, slot, id));
    group_found(after, slot, id);
}

/// What a caller that waits and helps does next.
#[derive(Clone, Copy, Debug, PartialEq, Eq, Structural)]
pub enum GroupTurn {
    Complete,
    /// Execute this claimed member.
    Run(u64, Claim),
    /// Park while the generation stays.
    Park(u64),
}

/// What helping a group does: its oldest eligible member is claimed, with an
/// execution lease, or there is none.
pub open spec fn group_helped(
    before: RuntimeView,
    after: RuntimeView,
    group: u64,
    backend: bool,
    helped: Option<(u64, Claim)>,
) -> bool {
    let owned = before.owned->0;
    match helped {
        Some((id, claim)) => {
            &&& before.control.executing() && backend
            &&& oldest_helpable(owned.records, group, id)
            &&& claim == (Claim { class: owned.get(id).class, group: Some(group) })
            &&& after == (RuntimeView {
                owned: Some(owned.claimed(id)),
                control: before.control.leased(),
                ..before
            })
        },
        None => {
            &&& !(before.control.executing() && backend) || forall|j: int|
                0 <= j < owned.records.len() ==> !helpable(#[trigger] owned.records[j], group)
            &&& after == before
        },
    }
}

impl SWLane {
    /// Creates an open retained group in this lane. It is sealed before its
    /// completion is awaited; ending an observer never cancels its members.
    /// Hands out the first handle, and the completion of the wave.
    pub fn group(&self, runtime: &mut SWRuntime, context: Option<Context>) -> (result: Result<
        (SWGroup, WaveCell),
        SWSpawnError,
    >)
        requires
            old(runtime).wf(),
            self.of() == old(runtime)@.control.id,
            old(runtime)@.owned matches Some(owned) ==> owned.next_group < u64::MAX,
        ensures
            final(runtime).wf(),
            match result {
                Ok((group, wave)) => {
                    &&& old(runtime)@.group_error(false, context) is None
                    &&& wave.key_of() == group.key_of()
                    &&& wave.signal() == SignalView::fresh()
                    &&& wave.signal().wf()
                    &&& group.key_of() == (GroupKey {
                        id: old(runtime)@.owned->0.next_group as u64,
                        class: self.selects(),
                        runtime: self.of(),
                    })
                    &&& group.held_in(final(runtime)@)
                    &&& final(runtime)@ == old(runtime)@.visited().with_owned(
                        old(runtime)@.owned->0.with_new_group(self.selects()),
                    )
                },
                Err(error) => {
                    &&& old(runtime)@.group_error(false, context) == Some(error)
                    &&& final(runtime)@ == old(runtime)@.after_refused_group(false, context)
                },
            },
    {
        match runtime.group(self.class, false, context) {
            Ok(id) => {
                proof {
                    let groups = runtime@.owned->0.groups;
                    assert(group_at(groups, groups.len() - 1, id));
                    group_found(groups, groups.len() - 1, id);
                }
                let group = SWGroup::new(id, self.class, self.runtime);
                let wave = WaveCell::new(group.key());
                Ok((group, wave))
            },
            Err(error) => Err(error),
        }
    }

    /// Creates a lazy reusable owner for successive retained groups in this
    /// lane. The first wave is admitted by [`SWBatch::begin`].
    pub fn batch(&self) -> (batch: SWBatch)
        ensures
            batch.lane() == *self,
            batch.wave() is None,
    {
        SWBatch { lane: *self, current: None }
    }
}

/// Why a reusable batch could not start another wave.
#[derive(Clone, Copy, Debug, PartialEq, Eq, Structural)]
pub enum SWBatchError {
    /// The current wave has not been sealed and settled.
    Busy,
    /// Runtime admission rejected the new wave. `Closed` includes runtime
    /// shutdown; `Disabled` means owned scheduling was not configured.
    Admission(SWSpawnError),
}

/// A persistent owner of successive retained groups in one lane. It retains
/// only its current wave; other handles continue to observe their own wave.
pub struct SWBatch {
    lane: SWLane,
    current: Option<SWGroup>,
}

impl SWBatch {
    pub closed spec fn lane(self) -> SWLane {
        self.lane
    }

    pub closed spec fn wave(self) -> Option<SWGroup> {
        self.current
    }

    /// The current wave is there, in the lane of this batch.
    pub open spec fn held_in(self, runtime: RuntimeView) -> bool {
        &&& self.lane().of() == runtime.control.id
        &&& self.wave() matches Some(group) ==> group.held_in(runtime) && group.key_of().class
            == self.lane().selects()
    }

    /// The execution class selected when the owner was created.
    pub fn class(&self) -> (class: SWExecutionClass)
        ensures
            class == self.lane().selects(),
    {
        self.lane.class
    }

    /// The current wave, if one has been started.
    pub fn current(&self) -> (current: Option<&SWGroup>)
        ensures
            match current {
                Some(group) => self.wave() == Some(*group),
                None => self.wave() is None,
            },
    {
        self.current.as_ref()
    }

    /// The current wave has not settled.
    pub open spec fn busy(self, runtime: RuntimeView) -> bool {
        self.wave() matches Some(group) && runtime.get_group(group.key_of().id).status is None
    }

    /// Starts a distinct open wave after the previous wave is sealed and
    /// settled. `Busy` takes precedence over runtime admission. Failed admission
    /// leaves the previous wave available through `current`.
    /// Hands out the completion of the new wave.
    pub fn begin(&mut self, runtime: &mut SWRuntime, context: Option<Context>) -> (result: Result<
        WaveCell,
        SWBatchError,
    >)
        requires
            old(runtime).wf(),
            old(self).held_in(old(runtime)@),
            old(runtime)@.owned matches Some(owned) ==> owned.next_group < u64::MAX,
        ensures
            final(runtime).wf(),
            final(self).held_in(final(runtime)@),
            final(self).lane() == old(self).lane(),
            match result {
                Ok(wave) => {
                    let key = wave.key_of();
                    let owned = old(runtime)@.owned->0;
                    let opened = owned.with_new_group(old(self).lane().selects());
                    &&& !old(self).busy(old(runtime)@)
                    &&& wave.signal() == SignalView::fresh()
                    &&& wave.signal().wf()
                    &&& old(runtime)@.group_error(false, context) is None
                    &&& final(self).wave() is Some
                    &&& final(self).wave()->0.key_of() == key
                    &&& key == (GroupKey {
                        id: owned.next_group as u64,
                        class: old(self).lane().selects(),
                        runtime: old(self).lane().of(),
                    })
                    &&& final(runtime)@ == old(runtime)@.visited().with_owned(
                        match old(self).wave() {
                            Some(group) => opened.group_released(
                                group_slot(owned.groups, group.key_of().id),
                            ),
                            None => opened,
                        },
                    )
                },
                Err(error) => {
                    &&& error == (if old(self).busy(old(runtime)@) {
                        SWBatchError::Busy
                    } else {
                        SWBatchError::Admission(old(runtime)@.group_error(false, context)->0)
                    })
                    &&& old(self).busy(old(runtime)@) || old(runtime)@.group_error(
                        false,
                        context,
                    ) is Some
                    &&& *final(self) == *old(self)
                    &&& final(runtime)@ == (if old(self).busy(old(runtime)@) {
                        old(runtime)@
                    } else {
                        old(runtime)@.after_refused_group(false, context)
                    })
                },
            },
    {
        match &self.current {
            Some(group) => {
                if !group.is_complete(runtime) {
                    return Err(SWBatchError::Busy);
                }
                let ghost before = runtime@;
                let ghost old_id = group.id;
                match runtime.renew_group(group.id, false, context) {
                    Err(error) => Err(SWBatchError::Admission(error)),
                    Ok(id) => {
                        let next = SWGroup::new(id, self.lane.class, self.lane.runtime);
                        proof {
                            renewed_is_held(before, runtime@, old_id, id, self.lane.class);
                        }
                        let wave = WaveCell::new(next.key());
                        self.current = Some(next);
                        Ok(wave)
                    },
                }
            },
            None => match self.lane.group(runtime, context) {
                Err(error) => Err(SWBatchError::Admission(error)),
                Ok((group, wave)) => {
                    self.current = Some(group);
                    Ok(wave)
                },
            },
        }
    }
}

/// The wave that follows a released one is there.
proof fn renewed_is_held(
    before: RuntimeView,
    after: RuntimeView,
    released: u64,
    id: u64,
    class: SWExecutionClass,
)
    requires
        before.wf(),
        after.wf(),
        before.has_group(released),
        before.get_group(released).public_handles > 0,
        id == before.owned->0.next_group,
        after == before.visited().with_owned(
            before.owned->0.with_new_group(class).group_released(
                group_slot(before.owned->0.groups, released),
            ),
        ),
    ensures
        after.has_group(id),
        after.get_group(id) == GroupInner::fresh(id, class),
{
    let owned = before.owned->0;
    let g = group_slot(owned.groups, released);
    assert(group_at(owned.groups, g, released));
    let groups = after.owned->0.groups;
    let last = groups.len() - 1;
    assert(groups[last] == GroupInner::fresh(id, class));
    assert(group_at(groups, last, id));
    group_found(groups, last, id);
}

/// Owned submission choices for a work set root or discovery descendant.
/// Group membership and prerequisites commit with the job's admission.
#[derive(Clone, Copy, Debug, PartialEq, Eq, Structural)]
pub struct SWWorkOptions {
    pub spawn: SWSpawnOptions,
    pub group: Option<GroupKey>,
    pub prerequisites: usize,
    pub dependency_policy: SWDependencyPolicy,
    pub allow_inline: bool,
}

impl SWWorkOptions {
    /// The route of a submission into a work set.
    pub open spec fn route(self) -> OwnedRoute {
        OwnedRoute {
            options: self.spawn,
            group: self.group,
            prerequisites: self.prerequisites,
            policy: self.dependency_policy,
            allow_inline: self.allow_inline,
        }
    }

    /// A plain submission of these execution constraints.
    pub fn of(spawn: SWSpawnOptions, allow_inline: bool) -> (work: Self)
        ensures
            work.route() == (OwnedRoute { allow_inline, ..OwnedRoute::plain(spawn) }),
    {
        SWWorkOptions {
            spawn,
            group: None,
            prerequisites: 0,
            dependency_policy: SWDependencyPolicy::SuccessOnly,
            allow_inline,
        }
    }
}

impl Default for SWWorkOptions {
    fn default() -> (work: Self)
        ensures
            work.route() == OwnedRoute::plain(
                SWSpawnOptions { eligibility: SWCallerEligibility::WorkerOnly },
            ),
    {
        SWWorkOptions::of(SWSpawnOptions::default(), false)
    }
}

/// Admission of set-owned work. A root asks its set for a lease, a descendant
/// asks the permit that discovered it; `lease` is the answer. The accepted job
/// keeps the set active until its capture, dependencies and cancellation settle.
impl WorkLease {
    /// Admits set-owned work without executing it on this caller.
    pub fn try_spawn<F, T>(
        self,
        lane: &SWLane,
        runtime: &mut SWRuntime,
        context: Option<Context>,
        options: SWSpawnOptions,
        operation: F,
    ) -> (result: Result<OwnedJob<F, T>, SWSpawnRejected<F>>)
        requires
            old(runtime).wf(),
            can_count(old(runtime)@),
        ensures
            final(runtime).wf(),
            submitted(
                old(runtime)@,
                final(runtime)@,
                lane.request(OwnedRoute::plain(options), context),
                self,
                operation,
                false,
                result,
            ),
    {
        self.try_spawn_with(lane, runtime, context, SWWorkOptions::of(options, false), operation)
    }

    /// On runnable saturation, caller-eligible work may execute synchronously
    /// through the same set accounting and scheduler claim path.
    pub fn submit_or_run<F, T>(
        self,
        lane: &SWLane,
        runtime: &mut SWRuntime,
        context: Option<Context>,
        options: SWSpawnOptions,
        operation: F,
    ) -> (result: Result<OwnedJob<F, T>, SWSpawnRejected<F>>)
        requires
            old(runtime).wf(),
            can_count(old(runtime)@),
        ensures
            final(runtime).wf(),
            submitted(
                old(runtime)@,
                final(runtime)@,
                lane.request(
                    OwnedRoute { allow_inline: true, ..OwnedRoute::plain(options) },
                    context,
                ),
                self,
                operation,
                false,
                result,
            ),
    {
        self.try_spawn_with(lane, runtime, context, SWWorkOptions::of(options, true), operation)
    }

    /// Admits set-owned work with optional group, prerequisites and caller
    /// eligibility.
    pub fn try_spawn_with<F, T>(
        self,
        lane: &SWLane,
        runtime: &mut SWRuntime,
        context: Option<Context>,
        work: SWWorkOptions,
        operation: F,
    ) -> (result: Result<OwnedJob<F, T>, SWSpawnRejected<F>>)
        requires
            old(runtime).wf(),
            can_count(old(runtime)@),
        ensures
            final(runtime).wf(),
            submitted(
                old(runtime)@,
                final(runtime)@,
                lane.request(work.route(), context),
                self,
                operation,
                false,
                result,
            ),
    {
        self.spawn(lane, runtime, context, work, operation, false)
    }

    /// As `try_spawn_with`, where a returned `Err` marks application failure.
    pub fn try_spawn_fallible_with<F, T>(
        self,
        lane: &SWLane,
        runtime: &mut SWRuntime,
        context: Option<Context>,
        work: SWWorkOptions,
        operation: F,
    ) -> (result: Result<OwnedJob<F, T>, SWSpawnRejected<F>>)
        requires
            old(runtime).wf(),
            can_count(old(runtime)@),
        ensures
            final(runtime).wf(),
            submitted(
                old(runtime)@,
                final(runtime)@,
                lane.request(work.route(), context),
                self,
                operation,
                true,
                result,
            ),
    {
        self.spawn(lane, runtime, context, work, operation, true)
    }

    fn spawn<F, T>(
        self,
        lane: &SWLane,
        runtime: &mut SWRuntime,
        context: Option<Context>,
        work: SWWorkOptions,
        operation: F,
        fallible: bool,
    ) -> (result: Result<OwnedJob<F, T>, SWSpawnRejected<F>>)
        requires
            old(runtime).wf(),
            can_count(old(runtime)@),
        ensures
            final(runtime).wf(),
            submitted(
                old(runtime)@,
                final(runtime)@,
                lane.request(work.route(), context),
                self,
                operation,
                fallible,
                result,
            ),
    {
        let route = OwnedRoute {
            options: work.spawn,
            group: work.group,
            prerequisites: work.prerequisites,
            policy: work.dependency_policy,
            allow_inline: work.allow_inline,
        };
        lane.submit_owned(runtime, context, route, self, operation, fallible)
    }
}

/// CPU routing for a reserved owner delivery. Dependencies gate execution;
/// every terminal CPU outcome makes the delivery ready for owner inspection.
#[derive(Clone, Copy, Debug, PartialEq, Eq, Structural)]
pub struct SWDeliveryOptions {
    pub spawn: SWSpawnOptions,
    pub group: Option<GroupKey>,
    pub prerequisites: usize,
    pub policy: SWDependencyPolicy,
}

impl SWDeliveryOptions {
    pub open spec fn plain(spawn: SWSpawnOptions) -> SWDeliveryOptions {
        SWDeliveryOptions {
            spawn,
            group: None,
            prerequisites: 0,
            policy: SWDependencyPolicy::SuccessOnly,
        }
    }

    pub fn new(spawn: SWSpawnOptions) -> (options: Self)
        ensures
            options == SWDeliveryOptions::plain(spawn),
    {
        SWDeliveryOptions {
            spawn,
            group: None,
            prerequisites: 0,
            policy: SWDependencyPolicy::SuccessOnly,
        }
    }

    pub open spec fn route(self, allow_inline: bool) -> OwnedRoute {
        OwnedRoute {
            options: self.spawn,
            group: self.group,
            prerequisites: self.prerequisites,
            policy: self.policy,
            allow_inline,
        }
    }
}

impl Default for SWDeliveryOptions {
    fn default() -> (options: Self)
        ensures
            options == SWDeliveryOptions::plain(
                SWSpawnOptions { eligibility: SWCallerEligibility::WorkerOnly },
            ),
    {
        SWDeliveryOptions::new(SWSpawnOptions::default())
    }
}

/// Rejection preserves the uninvoked operation and its uncommitted ticket.
pub struct SWDeliverySpawnRejected<F> {
    pub reason: SWSpawnError,
    pub operation: F,
    pub ticket: SWDeliveryTicket,
    pub options: SWDeliveryOptions,
}

/// The request of a job with a promised delivery.
pub open spec fn delivering(
    request: SubmitRequest,
    transport: TransportView,
    delivery: u64,
) -> SubmitRequest {
    SubmitRequest { delivery: Some(claim_on(transport, delivery)), ..request }
}

/// What a submission with a promised delivery does: the job is admitted, the
/// delivery committed and charged, and its readiness bound to the job's
/// completion; or nothing.
pub open spec fn delivery_submitted<C, F, T>(
    before: RuntimeView,
    after: RuntimeView,
    owner_before: OwnerView<C>,
    owner_after: OwnerView<C>,
    request: SubmitRequest,
    options: SWDeliveryOptions,
    ticket: SWDeliveryTicket,
    operation: F,
    fallible: bool,
    result: Result<OwnedJob<F, T>, SWDeliverySpawnRejected<F>>,
) -> bool {
    let delivery = ticket.identity();
    match result {
        Ok(job) => {
            &&& before.submit_error(request, WorkLease::Unset) is None
            &&& job.accepted.ticket is None
            &&& exists|capacity: Option<SWReservation>|
                {
                    &&& #[trigger] committed(
                        before,
                        after,
                        routed(request, before.control.id, false),
                        None,
                        plain_need(request),
                        with_ticket(job.accepted, capacity),
                    )
                    &&& owner_after == owner_before.delivery_committed(delivery, capacity)
                }
            &&& job_made(before.control.id, job, operation, fallible, Some(delivery))
        },
        Err(rejected) => {
            &&& before.submit_error(request, WorkLease::Unset) == Some(rejected.reason)
            &&& rejected.operation == operation
            &&& rejected.ticket == ticket
            &&& rejected.options == options
            &&& after == before.after_refused_submit(request, WorkLease::Unset)
            &&& owner_after == owner_before
        },
    }
}

/// An accepted job, with the capacity that its delivery holds.
pub open spec fn with_ticket(accepted: OwnedAccepted, ticket: Option<SWReservation>) -> OwnedAccepted {
    OwnedAccepted { ticket, ..accepted }
}

impl SWLane {
    fn submit_delivering<O, C, F, T>(
        &self,
        runtime: &mut SWRuntime,
        context: Option<Context>,
        owner: &mut SWOwner<O, C>,
        options: SWDeliveryOptions,
        ticket: SWDeliveryTicket,
        operation: F,
        fallible: bool,
        allow_inline: bool,
    ) -> (result: Result<OwnedJob<F, T>, SWDeliverySpawnRejected<F>>)
        requires
            old(runtime).wf(),
            can_count(old(runtime)@),
            old(owner).wf(),
        ensures
            final(runtime).wf(),
            final(owner).wf(),
            final(owner).held() == old(owner).held(),
            delivery_submitted(
                old(runtime)@,
                final(runtime)@,
                old(owner)@,
                final(owner)@,
                delivering(
                    self.request(options.route(allow_inline), context),
                    old(owner)@.transport,
                    ticket.identity(),
                ),
                options,
                ticket,
                operation,
                fallible,
                result,
            ),
    {
        let route = OwnedRoute {
            options: options.spawn,
            group: options.group,
            prerequisites: options.prerequisites,
            policy: options.policy,
            allow_inline,
        };
        let plain = self.make_request(route, context);
        let claim = owner.delivery_claim(&ticket);
        let request = SubmitRequest { delivery: Some(claim), ..plain };
        let identity: u64 = runtime.identity();
        let ghost v = runtime@;
        match runtime.submit(&request, WorkLease::Unset) {
            Err(reason) => Err(SWDeliverySpawnRejected { reason, operation, ticket, options }),
            Ok(accepted) => {
                let ghost full = accepted;
                let OwnedAccepted { id, inline, bytes, ticket: capacity } = accepted;
                let ghost drawn = capacity;
                owner.commit_delivery(&ticket, capacity);
                let accepted = OwnedAccepted { id, inline, bytes, ticket: None };
                proof {
                    assert(with_ticket(accepted, drawn) == full);
                    assert(committed(
                        v,
                        runtime@,
                        routed(request, v.control.id, false),
                        None,
                        plain_need(request),
                        with_ticket(accepted, drawn),
                    ));
                }
                Ok(open_job(identity, accepted, operation, fallible, Some(ticket.id())))
            },
        }
    }

    /// Commits the reserved owner delivery before exposing CPU work. Rejection
    /// returns both inputs. Closing the owner after acceptance can suppress
    /// publication independently of CPU completion.
    pub fn try_spawn_delivering<O, C, F, T>(
        &self,
        runtime: &mut SWRuntime,
        context: Option<Context>,
        owner: &mut SWOwner<O, C>,
        options: SWDeliveryOptions,
        ticket: SWDeliveryTicket,
        operation: F,
    ) -> (result: Result<OwnedJob<F, T>, SWDeliverySpawnRejected<F>>)
        requires
            old(runtime).wf(),
            can_count(old(runtime)@),
            old(owner).wf(),
        ensures
            final(runtime).wf(),
            final(owner).wf(),
            final(owner).held() == old(owner).held(),
            delivery_submitted(
                old(runtime)@,
                final(runtime)@,
                old(owner)@,
                final(owner)@,
                delivering(
                    self.request(options.route(false), context),
                    old(owner)@.transport,
                    ticket.identity(),
                ),
                options,
                ticket,
                operation,
                false,
                result,
            ),
    {
        self.submit_delivering(runtime, context, owner, options, ticket, operation, false, false)
    }

    /// As `try_spawn_delivering`, classifying a returned `Err` as application
    /// failure for dependent CPU work. Owner notification still occurs.
    pub fn try_spawn_fallible_delivering<O, C, F, T>(
        &self,
        runtime: &mut SWRuntime,
        context: Option<Context>,
        owner: &mut SWOwner<O, C>,
        options: SWDeliveryOptions,
        ticket: SWDeliveryTicket,
        operation: F,
    ) -> (result: Result<OwnedJob<F, T>, SWDeliverySpawnRejected<F>>)
        requires
            old(runtime).wf(),
            can_count(old(runtime)@),
            old(owner).wf(),
        ensures
            final(runtime).wf(),
            final(owner).wf(),
            final(owner).held() == old(owner).held(),
            delivery_submitted(
                old(runtime)@,
                final(runtime)@,
                old(owner)@,
                final(owner)@,
                delivering(
                    self.request(options.route(false), context),
                    old(owner)@.transport,
                    ticket.identity(),
                ),
                options,
                ticket,
                operation,
                true,
                result,
            ),
    {
        self.submit_delivering(runtime, context, owner, options, ticket, operation, true, false)
    }

    /// Allows explicitly caller-eligible work to run here when runnable capacity is
    /// full. The delivery is committed first and publication remains deferred.
    pub fn submit_or_run_delivering<O, C, F, T>(
        &self,
        runtime: &mut SWRuntime,
        context: Option<Context>,
        owner: &mut SWOwner<O, C>,
        options: SWDeliveryOptions,
        ticket: SWDeliveryTicket,
        operation: F,
    ) -> (result: Result<OwnedJob<F, T>, SWDeliverySpawnRejected<F>>)
        requires
            old(runtime).wf(),
            can_count(old(runtime)@),
            old(owner).wf(),
        ensures
            final(runtime).wf(),
            final(owner).wf(),
            final(owner).held() == old(owner).held(),
            delivery_submitted(
                old(runtime)@,
                final(runtime)@,
                old(owner)@,
                final(owner)@,
                delivering(
                    self.request(options.route(true), context),
                    old(owner)@.transport,
                    ticket.identity(),
                ),
                options,
                ticket,
                operation,
                false,
                result,
            ),
    {
        self.submit_delivering(runtime, context, owner, options, ticket, operation, false, true)
    }

    /// Fallible counterpart of `submit_or_run_delivering`.
    pub fn submit_or_run_fallible_delivering<O, C, F, T>(
        &self,
        runtime: &mut SWRuntime,
        context: Option<Context>,
        owner: &mut SWOwner<O, C>,
        options: SWDeliveryOptions,
        ticket: SWDeliveryTicket,
        operation: F,
    ) -> (result: Result<OwnedJob<F, T>, SWDeliverySpawnRejected<F>>)
        requires
            old(runtime).wf(),
            can_count(old(runtime)@),
            old(owner).wf(),
        ensures
            final(runtime).wf(),
            final(owner).wf(),
            final(owner).held() == old(owner).held(),
            delivery_submitted(
                old(runtime)@,
                final(runtime)@,
                old(owner)@,
                final(owner)@,
                delivering(
                    self.request(options.route(true), context),
                    old(owner)@.transport,
                    ticket.identity(),
                ),
                options,
                ticket,
                operation,
                true,
                result,
            ),
    {
        self.submit_delivering(runtime, context, owner, options, ticket, operation, true, true)
    }
}

/// Optional policies for a resource stage. Rejection preserves this bundle.
pub struct SWStageOptions<'a> {
    pub spawn: SWSpawnOptions,
    pub group: Option<GroupKey>,
    pub prerequisites: usize,
    pub policy: SWDependencyPolicy,
    /// What a work set or a discovery permit answered.
    pub lease: WorkLease,
    /// Urgency, where this is resource work.
    pub priority: Option<Selection>,
    pub reservation: Option<&'a SWReservation>,
    pub cost: SWCost,
    pub retained_bytes: usize,
    pub delivery: Option<SWDeliveryTicket>,
}

impl<'a> SWStageOptions<'a> {
    /// A stage that declares nothing.
    pub fn new() -> (options: Self)
        ensures
            options.spawn.eligibility == SWCallerEligibility::WorkerOnly,
            options.group is None,
            options.prerequisites == 0,
            options.policy == SWDependencyPolicy::SuccessOnly,
            options.lease == WorkLease::Unset,
            options.priority is None,
            options.reservation is None,
            options.cost == (SWCost { records: 0, edges: 0, deliveries: 0, bytes: 0 }),
            options.retained_bytes == 0,
            options.delivery is None,
    {
        SWStageOptions {
            spawn: SWSpawnOptions::default(),
            group: None,
            prerequisites: 0,
            policy: SWDependencyPolicy::SuccessOnly,
            lease: WorkLease::Unset,
            priority: None,
            reservation: None,
            cost: SWCost::new(0, 0, 0, 0),
            retained_bytes: 0,
            delivery: None,
        }
    }

    pub open spec fn route(self, allow_inline: bool) -> OwnedRoute {
        OwnedRoute {
            options: self.spawn,
            group: self.group,
            prerequisites: self.prerequisites,
            policy: self.policy,
            allow_inline,
        }
    }

    /// The delivery that a stage promises.
    pub open spec fn promised(self) -> Option<u64> {
        match self.delivery {
            Some(ticket) => Some(ticket.identity()),
            None => None,
        }
    }

    /// The request of a stage whose promised delivery, if any, is on this
    /// route.
    pub open spec fn request(
        self,
        lane: SWLane,
        context: Option<Context>,
        allow_inline: bool,
        transport: Option<TransportView>,
    ) -> SubmitRequest {
        SubmitRequest {
            demand: self.priority,
            delivery: match (self.delivery, transport) {
                (Some(ticket), Some(transport)) => Some(claim_on(transport, ticket.identity())),
                _ => None,
            },
            ..lane.request(self.route(allow_inline), context)
        }
    }
}

pub struct SWStageRejected<'a, F> {
    pub reason: SWSpawnError,
    pub operation: F,
    pub options: SWStageOptions<'a>,
}

/// The route of a stage's promised delivery.
pub open spec fn transport_of<O, C>(owner: Option<&mut SWOwner<O, C>>) -> Option<TransportView> {
    match owner {
        Some(owner) => Some(owner@.transport),
        None => None,
    }
}

/// What a stage submission does to its runtime: the stage is admitted and its
/// declared cost charged, or nothing. `capacity` is what its delivery holds.
pub open spec fn stage_admitted<'a, F, T>(
    before: RuntimeView,
    after: RuntimeView,
    request: SubmitRequest,
    options: SWStageOptions<'a>,
    job: OwnedJob<F, T>,
    capacity: Option<SWReservation>,
) -> bool {
    let need = declared_need(
        options.cost,
        options.retained_bytes,
        request.prerequisites,
        request.delivery,
    );
    &&& before.stage_error(request, options.lease, options.reservation, need) is None
    &&& committed(
        before,
        after,
        routed(request, before.control.id, options.reservation is Some),
        options.reservation,
        need,
        with_ticket(job.accepted, capacity),
    )
}

/// What a refused stage gives back.
pub open spec fn stage_refused<'a, F>(
    before: RuntimeView,
    after: RuntimeView,
    request: SubmitRequest,
    options: SWStageOptions<'a>,
    operation: F,
    rejected: SWStageRejected<'a, F>,
) -> bool {
    let need = declared_need(
        options.cost,
        options.retained_bytes,
        request.prerequisites,
        request.delivery,
    );
    &&& before.stage_error(request, options.lease, options.reservation, need) == Some(
        rejected.reason,
    )
    &&& rejected.operation == operation
    &&& rejected.options == options
    &&& after == before.after_refused_stage(request, options.lease, options.reservation, need)
}

impl SWLane {
    fn submit_stage<'a, O, C, F, T>(
        &self,
        runtime: &mut SWRuntime,
        context: Option<Context>,
        owner: Option<&mut SWOwner<O, C>>,
        options: SWStageOptions<'a>,
        operation: F,
        fallible: bool,
        allow_inline: bool,
    ) -> (result: Result<OwnedJob<F, SWRetained<T>>, SWStageRejected<'a, F>>)
        requires
            old(runtime).wf(),
            can_count(old(runtime)@),
            reservation_known(old(runtime)@.capacity, old(runtime)@.control.id, options.reservation),
            owner matches Some(owner) ==> owner.wf(),
            options.delivery is Some <==> owner is Some,
        ensures
            final(runtime).wf(),
            owner matches Some(owner) ==> final(owner).wf() && final(owner).held() == owner.held(),
            ({
                let request = options.request(*self, context, allow_inline, transport_of(owner));
                match result {
                    Ok(job) => {
                        &&& job.accepted.ticket is None
                        &&& job_made(
                            old(runtime)@.control.id,
                            job,
                            operation,
                            fallible,
                            options.promised(),
                        )
                        &&& exists|capacity: Option<SWReservation>|
                            {
                                &&& #[trigger] stage_admitted(
                                    old(runtime)@,
                                    final(runtime)@,
                                    request,
                                    options,
                                    job,
                                    capacity,
                                )
                                &&& owner matches Some(owner) ==> final(owner)@
                                    == owner@.delivery_committed(
                                    options.promised()->0,
                                    capacity,
                                )
                            }
                    },
                    Err(rejected) => {
                        &&& stage_refused(
                            old(runtime)@,
                            final(runtime)@,
                            request,
                            options,
                            operation,
                            rejected,
                        )
                        &&& owner matches Some(owner) ==> final(owner)@ == owner@
                    },
                }
            }),
    {
        let route = OwnedRoute {
            options: options.spawn,
            group: options.group,
            prerequisites: options.prerequisites,
            policy: options.policy,
            allow_inline,
        };
        let plain = self.make_request(route, context);
        let identity: u64 = runtime.identity();
        let ghost v = runtime@;
        match owner {
            Some(owner) => {
                let claim = match &options.delivery {
                    Some(ticket) => Some(owner.delivery_claim(ticket)),
                    None => None,
                };
                let request = SubmitRequest {
                    demand: options.priority,
                    delivery: claim,
                    ..plain
                };
                match runtime.submit_stage(
                    &request,
                    options.lease,
                    options.reservation,
                    options.cost,
                    options.retained_bytes,
                ) {
                    Err(reason) => Err(SWStageRejected { reason, operation, options }),
                    Ok(accepted) => {
                        let ghost full = accepted;
                        let OwnedAccepted { id, inline, bytes, ticket: capacity } = accepted;
                        let ghost drawn = capacity;
                        let mut delivery: Option<u64> = None;
                        if let Some(ticket) = &options.delivery {
                            owner.commit_delivery(ticket, capacity);
                            delivery = Some(ticket.id());
                        }
                        let accepted = OwnedAccepted { id, inline, bytes, ticket: None };
                        let job = open_job(identity, accepted, operation, fallible, delivery);
                        proof {
                            assert(with_ticket(accepted, drawn) == full);
                            assert(stage_admitted(v, runtime@, request, options, job, drawn));
                        }
                        Ok(job)
                    },
                }
            },
            None => {
                let request = SubmitRequest { demand: options.priority, ..plain };
                match runtime.submit_stage(
                    &request,
                    options.lease,
                    options.reservation,
                    options.cost,
                    options.retained_bytes,
                ) {
                    Err(reason) => Err(SWStageRejected { reason, operation, options }),
                    Ok(accepted) => {
                        let ghost full = accepted;
                        let job = open_job(identity, accepted, operation, fallible, None);
                        proof {
                            no_ticket_without_delivery(v, runtime@, request, options, full);
                            assert(with_ticket(job.accepted, None) == full);
                            assert(stage_admitted(v, runtime@, request, options, job, None));
                        }
                        Ok(job)
                    },
                }
            },
        }
    }

    /// Admits a resource stage without executing it on the caller. Declared
    /// retained bytes follow the returned value even after set or runtime drain.
    /// `owner` is the route of the promised delivery, where there is one.
    pub fn try_spawn_stage<'a, O, C, F, T>(
        &self,
        runtime: &mut SWRuntime,
        context: Option<Context>,
        owner: Option<&mut SWOwner<O, C>>,
        options: SWStageOptions<'a>,
        operation: F,
    ) -> (result: Result<OwnedJob<F, SWRetained<T>>, SWStageRejected<'a, F>>)
        requires
            old(runtime).wf(),
            can_count(old(runtime)@),
            reservation_known(old(runtime)@.capacity, old(runtime)@.control.id, options.reservation),
            owner matches Some(owner) ==> owner.wf(),
            options.delivery is Some <==> owner is Some,
        ensures
            final(runtime).wf(),
            owner matches Some(owner) ==> final(owner).wf() && final(owner).held() == owner.held(),
            ({
                let request = options.request(*self, context, false, transport_of(owner));
                match result {
                    Ok(job) => {
                        &&& job.accepted.ticket is None
                        &&& job_made(
                            old(runtime)@.control.id,
                            job,
                            operation,
                            false,
                            options.promised(),
                        )
                        &&& exists|capacity: Option<SWReservation>|
                            {
                                &&& #[trigger] stage_admitted(
                                    old(runtime)@,
                                    final(runtime)@,
                                    request,
                                    options,
                                    job,
                                    capacity,
                                )
                                &&& owner matches Some(owner) ==> final(owner)@
                                    == owner@.delivery_committed(
                                    options.promised()->0,
                                    capacity,
                                )
                            }
                    },
                    Err(rejected) => {
                        &&& stage_refused(
                            old(runtime)@,
                            final(runtime)@,
                            request,
                            options,
                            operation,
                            rejected,
                        )
                        &&& owner matches Some(owner) ==> final(owner)@ == owner@
                    },
                }
            }),
    {
        self.submit_stage(runtime, context, owner, options, operation, false, false)
    }

    /// As `try_spawn_stage`, where a returned `Err` marks application failure.
    pub fn try_spawn_fallible_stage<'a, O, C, F, T>(
        &self,
        runtime: &mut SWRuntime,
        context: Option<Context>,
        owner: Option<&mut SWOwner<O, C>>,
        options: SWStageOptions<'a>,
        operation: F,
    ) -> (result: Result<OwnedJob<F, SWRetained<T>>, SWStageRejected<'a, F>>)
        requires
            old(runtime).wf(),
            can_count(old(runtime)@),
            reservation_known(old(runtime)@.capacity, old(runtime)@.control.id, options.reservation),
            owner matches Some(owner) ==> owner.wf(),
            options.delivery is Some <==> owner is Some,
        ensures
            final(runtime).wf(),
            owner matches Some(owner) ==> final(owner).wf() && final(owner).held() == owner.held(),
            ({
                let request = options.request(*self, context, false, transport_of(owner));
                match result {
                    Ok(job) => {
                        &&& job.accepted.ticket is None
                        &&& job_made(
                            old(runtime)@.control.id,
                            job,
                            operation,
                            true,
                            options.promised(),
                        )
                        &&& exists|capacity: Option<SWReservation>|
                            {
                                &&& #[trigger] stage_admitted(
                                    old(runtime)@,
                                    final(runtime)@,
                                    request,
                                    options,
                                    job,
                                    capacity,
                                )
                                &&& owner matches Some(owner) ==> final(owner)@
                                    == owner@.delivery_committed(
                                    options.promised()->0,
                                    capacity,
                                )
                            }
                    },
                    Err(rejected) => {
                        &&& stage_refused(
                            old(runtime)@,
                            final(runtime)@,
                            request,
                            options,
                            operation,
                            rejected,
                        )
                        &&& owner matches Some(owner) ==> final(owner)@ == owner@
                    },
                }
            }),
    {
        self.submit_stage(runtime, context, owner, options, operation, true, false)
    }

    /// As `try_spawn_stage`, where saturation may run explicitly caller-eligible
    /// work here.
    pub fn submit_or_run_stage<'a, O, C, F, T>(
        &self,
        runtime: &mut SWRuntime,
        context: Option<Context>,
        owner: Option<&mut SWOwner<O, C>>,
        options: SWStageOptions<'a>,
        operation: F,
    ) -> (result: Result<OwnedJob<F, SWRetained<T>>, SWStageRejected<'a, F>>)
        requires
            old(runtime).wf(),
            can_count(old(runtime)@),
            reservation_known(old(runtime)@.capacity, old(runtime)@.control.id, options.reservation),
            owner matches Some(owner) ==> owner.wf(),
            options.delivery is Some <==> owner is Some,
        ensures
            final(runtime).wf(),
            owner matches Some(owner) ==> final(owner).wf() && final(owner).held() == owner.held(),
            ({
                let request = options.request(*self, context, true, transport_of(owner));
                match result {
                    Ok(job) => {
                        &&& job.accepted.ticket is None
                        &&& job_made(
                            old(runtime)@.control.id,
                            job,
                            operation,
                            false,
                            options.promised(),
                        )
                        &&& exists|capacity: Option<SWReservation>|
                            {
                                &&& #[trigger] stage_admitted(
                                    old(runtime)@,
                                    final(runtime)@,
                                    request,
                                    options,
                                    job,
                                    capacity,
                                )
                                &&& owner matches Some(owner) ==> final(owner)@
                                    == owner@.delivery_committed(
                                    options.promised()->0,
                                    capacity,
                                )
                            }
                    },
                    Err(rejected) => {
                        &&& stage_refused(
                            old(runtime)@,
                            final(runtime)@,
                            request,
                            options,
                            operation,
                            rejected,
                        )
                        &&& owner matches Some(owner) ==> final(owner)@ == owner@
                    },
                }
            }),
    {
        self.submit_stage(runtime, context, owner, options, operation, false, true)
    }

    /// Fallible counterpart of `submit_or_run_stage`.
    pub fn submit_or_run_fallible_stage<'a, O, C, F, T>(
        &self,
        runtime: &mut SWRuntime,
        context: Option<Context>,
        owner: Option<&mut SWOwner<O, C>>,
        options: SWStageOptions<'a>,
        operation: F,
    ) -> (result: Result<OwnedJob<F, SWRetained<T>>, SWStageRejected<'a, F>>)
        requires
            old(runtime).wf(),
            can_count(old(runtime)@),
            reservation_known(old(runtime)@.capacity, old(runtime)@.control.id, options.reservation),
            owner matches Some(owner) ==> owner.wf(),
            options.delivery is Some <==> owner is Some,
        ensures
            final(runtime).wf(),
            owner matches Some(owner) ==> final(owner).wf() && final(owner).held() == owner.held(),
            ({
                let request = options.request(*self, context, true, transport_of(owner));
                match result {
                    Ok(job) => {
                        &&& job.accepted.ticket is None
                        &&& job_made(
                            old(runtime)@.control.id,
                            job,
                            operation,
                            true,
                            options.promised(),
                        )
                        &&& exists|capacity: Option<SWReservation>|
                            {
                                &&& #[trigger] stage_admitted(
                                    old(runtime)@,
                                    final(runtime)@,
                                    request,
                                    options,
                                    job,
                                    capacity,
                                )
                                &&& owner matches Some(owner) ==> final(owner)@
                                    == owner@.delivery_committed(
                                    options.promised()->0,
                                    capacity,
                                )
                            }
                    },
                    Err(rejected) => {
                        &&& stage_refused(
                            old(runtime)@,
                            final(runtime)@,
                            request,
                            options,
                            operation,
                            rejected,
                        )
                        &&& owner matches Some(owner) ==> final(owner)@ == owner@
                    },
                }
            }),
    {
        self.submit_stage(runtime, context, owner, options, operation, true, true)
    }
}

/// A stage without a promised delivery draws no capacity for one.
proof fn no_ticket_without_delivery<'a>(
    before: RuntimeView,
    after: RuntimeView,
    request: SubmitRequest,
    options: SWStageOptions<'a>,
    accepted: OwnedAccepted,
)
    requires
        request.delivery is None,
        committed(
            before,
            after,
            routed(request, before.control.id, options.reservation is Some),
            options.reservation,
            declared_need(
                options.cost,
                options.retained_bytes,
                request.prerequisites,
                request.delivery,
            ),
            accepted,
        ),
    ensures
        accepted.ticket is None,
{
}

/// Every terminal outcome of a job reaches its promised delivery: the edge is
/// there from acceptance on, it is the first one, and whatever the outcome is,
/// publication hands it out.
pub proof fn every_outcome_reaches_its_owner<T>(
    runtime: u64,
    record: u64,
    delivery: u64,
    outcome: SWOutcome<T>,
    application_failed: bool,
)
    ensures
        ({
            let signal = job_signal(runtime, record, Some(delivery));
            let task = TaskView::<T> { outcome: None, signal };
            &&& signal.wf()
            &&& signal.status is None
            &&& signal.subscribers[0] == (Subscription { id: 1, token: delivery })
            &&& task.finished(outcome, application_failed).signal.status is Some
            &&& task.finished(outcome, application_failed).signal.subscribers.len() == 0
        }),
{
}

} // verus!
