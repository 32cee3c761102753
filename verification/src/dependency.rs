//! Typed continuations over already admitted prerequisites.
use crate::admission::SWDependencyPolicy;
use crate::admission::SWSpawnError;
use crate::admission::SWSpawnOptions;
use crate::admission::SWSpawnRejected;
use crate::context::Context;
use crate::lane::can_count;
use crate::lane::submitted;
use crate::lane::OwnedJob;
use crate::lane::OwnedRoute;
use crate::lane::SWLane;
use crate::owner::signal_attached;
use crate::runtime::RuntimeView;
use crate::runtime::SWRuntime;
use crate::runtime::WorkLease;
use crate::steps::Activated;
use crate::steps::SubmitRequest;
use crate::task::Attachment;
use crate::task::SWCompletion;
use crate::task::SWOutcome;
use crate::task::SWShared;
use crate::task::SharedCell;
use crate::task::SWTask;
use crate::task::SWThenRejected;
use vstd::prelude::*;

verus! {

/// Runs a success-only continuation on the value that its input moved out.
pub fn run_unique_success<T, U, F: FnOnce(T) -> U>(task: SWTask<T>, operation: F) -> (value: U)
    requires
        task@.wf(),
        task@.outcome is Some && task@.outcome->0 is Success,
        operation.requires((task@.outcome->0->Success_0,)),
    ensures
        operation.ensures((task@.outcome->0->Success_0,), value),
{
    let mut task = task;
    match task.try_take() {
        Some(SWOutcome::Success(value)) => operation(value),
        _ => unreached(),
    }
}

/// Runs an outcome-aware continuation on the outcome that its input moved out.
pub fn run_unique_outcome<T, U, F: FnOnce(SWOutcome<T>) -> U>(task: SWTask<T>, operation: F) -> (
value: U)
    requires
        task@.wf(),
        task@.outcome is Some,
        operation.requires((task@.outcome->0,)),
    ensures
        operation.ensures((task@.outcome->0,), value),
{
    let mut task = task;
    match task.try_take() {
        Some(outcome) => operation(outcome),
        None => unreached(),
    }
}

/// Runs a continuation on a shared immutable input.
pub fn run_shared<T, U, F: FnOnce(SWShared<T>) -> U>(shared: SWShared<T>, operation: F) -> (value:
    U)
    requires
        operation.requires((shared,)),
    ensures
        operation.ensures((shared,), value),
{
    operation(shared)
}

/// The route of a continuation: one prerequisite, which is its input.
pub open spec fn then_route(options: SWSpawnOptions, policy: SWDependencyPolicy) -> OwnedRoute {
    OwnedRoute { prerequisites: 1, policy, ..OwnedRoute::plain(options) }
}

/// What submitting a continuation does. An input whose value was taken is
/// refused before admission; a refusal returns input and operation, and has
/// accepted nothing.
pub open spec fn continued<I, F, U>(
    before: RuntimeView,
    after: RuntimeView,
    request: SubmitRequest,
    available: bool,
    input: I,
    operation: F,
    fallible: bool,
    result: Result<OwnedJob<(I, F), U>, SWThenRejected<I, F>>,
) -> bool {
    match result {
        Ok(job) => {
            &&& available
            &&& submitted(
                before,
                after,
                request,
                WorkLease::Unset,
                (input, operation),
                fallible,
                Ok::<OwnedJob<(I, F), U>, SWSpawnRejected<(I, F)>>(job),
            )
        },
        Err(rejected) => {
            &&& rejected.input == input
            &&& rejected.operation == operation
            &&& rejected.options == request.options
            &&& after == (if available {
                before.after_refused_submit(request, WorkLease::Unset)
            } else {
                before
            })
            &&& Some(rejected.reason) == (if !available {
                Some(SWSpawnError::Consumed)
            } else {
                before.submit_error(request, WorkLease::Unset)
            })
        },
    }
}

impl<T> SWTask<T> {
    fn continue_on<F, U>(
        self,
        lane: &SWLane,
        runtime: &mut SWRuntime,
        context: Option<Context>,
        options: SWSpawnOptions,
        policy: SWDependencyPolicy,
        operation: F,
        fallible: bool,
    ) -> (result: Result<OwnedJob<(SWTask<T>, F), U>, SWThenRejected<SWTask<T>, F>>)
        requires
            old(runtime).wf(),
            can_count(old(runtime)@),
        ensures
            final(runtime).wf(),
            continued(
                old(runtime)@,
                final(runtime)@,
                lane.request(then_route(options, policy), context),
                self@.input_available(),
                self,
                operation,
                fallible,
                result,
            ),
    {
        if !self.continuation_input_available() {
            return Err(
                SWThenRejected {
                    reason: SWSpawnError::Consumed,
                    input: self,
                    operation,
                    options,
                },
            );
        }
        let route = OwnedRoute { prerequisites: 1, policy, ..OwnedRoute::new(options) };
        match lane.submit_owned(
            runtime,
            context,
            route,
            WorkLease::Unset,
            (self, operation),
            fallible,
        ) {
            Ok(job) => Ok(job),
            Err(rejected) => Err(SWThenRejected::from(rejected)),
        }
    }

    /// Admits a successor transferring the unique input on acceptance.
    /// Suppresses the operation unless the prerequisite succeeded.
    /// Any returned value, including `Result::Err`, counts as success.
    pub fn try_then<F, U>(
        self,
        lane: &SWLane,
        runtime: &mut SWRuntime,
        context: Option<Context>,
        options: SWSpawnOptions,
        operation: F,
    ) -> (result: Result<OwnedJob<(SWTask<T>, F), U>, SWThenRejected<SWTask<T>, F>>)
        requires
            old(runtime).wf(),
            can_count(old(runtime)@),
        ensures
            final(runtime).wf(),
            continued(
                old(runtime)@,
                final(runtime)@,
                lane.request(then_route(options, SWDependencyPolicy::SuccessOnly), context),
                self@.input_available(),
                self,
                operation,
                false,
                result,
            ),
    {
        let policy = SWDependencyPolicy::SuccessOnly;
        self.continue_on(lane, runtime, context, options, policy, operation, false)
    }

    /// Admits a successor transferring the unique input on acceptance.
    /// Suppresses the operation unless the prerequisite succeeded.
    /// A returned `Err` marks application failure while retaining its typed error.
    pub fn try_then_fallible<F, U>(
        self,
        lane: &SWLane,
        runtime: &mut SWRuntime,
        context: Option<Context>,
        options: SWSpawnOptions,
        operation: F,
    ) -> (result: Result<OwnedJob<(SWTask<T>, F), U>, SWThenRejected<SWTask<T>, F>>)
        requires
            old(runtime).wf(),
            can_count(old(runtime)@),
        ensures
            final(runtime).wf(),
            continued(
                old(runtime)@,
                final(runtime)@,
                lane.request(then_route(options, SWDependencyPolicy::SuccessOnly), context),
                self@.input_available(),
                self,
                operation,
                true,
                result,
            ),
    {
        let policy = SWDependencyPolicy::SuccessOnly;
        self.continue_on(lane, runtime, context, options, policy, operation, true)
    }

    /// Admits a successor transferring the unique input on acceptance.
    /// Runs even if the prerequisite failed; the operation inspects its outcome.
    /// Any returned value, including `Result::Err`, counts as success.
    pub fn try_then_outcome<F, U>(
        self,
        lane: &SWLane,
        runtime: &mut SWRuntime,
        context: Option<Context>,
        options: SWSpawnOptions,
        operation: F,
    ) -> (result: Result<OwnedJob<(SWTask<T>, F), U>, SWThenRejected<SWTask<T>, F>>)
        requires
            old(runtime).wf(),
            can_count(old(runtime)@),
        ensures
            final(runtime).wf(),
            continued(
                old(runtime)@,
                final(runtime)@,
                lane.request(then_route(options, SWDependencyPolicy::OutcomeAware), context),
                self@.input_available(),
                self,
                operation,
                false,
                result,
            ),
    {
        let policy = SWDependencyPolicy::OutcomeAware;
        self.continue_on(lane, runtime, context, options, policy, operation, false)
    }

    /// Admits a successor transferring the unique input on acceptance.
    /// Runs even if the prerequisite failed; the operation inspects its outcome.
    /// A returned `Err` marks application failure while retaining its typed error.
    pub fn try_then_outcome_fallible<F, U>(
        self,
        lane: &SWLane,
        runtime: &mut SWRuntime,
        context: Option<Context>,
        options: SWSpawnOptions,
        operation: F,
    ) -> (result: Result<OwnedJob<(SWTask<T>, F), U>, SWThenRejected<SWTask<T>, F>>)
        requires
            old(runtime).wf(),
            can_count(old(runtime)@),
        ensures
            final(runtime).wf(),
            continued(
                old(runtime)@,
                final(runtime)@,
                lane.request(then_route(options, SWDependencyPolicy::OutcomeAware), context),
                self@.input_available(),
                self,
                operation,
                true,
                result,
            ),
    {
        let policy = SWDependencyPolicy::OutcomeAware;
        self.continue_on(lane, runtime, context, options, policy, operation, true)
    }
}

impl<T> SWShared<T> {
    fn continue_on<F, U>(
        self,
        cell: &SharedCell<T>,
        lane: &SWLane,
        runtime: &mut SWRuntime,
        context: Option<Context>,
        options: SWSpawnOptions,
        policy: SWDependencyPolicy,
        operation: F,
        fallible: bool,
    ) -> (result: Result<OwnedJob<(SWShared<T>, F), U>, SWThenRejected<SWShared<T>, F>>)
        requires
            old(runtime).wf(),
            can_count(old(runtime)@),
            self.of(*cell),
        ensures
            final(runtime).wf(),
            continued(
                old(runtime)@,
                final(runtime)@,
                lane.request(then_route(options, policy), context),
                cell@.input_available(),
                self,
                operation,
                fallible,
                result,
            ),
    {
        if !self.continuation_input_available(cell) {
            return Err(
                SWThenRejected {
                    reason: SWSpawnError::Consumed,
                    input: self,
                    operation,
                    options,
                },
            );
        }
        let route = OwnedRoute { prerequisites: 1, policy, ..OwnedRoute::new(options) };
        match lane.submit_owned(
            runtime,
            context,
            route,
            WorkLease::Unset,
            (self, operation),
            fallible,
        ) {
            Ok(job) => Ok(job),
            Err(rejected) => Err(SWThenRejected::from(rejected)),
        }
    }

    /// Admits a successor with shared immutable input.
    /// Suppresses the operation unless the prerequisite succeeded.
    /// Any returned value, including `Result::Err`, counts as success.
    pub fn try_then<F, U>(
        self,
        cell: &SharedCell<T>,
        lane: &SWLane,
        runtime: &mut SWRuntime,
        context: Option<Context>,
        options: SWSpawnOptions,
        operation: F,
    ) -> (result: Result<OwnedJob<(SWShared<T>, F), U>, SWThenRejected<SWShared<T>, F>>)
        requires
            old(runtime).wf(),
            can_count(old(runtime)@),
            self.of(*cell),
        ensures
            final(runtime).wf(),
            continued(
                old(runtime)@,
                final(runtime)@,
                lane.request(then_route(options, SWDependencyPolicy::SuccessOnly), context),
                cell@.input_available(),
                self,
                operation,
                false,
                result,
            ),
    {
        let policy = SWDependencyPolicy::SuccessOnly;
        self.continue_on(cell, lane, runtime, context, options, policy, operation, false)
    }

    /// Admits a successor with shared immutable input.
    /// Suppresses the operation unless the prerequisite succeeded.
    /// A returned `Err` marks application failure while retaining its typed error.
    pub fn try_then_fallible<F, U>(
        self,
        cell: &SharedCell<T>,
        lane: &SWLane,
        runtime: &mut SWRuntime,
        context: Option<Context>,
        options: SWSpawnOptions,
        operation: F,
    ) -> (result: Result<OwnedJob<(SWShared<T>, F), U>, SWThenRejected<SWShared<T>, F>>)
        requires
            old(runtime).wf(),
            can_count(old(runtime)@),
            self.of(*cell),
        ensures
            final(runtime).wf(),
            continued(
                old(runtime)@,
                final(runtime)@,
                lane.request(then_route(options, SWDependencyPolicy::SuccessOnly), context),
                cell@.input_available(),
                self,
                operation,
                true,
                result,
            ),
    {
        let policy = SWDependencyPolicy::SuccessOnly;
        self.continue_on(cell, lane, runtime, context, options, policy, operation, true)
    }

    /// Admits a successor with shared immutable input.
    /// Runs even if the prerequisite failed; the operation inspects its outcome.
    /// Any returned value, including `Result::Err`, counts as success.
    pub fn try_then_outcome<F, U>(
        self,
        cell: &SharedCell<T>,
        lane: &SWLane,
        runtime: &mut SWRuntime,
        context: Option<Context>,
        options: SWSpawnOptions,
        operation: F,
    ) -> (result: Result<OwnedJob<(SWShared<T>, F), U>, SWThenRejected<SWShared<T>, F>>)
        requires
            old(runtime).wf(),
            can_count(old(runtime)@),
            self.of(*cell),
        ensures
            final(runtime).wf(),
            continued(
                old(runtime)@,
                final(runtime)@,
                lane.request(then_route(options, SWDependencyPolicy::OutcomeAware), context),
                cell@.input_available(),
                self,
                operation,
                false,
                result,
            ),
    {
        let policy = SWDependencyPolicy::OutcomeAware;
        self.continue_on(cell, lane, runtime, context, options, policy, operation, false)
    }

    /// Admits a successor with shared immutable input.
    /// Runs even if the prerequisite failed; the operation inspects its outcome.
    /// A returned `Err` marks application failure while retaining its typed error.
    pub fn try_then_outcome_fallible<F, U>(
        self,
        cell: &SharedCell<T>,
        lane: &SWLane,
        runtime: &mut SWRuntime,
        context: Option<Context>,
        options: SWSpawnOptions,
        operation: F,
    ) -> (result: Result<OwnedJob<(SWShared<T>, F), U>, SWThenRejected<SWShared<T>, F>>)
        requires
            old(runtime).wf(),
            can_count(old(runtime)@),
            self.of(*cell),
        ensures
            final(runtime).wf(),
            continued(
                old(runtime)@,
                final(runtime)@,
                lane.request(then_route(options, SWDependencyPolicy::OutcomeAware), context),
                cell@.input_available(),
                self,
                operation,
                true,
                result,
            ),
    {
        let policy = SWDependencyPolicy::OutcomeAware;
        self.continue_on(cell, lane, runtime, context, options, policy, operation, true)
    }
}

/// Attaches one prerequisite of an accepted job. An edge is delivered once
/// whether it is attached before or after completion: a pending prerequisite
/// keeps the job's identity, and one that has ended activates the job at once.
pub fn attach_prerequisite(runtime: &mut SWRuntime, record: u64, prerequisite: &mut SWCompletion) -> (
activated: Option<Activated>)
    requires
        old(runtime).wf(),
        old(prerequisite)@.wf(),
        old(prerequisite)@.status is None ==> old(prerequisite)@.next_subscriber < u64::MAX,
    ensures
        final(runtime).wf(),
        final(prerequisite)@.wf(),
        final(prerequisite)@ == signal_attached(old(prerequisite)@, record),
        match (old(prerequisite)@.status, old(runtime)@.owned) {
            (Some(status), Some(owned)) => {
                &&& activated == Some(owned.activation(record, status))
                &&& final(runtime)@ == (RuntimeView {
                    owned: Some(owned.activated(record, status)),
                    ..old(runtime)@
                })
            },
            (Some(_), None) => {
                activated == Some(Activated::Ignored) && final(runtime)@ == old(runtime)@
            },
            (None, _) => activated is None && final(runtime)@ == old(runtime)@,
        },
{
    match prerequisite.subscribe(record) {
        Attachment::Ready(status) => Some(runtime.activate_prerequisite(record, status)),
        Attachment::Registered(_) => None,
    }
}

} // verus!
