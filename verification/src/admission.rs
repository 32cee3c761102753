//! Bounded owned metadata and runnable admission.
use crate::config::SWExecutionClass;
use crate::cost::SWReservationError;
use crate::reservation::SWByteLease;
use crate::task::outcome_of;
use crate::task::Decision;
use crate::task::SWOutcome;
use crate::task::SWRetained;
use crate::task::SWTaskStatus;
use crate::task::TaskView;
use vstd::prelude::*;

verus! {

/// Independent owned-work capacities. Array entries are Low, Mid, High.
/// `records` counts waiting, ready, handed, running, and finalizing jobs;
/// `edges` counts registered prerequisites through terminal detachment.
/// `runnable` counts ready and handed jobs, excluding running jobs.
/// `handoff` counts wrappers offered to the backend until they return,
/// including a wrapper whose job is running. Zero edges disables dependent
/// submissions. Saturated caller execution can exceed only the runnable
/// limit; it still needs record and edge credits.
#[derive(Clone, Copy, Debug)]
pub struct SWOwnedLimits {
    pub records: usize,
    pub edges: usize,
    pub runnable: [usize; 3],
    pub handoff: [usize; 3],
}

impl SWOwnedLimits {
    /// Some class has no capacity in this table.
    pub open spec fn error(
        records: usize,
        runnable: Seq<usize>,
        handoff: Seq<usize>,
    ) -> Option<SWOwnedConfigError> {
        if records == 0 {
            Some(SWOwnedConfigError::ZeroRecords)
        } else if runnable[0] == 0 {
            Some(SWOwnedConfigError::ZeroRunnable(SWExecutionClass::Low))
        } else if handoff[0] == 0 {
            Some(SWOwnedConfigError::ZeroHandoff(SWExecutionClass::Low))
        } else if runnable[1] == 0 {
            Some(SWOwnedConfigError::ZeroRunnable(SWExecutionClass::Mid))
        } else if handoff[1] == 0 {
            Some(SWOwnedConfigError::ZeroHandoff(SWExecutionClass::Mid))
        } else if runnable[2] == 0 {
            Some(SWOwnedConfigError::ZeroRunnable(SWExecutionClass::High))
        } else if handoff[2] == 0 {
            Some(SWOwnedConfigError::ZeroHandoff(SWExecutionClass::High))
        } else {
            None
        }
    }

    pub fn new(records: usize, edges: usize, runnable: [usize; 3], handoff: [usize; 3]) -> (result:
        Result<Self, SWOwnedConfigError>)
        ensures
            match result {
                Ok(limits) => {
                    &&& Self::error(records, runnable@, handoff@) is None
                    &&& limits == (SWOwnedLimits { records, edges, runnable, handoff })
                },
                Err(error) => Self::error(records, runnable@, handoff@) == Some(error),
            },
    {
        if records == 0 {
            return Err(SWOwnedConfigError::ZeroRecords);
        }
        let classes = SWExecutionClass::all();
        let mut index: usize = 0;
        while index < 3
            invariant
                index <= 3,
                records > 0,
                forall|c: int|
                    0 <= c < 3 ==> (#[trigger] classes@[c]) == SWExecutionClass::at(c),
                forall|c: int| 0 <= c < index ==> #[trigger] runnable@[c] != 0 && handoff@[c] != 0,
            decreases 3 - index,
        {
            let class = classes[index];
            if runnable[index] == 0 {
                return Err(SWOwnedConfigError::ZeroRunnable(class));
            }
            if handoff[index] == 0 {
                return Err(SWOwnedConfigError::ZeroHandoff(class));
            }
            index += 1;
        }
        Ok(SWOwnedLimits { records, edges, runnable, handoff })
    }

    pub fn runnable_for(self, class: SWExecutionClass) -> (limit: usize)
        ensures
            limit == self.runnable@[class.slot()],
    {
        self.runnable[class.index()]
    }

    pub fn handoff_for(self, class: SWExecutionClass) -> (limit: usize)
        ensures
            limit == self.handoff@[class.slot()],
    {
        self.handoff[class.index()]
    }
}

#[derive(Clone, Copy, Debug, PartialEq, Eq, Structural)]
pub enum SWOwnedConfigError {
    ZeroRecords,
    ZeroRunnable(SWExecutionClass),
    ZeroHandoff(SWExecutionClass),
}

/// Why an owned job could not be admitted. Rejected inputs remain with caller.
#[derive(Clone, Copy, Debug, PartialEq, Eq, Structural)]
pub enum SWSpawnError {
    Full,
    TooLarge,
    Closed,
    Disabled,
    InvalidContext,
    InvalidGroup,
    /// The promised delivery belongs to another runtime or was already used.
    InvalidDelivery,
    InvalidPriority,
    InvalidReservation,
    Consumed,
}

/// Whether a retained job may run on an explicitly participating caller.
#[derive(Clone, Copy, Debug, PartialEq, Eq, Structural)]
pub enum SWCallerEligibility {
    WorkerOnly,
    CallerEligible,
}

/// Whether prerequisite failure suppresses a successor's closure.
#[derive(Clone, Copy, Debug, PartialEq, Eq, Structural)]
pub enum SWDependencyPolicy {
    SuccessOnly,
    OutcomeAware,
}

/// Execution constraints for an owned job.
#[derive(Clone, Copy, Debug, PartialEq, Eq, Structural)]
pub struct SWSpawnOptions {
    pub eligibility: SWCallerEligibility,
}

impl Default for SWSpawnOptions {
    fn default() -> (options: Self)
        ensures
            options.eligibility == SWCallerEligibility::WorkerOnly,
    {
        SWSpawnOptions { eligibility: SWCallerEligibility::WorkerOnly }
    }
}

/// An owned admission rejection, preserving the uninvoked operation and options.
pub struct SWSpawnRejected<F> {
    pub reason: SWSpawnError,
    pub operation: F,
    pub options: SWSpawnOptions,
}

/// Why a discovery or root lease of a work set was refused.
#[derive(Clone, Copy, Debug, PartialEq, Eq, Structural)]
pub enum SWDiscoveryError {
    Full,
    Closed,
    Cancelled,
}

pub open spec fn reservation_refusal(error: SWReservationError) -> SWSpawnError {
    match error {
        SWReservationError::Full => SWSpawnError::Full,
        SWReservationError::InsufficientCredits => SWSpawnError::Full,
        SWReservationError::TooLarge => SWSpawnError::TooLarge,
        SWReservationError::Closed => SWSpawnError::Closed,
    }
}

pub fn map_reservation_error(error: SWReservationError) -> (mapped: SWSpawnError)
    ensures
        mapped == reservation_refusal(error),
{
    match error {
        SWReservationError::Full | SWReservationError::InsufficientCredits => SWSpawnError::Full,
        SWReservationError::TooLarge => SWSpawnError::TooLarge,
        SWReservationError::Closed => SWSpawnError::Closed,
    }
}

pub open spec fn discovery_refusal(error: SWDiscoveryError) -> SWSpawnError {
    match error {
        SWDiscoveryError::Full => SWSpawnError::Full,
        SWDiscoveryError::Closed => SWSpawnError::Closed,
        SWDiscoveryError::Cancelled => SWSpawnError::Closed,
    }
}

pub fn map_discovery_error(error: SWDiscoveryError) -> (mapped: SWSpawnError)
    ensures
        mapped == discovery_refusal(error),
{
    match error {
        SWDiscoveryError::Full => SWSpawnError::Full,
        SWDiscoveryError::Closed | SWDiscoveryError::Cancelled => SWSpawnError::Closed,
    }
}

/// Runs an operation that takes no argument.
pub fn call_once<F: FnOnce() -> T, T>(operation: F) -> (value: T)
    requires
        operation.requires(()),
    ensures
        operation.ensures((), value),
{
    operation()
}

/// Runs the operation of a stage. Its declared bytes follow the returned value.
pub fn run_stage<F: FnOnce() -> T, T>(operation: F, bytes: Option<SWByteLease>) -> (retained:
    SWRetained<T>)
    requires
        operation.requires(()),
    ensures
        operation.ensures((), retained.held()),
        retained.lease() == bytes,
{
    SWRetained::new(operation(), bytes)
}

/// Every returned value counts as success.
pub fn never_fail<T>(_value: &T) -> (failed: bool)
    ensures
        !failed,
{
    false
}

/// A returned error counts as application failure.
pub fn result_is_err<T, E>(result: &Result<T, E>) -> (failed: bool)
    ensures
        failed == (*result is Err),
{
    match result {
        Ok(_) => false,
        Err(_) => true,
    }
}

/// How a job that returned this value is judged: only a fallible one fails by a
/// returned error.
pub fn application_failed<T, E>(fallible: bool, value: &Result<T, E>) -> (failed: bool)
    ensures
        failed == (fallible && *value is Err),
{
    fallible && result_is_err(value)
}

/// A fallible job that returns an error publishes `ApplicationFailed` and keeps
/// its typed error; every other returned value publishes `Succeeded`, and so
/// does an error that a plain job returned.
pub proof fn errors_fail_fallible_jobs_only<T, E>(
    pending: TaskView<Result<T, E>>,
    fallible: bool,
    value: Result<T, E>,
)
    requires
        pending.wf(),
        pending.signal.status is None,
    ensures
        ({
            let failed = fallible && value is Err;
            let task = pending.finished(SWOutcome::Success(value), failed);
            &&& outcome_of(Decision::Run, Some(value), failed) == (
                SWOutcome::Success(value),
                failed,
            )
            &&& task.outcome == Some(SWOutcome::Success(value))
            &&& task.signal.status == Some(
                if fallible && value is Err {
                    SWTaskStatus::ApplicationFailed
                } else {
                    SWTaskStatus::Succeeded
                },
            )
        }),
{
}

/// Why a reserved owner delivery cannot be committed.
#[derive(Clone, Copy, Debug, PartialEq, Eq, Structural)]
pub enum TicketCommitError {
    Closed,
    AlreadyCommitted,
}

pub open spec fn commit_refusal(error: TicketCommitError) -> SWSpawnError {
    match error {
        TicketCommitError::Closed => SWSpawnError::Closed,
        TicketCommitError::AlreadyCommitted => SWSpawnError::InvalidDelivery,
    }
}

/// A promised owner delivery, as admission sees it.
#[derive(Clone, Copy, Debug, PartialEq, Eq, Structural)]
pub struct DeliveryClaim {
    pub runtime: u64,
    /// The delivery's capacity was charged when it was reserved.
    pub accounted: bool,
    /// Why it could not be committed now, if it could not.
    pub refusal: Option<TicketCommitError>,
}

impl DeliveryClaim {
    /// Why this delivery keeps work of a runtime from being admitted, if it does.
    pub open spec fn error(self, runtime: u64) -> Option<SWSpawnError> {
        if self.runtime != runtime {
            Some(SWSpawnError::InvalidDelivery)
        } else {
            match self.refusal {
                Some(error) => Some(commit_refusal(error)),
                None => None,
            }
        }
    }

    pub fn check(&self, runtime: u64) -> (error: Option<SWSpawnError>)
        ensures
            error == self.error(runtime),
    {
        if self.runtime != runtime {
            return Some(SWSpawnError::InvalidDelivery);
        }
        match self.refusal {
            Some(TicketCommitError::Closed) => Some(SWSpawnError::Closed),
            Some(TicketCommitError::AlreadyCommitted) => Some(SWSpawnError::InvalidDelivery),
            None => None,
        }
    }
}

} // verus!
