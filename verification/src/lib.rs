//! Coordination core of a host-driven CPU runtime.
//!
//! Every type here is a plain state machine: admission, dependencies, claims,
//! capacity accounting, owner delivery and host notification are transitions on
//! values, with no lock, thread or callback inside. A concurrent shell keeps
//! each state behind its own lock, performs the actions that a transition hands
//! back, and feeds the outcome in again.
use vstd::prelude::*;

pub mod access;
pub mod activation;
pub mod admission;
pub mod admissions;
pub mod buffers;
pub mod builder;
pub mod callers;
pub mod channel;
pub mod config;
pub mod context;
pub mod cost;
pub mod credits;
pub mod delivery;
pub mod dependency;
pub mod diagnostics;
pub mod dispatch;
pub mod external;
pub mod fates;
pub mod group;
pub mod guarantees;
pub mod history;
pub mod jobs;
pub mod lane;
pub mod lifecycle;
pub mod messages;
pub mod notification;
pub mod outcomes;
pub mod owner;
pub mod platform;
pub mod policy;
pub mod producer;
pub mod progress;
pub mod promises;
pub mod pumps;
pub mod queue;
pub mod reservation;
pub mod runtime;
pub mod scheduler;
pub mod scope;
pub mod slots;
pub mod startup;
pub mod steps;
pub mod storage;
pub mod sums;
pub mod supply;
pub mod task;
pub mod wakes;

pub use crate::access::SWExternalAccessOptions;
pub use crate::access::SWExternalAccessRejected;
pub use crate::access::SWExternalPrepared;
pub use crate::access::SWExternalActivationRejected;
pub use crate::access::SWExternalAccess;
pub use crate::access::SWExternalOrphan;
pub use crate::admission::SWOwnedLimits;
pub use crate::admission::SWOwnedConfigError;
pub use crate::admission::SWSpawnError;
pub use crate::admission::SWCallerEligibility;
pub use crate::admission::SWDependencyPolicy;
pub use crate::admission::SWSpawnOptions;
pub use crate::admission::SWSpawnRejected;
pub use crate::admission::SWDiscoveryError;
pub use crate::builder::SWBuildError;
pub use crate::builder::SWRuntimeBuilder;
pub use crate::config::SWExecutionClass;
pub use crate::config::SWThreadPriority;
pub use crate::config::SWWorkerConfig;
pub use crate::config::SWRuntimeConfig;
pub use crate::config::SWConfigError;
pub use crate::context::SWExecutionError;
pub use crate::cost::SWCost;
pub use crate::cost::SWLimits;
pub use crate::cost::SWLimitError;
pub use crate::cost::SWReservationError;
pub use crate::delivery::SWDeliveryStatus;
pub use crate::delivery::SWCancelResult;
pub use crate::diagnostics::SWTraceEvent;
pub use crate::diagnostics::SWTraceJob;
pub use crate::diagnostics::SWTrace;
pub use crate::lane::SWLane;
pub use crate::lane::SWGroup;
pub use crate::lane::SWBatchError;
pub use crate::lane::SWBatch;
pub use crate::lane::SWWorkOptions;
pub use crate::lane::SWDeliveryOptions;
pub use crate::lane::SWDeliverySpawnRejected;
pub use crate::lane::SWStageOptions;
pub use crate::lane::SWStageRejected;
pub use crate::lifecycle::SWShutdownError;
pub use crate::lifecycle::SWWorkSetProgress;
pub use crate::notification::SWNotifyLimits;
pub use crate::notification::SWNotifyError;
pub use crate::notification::SWNotifyFault;
pub use crate::notification::SWNotifyRejected;
pub use crate::notification::SWNotifyStamp;
pub use crate::notification::SWNotifyRoute;
pub use crate::notification::SWNotifyBinding;
pub use crate::owner::SWOwnerError;
pub use crate::owner::SWOwnerRejected;
pub use crate::owner::SWReadyAccess;
pub use crate::owner::SWPhase;
pub use crate::owner::SWPumpMode;
pub use crate::owner::SWPumpBudget;
pub use crate::owner::SWPumpReport;
pub use crate::owner::SWOwnerControl;
pub use crate::owner::SWDelivery;
pub use crate::owner::SWDeliveryControl;
pub use crate::owner::SWDeliveryTicket;
pub use crate::owner::SWPreparedDelivery;
pub use crate::owner::SWOwner;
pub use crate::owner::SWOwnerSender;
pub use crate::platform::SWWorkerSetupError;
pub use crate::producer::SWProducerControl;
pub use crate::producer::SWExternalOptions;
pub use crate::producer::SWExternalRejected;
pub use crate::producer::SWProducer;
pub use crate::progress::SWRuntimeState;
pub use crate::progress::SWSchedulerProgress;
pub use crate::progress::SWOwnerProgress;
pub use crate::progress::SWWorkSetsProgress;
pub use crate::progress::SWExternalProgress;
pub use crate::progress::SWProgress;
pub use crate::progress::SWProgressWait;
pub use crate::progress::SWProgressWaitError;
pub use crate::progress::SWWake;
pub use crate::queue::SWPriority;
pub use crate::reservation::SWCapacityUsage;
pub use crate::reservation::SWReservationPool;
pub use crate::reservation::SWReservation;
pub use crate::reservation::SWByteLease;
pub use crate::runtime::SWRuntime;
pub use crate::scope::SWPanic;
pub use crate::scope::SWBranchOutcome;
pub use crate::scope::SWJoinRejected;
pub use crate::scope::SWBatchRejected;
pub use crate::task::SWOutcome;
pub use crate::task::SWTaskStatus;
pub use crate::task::SWWaitError;
pub use crate::task::SWCompletion;
pub use crate::task::SWDemandError;
pub use crate::task::SWTask;
pub use crate::task::SWOutcomeRef;
pub use crate::task::SWShared;
pub use crate::task::SWThenRejected;
pub use crate::task::SWRetained;

verus! {

} // verus!
