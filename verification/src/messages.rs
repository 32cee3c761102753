//! What errors say.
use crate::admission::SWOwnedConfigError;
use crate::builder::SWBuildError;
use crate::config::SWConfigError;
use crate::config::SWExecutionClass;
use crate::config::SWThreadPriority;
use crate::cost::SWLimitError;
use crate::cost::SWReservationError;
use crate::lifecycle::SWShutdownError;
use crate::notification::SWNotifyError;
use crate::platform::SWWorkerSetupError;
use crate::progress::SWProgressWaitError;
use vstd::prelude::*;
use vstd::string::StringExecFns;

verus! {

/// One decimal digit.
pub open spec fn digit(n: nat) -> Seq<char> {
    if n == 0 {
        "0"@
    } else if n == 1 {
        "1"@
    } else if n == 2 {
        "2"@
    } else if n == 3 {
        "3"@
    } else if n == 4 {
        "4"@
    } else if n == 5 {
        "5"@
    } else if n == 6 {
        "6"@
    } else if n == 7 {
        "7"@
    } else if n == 8 {
        "8"@
    } else {
        "9"@
    }
}

/// A number in decimal notation, without leading zeros.
pub open spec fn decimal(n: nat) -> Seq<char>
    decreases n,
{
    if n < 10 {
        digit(n)
    } else {
        decimal(n / 10) + digit(n % 10)
    }
}

fn write_digit(n: usize) -> (text: &'static str)
    requires
        n < 10,
    ensures
        text@ == digit(n as nat),
{
    match n {
        0 => "0",
        1 => "1",
        2 => "2",
        3 => "3",
        4 => "4",
        5 => "5",
        6 => "6",
        7 => "7",
        8 => "8",
        _ => "9",
    }
}

fn write_decimal(n: usize) -> (text: String)
    ensures
        text@ == decimal(n as nat),
    decreases n,
{
    if n < 10 {
        String::from_str(write_digit(n))
    } else {
        let mut text = write_decimal(n / 10);
        text.append(write_digit(n % 10));
        text
    }
}

impl SWExecutionClass {
    pub open spec fn name(self) -> Seq<char> {
        match self {
            SWExecutionClass::Low => "Low"@,
            SWExecutionClass::Mid => "Mid"@,
            SWExecutionClass::High => "High"@,
        }
    }

    fn write_name(self) -> (text: &'static str)
        ensures
            text@ == self.name(),
    {
        match self {
            SWExecutionClass::Low => "Low",
            SWExecutionClass::Mid => "Mid",
            SWExecutionClass::High => "High",
        }
    }
}

impl SWThreadPriority {
    pub open spec fn name(self) -> Seq<char> {
        match self {
            SWThreadPriority::BelowNormal => "BelowNormal"@,
            SWThreadPriority::Normal => "Normal"@,
            SWThreadPriority::AboveNormal => "AboveNormal"@,
        }
    }

    fn write_name(self) -> (text: &'static str)
        ensures
            text@ == self.name(),
    {
        match self {
            SWThreadPriority::BelowNormal => "BelowNormal",
            SWThreadPriority::Normal => "Normal",
            SWThreadPriority::AboveNormal => "AboveNormal",
        }
    }
}

impl SWLimitError {
    pub open spec fn text(self) -> Seq<char> {
        match self {
            SWLimitError::ZeroRequiredCapacity => "required pipeline capacity needs protected metadata"@,
            SWLimitError::MetadataOverflow => "combined metadata capacity overflows usize"@,
            SWLimitError::OrdinaryTargetExceedsCeiling => "ordinary byte target exceeds hard ceiling"@,
        }
    }

    pub fn describe(&self) -> (text: String)
        ensures
            text@ == self.text(),
    {
        String::from_str(
            match self {
                SWLimitError::ZeroRequiredCapacity => "required pipeline capacity needs protected metadata",
                SWLimitError::MetadataOverflow => "combined metadata capacity overflows usize",
                SWLimitError::OrdinaryTargetExceedsCeiling => "ordinary byte target exceeds hard ceiling",
            },
        )
    }
}

impl SWReservationError {
    pub open spec fn text(self) -> Seq<char> {
        match self {
            SWReservationError::Full => "reservation capacity is currently full"@,
            SWReservationError::TooLarge => "reservation cannot fit configured capacity"@,
            SWReservationError::Closed => "reservation admission is closed"@,
            SWReservationError::InsufficientCredits => "reservation has insufficient free credits"@,
        }
    }

    pub fn describe(&self) -> (text: String)
        ensures
            text@ == self.text(),
    {
        String::from_str(
            match self {
                SWReservationError::Full => "reservation capacity is currently full",
                SWReservationError::TooLarge => "reservation cannot fit configured capacity",
                SWReservationError::Closed => "reservation admission is closed",
                SWReservationError::InsufficientCredits => "reservation has insufficient free credits",
            },
        )
    }
}

impl SWShutdownError {
    pub open spec fn text(self) -> Seq<char> {
        match self {
            SWShutdownError::ExecutionContext => "shutdown cannot join from an execution context"@,
            SWShutdownError::LiveOwners => "close and clean live owners before runtime shutdown"@,
            SWShutdownError::LiveWorkSets => "seal and drain work sets before runtime shutdown"@,
            SWShutdownError::LiveExternal => "settle external outcomes and physical accesses before runtime shutdown"@,
            SWShutdownError::PendingControl => "service pending demand updates before runtime shutdown"@,
        }
    }

    pub fn describe(&self) -> (text: String)
        ensures
            text@ == self.text(),
    {
        String::from_str(
            match self {
                SWShutdownError::ExecutionContext => "shutdown cannot join from an execution context",
                SWShutdownError::LiveOwners => "close and clean live owners before runtime shutdown",
                SWShutdownError::LiveWorkSets => "seal and drain work sets before runtime shutdown",
                SWShutdownError::LiveExternal => "settle external outcomes and physical accesses before runtime shutdown",
                SWShutdownError::PendingControl => "service pending demand updates before runtime shutdown",
            },
        )
    }
}

impl SWNotifyError {
    pub open spec fn text(self) -> Seq<char> {
        match self {
            SWNotifyError::Disabled => "notification Disabled"@,
            SWNotifyError::Full => "notification Full"@,
            SWNotifyError::Closed => "notification Closed"@,
            SWNotifyError::ForeignSource => "notification ForeignSource"@,
            SWNotifyError::ForeignStamp => "notification ForeignStamp"@,
            SWNotifyError::InvalidContext => "notification InvalidContext"@,
            SWNotifyError::Faulted => "notification Faulted"@,
            SWNotifyError::CounterExhausted => "notification CounterExhausted"@,
        }
    }

    pub fn describe(&self) -> (text: String)
        ensures
            text@ == self.text(),
    {
        String::from_str(
            match self {
                SWNotifyError::Disabled => "notification Disabled",
                SWNotifyError::Full => "notification Full",
                SWNotifyError::Closed => "notification Closed",
                SWNotifyError::ForeignSource => "notification ForeignSource",
                SWNotifyError::ForeignStamp => "notification ForeignStamp",
                SWNotifyError::InvalidContext => "notification InvalidContext",
                SWNotifyError::Faulted => "notification Faulted",
                SWNotifyError::CounterExhausted => "notification CounterExhausted",
            },
        )
    }
}

impl SWProgressWaitError {
    pub open spec fn text(self) -> Seq<char> {
        match self {
            SWProgressWaitError::InvalidContext => "passive progress wait from a CPU or live-owner context"@,
        }
    }

    pub fn describe(&self) -> (text: String)
        ensures
            text@ == self.text(),
    {
        String::from_str(
            match self {
                SWProgressWaitError::InvalidContext => "passive progress wait from a CPU or live-owner context",
            },
        )
    }
}

impl SWConfigError {
    pub open spec fn text(self) -> Seq<char> {
        match self {
            SWConfigError::ZeroBudget => "worker budget must be nonzero"@,
            SWConfigError::ZeroWorkers(class) => class.name() + " class has no workers"@,
            SWConfigError::WorkerCountOverflow => "worker counts overflow usize"@,
            SWConfigError::BudgetExceeded { budget, configured } => "worker budget is "@ + decimal(budget as nat) + ", but class counts require "@ + decimal(configured as nat),
        }
    }

    pub fn describe(&self) -> (text: String)
        ensures
            text@ == self.text(),
    {
        match self {
            SWConfigError::ZeroBudget => String::from_str("worker budget must be nonzero"),
            SWConfigError::ZeroWorkers(class) => {
                let mut text = String::from_str(class.write_name());
                text.append(" class has no workers");
                text
            },
            SWConfigError::WorkerCountOverflow => String::from_str("worker counts overflow usize"),
            SWConfigError::BudgetExceeded { budget, configured } => {
                let mut text = String::from_str("worker budget is ");
                text.append(write_decimal(*budget).as_str());
                text.append(", but class counts require ");
                text.append(write_decimal(*configured).as_str());
                text
            },
        }
    }
}

impl SWOwnedConfigError {
    pub open spec fn text(self) -> Seq<char> {
        match self {
            SWOwnedConfigError::ZeroRecords => "owned record capacity must be nonzero"@,
            SWOwnedConfigError::ZeroRunnable(class) => class.name() + " runnable capacity must be nonzero"@,
            SWOwnedConfigError::ZeroHandoff(class) => class.name() + " handoff capacity must be nonzero"@,
        }
    }

    pub fn describe(&self) -> (text: String)
        ensures
            text@ == self.text(),
    {
        match self {
            SWOwnedConfigError::ZeroRecords => String::from_str("owned record capacity must be nonzero"),
            SWOwnedConfigError::ZeroRunnable(class) => {
                let mut text = String::from_str(class.write_name());
                text.append(" runnable capacity must be nonzero");
                text
            },
            SWOwnedConfigError::ZeroHandoff(class) => {
                let mut text = String::from_str(class.write_name());
                text.append(" handoff capacity must be nonzero");
                text
            },
        }
    }
}

/// `source` is what the platform's own error says.
impl<S> SWWorkerSetupError<S> {
    pub open spec fn text(self, source: Seq<char>) -> Seq<char> {
        match self {
            SWWorkerSetupError::UnsupportedPriority(priority) => "worker priority "@ + priority.name() + " is unsupported on this platform"@,
            SWWorkerSetupError::System(_) => "worker priority setup failed: "@ + source,
        }
    }

    pub fn describe(&self, source: &str) -> (text: String)
        ensures
            text@ == self.text(source@),
    {
        match self {
            SWWorkerSetupError::UnsupportedPriority(priority) => {
                let mut text = String::from_str("worker priority ");
                text.append(priority.write_name());
                text.append(" is unsupported on this platform");
                text
            },
            SWWorkerSetupError::System(_) => {
                let mut text = String::from_str("worker priority setup failed: ");
                text.append(source);
                text
            },
        }
    }
}

/// `source` is what the platform's own error says.
impl<S> SWBuildError<S> {
    pub open spec fn text(self, source: Seq<char>) -> Seq<char> {
        match self {
            SWBuildError::Capacity(error) => "invalid capacity policy: "@ + error.text(),
            SWBuildError::OwnedWorkDisabled => "capacity and demand configuration require owned work limits"@,
            SWBuildError::Spawn { class, worker, source: _ } => "could not spawn "@ + class.name() + " worker "@ + decimal(worker as nat) + ": "@ + source,
            SWBuildError::Setup { class, worker, source: setup } => "could not configure "@ + class.name() + " worker "@ + decimal(worker as nat) + ": "@ + setup.text(source),
            SWBuildError::Hook { class, worker, source: _ } => "setup hook failed for "@ + class.name() + " worker "@ + decimal(worker as nat) + ": "@ + source,
            SWBuildError::SetupPanicked { class, worker } => "setup hook panicked for "@ + class.name() + " worker "@ + decimal(worker as nat),
        }
    }

    pub fn describe(&self, source: &str) -> (text: String)
        ensures
            text@ == self.text(source@),
    {
        match self {
            SWBuildError::Capacity(error) => {
                let mut text = String::from_str("invalid capacity policy: ");
                text.append(error.describe().as_str());
                text
            },
            SWBuildError::OwnedWorkDisabled => String::from_str("capacity and demand configuration require owned work limits"),
            SWBuildError::Spawn { class, worker, source: _ } => {
                let mut text = String::from_str("could not spawn ");
                text.append(class.write_name());
                text.append(" worker ");
                text.append(write_decimal(*worker).as_str());
                text.append(": ");
                text.append(source);
                text
            },
            SWBuildError::Setup { class, worker, source: setup } => {
                let mut text = String::from_str("could not configure ");
                text.append(class.write_name());
                text.append(" worker ");
                text.append(write_decimal(*worker).as_str());
                text.append(": ");
                text.append(setup.describe(source).as_str());
                text
            },
            SWBuildError::Hook { class, worker, source: _ } => {
                let mut text = String::from_str("setup hook failed for ");
                text.append(class.write_name());
                text.append(" worker ");
                text.append(write_decimal(*worker).as_str());
                text.append(": ");
                text.append(source);
                text
            },
            SWBuildError::SetupPanicked { class, worker } => {
                let mut text = String::from_str("setup hook panicked for ");
                text.append(class.write_name());
                text.append(" worker ");
                text.append(write_decimal(*worker).as_str());
                text
            },
        }
    }
}

} // verus!
