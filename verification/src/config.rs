//! Host-supplied worker allocation for the three execution classes.
use vstd::prelude::*;

verus! {

/// The capacity class of CPU work. Classes have separate workers and queues.
///
/// An execution class does not express resource urgency or an operating-system
/// thread priority.
#[derive(Clone, Copy, Debug, PartialEq, Eq, Structural, Hash)]
pub enum SWExecutionClass {
    Low,
    Mid,
    High,
}

impl SWExecutionClass {
    /// Position of this class in every Low/Mid/High array.
    pub open spec fn slot(self) -> int {
        match self {
            SWExecutionClass::Low => 0,
            SWExecutionClass::Mid => 1,
            SWExecutionClass::High => 2,
        }
    }

    /// The class whose position is `slot`; High for everything past Mid.
    pub open spec fn at(slot: int) -> SWExecutionClass {
        if slot == 0 {
            SWExecutionClass::Low
        } else if slot == 1 {
            SWExecutionClass::Mid
        } else {
            SWExecutionClass::High
        }
    }

    /// The fixed order of class entries in every per-class array.
    pub fn all() -> (classes: [SWExecutionClass; 3])
        ensures
            classes@ == seq![SWExecutionClass::Low, SWExecutionClass::Mid, SWExecutionClass::High],
            forall|i: int| 0 <= i < 3 ==> (#[trigger] classes@[i]).slot() == i,
    {
        let classes = [SWExecutionClass::Low, SWExecutionClass::Mid, SWExecutionClass::High];
        assert(classes@ =~= seq![
            SWExecutionClass::Low,
            SWExecutionClass::Mid,
            SWExecutionClass::High,
        ]);
        classes
    }

    pub fn index(self) -> (index: usize)
        ensures
            index == self.slot(),
            index < 3,
    {
        match self {
            SWExecutionClass::Low => 0,
            SWExecutionClass::Mid => 1,
            SWExecutionClass::High => 2,
        }
    }
}

/// A requested operating-system priority for workers in one class.
///
/// These values correspond to relative priorities -1, 0 and +1 on Windows.
/// Priority setup is fallible; a platform that cannot apply a request rejects
/// runtime construction rather than silently ignoring it.
#[derive(Clone, Copy, Debug, PartialEq, Eq, Structural)]
pub enum SWThreadPriority {
    BelowNormal,
    Normal,
    AboveNormal,
}

impl SWThreadPriority {
    /// The relative priority that the Windows thread API takes.
    pub open spec fn relative_spec(self) -> int {
        match self {
            SWThreadPriority::BelowNormal => -1,
            SWThreadPriority::Normal => 0,
            SWThreadPriority::AboveNormal => 1,
        }
    }

    pub fn relative(self) -> (value: i32)
        ensures
            value == self.relative_spec(),
    {
        match self {
            SWThreadPriority::BelowNormal => -1,
            SWThreadPriority::Normal => 0,
            SWThreadPriority::AboveNormal => 1,
        }
    }
}

/// Host configuration for the workers of one execution class.
#[derive(Clone, Copy, Debug, PartialEq, Eq, Structural)]
pub struct SWWorkerConfig {
    worker_count: usize,
    requested_priority: Option<SWThreadPriority>,
}

impl SWWorkerConfig {
    pub closed spec fn count(self) -> nat {
        self.worker_count as nat
    }

    pub closed spec fn priority(self) -> Option<SWThreadPriority> {
        self.requested_priority
    }

    /// Configures a class with the given count and no OS priority request.
    ///
    /// The count is checked when the complete runtime configuration is built.
    pub fn new(worker_count: usize) -> (config: Self)
        ensures
            config.count() == worker_count,
            config.priority() is None,
    {
        SWWorkerConfig { worker_count, requested_priority: None }
    }

    /// Requests an OS priority for every worker in this class.
    pub fn with_priority(self, priority: SWThreadPriority) -> (config: Self)
        ensures
            config.count() == self.count(),
            config.priority() == Some(priority),
    {
        SWWorkerConfig { worker_count: self.worker_count, requested_priority: Some(priority) }
    }

    pub fn worker_count(self) -> (count: usize)
        ensures
            count == self.count(),
    {
        self.worker_count
    }

    pub fn requested_priority(self) -> (priority: Option<SWThreadPriority>)
        ensures
            priority == self.priority(),
    {
        self.requested_priority
    }
}

/// The configuration of a class is its worker count and its priority request:
/// two that agree in both are equal.
pub proof fn worker_config_is_its_parts(a: SWWorkerConfig, b: SWWorkerConfig)
    requires
        a.count() == b.count(),
        a.priority() == b.priority(),
    ensures
        a == b,
{
}

/// A validated, host-supplied aggregate worker budget and Low/Mid/High split.
///
/// Each class has at least one worker, so accepted asynchronous work always has
/// a worker route. The class counts may use less than the aggregate budget.
#[derive(Clone, Copy, Debug)]
pub struct SWRuntimeConfig {
    worker_budget: usize,
    low: SWWorkerConfig,
    mid: SWWorkerConfig,
    high: SWWorkerConfig,
}

/// Workers that a Low/Mid/High split asks for.
pub open spec fn configured_workers(classes: Seq<SWWorkerConfig>) -> nat {
    classes[0].count() + classes[1].count() + classes[2].count()
}

/// Why a budget and split are refused, if they are. The budget is looked at
/// first, then the classes in order, then the sum of the counts.
pub open spec fn config_error(budget: usize, classes: Seq<SWWorkerConfig>) -> Option<SWConfigError> {
    if budget == 0 {
        Some(SWConfigError::ZeroBudget)
    } else if classes[0].count() == 0 {
        Some(SWConfigError::ZeroWorkers(SWExecutionClass::Low))
    } else if classes[1].count() == 0 {
        Some(SWConfigError::ZeroWorkers(SWExecutionClass::Mid))
    } else if classes[2].count() == 0 {
        Some(SWConfigError::ZeroWorkers(SWExecutionClass::High))
    } else if configured_workers(classes) > usize::MAX {
        Some(SWConfigError::WorkerCountOverflow)
    } else if configured_workers(classes) > budget {
        Some(
            SWConfigError::BudgetExceeded {
                budget,
                configured: configured_workers(classes) as usize,
            },
        )
    } else {
        None
    }
}

impl SWRuntimeConfig {
    pub closed spec fn budget(self) -> usize {
        self.worker_budget
    }

    /// The Low/Mid/High split.
    pub closed spec fn classes(self) -> Seq<SWWorkerConfig> {
        seq![self.low, self.mid, self.high]
    }

    /// Holds of every configuration that `new` returns.
    pub open spec fn valid(self) -> bool {
        &&& self.classes().len() == 3
        &&& config_error(self.budget(), self.classes()) is None
    }

    /// Validates the aggregate budget and class split before worker startup.
    pub fn new(worker_budget: usize, classes: [SWWorkerConfig; 3]) -> (result: Result<
        Self,
        SWConfigError,
    >)
        ensures
            match result {
                Ok(config) => {
                    &&& config_error(worker_budget, classes@) is None
                    &&& config.valid()
                    &&& config.budget() == worker_budget
                    &&& config.classes() == classes@
                },
                Err(error) => config_error(worker_budget, classes@) == Some(error),
            },
    {
        if worker_budget == 0 {
            return Err(SWConfigError::ZeroBudget);
        }
        let order = SWExecutionClass::all();
        let mut index: usize = 0;
        while index < 3
            invariant
                index <= 3,
                worker_budget != 0,
                order@ == seq![
                    SWExecutionClass::Low,
                    SWExecutionClass::Mid,
                    SWExecutionClass::High,
                ],
                forall|i: int| 0 <= i < index ==> (#[trigger] classes@[i]).count() != 0,
            decreases 3 - index,
        {
            if classes[index].worker_count == 0 {
                return Err(SWConfigError::ZeroWorkers(order[index]));
            }
            index += 1;
        }
        assert(classes@[0].count() != 0 && classes@[1].count() != 0 && classes@[2].count() != 0);
        let first: Option<usize> = classes[0].worker_count.checked_add(classes[1].worker_count);
        let configured: usize = match first {
            None => {
                return Err(SWConfigError::WorkerCountOverflow);
            },
            Some(sum) => match sum.checked_add(classes[2].worker_count) {
                None => {
                    return Err(SWConfigError::WorkerCountOverflow);
                },
                Some(sum) => sum,
            },
        };
        if configured > worker_budget {
            return Err(SWConfigError::BudgetExceeded { budget: worker_budget, configured });
        }
        let config = SWRuntimeConfig {
            worker_budget,
            low: classes[0],
            mid: classes[1],
            high: classes[2],
        };
        assert(config.classes() =~= classes@);
        Ok(config)
    }

    pub fn worker_budget(&self) -> (budget: usize)
        ensures
            budget == self.budget(),
    {
        self.worker_budget
    }

    pub fn workers_for(&self, class: SWExecutionClass) -> (config: SWWorkerConfig)
        ensures
            config == self.classes()[class.slot()],
    {
        match class {
            SWExecutionClass::Low => self.low,
            SWExecutionClass::Mid => self.mid,
            SWExecutionClass::High => self.high,
        }
    }

    /// Number of workers that startup waits for.
    pub fn expected_workers(&self) -> (count: usize)
        requires
            self.valid(),
        ensures
            count == configured_workers(self.classes()),
            count <= self.budget(),
    {
        self.low.worker_count + self.mid.worker_count + self.high.worker_count
    }
}

/// Invalid aggregate worker allocation.
#[derive(Clone, Copy, Debug, PartialEq, Eq, Structural)]
pub enum SWConfigError {
    ZeroBudget,
    ZeroWorkers(SWExecutionClass),
    WorkerCountOverflow,
    BudgetExceeded { budget: usize, configured: usize },
}

/// Every accepted configuration gives each class a worker and stays within
/// its budget.
pub proof fn config_serves_every_class(config: SWRuntimeConfig, class: SWExecutionClass)
    requires
        config.valid(),
    ensures
        config.classes()[class.slot()].count() >= 1,
        configured_workers(config.classes()) <= config.budget(),
{
}

} // verus!
