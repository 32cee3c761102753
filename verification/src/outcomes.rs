//! How results end, and what configurations, waits and refusals come to.
use crate::admission::commit_refusal;
use crate::admission::discovery_refusal;
use crate::admission::reservation_refusal;
use crate::admission::SWDiscoveryError;
use crate::admission::SWOwnedConfigError;
use crate::admission::SWOwnedLimits;
use crate::admission::SWSpawnError;
use crate::admission::TicketCommitError;
use crate::config::config_error;
use crate::config::SWConfigError;
use crate::config::SWExecutionClass;
use crate::config::SWThreadPriority;
use crate::config::SWWorkerConfig;
use crate::cost::SWCost;
use crate::cost::SWLimitError;
use crate::cost::SWReservationError;
use crate::external::in_state;
use crate::external::of_kind;
use crate::external::PhysicalEntry;
use crate::external::PhysicalState;
use crate::external::RegistryView;
use crate::jobs::at;
use crate::jobs::external_at;
use crate::jobs::external_present;
use crate::jobs::found;
use crate::jobs::record_at;
use crate::jobs::record_ok;
use crate::jobs::SchedulerView;
use crate::jobs::Stage;
use crate::lifecycle::SWShutdownError;
use crate::messages::decimal;
use crate::messages::digit;
use crate::policy::within_by_numbers;
use crate::producer::cancellation;
use crate::producer::undecided;
use crate::producer::unfulfilled;
use crate::progress::owing;
use crate::progress::SWOwnerProgress;
use crate::progress::SWSchedulerProgress;
use crate::progress::wait_outcome;
use crate::queue::SWPriority;
use crate::reservation::Accounts;
use crate::reservation::claim_error;
use crate::reservation::Kind;
use crate::reservation::SWReservation;
use crate::runtime::RuntimeView;
use crate::runtime::SWRuntime;
use crate::steps::external_found;
use crate::sums::total;
use crate::sums::total_is_filtered;
use crate::supply::draw_error;
use crate::task::Decision;
use crate::task::demand_result;
use crate::task::outcome_of;
use crate::task::ProducerIdentity;
use crate::task::published;
use crate::task::SignalStep;
use crate::task::SignalView;
use crate::task::suppressed;
use crate::task::SWDemandError;
use crate::task::SWOutcome;
use crate::task::SWTaskStatus;
use crate::task::SWWaitError;
use crate::task::TaskStep;
use crate::task::TaskView;
use crate::task::wait_step;
use crate::task::WaitStep;
use vstd::prelude::*;

verus! {

/// What becomes of a job that ran: its value is its outcome, and it succeeded
/// unless the application says that the value means failure; without a value it
/// panicked.
pub proof fn runs_end_by_what_they_return<T>(returned: Option<T>, failed: bool)
    ensures
        ({
            let settled = outcome_of(Decision::Run, returned, failed);
            let status = published(settled.0, settled.1);
            &&& returned matches Some(value) ==> settled.0 == SWOutcome::Success(value)
            &&& returned is None ==> settled.0 is Panicked
            &&& status == SWTaskStatus::Succeeded <==> returned is Some && !failed
            &&& status == SWTaskStatus::ApplicationFailed <==> returned is Some && failed
            &&& status == SWTaskStatus::Panicked <==> returned is None
        }),
{
}

/// What becomes of a job that never ran: it ends for the reason for which it was
/// suppressed, whatever a run would have given. A prerequisite whose application
/// failed counts as a failed prerequisite.
pub proof fn suppressed_jobs_end_by_their_reason<T>(
    status: SWTaskStatus,
    returned: Option<T>,
    failed: bool,
)
    ensures
        ({
            let settled = outcome_of(Decision::Suppress(status), returned, failed);
            let end = published(settled.0, settled.1);
            &&& !(settled.0 is Success)
            &&& status == SWTaskStatus::Cancelled || status == SWTaskStatus::PrerequisiteFailed
                || status == SWTaskStatus::Panicked || status == SWTaskStatus::Abandoned ==> end
                == status
            &&& status == SWTaskStatus::ApplicationFailed ==> end
                == SWTaskStatus::PrerequisiteFailed
            &&& status == SWTaskStatus::Succeeded ==> end == SWTaskStatus::Abandoned
        }),
        published(suppressed::<T>(status), failed) == published(suppressed::<T>(status), !failed),
{
}

/// The status of a result says how it ended: different ends have different
/// statuses, and only a value can have succeeded.
pub proof fn statuses_tell_outcomes_apart<T>(a: SWOutcome<T>, b: SWOutcome<T>, failed: bool)
    ensures
        published(a, failed) == published(b, failed) <==> {
            ||| a is Success && b is Success
            ||| a is Cancelled && b is Cancelled
            ||| a is PrerequisiteFailed && b is PrerequisiteFailed
            ||| a is Panicked && b is Panicked
            ||| a is Abandoned && b is Abandoned
        },
        a is Cancelled ==> published(a, failed) == SWTaskStatus::Cancelled,
        a is PrerequisiteFailed ==> published(a, failed) == SWTaskStatus::PrerequisiteFailed,
        a is Panicked ==> published(a, failed) == SWTaskStatus::Panicked,
        a is Abandoned ==> published(a, failed) == SWTaskStatus::Abandoned,
{
}

/// Edges of a completion: a subscription adds one behind the others until the
/// publication, which hands all of them out in order and leaves none; detaching
/// takes the one that it names, wherever it is.
pub proof fn edges_wait_for_publication(
    signal: SignalView,
    token: u64,
    status: SWTaskStatus,
    i: int,
)
    requires
        signal.wf(),
        signal.status is None,
        signal.next_subscriber < u64::MAX,
        0 <= i < signal.subscribers.len(),
    ensures
        ({
            let w = signal.after(SignalStep::Subscribe(token));
            &&& w.subscribers.len() == signal.subscribers.len() + 1
            &&& w.subscribers[i] == signal.subscribers[i]
            &&& w.subscribers.last().token == token
            &&& w.subscribers.last().id == signal.next_subscriber
            &&& w.status is None
            &&& signal.handed_out(SignalStep::Subscribe(token)).len() == 0
        }),
        ({
            let w = signal.after(SignalStep::Publish(status));
            &&& signal.can(SignalStep::Publish(status))
            &&& w.status == Some(status)
            &&& w.subscribers.len() == 0
            &&& signal.handed_out(SignalStep::Publish(status)) == signal.subscribers
            &&& !w.can(SignalStep::Publish(status))
        }),
        ({
            let w = signal.after(SignalStep::Detach(signal.subscribers[i].id));
            &&& w.subscribers == signal.subscribers.remove(i)
            &&& w.status is None
            &&& signal.handed_out(SignalStep::Detach(signal.subscribers[i].id)).len() == 0
        }),
{
    let id = signal.subscribers[i].id;
    let k = signal.edge_slot(id);
    assert(signal.attached(id));
    assert(0 <= k < signal.subscribers.len() && signal.subscribers[k].id == id);
    if k < i {
        assert(signal.subscribers[k].id < signal.subscribers[i].id);
    } else if i < k {
        assert(signal.subscribers[i].id < signal.subscribers[k].id);
    }
}

/// Over any life of a result, its value can be had exactly from its publication
/// to the first time it is taken; a continuation can be attached until then.
pub proof fn values_are_there_until_taken<T>(
    task: TaskView<T>,
    outcome: SWOutcome<T>,
    failed: bool,
    step: SignalStep,
)
    requires
        task.wf(),
        task.signal.status is None,
        !(step is Publish),
    ensures
        task.input_available() && task.outcome is None,
        task.can(TaskStep::Finish(outcome, failed)),
        ({
            let done = task.after(TaskStep::Finish(outcome, failed));
            let later = done.after(TaskStep::Signal(step));
            let taken = later.after(TaskStep::Take);
            &&& done.outcome == Some(outcome) && later.outcome == Some(outcome)
            &&& done.input_available() && later.input_available()
            &&& done.signal.status == Some(published(outcome, failed))
            &&& later.signal.status == done.signal.status
            &&& taken.outcome is None && !taken.input_available()
            &&& taken.signal.status == done.signal.status
            &&& !done.can(TaskStep::Finish(outcome, failed)) && !taken.can(
                TaskStep::Finish(outcome, failed),
            )
        }),
{
}

/// A wait inside work is refused whatever the state; any other wait is done once
/// there is a status, even when its time is over, and times out only without
/// one.
pub proof fn waits_end_with_a_status_or_in_time(
    status: Option<SWTaskStatus>,
    forbidden: bool,
    expired: bool,
)
    ensures
        wait_step(status, forbidden, expired) is Err <==> forbidden,
        forbidden ==> wait_step(status, forbidden, expired) == Err::<WaitStep, SWWaitError>(
            SWWaitError::ExecutionContext,
        ),
        !forbidden && status is Some ==> wait_step(status, forbidden, expired) == Ok::<
            WaitStep,
            SWWaitError,
        >(WaitStep::Done(status->0)),
        !forbidden && status is None ==> (wait_step(status, forbidden, expired) == Ok::<
            WaitStep,
            SWWaitError,
        >(WaitStep::TimedOut) <==> expired),
        !forbidden && status is None ==> (wait_step(status, forbidden, expired) == Ok::<
            WaitStep,
            SWWaitError,
        >(WaitStep::Park) <==> !expired),
{
}

/// A wait for progress returns at once if anything changed since it was
/// observed, even when its time is over; otherwise it ends only in time.
pub proof fn progress_waits_return_on_change(current: u64, observed: u64, expired: bool)
    ensures
        wait_outcome(current, observed, expired) == Some(true) <==> current != observed,
        wait_outcome(current, observed, expired) == Some(false) <==> current == observed
            && expired,
        wait_outcome(current, observed, expired) is None <==> current == observed && !expired,
{
}

/// Owed notifications add up, and stop at the largest number instead of starting
/// over.
pub proof fn owed_notifications_add_up(count: u64, n: int, m: int)
    requires
        n >= 0,
        m >= 0,
    ensures
        count <= owing(count, n),
        count + n <= u64::MAX ==> owing(count, n) == count + n,
        count + n > u64::MAX ==> owing(count, n) == u64::MAX,
        owing(owing(count, n), m) == owing(count, n + m),
{
}

/// The snapshot of two routes counts what both count, whichever comes first.
pub proof fn snapshots_add_up(a: SWOwnerProgress, b: SWOwnerProgress)
    requires
        a.routes + b.routes <= usize::MAX,
        a.waiting + b.waiting <= usize::MAX,
        a.ready + b.ready <= usize::MAX,
        a.claimed + b.claimed <= usize::MAX,
        a.cleanup + b.cleanup <= usize::MAX,
    ensures
        a.can_add(b),
        a.plus(b) == b.plus(a),
        a.plus(b).routes == a.routes + b.routes,
        a.plus(b).waiting == a.waiting + b.waiting,
        a.plus(b).ready == a.ready + b.ready,
        a.plus(b).claimed == a.claimed + b.claimed,
        a.plus(b).cleanup == a.cleanup + b.cleanup,
        a.plus(SWOwnerProgress::none()) == a,
{
}

/// A scheduler without any job, wrapper, callback or update is idle unless it
/// reports something full.
pub proof fn idle_means_nothing_is_there(p: SWSchedulerProgress)
    requires
        p.idle(),
    ensures
        p.waiting == 0 && p.ready == 0 && p.deferred == 0 && p.handed == 0 && p.running == 0
            && p.finalizing == 0,
        !p.demand_pending && p.provider_callbacks == 0 && !p.records_full && !p.edges_full,
        p.handoff_wrappers@[0] == 0 && p.handoff_wrappers@[1] == 0 && p.handoff_wrappers@[2] == 0,
        !p.runnable_full@[0] && !p.runnable_full@[1] && !p.runnable_full@[2],
        !p.handoff_full@[0] && !p.handoff_full@[1] && !p.handoff_full@[2],
{
}

/// A refusal by a capacity policy, a lease or a promise is passed on: what may
/// pass with time stays so, and what is closed or too large stays so.
pub proof fn refusals_are_passed_on(
    reservation: SWReservationError,
    discovery: SWDiscoveryError,
    ticket: TicketCommitError,
)
    ensures
        reservation_refusal(reservation) == SWSpawnError::Full <==> reservation
            == SWReservationError::Full || reservation == SWReservationError::InsufficientCredits,
        reservation_refusal(reservation) == SWSpawnError::TooLarge <==> reservation
            == SWReservationError::TooLarge,
        reservation_refusal(reservation) == SWSpawnError::Closed <==> reservation
            == SWReservationError::Closed,
        discovery_refusal(discovery) == SWSpawnError::Full <==> discovery
            == SWDiscoveryError::Full,
        discovery_refusal(discovery) == SWSpawnError::Closed <==> discovery
            == SWDiscoveryError::Closed || discovery == SWDiscoveryError::Cancelled,
        commit_refusal(ticket) == SWSpawnError::Closed <==> ticket == TicketCommitError::Closed,
        commit_refusal(ticket) == SWSpawnError::InvalidDelivery <==> ticket
            == TicketCommitError::AlreadyCommitted,
{
}

/// What a draw is refused for. Without a pipeline and a policy, only bytes are:
/// nothing counts them. A pipeline of another runtime is invalid; one of this
/// runtime pays from its own balance, in every component. Without a pipeline the
/// ordinary part of the policy decides.
pub proof fn draws_are_paid(
    books: Option<Accounts>,
    runtime: u64,
    window: &SWReservation,
    cost: SWCost,
)
    ensures
        ({
            let error = draw_error(books, runtime, Some(window), cost);
            let home = window.identity() == runtime;
            let balance = books->0.banks[window.bank_slot()]->0.balance;
            let covered = cost.records <= balance.records && cost.edges <= balance.edges
                && cost.deliveries <= balance.deliveries && cost.bytes <= balance.bytes;
            &&& error is None <==> home && covered
            &&& error == Some(SWSpawnError::InvalidReservation) <==> !home
            &&& error == Some(SWSpawnError::Full) <==> home && !covered
        }),
        books is None ==> (draw_error(books, runtime, None, cost) is None <==> cost.bytes == 0),
        books is None && cost.bytes > 0 ==> draw_error(books, runtime, None, cost) == Some(
            SWSpawnError::Disabled,
        ),
        books matches Some(accounts) ==> (draw_error(books, runtime, None, cost) is None
            <==> claim_error(accounts.limits, accounts.usage, cost, Kind::Ordinary, true) is None),
{
    within_by_numbers(cost, books->0.banks[window.bank_slot()]->0.balance);
}

/// A physical access is granted exactly while fewer of its kind are held than
/// there are places; where there are no places at all it is disabled, and where
/// there are none of its kind it can never fit.
pub proof fn free_accesses_are_granted(v: RegistryView, required: bool)
    ensures
        ({
            let error = v.reserve_error(required);
            let places = if required {
                v.required_capacity
            } else {
                v.ordinary_capacity
            };
            let held = v.entries.filter(|e: PhysicalEntry| e.required == required).len();
            &&& error is None <==> v.ordinary_capacity > 0 && held < places
            &&& error == Some(SWSpawnError::Disabled) <==> v.ordinary_capacity == 0
            &&& error == Some(SWSpawnError::TooLarge) <==> v.ordinary_capacity > 0 && places == 0
            &&& error == Some(SWSpawnError::Full) <==> v.ordinary_capacity > 0 && places > 0 && held
                >= places
        }),
{
    total_is_filtered(
        v.entries,
        of_kind(required),
        |e: PhysicalEntry| e.required == required,
    );
}

/// What a registry keeps of its accesses: a new one is prepared and has its own
/// identity, a change of state concerns the one that it names, and only the one
/// that is given up leaves.
pub proof fn accesses_are_kept_apart(v: RegistryView, required: bool, i: int, state: PhysicalState)
    requires
        v.wf(),
        v.next_id < u64::MAX,
        0 <= i < v.entries.len(),
    ensures
        ({
            let e = v.entries[i];
            &&& v.reserved(required).entries == v.entries.push(
                PhysicalEntry {
                    id: v.next_id as u64,
                    state: PhysicalState::Prepared,
                    required,
                },
            )
            &&& v.reserved(required).next_id == v.next_id + 1
            &&& v.restated(e.id, state).entries == v.entries.update(
                i,
                PhysicalEntry { id: e.id, state, required: e.required },
            )
            &&& v.restated(e.id, state).next_id == v.next_id
            &&& v.without(e.id).entries == v.entries.remove(i)
            &&& v.without(e.id).next_id == v.next_id
        }),
{
    let e = v.entries[i];
    assert(v.entry_at(i, e.id));
    let k = v.slot(e.id);
    assert(v.entry_at(k, e.id));
    if k < i {
        assert(v.entries[k].id < v.entries[i].id);
    } else if i < k {
        assert(v.entries[i].id < v.entries[k].id);
    }
}

/// Cancellation takes effect on what nobody has claimed yet: a job that has not
/// started, or a provider-owned result that is not settling. It ends as
/// cancelled. After abandonment there is nothing left to cancel.
pub proof fn cancellation_takes_the_unclaimed(runtime: RuntimeView, owned: SchedulerView, i: int)
    requires
        runtime.owned == Some(owned),
        owned.wf(),
        0 <= i,
    ensures
        i < owned.records.len() ==> ({
            let r = owned.records[i];
            let status = cancellation(runtime, r.id);
            &&& status is Some <==> r.stage != Stage::Running && r.stage != Stage::Finalizing
            &&& status is Some ==> status == Some(SWTaskStatus::Cancelled)
        }),
        i < owned.external.len() ==> ({
            let e = owned.external[i];
            let status = cancellation(runtime, e.id);
            &&& status is Some <==> !e.settling && !owned.abandoned
            &&& status is Some ==> status == Some(SWTaskStatus::Cancelled)
            &&& undecided(runtime, e.id) <==> !e.settling && !owned.abandoned
        }),
{
    if i < owned.records.len() {
        let r = owned.records[i];
        assert(record_at(owned.records, i, r.id));
        found(owned.records, i, r.id);
        assert(record_ok(r, owned.abandoned));
        if external_present(owned.external, r.id) {
            let k = owned.external_slot(r.id);
            assert(external_at(owned.external, k, r.id));
            assert(owned.records[i].id != owned.external[k].id);
        }
    }
    if i < owned.external.len() {
        let e = owned.external[i];
        assert(external_at(owned.external, i, e.id));
        external_found(owned, i, e.id);
        if owned.has(e.id) {
            let k = at(owned.records, e.id);
            assert(record_at(owned.records, k, e.id));
            assert(owned.records[k].id != owned.external[i].id);
        }
    }
}

/// A promise that its provider drops is cancelled; one that shutdown gives up is
/// abandoned.
pub proof fn dropped_promises_do_not_succeed<T>(abandonment: bool, failed: bool)
    ensures
        published(unfulfilled::<T>(abandonment), failed) == SWTaskStatus::Abandoned
            <==> abandonment,
        published(unfulfilled::<T>(abandonment), failed) == SWTaskStatus::Cancelled
            <==> !abandonment,
{
}

/// Limits of owned work are accepted exactly if every capacity that must not be
/// zero is not; otherwise the refusal names the first class, and of it the
/// window before the handoff, that has none.
pub proof fn owned_limits_need_capacity(
    records: usize,
    runnable: Seq<usize>,
    handoff: Seq<usize>,
    class: SWExecutionClass,
)
    requires
        runnable.len() == 3,
        handoff.len() == 3,
    ensures
        ({
            let error = SWOwnedLimits::error(records, runnable, handoff);
            let c: int = match class {
                SWExecutionClass::Low => 0,
                SWExecutionClass::Mid => 1,
                SWExecutionClass::High => 2,
            };
            let before = records > 0 && forall|d: int|
                0 <= d < c ==> (#[trigger] runnable[d]) > 0 && handoff[d] > 0;
            &&& error is None <==> records > 0 && forall|d: int|
                0 <= d < 3 ==> (#[trigger] runnable[d]) > 0 && handoff[d] > 0
            &&& error == Some(SWOwnedConfigError::ZeroRecords) <==> records == 0
            &&& error == Some(SWOwnedConfigError::ZeroRunnable(class)) <==> before && runnable[c]
                == 0
            &&& error == Some(SWOwnedConfigError::ZeroHandoff(class)) <==> before && runnable[c]
                > 0 && handoff[c] == 0
        }),
{
    assert(runnable[0] > 0 || runnable[0] == 0);
    assert(runnable[1] > 0 || runnable[1] == 0);
    assert(runnable[2] > 0 || runnable[2] == 0);
}

/// A worker configuration is accepted exactly if it has a budget, every class
/// has a worker, and all workers together fit the budget; the refusal says what
/// is missing, or by how much it is exceeded.
pub proof fn workers_fit_their_budget(budget: usize, classes: Seq<SWWorkerConfig>)
    requires
        classes.len() == 3,
    ensures
        ({
            let error = config_error(budget, classes);
            let all = classes[0].count() + classes[1].count() + classes[2].count();
            let manned = classes[0].count() > 0 && classes[1].count() > 0 && classes[2].count()
                > 0;
            &&& error is None <==> budget > 0 && manned && all <= budget
            &&& error == Some(SWConfigError::ZeroBudget) <==> budget == 0
            &&& error == Some(SWConfigError::ZeroWorkers(SWExecutionClass::Low)) <==> budget > 0
                && classes[0].count() == 0
            &&& error == Some(SWConfigError::ZeroWorkers(SWExecutionClass::Mid)) <==> budget > 0
                && classes[0].count() > 0 && classes[1].count() == 0
            &&& error == Some(SWConfigError::ZeroWorkers(SWExecutionClass::High)) <==> budget > 0
                && classes[0].count() > 0 && classes[1].count() > 0 && classes[2].count() == 0
            &&& error == Some(SWConfigError::WorkerCountOverflow) <==> budget > 0 && manned && all
                > usize::MAX
            &&& error is Some && error->0 is BudgetExceeded ==> error == Some(
                SWConfigError::BudgetExceeded { budget, configured: all as usize },
            ) && budget < all <= usize::MAX
        }),
{
}

/// Thread priorities are one apart, around the normal one.
pub proof fn priorities_are_relative_to_normal(priority: SWThreadPriority)
    ensures
        priority.relative_spec() < 0 <==> priority == SWThreadPriority::BelowNormal,
        priority.relative_spec() == 0 <==> priority == SWThreadPriority::Normal,
        priority.relative_spec() > 0 <==> priority == SWThreadPriority::AboveNormal,
        -1 <= priority.relative_spec() <= 1,
{
}

/// The number that a row of decimal digits stands for.
pub open spec fn number(text: Seq<char>) -> int
    decreases text.len(),
{
    if text.len() == 0 {
        0
    } else {
        10 * number(text.drop_last()) + (text.last() as int - '0' as int)
    }
}

/// A number in a message reads back as itself, in decimal digits without a
/// leading zero.
pub proof fn numbers_read_back(n: nat)
    ensures
        number(decimal(n)) == n,
        decimal(n).len() > 0,
        forall|k: int| 0 <= k < decimal(n).len() ==> '0' <= #[trigger] decimal(n)[k] <= '9',
        n > 0 ==> decimal(n)[0] != '0',
    decreases n,
{
    digit_reads_back(n % 10);
    if n < 10 {
        assert(digit(n).drop_last() =~= Seq::<char>::empty());
        assert(number(Seq::<char>::empty()) == 0);
        assert(n % 10 == n);
    } else {
        numbers_read_back(n / 10);
        assert(decimal(n).drop_last() =~= decimal(n / 10));
        assert(decimal(n).last() == digit(n % 10)[0]);
    }
}

proof fn digit_reads_back(n: nat)
    requires
        n < 10,
    ensures
        digit(n).len() == 1,
        digit(n)[0] as int - '0' as int == n,
        '0' <= digit(n)[0] <= '9',
        n > 0 ==> digit(n)[0] != '0',
{
    reveal_strlit("0");
    reveal_strlit("1");
    reveal_strlit("2");
    reveal_strlit("3");
    reveal_strlit("4");
    reveal_strlit("5");
    reveal_strlit("6");
    reveal_strlit("7");
    reveal_strlit("8");
    reveal_strlit("9");
}

/// Different errors read differently.
pub proof fn limit_messages_differ(a: SWLimitError, b: SWLimitError)
    ensures
        a.text() == b.text() <==> a == b,
{
    reveal_strlit("required pipeline capacity needs protected metadata");
    reveal_strlit("combined metadata capacity overflows usize");
    reveal_strlit("ordinary byte target exceeds hard ceiling");
    assert(a.text().len() == b.text().len() ==> a == b);
}

/// Different refusals read differently.
pub proof fn reservation_messages_differ(a: SWReservationError, b: SWReservationError)
    ensures
        a.text() == b.text() <==> a == b,
{
    reveal_strlit("reservation capacity is currently full");
    reveal_strlit("reservation cannot fit configured capacity");
    reveal_strlit("reservation admission is closed");
    reveal_strlit("reservation has insufficient free credits");
    assert(a.text().len() == b.text().len() ==> a == b);
}

/// Different blockers read differently.
pub proof fn shutdown_messages_differ(a: SWShutdownError, b: SWShutdownError)
    ensures
        a.text() == b.text() <==> a == b,
{
    reveal_strlit("shutdown cannot join from an execution context");
    reveal_strlit("close and clean live owners before runtime shutdown");
    reveal_strlit("seal and drain work sets before runtime shutdown");
    reveal_strlit("settle external outcomes and physical accesses before runtime shutdown");
    reveal_strlit("service pending demand updates before runtime shutdown");
    assert(a.text().len() == b.text().len() ==> a == b);
}

/// Classes and priorities have different names.
pub proof fn names_differ(
    a: SWExecutionClass,
    b: SWExecutionClass,
    p: SWThreadPriority,
    q: SWThreadPriority,
)
    ensures
        a.name() == b.name() <==> a == b,
        p.name() == q.name() <==> p == q,
        a.name()[0] == (match a {
            SWExecutionClass::Low => 'L',
            SWExecutionClass::Mid => 'M',
            SWExecutionClass::High => 'H',
        }),
        p.name()[0] == (match p {
            SWThreadPriority::BelowNormal => 'B',
            SWThreadPriority::Normal => 'N',
            SWThreadPriority::AboveNormal => 'A',
        }),
{
    reveal_strlit("Low");
    reveal_strlit("Mid");
    reveal_strlit("High");
    reveal_strlit("BelowNormal");
    reveal_strlit("Normal");
    reveal_strlit("AboveNormal");
    assert(a.name()[0] == b.name()[0] ==> a == b);
    assert(p.name()[0] == q.name()[0] ==> p == q);
}

/// A refused configuration names its class first, or the budget before what was
/// asked for.
pub proof fn config_messages_name_their_cause(
    class: SWExecutionClass,
    budget: usize,
    configured: usize,
)
    ensures
        ({
            let text = SWConfigError::ZeroWorkers(class).text();
            text.take(class.name().len() as int) == class.name()
        }),
        ({
            let text = SWOwnedConfigError::ZeroRunnable(class).text();
            text.take(class.name().len() as int) == class.name()
        }),
        ({
            let text = SWOwnedConfigError::ZeroHandoff(class).text();
            text.take(class.name().len() as int) == class.name()
        }),
        SWOwnedConfigError::ZeroRunnable(class).text() != SWOwnedConfigError::ZeroHandoff(
            class,
        ).text(),
        ({
            let text = SWConfigError::BudgetExceeded { budget, configured }.text();
            let first = decimal(budget as nat);
            let last = decimal(configured as nat);
            let n = "worker budget is "@.len() as int;
            &&& text.subrange(n, n + first.len()) == first
            &&& text.skip(text.len() - last.len()) == last
        }),
{
    reveal_strlit(" runnable capacity must be nonzero");
    reveal_strlit(" handoff capacity must be nonzero");
    let name = class.name();
    assert(SWConfigError::ZeroWorkers(class).text().take(name.len() as int) =~= name);
    assert(SWOwnedConfigError::ZeroRunnable(class).text().take(name.len() as int) =~= name);
    assert(SWOwnedConfigError::ZeroHandoff(class).text().take(name.len() as int) =~= name);
    assert(SWOwnedConfigError::ZeroRunnable(class).text().len()
        != SWOwnedConfigError::ZeroHandoff(class).text().len());
    let text = SWConfigError::BudgetExceeded { budget, configured }.text();
    let first = decimal(budget as nat);
    let last = decimal(configured as nat);
    let n = "worker budget is "@.len() as int;
    assert(text.subrange(n, n + first.len()) =~= first);
    assert(text.skip(text.len() - last.len()) =~= last);
}

/// Interest reaches a producer exactly if it is known and its runtime serves
/// owned work and was not abandoned; it names that producer's record.
pub proof fn interest_reaches_live_producers(
    producer: Option<ProducerIdentity>,
    runtime: Option<&SWRuntime>,
    priority: SWPriority,
)
    ensures
        ({
            let result = demand_result(producer, runtime, priority);
            &&& result is Ok <==> producer is Some && runtime is Some && runtime->0@.owned is Some
                && !runtime->0@.owned->0.abandoned
            &&& result matches Ok(request) ==> request.record == producer->0.record
                && request.priority == priority
            &&& result matches Err(error) ==> error == SWDemandError::Closed
        }),
{
}

/// A snapshot counts every physical access once, by its state.
pub proof fn snapshots_count_every_access_once(v: RegistryView)
    ensures
        total(v.entries, in_state(PhysicalState::Prepared)) == v.entries.filter(
            |e: PhysicalEntry| e.state == PhysicalState::Prepared,
        ).len(),
        total(v.entries, in_state(PhysicalState::Active)) == v.entries.filter(
            |e: PhysicalEntry| e.state == PhysicalState::Active,
        ).len(),
        total(v.entries, in_state(PhysicalState::Orphaned)) == v.entries.filter(
            |e: PhysicalEntry| e.state == PhysicalState::Orphaned,
        ).len(),
{
    total_is_filtered(
        v.entries,
        in_state(PhysicalState::Prepared),
        |e: PhysicalEntry| e.state == PhysicalState::Prepared,
    );
    total_is_filtered(
        v.entries,
        in_state(PhysicalState::Active),
        |e: PhysicalEntry| e.state == PhysicalState::Active,
    );
    total_is_filtered(
        v.entries,
        in_state(PhysicalState::Orphaned),
        |e: PhysicalEntry| e.state == PhysicalState::Orphaned,
    );
}

/// A new result is pending, has no outcome and nobody waits for it.
pub proof fn new_results_are_pending<T>()
    ensures
        TaskView::<T>::fresh().outcome is None,
        TaskView::<T>::fresh().signal == SignalView::fresh(),
        SignalView::fresh().status is None,
        SignalView::fresh().subscribers.len() == 0,
        SignalView::fresh().producer is None,
        SignalView::fresh().wf(),
{
}

} // verus!
