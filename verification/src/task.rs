//! Owned task results, shared observation, and status-only completion.
//!
//! Unique results move once; shared handles retain immutable ownership.
//! Publication makes the result visible before any dependent is told.
use crate::admission::SWSpawnError;
use crate::admission::SWSpawnOptions;
use crate::admission::SWSpawnRejected;
use crate::queue::SWPriority;
use crate::reservation::SWByteLease;
use crate::reservation::SWReservationPool;
use crate::runtime::SWRuntime;
use crate::runtime::WorkLease;
use std::marker::PhantomData;
use std::sync::Arc;
use vstd::prelude::*;
use vstd::std_specs::convert::FromSpecImpl;

verus! {

/// A completed owned invocation. Application errors remain in a successful
/// returned `Result<T, E>`; they are never erased into a runtime failure.
#[derive(Debug, PartialEq, Eq)]
pub enum SWOutcome<T> {
    Success(T),
    Cancelled,
    PrerequisiteFailed,
    Panicked,
    Abandoned,
}

/// Status used by dependencies. `ApplicationFailed` means a fallible task
/// returned `Err`; its typed error remains in the result cell.
#[derive(Clone, Copy, Debug, PartialEq, Eq, Structural)]
pub enum SWTaskStatus {
    Succeeded,
    ApplicationFailed,
    Cancelled,
    PrerequisiteFailed,
    Panicked,
    Abandoned,
}

impl SWTaskStatus {
    pub fn is_success(self) -> (success: bool)
        ensures
            success == (self == SWTaskStatus::Succeeded),
    {
        self == SWTaskStatus::Succeeded
    }
}

/// Passive waiting is unavailable during CPU work or on a live owner thread.
#[derive(Clone, Copy, Debug, PartialEq, Eq, Structural)]
pub enum SWWaitError {
    ExecutionContext,
}

/// The status that an outcome publishes.
pub open spec fn published<T>(outcome: SWOutcome<T>, application_failed: bool) -> SWTaskStatus {
    match outcome {
        SWOutcome::Success(_) => if application_failed {
            SWTaskStatus::ApplicationFailed
        } else {
            SWTaskStatus::Succeeded
        },
        SWOutcome::Cancelled => SWTaskStatus::Cancelled,
        SWOutcome::PrerequisiteFailed => SWTaskStatus::PrerequisiteFailed,
        SWOutcome::Panicked => SWTaskStatus::Panicked,
        SWOutcome::Abandoned => SWTaskStatus::Abandoned,
    }
}

/// The status that an outcome publishes.
pub fn outcome_status<T>(outcome: &SWOutcome<T>, application_failed: bool) -> (status: SWTaskStatus)
    ensures
        status == published(*outcome, application_failed),
{
    match outcome {
        SWOutcome::Success(_) => if application_failed {
            SWTaskStatus::ApplicationFailed
        } else {
            SWTaskStatus::Succeeded
        },
        SWOutcome::Cancelled => SWTaskStatus::Cancelled,
        SWOutcome::PrerequisiteFailed => SWTaskStatus::PrerequisiteFailed,
        SWOutcome::Panicked => SWTaskStatus::Panicked,
        SWOutcome::Abandoned => SWTaskStatus::Abandoned,
    }
}

/// What becomes of a claimed or suppressed job.
#[derive(Clone, Copy, Debug, PartialEq, Eq, Structural)]
pub enum Decision {
    Run,
    Suppress(SWTaskStatus),
}

/// The outcome of a job that never ran.
pub open spec fn suppressed<T>(status: SWTaskStatus) -> SWOutcome<T> {
    match status {
        SWTaskStatus::Cancelled => SWOutcome::Cancelled,
        SWTaskStatus::PrerequisiteFailed => SWOutcome::PrerequisiteFailed,
        SWTaskStatus::ApplicationFailed => SWOutcome::PrerequisiteFailed,
        SWTaskStatus::Panicked => SWOutcome::Panicked,
        SWTaskStatus::Abandoned => SWOutcome::Abandoned,
        SWTaskStatus::Succeeded => SWOutcome::Abandoned,
    }
}

/// The outcome that a decision leads to, and whether the application calls it
/// failed.
pub open spec fn outcome_of<T>(decision: Decision, returned: Option<T>, failed: bool) -> (
    SWOutcome<T>,
    bool,
) {
    match decision {
        Decision::Run => match returned {
            Some(value) => (SWOutcome::Success(value), failed),
            None => (SWOutcome::Panicked, false),
        },
        Decision::Suppress(status) => (suppressed(status), false),
    }
}

/// The outcome of a job, and whether the application calls it failed. `returned`
/// is what the invocation gave back, or none where it panicked; a suppressed
/// job was not invoked. `failed` is the application's judgement of that value.
pub fn settle_outcome<T>(decision: Decision, returned: Option<T>, failed: bool) -> (settled: (
    SWOutcome<T>,
    bool,
))
    ensures
        settled == outcome_of(decision, returned, failed),
{
    match decision {
        Decision::Run => match returned {
            Some(value) => (SWOutcome::Success(value), failed),
            None => (SWOutcome::Panicked, false),
        },
        Decision::Suppress(status) => {
            let outcome = match status {
                SWTaskStatus::Cancelled => SWOutcome::Cancelled,
                SWTaskStatus::PrerequisiteFailed | SWTaskStatus::ApplicationFailed =>
                SWOutcome::PrerequisiteFailed,
                SWTaskStatus::Panicked => SWOutcome::Panicked,
                SWTaskStatus::Abandoned | SWTaskStatus::Succeeded => SWOutcome::Abandoned,
            };
            (outcome, false)
        },
    }
}

/// A job that did not run never looks like one that succeeded.
pub proof fn suppression_is_not_success<T>(status: SWTaskStatus, failed: bool)
    ensures
        published(suppressed::<T>(status), failed) != SWTaskStatus::Succeeded,
        published(suppressed::<T>(status), failed) != SWTaskStatus::ApplicationFailed,
{
}

/// Who produces a completion.
#[derive(Clone, Copy, Debug, PartialEq, Eq, Structural)]
pub struct ProducerIdentity {
    pub runtime: u64,
    pub record: u64,
}

/// A charged dependency registration. The token is what publication hands out.
#[derive(Clone, Copy, Debug, PartialEq, Eq, Structural)]
pub struct Subscription {
    pub id: u64,
    pub token: u64,
}

/// What attaching to a completion leads to.
#[derive(Clone, Copy, Debug, PartialEq, Eq, Structural)]
pub enum Attachment {
    /// The edge will be handed out by publication, unless it is detached.
    Registered(u64),
    /// The completion was already there, so the edge is delivered now.
    Ready(SWTaskStatus),
}

/// What a waiting thread does next.
#[derive(Clone, Copy, Debug, PartialEq, Eq, Structural)]
pub enum WaitStep {
    Done(SWTaskStatus),
    TimedOut,
    Park,
}

#[verifier::ext_equal]
pub struct SignalView {
    pub status: Option<SWTaskStatus>,
    pub subscribers: Seq<Subscription>,
    pub next_subscriber: int,
    pub producer: Option<ProducerIdentity>,
}

impl SignalView {
    pub open spec fn fresh() -> SignalView {
        SignalView {
            status: None,
            subscribers: Seq::empty(),
            next_subscriber: 1,
            producer: None,
        }
    }

    pub open spec fn wf(self) -> bool {
        &&& 1 <= self.next_subscriber <= u64::MAX
        &&& self.status is Some ==> self.subscribers.len() == 0
        &&& forall|i: int, j: int|
            0 <= i < j < self.subscribers.len() ==> (#[trigger] self.subscribers[i]).id < (
            #[trigger] self.subscribers[j]).id
        &&& forall|i: int|
            0 <= i < self.subscribers.len() ==> (#[trigger] self.subscribers[i]).id
                < self.next_subscriber
    }

    pub open spec fn attached(self, id: u64) -> bool {
        exists|i: int| 0 <= i < self.subscribers.len() && (#[trigger] self.subscribers[i]).id == id
    }

    /// Where an attached edge is.
    pub open spec fn edge_slot(self, id: u64) -> int {
        choose|i: int| 0 <= i < self.subscribers.len() && (#[trigger] self.subscribers[i]).id == id
    }

    /// A step that a completion can take.
    pub open spec fn can(self, step: SignalStep) -> bool {
        match step {
            SignalStep::Publish(_) => self.status is None,
            SignalStep::Subscribe(_) => self.status is None ==> self.next_subscriber < u64::MAX,
            SignalStep::Detach(_) => true,
            SignalStep::SetProducer(_) => self.producer is None,
        }
    }

    pub open spec fn after(self, step: SignalStep) -> SignalView {
        match step {
            SignalStep::Publish(status) => SignalView {
                status: Some(status),
                subscribers: Seq::empty(),
                ..self
            },
            SignalStep::Subscribe(token) => if self.status is Some {
                self
            } else {
                let id = self.next_subscriber as u64;
                SignalView {
                    subscribers: self.subscribers.push(Subscription { id, token }),
                    next_subscriber: id + 1,
                    ..self
                }
            },
            SignalStep::Detach(id) => if self.attached(id) {
                SignalView { subscribers: self.subscribers.remove(self.edge_slot(id)), ..self }
            } else {
                self
            },
            SignalStep::SetProducer(producer) => SignalView { producer: Some(producer), ..self },
        }
    }

    /// The edges that a step hands out.
    pub open spec fn handed_out(self, step: SignalStep) -> Seq<Subscription> {
        match step {
            SignalStep::Publish(_) => self.subscribers,
            _ => Seq::empty(),
        }
    }
}

/// What can happen to a completion.
pub enum SignalStep {
    Publish(SWTaskStatus),
    /// An edge with this token is attached.
    Subscribe(u64),
    Detach(u64),
    SetProducer(ProducerIdentity),
}

impl SignalStep {
    /// An attached edge stays attached.
    pub open spec fn spares(self, id: u64) -> bool {
        match self {
            SignalStep::Publish(_) => false,
            SignalStep::Detach(detached) => detached != id,
            _ => true,
        }
    }
}

/// A completion takes these steps, one after the other.
pub open spec fn signal_runs(signal: SignalView, steps: Seq<SignalStep>) -> bool
    decreases steps.len(),
{
    steps.len() > 0 ==> signal.can(steps[0]) && signal_runs(signal.after(steps[0]), steps.skip(1))
}

/// The completion after these steps.
pub open spec fn signal_after(signal: SignalView, steps: Seq<SignalStep>) -> SignalView
    decreases steps.len(),
{
    if steps.len() == 0 {
        signal
    } else {
        signal_after(signal.after(steps[0]), steps.skip(1))
    }
}

/// How often an edge is among these.
pub open spec fn occurrences(edges: Seq<Subscription>, id: u64) -> nat
    decreases edges.len(),
{
    if edges.len() == 0 {
        0
    } else {
        occurrences(edges.drop_last(), id) + if edges.last().id == id {
            1nat
        } else {
            0nat
        }
    }
}

/// How often these steps hand an edge out.
pub open spec fn deliveries(signal: SignalView, steps: Seq<SignalStep>, id: u64) -> nat
    decreases steps.len(),
{
    if steps.len() == 0 {
        0
    } else {
        occurrences(signal.handed_out(steps[0]), id) + deliveries(
            signal.after(steps[0]),
            steps.skip(1),
            id,
        )
    }
}

/// Publication comes before an edge is detached.
pub open spec fn published_first(steps: Seq<SignalStep>, id: u64) -> bool
    decreases steps.len(),
{
    if steps.len() == 0 {
        false
    } else {
        match steps[0] {
            SignalStep::Publish(_) => true,
            SignalStep::Detach(detached) => detached != id && published_first(steps.skip(1), id),
            _ => published_first(steps.skip(1), id),
        }
    }
}

/// A step keeps a completion well-formed, and moves edges only as it says.
#[verifier::spinoff_prover]
proof fn signal_step(signal: SignalView, step: SignalStep, id: u64)
    requires
        signal.wf(),
        signal.can(step),
    ensures
        signal.after(step).wf(),
        signal.next_subscriber <= signal.after(step).next_subscriber,
        id < signal.next_subscriber ==> (signal.after(step).attached(id) <==> signal.attached(id)
            && step.spares(id)),
{
    let w = signal.after(step);
    match step {
        SignalStep::Subscribe(token) => {
            if signal.status is None {
                let fresh = Subscription { id: signal.next_subscriber as u64, token };
                assert(w.subscribers == signal.subscribers.push(fresh));
                if signal.attached(id) {
                    let i = signal.edge_slot(id);
                    assert(0 <= i < signal.subscribers.len() && signal.subscribers[i].id == id);
                    assert(w.subscribers[i] == signal.subscribers[i]);
                    assert(w.attached(id));
                }
                if w.attached(id) && id < signal.next_subscriber {
                    let i = w.edge_slot(id);
                    assert(0 <= i < w.subscribers.len() && w.subscribers[i].id == id);
                    assert(i < signal.subscribers.len());
                    assert(w.subscribers[i] == signal.subscribers[i]);
                    assert(signal.attached(id));
                }
            }
            assert(id < signal.next_subscriber ==> (w.attached(id) <==> signal.attached(id)));
        },
        SignalStep::Detach(x) => {
            if signal.attached(x) {
                let k = signal.edge_slot(x);
                assert forall|i: int| 0 <= i < w.subscribers.len() implies #[trigger] w.subscribers[i]
                    == signal.subscribers[if i < k {
                    i
                } else {
                    i + 1
                }] by {}
                assert forall|i: int, j: int| 0 <= i < j < w.subscribers.len() implies (
                #[trigger] w.subscribers[i]).id < (#[trigger] w.subscribers[j]).id by {
                    let a = if i < k {
                        i
                    } else {
                        i + 1
                    };
                    let b = if j < k {
                        j
                    } else {
                        j + 1
                    };
                    assert(signal.subscribers[a].id < signal.subscribers[b].id);
                }
                if w.attached(id) {
                    let i = w.edge_slot(id);
                    let a = if i < k {
                        i
                    } else {
                        i + 1
                    };
                    assert(0 <= i < w.subscribers.len() && w.subscribers[i].id == id);
                    assert(signal.subscribers[a].id == id);
                    if a < k {
                        assert(signal.subscribers[a].id < signal.subscribers[k].id);
                    } else {
                        assert(signal.subscribers[k].id < signal.subscribers[a].id);
                    }
                    assert(signal.attached(id) && id != x);
                }
                if signal.attached(id) && id != x {
                    let a = signal.edge_slot(id);
                    let i = if a < k {
                        a
                    } else {
                        a - 1
                    };
                    assert(0 <= a < signal.subscribers.len() && signal.subscribers[a].id == id);
                    assert(w.subscribers[i].id == id);
                    assert(w.attached(id));
                }
            }
            assert(w.attached(id) <==> signal.attached(id) && id != x);
        },
        SignalStep::Publish(_) => {
            assert(!w.attached(id));
        },
        SignalStep::SetProducer(_) => {
            assert(w.subscribers == signal.subscribers);
            if signal.attached(id) {
                let i = signal.edge_slot(id);
                assert(w.subscribers[i].id == id);
            }
            if w.attached(id) {
                let i = w.edge_slot(id);
                assert(signal.subscribers[i].id == id);
            }
        },
    }
}

/// Distinct edges: one that is attached occurs once, any other not at all.
proof fn occurs_once(edges: Seq<Subscription>, id: u64)
    requires
        forall|i: int, j: int|
            0 <= i < j < edges.len() ==> (#[trigger] edges[i]).id < (#[trigger] edges[j]).id,
    ensures
        occurrences(edges, id) == (if exists|i: int|
            0 <= i < edges.len() && (#[trigger] edges[i]).id == id {
            1nat
        } else {
            0nat
        }),
    decreases edges.len(),
{
    if edges.len() > 0 {
        let rest = edges.drop_last();
        let last = edges.len() - 1;
        assert forall|i: int, j: int| 0 <= i < j < rest.len() implies (#[trigger] rest[i]).id < (
        #[trigger] rest[j]).id by {
            assert(edges[i].id < edges[j].id);
        }
        occurs_once(rest, id);
        if edges[last].id == id {
            assert forall|i: int| 0 <= i < rest.len() implies (#[trigger] rest[i]).id != id by {
                assert(edges[i].id < edges[last].id);
            }
        } else {
            if exists|i: int| 0 <= i < edges.len() && (#[trigger] edges[i]).id == id {
                let i = choose|i: int| 0 <= i < edges.len() && (#[trigger] edges[i]).id == id;
                assert(rest[i].id == id);
            }
            if exists|i: int| 0 <= i < rest.len() && (#[trigger] rest[i]).id == id {
                let i = choose|i: int| 0 <= i < rest.len() && (#[trigger] rest[i]).id == id;
                assert(edges[i].id == id);
            }
        }
    }
}

/// Over any sequence of steps an attached edge is handed out exactly once, by
/// the publication, if that comes before the edge is detached; otherwise, and
/// if it was detached before, never.
pub proof fn edges_leave_once(signal: SignalView, steps: Seq<SignalStep>, id: u64)
    requires
        signal.wf(),
        id < signal.next_subscriber,
        signal_runs(signal, steps),
    ensures
        deliveries(signal, steps, id) == (if signal.attached(id) && published_first(steps, id) {
            1nat
        } else {
            0nat
        }),
    decreases steps.len(),
{
    if steps.len() > 0 {
        let step = steps[0];
        signal_step(signal, step, id);
        edges_leave_once(signal.after(step), steps.skip(1), id);
        occurs_once(signal.subscribers, id);
    }
}

/// An edge that comes after publication is not attached: its status is known at
/// once, and nothing hands it out later.
pub proof fn late_edges_are_ready(signal: SignalView, token: u64)
    requires
        signal.wf(),
        signal.status is Some,
    ensures
        signal.can(SignalStep::Subscribe(token)),
        signal.after(SignalStep::Subscribe(token)) == signal,
        forall|id: u64| !signal.attached(id),
{
}

/// A published status stays, over any sequence of steps.
pub proof fn published_status_stays(signal: SignalView, steps: Seq<SignalStep>)
    requires
        signal.wf(),
        signal.status is Some,
        signal_runs(signal, steps),
    ensures
        signal_after(signal, steps).status == signal.status,
    decreases steps.len(),
{
    if steps.len() > 0 {
        signal_step(signal, steps[0], 0);
        published_status_stays(signal.after(steps[0]), steps.skip(1));
    }
}

/// A status-only prerequisite. Task readiness means the invocation and its
/// captures have settled and its outcome is available, but successor edges may
/// still be activating. Dropping an observer does not request cancellation.
pub struct SWCompletion {
    status: Option<SWTaskStatus>,
    subscribers: Vec<Subscription>,
    next_subscriber: u64,
    producer: Option<ProducerIdentity>,
}

impl View for SWCompletion {
    type V = SignalView;

    closed spec fn view(&self) -> SignalView {
        SignalView {
            status: self.status,
            subscribers: self.subscribers@,
            next_subscriber: self.next_subscriber as int,
            producer: self.producer,
        }
    }
}

impl SWCompletion {
    pub fn pending() -> (completion: Self)
        ensures
            completion@.wf(),
            completion@ == SignalView::fresh(),
    {
        let completion = SWCompletion {
            status: None,
            subscribers: Vec::new(),
            next_subscriber: 1,
            producer: None,
        };
        assert(completion@.subscribers =~= Seq::empty());
        completion
    }

    /// Whether one more edge can be named.
    pub fn names_edges(&self) -> (room: bool)
        ensures
            room == (self@.next_subscriber < u64::MAX),
    {
        self.next_subscriber < u64::MAX
    }

    /// Whether nobody waits for this completion.
    pub fn is_reusable(&self) -> (reusable: bool)
        ensures
            reusable == (self@.subscribers.len() == 0),
    {
        self.subscribers.len() == 0
    }

    /// A pending completion in place of one whose last owner gives it up, so
    /// that nobody is left to see its status go.
    pub(crate) fn reset(self) -> (completion: Self)
        ensures
            completion@.wf(),
            completion@ == SignalView::fresh(),
    {
        let SWCompletion { status: _, subscribers, next_subscriber: _, producer: _ } = self;
        let mut subscribers = subscribers;
        subscribers.clear();
        let completion = SWCompletion {
            status: None,
            subscribers,
            next_subscriber: 1,
            producer: None,
        };
        assert(completion@.subscribers =~= Seq::empty());
        completion
    }

    pub fn set_producer(&mut self, producer: ProducerIdentity)
        requires
            old(self)@.wf(),
            old(self)@.producer is None,
        ensures
            final(self)@.wf(),
            final(self)@ == (SignalView { producer: Some(producer), ..old(self)@ }),
    {
        self.producer = Some(producer);
    }

    pub fn producer_identity(&self) -> (producer: Option<ProducerIdentity>)
        ensures
            producer == self@.producer,
    {
        self.producer
    }

    pub fn status(&self) -> (status: Option<SWTaskStatus>)
        ensures
            status == self@.status,
    {
        self.status
    }

    /// Publishes the status once and hands out every edge attached until now.
    pub fn publish(&mut self, status: SWTaskStatus) -> (edges: Vec<Subscription>)
        requires
            old(self)@.wf(),
            old(self)@.status is None,
        ensures
            final(self)@.wf(),
            edges@ == old(self)@.handed_out(SignalStep::Publish(status)),
            edges@ == old(self)@.subscribers,
            final(self)@ == old(self)@.after(SignalStep::Publish(status)),
    {
        let mut edges: Vec<Subscription> = Vec::new();
        std::mem::swap(&mut self.subscribers, &mut edges);
        self.status = Some(status);
        assert(self@.subscribers =~= Seq::empty());
        edges
    }

    /// Attaches an edge, which is delivered once whether it comes before or
    /// after completion.
    pub fn subscribe(&mut self, token: u64) -> (attachment: Attachment)
        requires
            old(self)@.wf(),
            old(self)@.status is None ==> old(self)@.next_subscriber < u64::MAX,
        ensures
            final(self)@.wf(),
            final(self)@ == old(self)@.after(SignalStep::Subscribe(token)),
            match old(self)@.status {
                Some(status) => {
                    &&& attachment == Attachment::Ready(status)
                    &&& final(self)@ == old(self)@
                },
                None => {
                    let id = old(self)@.next_subscriber as u64;
                    &&& attachment == Attachment::Registered(id)
                    &&& final(self)@ == (SignalView {
                        subscribers: old(self)@.subscribers.push(Subscription { id, token }),
                        next_subscriber: id + 1,
                        ..old(self)@
                    })
                },
            },
    {
        if let Some(status) = self.status {
            return Attachment::Ready(status);
        }
        let id: u64 = self.next_subscriber;
        self.next_subscriber = id + 1;
        self.subscribers.push(Subscription { id, token });
        Attachment::Registered(id)
    }

    /// Detaches an unresolved edge; it will not be delivered.
    pub fn detach(&mut self, id: u64) -> (detached: bool)
        requires
            old(self)@.wf(),
        ensures
            final(self)@.wf(),
            detached == old(self)@.attached(id),
            !final(self)@.attached(id),
            final(self)@ == old(self)@.after(SignalStep::Detach(id)),
    {
        let mut index: usize = 0;
        while index < self.subscribers.len()
            invariant
                index <= self.subscribers@.len(),
                self@ == old(self)@,
                self@.wf(),
                forall|i: int| 0 <= i < index ==> (#[trigger] self@.subscribers[i]).id != id,
            decreases self.subscribers@.len() - index,
        {
            if self.subscribers[index].id == id {
                let ghost before = self@.subscribers;
                let _ = self.subscribers.remove(index);
                assert(before[index as int].id == id);
                proof {
                    let k = old(self)@.edge_slot(id);
                    if k < index {
                        assert(before[k].id < before[index as int].id);
                    } else if index < k {
                        assert(before[index as int].id < before[k].id);
                    }
                }
                assert forall|i: int| 0 <= i < self@.subscribers.len() implies (
                #[trigger] self@.subscribers[i]).id != id by {
                    if i < index {
                        assert(self@.subscribers[i] == before[i]);
                    } else {
                        assert(self@.subscribers[i] == before[i + 1]);
                        assert(before[index as int].id < before[i + 1].id);
                    }
                }
                return true;
            }
            index += 1;
        }
        false
    }

    /// One look at the status by a thread that waits for it. `forbidden` says
    /// that the thread takes part in CPU work or owns a live owner. Waiting
    /// never executes jobs.
    pub fn wait(&self, forbidden: bool) -> (step: Result<WaitStep, SWWaitError>)
        ensures
            step == wait_step(self@.status, forbidden, false),
    {
        self.wait_timeout(forbidden, false)
    }

    /// One look at the status by a thread that waits for a limited time.
    /// `expired` says that its time is up, which only ends observation; it
    /// never cancels the producer.
    pub fn wait_timeout(&self, forbidden: bool, expired: bool) -> (step: Result<
        WaitStep,
        SWWaitError,
    >)
        ensures
            step == wait_step(self@.status, forbidden, expired),
    {
        if forbidden {
            return Err(SWWaitError::ExecutionContext);
        }
        match self.status {
            Some(status) => Ok(WaitStep::Done(status)),
            None => if expired {
                Ok(WaitStep::TimedOut)
            } else {
                Ok(WaitStep::Park)
            },
        }
    }

    /// Retains independent consumer interest while this producer is pending.
    /// `runtime` is the producer's, unless that has gone. Ending the interest
    /// never cancels the producer.
    pub fn demand(&self, runtime: Option<&SWRuntime>, priority: SWPriority) -> (result: Result<
        DemandRequest,
        SWDemandError,
    >)
        ensures
            result == demand_result(self@.producer, runtime, priority),
    {
        match &self.producer {
            None => Err(SWDemandError::Closed),
            Some(producer) => match runtime {
                Some(runtime) => if runtime.takes_demand() {
                    Ok(DemandRequest { record: producer.record, priority })
                } else {
                    Err(SWDemandError::Closed)
                },
                None => Err(SWDemandError::Closed),
            },
        }
    }

    /// Retains consumer interest in a separate work set until this producer
    /// completes, the set is cancelled, or the interest ends.
    pub fn demand_in(
        &self,
        lease: WorkLease,
        runtime: Option<&SWRuntime>,
        priority: SWPriority,
    ) -> (result: Result<DemandRequest, SWDemandError>)
        ensures
            result == (if lease.error() is Some {
                Err(SWDemandError::Closed)
            } else {
                demand_result(self@.producer, runtime, priority)
            }),
    {
        if self.producer.is_none() || lease.check().is_some() {
            return Err(SWDemandError::Closed);
        }
        self.demand(runtime, priority)
    }
}

/// What one look at a completion tells a waiting thread.
pub open spec fn wait_step(status: Option<SWTaskStatus>, forbidden: bool, expired: bool) -> Result<
    WaitStep,
    SWWaitError,
> {
    if forbidden {
        Err(SWWaitError::ExecutionContext)
    } else {
        Ok(
            match status {
                Some(status) => WaitStep::Done(status),
                None => if expired {
                    WaitStep::TimedOut
                } else {
                    WaitStep::Park
                },
            },
        )
    }
}

/// Why consumer interest was refused.
#[derive(Clone, Copy, Debug, PartialEq, Eq, Structural)]
pub enum SWDemandError {
    Closed,
}

/// Interest of one consumer in a pending producer.
#[derive(Clone, Copy, Debug, PartialEq, Eq, Structural)]
pub struct DemandRequest {
    pub record: u64,
    pub priority: SWPriority,
}

/// Interest reaches a known producer whose runtime was not abandoned.
pub open spec fn demand_result(
    producer: Option<ProducerIdentity>,
    runtime: Option<&SWRuntime>,
    priority: SWPriority,
) -> Result<DemandRequest, SWDemandError> {
    match (producer, runtime) {
        (Some(producer), Some(runtime)) => if runtime@.owned is Some
            && !runtime@.owned->0.abandoned {
            Ok(DemandRequest { record: producer.record, priority })
        } else {
            Err(SWDemandError::Closed)
        },
        _ => Err(SWDemandError::Closed),
    }
}

#[verifier::ext_equal]
pub struct TaskView<T> {
    /// The outcome that is still in the cell.
    pub outcome: Option<SWOutcome<T>>,
    pub signal: SignalView,
}

impl<T> TaskView<T> {
    /// A pending task holds no outcome.
    pub open spec fn wf(self) -> bool {
        self.signal.wf() && (self.signal.status is None ==> self.outcome is None)
    }

    pub open spec fn finished(self, outcome: SWOutcome<T>, application_failed: bool) -> TaskView<T> {
        TaskView {
            outcome: Some(outcome),
            signal: SignalView {
                status: Some(published(outcome, application_failed)),
                subscribers: Seq::empty(),
                ..self.signal
            },
        }
    }

    pub open spec fn fresh() -> TaskView<T> {
        TaskView { outcome: None, signal: SignalView::fresh() }
    }

    /// A step that a result cell can take.
    pub open spec fn can(self, step: TaskStep<T>) -> bool {
        match step {
            TaskStep::Finish(_, _) => self.signal.status is None,
            TaskStep::Take => true,
            TaskStep::Signal(step) => !(step is Publish) && self.signal.can(step),
        }
    }

    pub open spec fn after(self, step: TaskStep<T>) -> TaskView<T> {
        match step {
            TaskStep::Finish(outcome, application_failed) => self.finished(
                outcome,
                application_failed,
            ),
            TaskStep::Take => TaskView { outcome: None, ..self },
            TaskStep::Signal(step) => TaskView { signal: self.signal.after(step), ..self },
        }
    }

    /// A continuation can still receive the outcome.
    pub open spec fn input_available(self) -> bool {
        self.signal.status is None || self.outcome is Some
    }
}

/// What can happen to a result cell. Sharing it keeps its view.
pub enum TaskStep<T> {
    /// The outcome is stored and published.
    Finish(SWOutcome<T>, bool),
    /// The outcome moves out.
    Take,
    /// Edges and the producer's identity.
    Signal(SignalStep),
}

/// A result cell takes these steps, one after the other.
pub open spec fn task_runs<T>(task: TaskView<T>, steps: Seq<TaskStep<T>>) -> bool
    decreases steps.len(),
{
    steps.len() > 0 ==> task.can(steps[0]) && task_runs(task.after(steps[0]), steps.skip(1))
}

/// The result cell after these steps.
pub open spec fn task_after<T>(task: TaskView<T>, steps: Seq<TaskStep<T>>) -> TaskView<T>
    decreases steps.len(),
{
    if steps.len() == 0 {
        task
    } else {
        task_after(task.after(steps[0]), steps.skip(1))
    }
}

/// The status of a result that was once published stays, whether its value is
/// taken, the handle shared, or edges come and go.
pub proof fn settled_status_stays<T>(task: TaskView<T>, steps: Seq<TaskStep<T>>)
    requires
        task.wf(),
        task.signal.status is Some,
        task_runs(task, steps),
    ensures
        task_after(task, steps).signal.status == task.signal.status,
    decreases steps.len(),
{
    if steps.len() > 0 {
        if let TaskStep::Signal(step) = steps[0] {
            signal_step(task.signal, step, 0);
        }
        settled_status_stays(task.after(steps[0]), steps.skip(1));
    }
}

/// Unique ownership of an owned result. The value can be moved out once.
/// Readiness exposes the outcome after invocation capture cleanup; it does not
/// imply that every registered successor has activated.
pub struct SWTask<T> {
    outcome: Option<SWOutcome<T>>,
    signal: SWCompletion,
}

impl<T> View for SWTask<T> {
    type V = TaskView<T>;

    closed spec fn view(&self) -> TaskView<T> {
        TaskView { outcome: self.outcome, signal: self.signal@ }
    }
}

impl<T> SWTask<T> {
    pub fn pending() -> (task: Self)
        ensures
            task@.wf(),
            task@ == TaskView::<T>::fresh(),
    {
        SWTask { outcome: None, signal: SWCompletion::pending() }
    }

    /// Stores the outcome, then publishes its status. Hands out the edges that
    /// now activate.
    pub fn finish(&mut self, outcome: SWOutcome<T>, application_failed: bool) -> (edges: Vec<
        Subscription,
    >)
        requires
            old(self)@.wf(),
            old(self)@.signal.status is None,
        ensures
            final(self)@.wf(),
            edges@ == old(self)@.signal.subscribers,
            final(self)@ == old(self)@.finished(outcome, application_failed),
    {
        let status = outcome_status(&outcome, application_failed);
        self.outcome = Some(outcome);
        self.signal.publish(status)
    }

    /// Settles a task whose producer has gone, so that no observer stays
    /// pending for ever. A settled task is left as it is.
    pub fn abandon(&mut self) -> (edges: Vec<Subscription>)
        requires
            old(self)@.wf(),
        ensures
            final(self)@.wf(),
            old(self)@.signal.status is None ==> edges@ == old(self)@.signal.subscribers
                && final(self)@ == old(self)@.finished(SWOutcome::Abandoned, false),
            old(self)@.signal.status is Some ==> edges@.len() == 0 && final(self)@ == old(self)@,
    {
        if self.signal.status().is_some() {
            return Vec::new();
        }
        self.finish(SWOutcome::Abandoned, false)
    }

    /// Creates a ready value without admitting a CPU invocation.
    pub fn ready(value: T) -> (task: Self)
        ensures
            task@.wf(),
            task@ == TaskView::<T>::fresh().finished(SWOutcome::Success(value), false),
    {
        Self::ready_outcome(SWOutcome::Success(value))
    }

    /// Creates a ready fixed outcome without admitting a CPU invocation.
    pub fn ready_outcome(outcome: SWOutcome<T>) -> (task: Self)
        ensures
            task@.wf(),
            task@ == TaskView::<T>::fresh().finished(outcome, false),
    {
        let mut task = Self::pending();
        let _ = task.finish(outcome, false);
        task
    }

    pub fn completion(&self) -> (completion: &SWCompletion)
        ensures
            completion@ == self@.signal,
    {
        &self.signal
    }

    /// The completion of this result, to be waited for.
    pub fn completion_mut(&mut self) -> (completion: &mut SWCompletion)
        ensures
            completion@ == old(self)@.signal,
            final(self)@ == (TaskView { signal: final(completion)@, ..old(self)@ }),
    {
        &mut self.signal
    }

    /// Adds an edge to the completion of this result.
    pub fn subscribe(&mut self, token: u64) -> (attachment: Attachment)
        requires
            old(self)@.wf(),
            old(self)@.signal.status is None ==> old(self)@.signal.next_subscriber < u64::MAX,
        ensures
            final(self)@.wf(),
            final(self)@.outcome == old(self)@.outcome,
            match old(self)@.signal.status {
                Some(status) => {
                    &&& attachment == Attachment::Ready(status)
                    &&& final(self)@ == old(self)@
                },
                None => {
                    let id = old(self)@.signal.next_subscriber as u64;
                    &&& attachment == Attachment::Registered(id)
                    &&& final(self)@.signal == (SignalView {
                        subscribers: old(self)@.signal.subscribers.push(Subscription { id, token }),
                        next_subscriber: id + 1,
                        ..old(self)@.signal
                    })
                },
            },
    {
        self.signal.subscribe(token)
    }

    /// Detaches an unresolved edge of this result; it will not be delivered.
    pub fn detach(&mut self, id: u64) -> (detached: bool)
        requires
            old(self)@.wf(),
        ensures
            final(self)@.wf(),
            detached == old(self)@.signal.attached(id),
            !final(self)@.signal.attached(id),
            final(self)@ == old(self)@.after(TaskStep::Signal(SignalStep::Detach(id))),
    {
        self.signal.detach(id)
    }

    pub fn set_producer(&mut self, producer: ProducerIdentity)
        requires
            old(self)@.wf(),
            old(self)@.signal.producer is None,
        ensures
            final(self)@.wf(),
            final(self)@ == (TaskView {
                signal: SignalView { producer: Some(producer), ..old(self)@.signal },
                ..old(self)@
            }),
    {
        self.signal.set_producer(producer);
    }

    pub fn status(&self) -> (status: Option<SWTaskStatus>)
        ensures
            status == self@.signal.status,
    {
        self.signal.status()
    }

    /// Borrows the terminal outcome, if ready and still retained. A previous
    /// `try_take` leaves status ready but removes the value from this cell.
    pub fn try_result(&self) -> (outcome: Option<SWOutcomeRef<'_, T>>)
        requires
            self@.wf(),
        ensures
            match outcome {
                Some(outcome) => self@.outcome == Some(outcome.held()),
                None => self@.outcome is None,
            },
    {
        match &self.outcome {
            Some(outcome) => Some(SWOutcomeRef { outcome }),
            None => None,
        }
    }

    /// Moves the outcome out, if ready and still retained.
    pub fn try_take(&mut self) -> (outcome: Option<SWOutcome<T>>)
        requires
            old(self)@.wf(),
        ensures
            final(self)@.wf(),
            outcome == old(self)@.outcome,
            final(self)@ == (TaskView { outcome: None, ..old(self)@ }),
    {
        self.outcome.take()
    }

    pub fn continuation_input_available(&self) -> (available: bool)
        ensures
            available == self@.input_available(),
    {
        self.signal.status().is_none() || self.outcome.is_some()
    }

    /// Converts unique observation to clonable immutable observation, of a cell
    /// that the host names `id`. A pending result is shared as it is; one already
    /// taken remains absent.
    pub fn into_shared(self, id: u64) -> (shared: (SharedCell<T>, SWShared<T>))
        requires
            self@.wf(),
        ensures
            shared.0@.wf(),
            shared.0@ == self@,
            shared.0.identity() == id,
            shared.0.handles() == 1,
            shared.1.of(shared.0),
    {
        let SWTask { outcome, signal } = self;
        let outcome = match outcome {
            Some(outcome) => Some(Arc::new(outcome)),
            None => None,
        };
        let cell = SharedCell { id, outcome, signal, handles: 1 };
        (cell, SWShared { id, result: PhantomData })
    }
}

impl<T, E> SWTask<Result<T, E>> {
    /// Creates a ready typed application result. An `Err` keeps its payload
    /// while marking status as application failure for success-only edges.
    pub fn ready_fallible(value: Result<T, E>) -> (task: Self)
        ensures
            task@.wf(),
            task@ == TaskView::<Result<T, E>>::fresh().finished(
                SWOutcome::Success(value),
                value is Err,
            ),
    {
        let failed = value.is_err();
        let mut task = Self::pending();
        let _ = task.finish(SWOutcome::Success(value), failed);
        task
    }
}

/// An outcome is taken at most once: a second attempt finds nothing, and the
/// status stays.
pub proof fn outcome_moves_once<T>(task: TaskView<T>)
    requires
        task.wf(),
    ensures
        ({
            let taken = TaskView { outcome: None, ..task };
            taken.wf() && taken.outcome is None && taken.signal.status == task.signal.status
        }),
        task.signal.status is Some ==> !(TaskView { outcome: None, ..task }).input_available(),
{
}

/// A borrowed completed outcome. The borrow never clones the payload and
/// cannot trigger execution.
pub struct SWOutcomeRef<'a, T> {
    outcome: &'a SWOutcome<T>,
}

impl<'a, T> SWOutcomeRef<'a, T> {
    pub closed spec fn held(self) -> SWOutcome<T> {
        *self.outcome
    }

    pub fn get(&self) -> (outcome: &SWOutcome<T>)
        ensures
            *outcome == self.held(),
    {
        self.outcome
    }
}

/// The cell of a result that any number of handles observe.
pub struct SharedCell<T> {
    id: u64,
    outcome: Option<Arc<SWOutcome<T>>>,
    signal: SWCompletion,
    handles: usize,
}

impl<T> View for SharedCell<T> {
    type V = TaskView<T>;

    closed spec fn view(&self) -> TaskView<T> {
        TaskView {
            outcome: match self.outcome {
                Some(outcome) => Some(*outcome),
                None => None,
            },
            signal: self.signal@,
        }
    }
}

impl<T> SharedCell<T> {
    pub closed spec fn identity(self) -> u64 {
        self.id
    }

    /// Live handles of this cell.
    pub closed spec fn handles(self) -> int {
        self.handles as int
    }

    /// This cell, with nothing but its result changed.
    pub open spec fn same_cell(self, other: SharedCell<T>) -> bool {
        self.identity() == other.identity() && self.handles() == other.handles()
    }

    /// Stores the outcome, then publishes its status, which every handle sees.
    /// Hands out the edges that now activate.
    pub fn finish(&mut self, outcome: SWOutcome<T>, application_failed: bool) -> (edges: Vec<
        Subscription,
    >)
        requires
            old(self)@.wf(),
            old(self)@.signal.status is None,
        ensures
            final(self)@.wf(),
            edges@ == old(self)@.signal.subscribers,
            final(self)@ == old(self)@.finished(outcome, application_failed),
            final(self).same_cell(*old(self)),
    {
        let status = outcome_status(&outcome, application_failed);
        self.outcome = Some(Arc::new(outcome));
        self.signal.publish(status)
    }

    /// The completion of this result.
    pub fn completion(&mut self) -> (completion: &mut SWCompletion)
        ensures
            completion@ == old(self)@.signal,
            final(self)@ == (TaskView { signal: final(completion)@, ..old(self)@ }),
            final(self).same_cell(*old(self)),
    {
        &mut self.signal
    }

    pub fn status(&self) -> (status: Option<SWTaskStatus>)
        ensures
            status == self@.signal.status,
    {
        self.signal.status()
    }

    /// Whether one more handle can be counted.
    pub fn counts_handles(&self) -> (room: bool)
        ensures
            room == (self.handles() < usize::MAX),
    {
        self.handles < usize::MAX
    }
}

/// Shared immutable observation of one result cell: a handle, of which there may
/// be any number at any time. Readiness has the same task-level boundary as
/// [`SWTask`].
pub struct SWShared<T> {
    id: u64,
    result: PhantomData<T>,
}

impl<T> SWShared<T> {
    /// This is a handle of that cell.
    pub closed spec fn of(self, cell: SharedCell<T>) -> bool {
        self.id == cell.id
    }

    /// A ready value, in a cell that the host names `id`.
    pub fn ready(id: u64, value: T) -> (shared: (SharedCell<T>, SWShared<T>))
        ensures
            shared.0@.wf(),
            shared.0@ == TaskView::<T>::fresh().finished(SWOutcome::Success(value), false),
            shared.0.identity() == id,
            shared.0.handles() == 1,
            shared.1.of(shared.0),
    {
        SWTask::ready(value).into_shared(id)
    }

    /// Another handle of the same cell, whether its result is pending or not.
    /// It retains the cell; it does not clone `T`.
    pub fn share(&self, cell: &mut SharedCell<T>) -> (shared: SWShared<T>)
        requires
            self.of(*old(cell)),
            old(cell).handles() < usize::MAX,
        ensures
            shared.of(*final(cell)),
            self.of(*final(cell)),
            final(cell)@ == old(cell)@,
            final(cell).identity() == old(cell).identity(),
            final(cell).handles() == old(cell).handles() + 1,
    {
        cell.handles = cell.handles + 1;
        SWShared { id: self.id, result: PhantomData }
    }

    /// Ends this handle. Reports whether it was the last one.
    pub fn release(self, cell: &mut SharedCell<T>) -> (last: bool)
        requires
            self.of(*old(cell)),
            old(cell).handles() > 0,
        ensures
            last == (old(cell).handles() == 1),
            final(cell)@ == old(cell)@,
            final(cell).identity() == old(cell).identity(),
            final(cell).handles() == old(cell).handles() - 1,
    {
        cell.handles = cell.handles - 1;
        cell.handles == 0
    }

    /// The completion that all handles of the cell share.
    pub fn completion<'a>(&self, cell: &'a mut SharedCell<T>) -> (completion: &'a mut SWCompletion)
        requires
            self.of(*old(cell)),
        ensures
            completion@ == old(cell)@.signal,
            final(cell)@ == (TaskView { signal: final(completion)@, ..old(cell)@ }),
            final(cell).same_cell(*old(cell)),
    {
        cell.completion()
    }

    pub fn status(&self, cell: &SharedCell<T>) -> (status: Option<SWTaskStatus>)
        requires
            self.of(*cell),
        ensures
            status == cell@.signal.status,
    {
        cell.status()
    }

    pub fn continuation_input_available(&self, cell: &SharedCell<T>) -> (available: bool)
        requires
            self.of(*cell),
        ensures
            available == cell@.input_available(),
    {
        cell.signal.status().is_none() || cell.outcome.is_some()
    }

    /// Shared ownership of the same immutable outcome. The returned `Arc`
    /// supports simultaneous borrows and never clones `T`.
    pub fn try_result(&self, cell: &SharedCell<T>) -> (outcome: Option<Arc<SWOutcome<T>>>)
        requires
            self.of(*cell),
            cell@.wf(),
        ensures
            match outcome {
                Some(outcome) => cell@.outcome == Some(*outcome),
                None => cell@.outcome is None,
            },
    {
        match &cell.outcome {
            Some(outcome) => Some(Arc::clone(outcome)),
            None => None,
        }
    }
}

/// Rejected continuation inputs. Admission consumes neither the input handle
/// nor the operation, and the operation has not run.
pub struct SWThenRejected<I, F> {
    pub reason: SWSpawnError,
    pub input: I,
    pub operation: F,
    pub options: SWSpawnOptions,
}

impl<I, F> From<SWSpawnRejected<(I, F)>> for SWThenRejected<I, F> {
    fn from(rejected: SWSpawnRejected<(I, F)>) -> (mapped: Self) {
        let (input, operation) = rejected.operation;
        SWThenRejected { reason: rejected.reason, input, operation, options: rejected.options }
    }
}

impl<I, F> FromSpecImpl<SWSpawnRejected<(I, F)>> for SWThenRejected<I, F> {
    open spec fn obeys_from_spec() -> bool {
        true
    }

    open spec fn from_spec(rejected: SWSpawnRejected<(I, F)>) -> Self {
        SWThenRejected {
            reason: rejected.reason,
            input: rejected.operation.0,
            operation: rejected.operation.1,
            options: rejected.options,
        }
    }
}

/// An immutable stage value with its declared retained-byte charge. Shared
/// outcome clones keep the same wrapper and charge, rather than copying either.
pub struct SWRetained<T> {
    value: T,
    charge: Option<SWByteLease>,
}

impl<T> SWRetained<T> {
    pub closed spec fn held(self) -> T {
        self.value
    }

    pub closed spec fn lease(self) -> Option<SWByteLease> {
        self.charge
    }

    /// Wraps an already available value without scheduling work. The lease
    /// accounts declared storage, not allocations discovered inside `T`.
    pub fn from_lease(value: T, charge: SWByteLease) -> (retained: Self)
        ensures
            retained.held() == value,
            retained.lease() == Some(charge),
    {
        Self::new(value, Some(charge))
    }

    pub fn new(value: T, charge: Option<SWByteLease>) -> (retained: Self)
        ensures
            retained.held() == value,
            retained.lease() == charge,
    {
        SWRetained { value, charge }
    }

    pub fn value(&self) -> (value: &T)
        ensures
            *value == self.held(),
    {
        &self.value
    }

    /// The value and its charge.
    pub fn into_parts(self) -> (parts: (T, Option<SWByteLease>))
        ensures
            parts == (self.held(), self.lease()),
    {
        (self.value, self.charge)
    }

    /// Transfers storage accounting to the application: the charge ends. The
    /// caller must account for the returned value in its own budget from here.
    pub fn into_inner(self, pool: &mut SWReservationPool) -> (value: T)
        requires
            old(pool)@.wf(),
            self.lease() matches Some(lease) ==> lease.held_in(old(pool)@),
        ensures
            value == self.held(),
            final(pool)@.wf(),
            final(pool)@ == (match self.lease() {
                Some(lease) => old(pool)@.without_lease(lease.lease_slot()),
                None => old(pool)@,
            }),
    {
        let SWRetained { value, charge } = self;
        if let Some(lease) = charge {
            lease.release(pool);
        }
        value
    }
}

} // verus!
