//! Logical results supplied by an external provider, and cancellation authority.
use crate::admission::SWSpawnError;
use crate::context::Context;
use crate::cost::SWCost;
use crate::delivery::TransportView;
use crate::jobs::external_at;
use crate::jobs::external_present;
use crate::jobs::ExternalRecord;
use crate::lane::job_signal;
use crate::lane::open_task;
use crate::lane::transport_of;
use crate::owner::claim_on;
use crate::owner::SWDeliveryTicket;
use crate::owner::SWOwner;
use crate::queue::SWPriority;
use crate::reservation::SWByteLease;
use crate::reservation::SWReservation;
use crate::runtime::external_committed;
use crate::runtime::ExternalAccepted;
use crate::runtime::ExternalRequest;
use crate::runtime::RuntimeView;
use crate::runtime::SWRuntime;
use crate::runtime::WorkLease;
use crate::steps::external_claimed_wf;
use crate::steps::external_found;
use crate::supply::reservation_known;
use crate::task::SWOutcome;
use crate::task::SWRetained;
use crate::task::SWTask;
use crate::task::SWTaskStatus;
use crate::task::Subscription;
use crate::task::TaskView;
use vstd::prelude::*;

verus! {

/// Explicit producer cancellation authority. Observing or dropping a task is
/// never a cancellation request. Cancellation suppresses work not yet claimed;
/// it does not stop an invocation already running.
#[derive(Clone, Copy, Debug, PartialEq, Eq, Structural)]
pub struct SWProducerControl {
    record: u64,
}

impl SWProducerControl {
    pub closed spec fn target(self) -> u64 {
        self.record
    }

    pub fn new(record: u64) -> (control: Self)
        ensures
            control.target() == record,
    {
        SWProducerControl { record }
    }

    /// Asks for cancellation of an owned job or of a provider's result. Hands
    /// back the status that it settles with, or none where it was claimed or
    /// has ended. A provider's result is then published with
    /// [`SWProducer::publish_status`].
    pub fn cancel(&self, runtime: &mut SWRuntime) -> (settled: Option<SWTaskStatus>)
        requires
            old(runtime).wf(),
        ensures
            final(runtime).wf(),
            settled == cancellation(old(runtime)@, self.target()),
            final(runtime)@ == cancelled(old(runtime)@, self.target()),
    {
        if runtime.claim_external(self.record, false) {
            return Some(SWTaskStatus::Cancelled);
        }
        runtime.suppress(self.record, SWTaskStatus::Cancelled)
    }
}

/// The status that cancelling a record settles it with, if it does: a
/// provider's result that nobody has decided, or a job that nobody has claimed.
pub open spec fn cancellation(runtime: RuntimeView, target: u64) -> Option<SWTaskStatus> {
    match runtime.owned {
        Some(owned) => if owned.external_claimable(target, false) {
            Some(SWTaskStatus::Cancelled)
        } else {
            owned.suppression(target, SWTaskStatus::Cancelled)
        },
        None => None,
    }
}

/// The runtime after a record was cancelled.
pub open spec fn cancelled(runtime: RuntimeView, target: u64) -> RuntimeView {
    if cancellation(runtime, target) is None {
        runtime
    } else if runtime.owned->0.external_claimable(target, false) {
        runtime.with_owned(runtime.owned->0.external_claimed(target))
    } else {
        runtime.with_owned(runtime.owned->0.suppressed(target))
    }
}

/// Optional admission, lifetime, publication, and demand policy for one
/// provider-supplied result. The provider is started only after admission.
pub struct SWExternalOptions<'a> {
    pub lease: WorkLease,
    pub priority: Option<SWPriority>,
    pub reservation: Option<&'a SWReservation>,
    pub cost: SWCost,
    pub retained_bytes: usize,
    pub delivery: Option<SWDeliveryTicket>,
    /// The provider wants to hear of versioned aggregate demand.
    pub provider_demand: bool,
}

impl<'a> SWExternalOptions<'a> {
    /// A result that declares nothing.
    pub fn new() -> (options: Self)
        ensures
            options.lease == WorkLease::Unset,
            options.priority is None,
            options.reservation is None,
            options.cost == (SWCost { records: 0, edges: 0, deliveries: 0, bytes: 0 }),
            options.retained_bytes == 0,
            options.delivery is None,
            !options.provider_demand,
    {
        SWExternalOptions {
            lease: WorkLease::Unset,
            priority: None,
            reservation: None,
            cost: SWCost::new(0, 0, 0, 0),
            retained_bytes: 0,
            delivery: None,
            provider_demand: false,
        }
    }

    /// The delivery that the result promises.
    pub open spec fn promised(self) -> Option<u64> {
        match self.delivery {
            Some(ticket) => Some(ticket.identity()),
            None => None,
        }
    }

    /// The request for a result whose promised delivery, if any, is on this
    /// route.
    pub open spec fn request(
        self,
        context: Option<Context>,
        transport: Option<TransportView>,
    ) -> ExternalRequest {
        ExternalRequest {
            priority: self.priority,
            provider_demand: self.provider_demand,
            cost: self.cost,
            retained_bytes: self.retained_bytes,
            delivery: match (self.delivery, transport) {
                (Some(ticket), Some(transport)) => Some(claim_on(transport, ticket.identity())),
                _ => None,
            },
            context,
        }
    }
}

/// Rejection returns all uncommitted options.
pub struct SWExternalRejected<'a> {
    pub reason: SWSpawnError,
    pub options: SWExternalOptions<'a>,
}

/// The single logical result authority for a provider. Abandoning an unfinished
/// producer publishes abandonment. It does not own or end a provider's separate
/// physical access.
pub struct SWProducer {
    id: u64,
    bytes: Option<SWByteLease>,
}

/// The result cell still waits for this producer's outcome.
pub open spec fn awaits<T>(cell: TaskView<SWRetained<T>>, runtime: RuntimeView, id: u64) -> bool {
    &&& cell.wf()
    &&& runtime.owned is Some && external_present(runtime.owned->0.external, id)
        && !runtime.owned->0.external[runtime.owned->0.external_slot(id)].settling
        ==> cell.signal.status is None
}

/// This producer's result has not been decided.
pub open spec fn undecided(runtime: RuntimeView, id: u64) -> bool {
    runtime.owned is Some && runtime.owned->0.external_claimable(id, false)
}

/// What completing with a value does. The winner's value is published with the
/// producer's byte charge; a loser's value comes back, and nothing changes.
pub open spec fn completed<T>(
    before: RuntimeView,
    after: RuntimeView,
    cell: TaskView<SWRetained<T>>,
    cell_after: TaskView<SWRetained<T>>,
    producer: SWProducer,
    producer_after: SWProducer,
    value: T,
    application_failed: bool,
    result: Result<Vec<Subscription>, T>,
) -> bool {
    let id = producer.record();
    match result {
        Ok(edges) => {
            &&& undecided(before, id)
            &&& edges@ == cell.signal.subscribers
            &&& cell_after.outcome matches Some(SWOutcome::Success(retained)) && retained.held()
                == value && retained.lease() == producer.lease()
            &&& cell_after == cell.finished(cell_after.outcome->0, application_failed)
            &&& producer_after.record() == id
            &&& producer_after.lease() is None
            &&& after == before.with_owned(before.owned->0.external_claimed(id))
        },
        Err(returned) => {
            &&& !undecided(before, id)
            &&& returned == value
            &&& cell_after == cell
            &&& producer_after == producer
            &&& after == before
        },
    }
}

/// What completing with an already charged value does: the producer's own
/// charge ends.
pub open spec fn completed_retained<T>(
    before: RuntimeView,
    after: RuntimeView,
    cell: TaskView<SWRetained<T>>,
    cell_after: TaskView<SWRetained<T>>,
    producer: SWProducer,
    producer_after: SWProducer,
    value: SWRetained<T>,
    application_failed: bool,
    result: Result<Vec<Subscription>, SWRetained<T>>,
) -> bool {
    let id = producer.record();
    match result {
        Ok(edges) => {
            &&& undecided(before, id)
            &&& edges@ == cell.signal.subscribers
            &&& cell_after == cell.finished(SWOutcome::Success(value), application_failed)
            &&& producer_after.record() == id
            &&& producer_after.lease() is None
            &&& after == without_charge(
                before.with_owned(before.owned->0.external_claimed(id)),
                producer.lease(),
            )
        },
        Err(returned) => {
            &&& !undecided(before, id)
            &&& returned == value
            &&& cell_after == cell
            &&& producer_after == producer
            &&& after == before
        },
    }
}

/// The newest provider-owned result is undecided.
proof fn newly_undecided(runtime: RuntimeView, id: u64)
    requires
        runtime.wf(),
        runtime.owned is Some,
        !runtime.owned->0.abandoned,
        runtime.owned->0.external.len() > 0,
        runtime.owned->0.external.last() == (ExternalRecord { id, settling: false }),
    ensures
        undecided(runtime, id),
{
    let v = runtime.owned->0;
    let n = v.external.len() - 1;
    assert(external_at(v.external, n, id));
    external_found(v, n, id);
}

impl SWProducer {
    pub closed spec fn record(self) -> u64 {
        self.id
    }

    /// The record of this producer's result.
    pub fn id(&self) -> (id: u64)
        ensures
            id == self.record(),
    {
        self.id
    }

    pub closed spec fn lease(self) -> Option<SWByteLease> {
        self.bytes
    }

    /// What admission handed out for this producer and its promised delivery.
    pub open spec fn admitted_with(self, capacity: Option<SWReservation>) -> ExternalAccepted {
        ExternalAccepted { id: self.record(), bytes: self.lease(), ticket: capacity }
    }

    /// The declared bytes of the result are live in this runtime.
    pub open spec fn held_in(self, runtime: RuntimeView) -> bool {
        self.lease() matches Some(lease) ==> runtime.capacity is Some && lease.held_in(
            runtime.capacity->0,
        )
    }

    /// Admits a provider-owned result without occupying a CPU worker. Provider
    /// submission occurs only after successful admission; a refusal accepts
    /// nothing and returns the options. The control cancels the result
    /// independently of its producer. `owner` is the route of the promised
    /// delivery, where there is one: it is committed and charged, and its
    /// readiness bound to the result's completion.
    pub fn accept<'a, O, C, T>(
        runtime: &mut SWRuntime,
        context: Option<Context>,
        owner: Option<&mut SWOwner<O, C>>,
        options: SWExternalOptions<'a>,
    ) -> (result: Result<
        (SWProducer, SWTask<SWRetained<T>>, SWProducerControl),
        SWExternalRejected<'a>,
    >)
        requires
            old(runtime).wf(),
            old(runtime)@.owned matches Some(owned) ==> owned.next_id < u64::MAX,
            old(runtime)@.control.external < usize::MAX,
            reservation_known(
                old(runtime)@.capacity,
                old(runtime)@.control.id,
                options.reservation,
            ),
            owner matches Some(owner) ==> owner.wf(),
            options.delivery is Some <==> owner is Some,
        ensures
            final(runtime).wf(),
            owner matches Some(owner) ==> final(owner).wf() && final(owner).held() == owner.held(),
            ({
                let request = options.request(context, transport_of(owner));
                let error = old(runtime)@.external_error(
                    request,
                    options.lease,
                    options.reservation,
                );
                match result {
                    Ok((producer, task, control)) => {
                        &&& error is None
                        &&& exists|capacity: Option<SWReservation>|
                            {
                                &&& #[trigger] external_committed(
                                    old(runtime)@,
                                    final(runtime)@,
                                    request,
                                    options.reservation,
                                    producer.admitted_with(capacity),
                                )
                                &&& match owner {
                                    Some(owner) => final(owner)@ == owner@.delivery_committed(
                                        options.promised()->0,
                                        capacity,
                                    ),
                                    None => capacity is None,
                                }
                            }
                        &&& producer.held_in(final(runtime)@)
                        &&& control.target() == producer.record()
                        &&& undecided(final(runtime)@, producer.record())
                        &&& task@.wf()
                        &&& task@ == (TaskView::<SWRetained<T>> {
                            outcome: None,
                            signal: job_signal(
                                old(runtime)@.control.id,
                                producer.record(),
                                options.promised(),
                            ),
                        })
                    },
                    Err(rejected) => {
                        &&& error == Some(rejected.reason)
                        &&& rejected.options == options
                        &&& final(runtime)@ == old(runtime)@.after_refused_external(
                            request,
                            options.lease,
                            options.reservation,
                        )
                        &&& owner matches Some(owner) ==> final(owner)@ == owner@
                    },
                }
            }),
    {
        let ghost v = runtime@;
        let identity: u64 = runtime.identity();
        let mut request = ExternalRequest {
            priority: options.priority,
            provider_demand: options.provider_demand,
            cost: options.cost,
            retained_bytes: options.retained_bytes,
            delivery: None,
            context,
        };
        match owner {
            Some(owner) => {
                if let Some(ticket) = &options.delivery {
                    request.delivery = Some(owner.delivery_claim(ticket));
                }
                match runtime.external(&request, options.lease, options.reservation) {
                    Err(reason) => Err(SWExternalRejected { reason, options }),
                    Ok(accepted) => {
                        let ghost full = accepted;
                        let ExternalAccepted { id, bytes, ticket: capacity } = accepted;
                        let ghost drawn = capacity;
                        let mut delivery: Option<u64> = None;
                        if let Some(ticket) = &options.delivery {
                            owner.commit_delivery(ticket, capacity);
                            delivery = Some(ticket.id());
                        }
                        let producer = SWProducer { id, bytes };
                        proof {
                            assert(producer.admitted_with(drawn) == full);
                            newly_undecided(runtime@, id);
                        }
                        let task = open_task(identity, id, delivery);
                        Ok((producer, task, SWProducerControl::new(id)))
                    },
                }
            },
            None => match runtime.external(&request, options.lease, options.reservation) {
                Err(reason) => Err(SWExternalRejected { reason, options }),
                Ok(accepted) => {
                    let ghost full = accepted;
                    let ExternalAccepted { id, bytes, ticket: capacity } = accepted;
                    let producer = SWProducer { id, bytes };
                    proof {
                        assert(capacity is None);
                        assert(producer.admitted_with(None) == full);
                        newly_undecided(runtime@, id);
                    }
                    let task = open_task(identity, id, None);
                    Ok((producer, task, SWProducerControl::new(id)))
                },
            },
        }
    }

    /// Publishes a result if cancellation or abandonment has not already won.
    /// On a lost race, returns the untouched value. The edges that now activate
    /// are handed out; the record ends after they have been served.
    pub fn complete_with<T>(
        &mut self,
        runtime: &mut SWRuntime,
        cell: &mut SWTask<SWRetained<T>>,
        value: T,
        application_failed: bool,
    ) -> (result: Result<Vec<Subscription>, T>)
        requires
            old(runtime).wf(),
            awaits(old(cell)@, old(runtime)@, old(self).record()),
        ensures
            final(runtime).wf(),
            final(cell)@.wf(),
            completed(
                old(runtime)@,
                final(runtime)@,
                old(cell)@,
                final(cell)@,
                *old(self),
                *final(self),
                value,
                application_failed,
                result,
            ),
    {
        if !runtime.claim_external(self.id, false) {
            return Err(value);
        }
        let bytes = self.bytes.take();
        let retained = SWRetained::new(value, bytes);
        Ok(cell.finish(SWOutcome::Success(retained), application_failed))
    }

    /// Publishes a result if cancellation or abandonment has not already won.
    pub fn complete<T>(
        &mut self,
        runtime: &mut SWRuntime,
        cell: &mut SWTask<SWRetained<T>>,
        value: T,
    ) -> (result: Result<Vec<Subscription>, T>)
        requires
            old(runtime).wf(),
            awaits(old(cell)@, old(runtime)@, old(self).record()),
        ensures
            final(runtime).wf(),
            final(cell)@.wf(),
            completed(
                old(runtime)@,
                final(runtime)@,
                old(cell)@,
                final(cell)@,
                *old(self),
                *final(self),
                value,
                false,
                result,
            ),
    {
        self.complete_with(runtime, cell, value, false)
    }

    /// Preserves the typed `Err` payload and marks dependency status as an
    /// application failure.
    pub fn complete_fallible<T, E>(
        &mut self,
        runtime: &mut SWRuntime,
        cell: &mut SWTask<SWRetained<Result<T, E>>>,
        value: Result<T, E>,
    ) -> (result: Result<Vec<Subscription>, Result<T, E>>)
        requires
            old(runtime).wf(),
            awaits(old(cell)@, old(runtime)@, old(self).record()),
        ensures
            final(runtime).wf(),
            final(cell)@.wf(),
            completed(
                old(runtime)@,
                final(runtime)@,
                old(cell)@,
                final(cell)@,
                *old(self),
                *final(self),
                value,
                value is Err,
                result,
            ),
    {
        let failed = value.is_err();
        self.complete_with(runtime, cell, value, failed)
    }

    fn complete_retained_with<T>(
        &mut self,
        runtime: &mut SWRuntime,
        cell: &mut SWTask<SWRetained<T>>,
        value: SWRetained<T>,
        application_failed: bool,
    ) -> (result: Result<Vec<Subscription>, SWRetained<T>>)
        requires
            old(runtime).wf(),
            awaits(old(cell)@, old(runtime)@, old(self).record()),
            old(self).held_in(old(runtime)@),
        ensures
            final(runtime).wf(),
            final(cell)@.wf(),
            completed_retained(
                old(runtime)@,
                final(runtime)@,
                old(cell)@,
                final(cell)@,
                *old(self),
                *final(self),
                value,
                application_failed,
                result,
            ),
    {
        if !runtime.claim_external(self.id, false) {
            return Err(value);
        }
        if let Some(lease) = self.bytes.take() {
            runtime.release_bytes(lease);
        }
        Ok(cell.finish(SWOutcome::Success(value), application_failed))
    }

    /// Publishes a value whose declared bytes are already held by its own
    /// charge; the producer's charge, which this route does not use, ends.
    pub fn complete_retained<T>(
        &mut self,
        runtime: &mut SWRuntime,
        cell: &mut SWTask<SWRetained<T>>,
        value: SWRetained<T>,
    ) -> (result: Result<Vec<Subscription>, SWRetained<T>>)
        requires
            old(runtime).wf(),
            awaits(old(cell)@, old(runtime)@, old(self).record()),
            old(self).held_in(old(runtime)@),
        ensures
            final(runtime).wf(),
            final(cell)@.wf(),
            completed_retained(
                old(runtime)@,
                final(runtime)@,
                old(cell)@,
                final(cell)@,
                *old(self),
                *final(self),
                value,
                false,
                result,
            ),
    {
        self.complete_retained_with(runtime, cell, value, false)
    }

    /// Publishes an already charged application result while preserving a
    /// typed `Err` and its dependency failure status.
    pub fn complete_fallible_retained<T, E>(
        &mut self,
        runtime: &mut SWRuntime,
        cell: &mut SWTask<SWRetained<Result<T, E>>>,
        value: SWRetained<Result<T, E>>,
    ) -> (result: Result<Vec<Subscription>, SWRetained<Result<T, E>>>)
        requires
            old(runtime).wf(),
            awaits(old(cell)@, old(runtime)@, old(self).record()),
            old(self).held_in(old(runtime)@),
        ensures
            final(runtime).wf(),
            final(cell)@.wf(),
            completed_retained(
                old(runtime)@,
                final(runtime)@,
                old(cell)@,
                final(cell)@,
                *old(self),
                *final(self),
                value,
                value.held() is Err,
                result,
            ),
    {
        let failed = value.value().is_err();
        self.complete_retained_with(runtime, cell, value, failed)
    }

    /// Publishes a result whose settlement was claimed elsewhere, by its control
    /// or by abandonment of the runtime. The producer's unused charge ends, and
    /// the edges that now activate are handed out.
    pub fn publish_status<T>(
        &mut self,
        runtime: &mut SWRuntime,
        cell: &mut SWTask<SWRetained<T>>,
        abandonment: bool,
    ) -> (edges: Vec<Subscription>)
        requires
            old(runtime).wf(),
            old(cell)@.wf(),
            old(cell)@.signal.status is None,
            old(self).held_in(old(runtime)@),
            old(runtime)@.owned matches Some(owned) ==> !owned.external_claimable(
                old(self).record(),
                true,
            ),
        ensures
            final(runtime).wf(),
            final(cell)@.wf(),
            edges@ == old(cell)@.signal.subscribers,
            final(cell)@ == old(cell)@.finished(unfulfilled(abandonment), false),
            final(runtime)@ == without_charge(old(runtime)@, old(self).lease()),
            final(self).record() == old(self).record(),
            final(self).lease() is None,
    {
        if let Some(lease) = self.bytes.take() {
            runtime.release_bytes(lease);
        }
        let outcome = if abandonment {
            SWOutcome::Abandoned
        } else {
            SWOutcome::Cancelled
        };
        cell.finish(outcome, false)
    }

    /// Settles an unfulfilled result as cancelled or abandoned, if nothing else
    /// has settled it. After abandonment of the runtime only abandonment can.
    pub fn settle<T>(
        &mut self,
        runtime: &mut SWRuntime,
        cell: &mut SWTask<SWRetained<T>>,
        abandonment: bool,
    ) -> (edges: Option<Vec<Subscription>>)
        requires
            old(runtime).wf(),
            awaits(old(cell)@, old(runtime)@, old(self).record()),
            old(self).held_in(old(runtime)@),
        ensures
            final(runtime).wf(),
            final(cell)@.wf(),
            settled(
                old(runtime)@,
                final(runtime)@,
                old(cell)@,
                final(cell)@,
                *old(self),
                *final(self),
                abandonment,
                edges,
            ),
    {
        if !runtime.claim_external(self.id, abandonment) {
            return None;
        }
        proof {
            one_settlement_wins(old(runtime)@, self.record(), abandonment, true);
        }
        Some(self.publish_status(runtime, cell, abandonment))
    }

    /// Requests logical cancellation. The provider must still retire any
    /// physical access through its independent access lease.
    pub fn cancel<T>(&mut self, runtime: &mut SWRuntime, cell: &mut SWTask<SWRetained<T>>) -> (edges:
        Option<Vec<Subscription>>)
        requires
            old(runtime).wf(),
            awaits(old(cell)@, old(runtime)@, old(self).record()),
            old(self).held_in(old(runtime)@),
        ensures
            final(runtime).wf(),
            final(cell)@.wf(),
            settled(
                old(runtime)@,
                final(runtime)@,
                old(cell)@,
                final(cell)@,
                *old(self),
                *final(self),
                false,
                edges,
            ),
    {
        self.settle(runtime, cell, false)
    }

    /// Settles an unfulfilled result as abandoned.
    pub fn abandon<T>(&mut self, runtime: &mut SWRuntime, cell: &mut SWTask<SWRetained<T>>) -> (edges:
        Option<Vec<Subscription>>)
        requires
            old(runtime).wf(),
            awaits(old(cell)@, old(runtime)@, old(self).record()),
            old(self).held_in(old(runtime)@),
        ensures
            final(runtime).wf(),
            final(cell)@.wf(),
            settled(
                old(runtime)@,
                final(runtime)@,
                old(cell)@,
                final(cell)@,
                *old(self),
                *final(self),
                true,
                edges,
            ),
    {
        self.settle(runtime, cell, true)
    }
}

/// The outcome of a result that its provider did not supply.
pub open spec fn unfulfilled<T>(abandonment: bool) -> SWOutcome<T> {
    if abandonment {
        SWOutcome::Abandoned
    } else {
        SWOutcome::Cancelled
    }
}

/// What settling an unfulfilled result does. The winner publishes, and its
/// unused charge ends; a loser changes nothing.
pub open spec fn settled<T>(
    before: RuntimeView,
    after: RuntimeView,
    cell: TaskView<SWRetained<T>>,
    cell_after: TaskView<SWRetained<T>>,
    producer: SWProducer,
    producer_after: SWProducer,
    abandonment: bool,
    edges: Option<Vec<Subscription>>,
) -> bool {
    let id = producer.record();
    let won = before.owned is Some && before.owned->0.external_claimable(id, abandonment);
    match edges {
        Some(edges) => {
            &&& won
            &&& edges@ == cell.signal.subscribers
            &&& cell_after == cell.finished(unfulfilled(abandonment), false)
            &&& producer_after.record() == id
            &&& producer_after.lease() is None
            &&& after == without_charge(
                before.with_owned(before.owned->0.external_claimed(id)),
                producer.lease(),
            )
        },
        None => {
            &&& !won
            &&& cell_after == cell
            &&& producer_after == producer
            &&& after == before
        },
    }
}

/// The runtime after a producer's unused bytes have returned.
pub open spec fn without_charge(runtime: RuntimeView, lease: Option<SWByteLease>) -> RuntimeView {
    match lease {
        Some(lease) => RuntimeView {
            capacity: Some(runtime.capacity->0.without_lease(lease.lease_slot())),
            ..runtime
        },
        None => runtime,
    }
}

/// A result that was claimed is not claimed again: one outcome wins.
pub proof fn one_settlement_wins(runtime: RuntimeView, id: u64, first: bool, second: bool)
    requires
        runtime.wf(),
        runtime.owned is Some,
        runtime.owned->0.external_claimable(id, first),
    ensures
        !runtime.owned->0.external_claimed(id).external_claimable(id, second),
{
    let v = runtime.owned->0;
    let w = v.external_claimed(id);
    let i = v.external_slot(id);
    assert(external_at(v.external, i, id));
    external_claimed_wf(v, id);
    assert(external_at(w.external, i, id));
    external_found(w, i, id);
}

impl<T> SWRetained<T> {
    /// Transfers storage accounting to the application, in the runtime whose
    /// capacity the value was charged to.
    pub fn into_value(self, runtime: &mut SWRuntime) -> (value: T)
        requires
            old(runtime).wf(),
            self.lease() matches Some(lease) ==> old(runtime)@.capacity is Some && lease.held_in(
                old(runtime)@.capacity->0,
            ),
        ensures
            final(runtime).wf(),
            value == self.held(),
            final(runtime)@ == without_charge(old(runtime)@, self.lease()),
    {
        let (value, charge) = self.into_parts();
        if let Some(lease) = charge {
            runtime.release_bytes(lease);
        }
        value
    }
}

/// A provider's result that was cancelled through its control is decided: the
/// producer can neither complete, cancel nor abandon it, and the control cancels
/// it no second time.
pub proof fn cancelled_results_stay_cancelled(runtime: RuntimeView, id: u64)
    requires
        runtime.wf(),
        undecided(runtime, id),
    ensures
        cancellation(runtime, id) == Some(SWTaskStatus::Cancelled),
        !undecided(cancelled(runtime, id), id),
        !cancelled(runtime, id).owned->0.external_claimable(id, true),
        cancellation(cancelled(runtime, id), id) is None,
{
    one_settlement_wins(runtime, id, false, false);
    one_settlement_wins(runtime, id, false, true);
    let v = runtime.owned->0;
    let i = v.external_slot(id);
    assert(external_at(v.external, i, id));
}

} // verus!
