//! What registrations and promises keep, return and owe.
use crate::cost::SWCost;
use crate::delivery::DeliveryRecord;
use crate::delivery::EndpointKind;
use crate::delivery::not_claimed;
use crate::delivery::SWDeliveryStatus;
use crate::delivery::TransportView;
use crate::jobs::external_at;
use crate::lane::OwnedJob;
use crate::lane::stage_admitted;
use crate::lane::stage_refused;
use crate::lane::SWStageOptions;
use crate::lane::SWStageRejected;
use crate::owner::attached_on_ready;
use crate::owner::charge_of;
use crate::owner::charged_for;
use crate::owner::endpoint_of;
use crate::owner::new_entry;
use crate::owner::OwnerView;
use crate::owner::prepared;
use crate::owner::registered;
use crate::owner::SWDelivery;
use crate::owner::SWDeliveryControl;
use crate::owner::SWOwnerError;
use crate::owner::SWOwnerRejected;
use crate::owner::SWPhase;
use crate::owner::SWPreparedDelivery;
use crate::policy::within_by_numbers;
use crate::producer::completed;
use crate::producer::completed_retained;
use crate::producer::settled;
use crate::producer::SWProducer;
use crate::reservation::Accounts;
use crate::reservation::admitted;
use crate::reservation::Kind;
use crate::reservation::served;
use crate::reservation::serves;
use crate::reservation::SWReservation;
use crate::runtime::charge_at;
use crate::runtime::charge_slot;
use crate::runtime::delivery_need;
use crate::runtime::RuntimeView;
use crate::runtime::WorkLease;
use crate::slots::live;
use crate::steps::external_found;
use crate::steps::SubmitRequest;
use crate::sums::total_is_filtered;
use crate::supply::draw_wakes;
use crate::supply::Need;
use crate::supply::supplied;
use crate::supply::Supplied;
use crate::supply::supply_steps;
use crate::task::SignalView;
use crate::task::Subscription;
use crate::task::SWOutcome;
use crate::task::SWRetained;
use crate::task::SWTaskStatus;
use crate::task::TaskView;
use vstd::prelude::*;

verus! {

/// A promised delivery is either registered, with its callback kept for its
/// phase behind the others and told nothing, or its callback comes back and the
/// owner is as it was. A work set without a lease refuses it as closed.
pub proof fn registrations_keep_or_return<C>(
    before: OwnerView<C>,
    after: OwnerView<C>,
    runtime_before: RuntimeView,
    runtime_after: RuntimeView,
    lease: WorkLease,
    capacity: Option<&SWReservation>,
    phase: SWPhase,
    callback: C,
    result: Result<SWPreparedDelivery, SWOwnerRejected<C>>,
)
    requires
        prepared(
            before,
            after,
            runtime_before,
            runtime_after,
            lease,
            capacity,
            phase,
            callback,
            result,
        ),
        before.transport.next_id < u64::MAX,
    ensures
        result is Ok ==> {
            let e = after.callbacks.last();
            &&& lease == WorkLease::Unset || lease == WorkLease::Granted
            &&& !before.closed && !before.faulted && !before.active && !before.transport.closed
                && !before.close_requested
            &&& after.callbacks.len() == before.callbacks.len() + 1
            &&& forall|i: int|
                0 <= i < before.callbacks.len() ==> (#[trigger] after.callbacks[i])
                    == before.callbacks[i]
            &&& e.id == before.transport.next_id && e.phase == phase && e.callback == callback
                && e.status is None && !e.awaits && e.subscription is None
            &&& e.leased <==> lease == WorkLease::Granted
            &&& after.transport.records.len() == before.transport.records.len() + 1
            &&& after.transport.records.last().id == e.id
            &&& after.transport.records.last().status == SWDeliveryStatus::Waiting
            &&& after.transport.next_id == before.transport.next_id + 1
            &&& after.observers.len() == before.observers.len() + 1
            &&& after.observers.last().handles == 1
            &&& after.pending == before.pending && after.inbox == before.inbox
            &&& after.transport.records.last().endpoint == EndpointKind::Protected <==> capacity
                is Some && capacity->0.drawn_kind() == Kind::Required
        },
        result matches Err(rejected) ==> {
            &&& rejected.callback == callback && after == before
            &&& (lease is Refused || lease == WorkLease::Ambiguous) ==> rejected.reason
                == SWOwnerError::Closed && runtime_after == runtime_before
        },
{
    if result is Ok {
        let charge = choose|charge: Option<SWReservation>| #[trigger]
            registered(
                before,
                after,
                runtime_before,
                runtime_after,
                capacity,
                new_entry(before.transport, lease, None, false, phase, callback),
                charge,
            );
        assert(after.transport == before.transport.reserved(
            endpoint_of(capacity),
            charge,
        ));
    }
}

/// A callback for a completion is kept or comes back the same way. It waits on
/// an edge of its own where the completion is pending; where that has ended it
/// learns the status at once, and the completion is left alone.
pub proof fn attachments_keep_or_return<C>(
    before: OwnerView<C>,
    after: OwnerView<C>,
    runtime_before: RuntimeView,
    runtime_after: RuntimeView,
    signal_before: SignalView,
    signal_after: SignalView,
    lease: WorkLease,
    capacity: Option<&SWReservation>,
    phase: SWPhase,
    callback: C,
    result: Result<(SWDelivery, SWDeliveryControl), SWOwnerRejected<C>>,
)
    requires
        signal_before.wf(),
        signal_before.next_subscriber < u64::MAX,
        attached_on_ready(
            before,
            after,
            runtime_before,
            runtime_after,
            signal_before,
            signal_after,
            lease,
            capacity,
            phase,
            callback,
            result,
        ),
    ensures
        result is Ok ==> {
            let id = before.transport.next_id as u64;
            &&& !before.closed && !before.faulted && !before.active && !before.transport.closed
            &&& signal_before.status is Some ==> signal_after == signal_before
            &&& signal_before.status is None ==> signal_after.subscribers.len()
                == signal_before.subscribers.len() + 1 && signal_after.subscribers.last().token
                == id && signal_after.status is None
            &&& after.report_to(id) == signal_before.status
            &&& after.status_of(id) == Some(SWDeliveryStatus::Ready) <==> signal_before.status
                is Some
        },
        result matches Err(rejected) ==> rejected.callback == callback && after == before
            && signal_after == signal_before,
{
}

/// A promise can be completed exactly once, while nobody cancelled it and nothing
/// was abandoned: then its value is the outcome and its waiters are served.
/// Otherwise the value comes back and nothing happens.
pub proof fn completions_settle_once<T>(
    before: RuntimeView,
    after: RuntimeView,
    cell: TaskView<SWRetained<T>>,
    cell_after: TaskView<SWRetained<T>>,
    producer: SWProducer,
    producer_after: SWProducer,
    value: T,
    failed: bool,
    result: Result<Vec<Subscription>, T>,
    i: int,
)
    requires
        before.owned is Some,
        before.owned->0.wf(),
        0 <= i < before.owned->0.external.len(),
        before.owned->0.external[i].id == producer.record(),
        completed(
            before,
            after,
            cell,
            cell_after,
            producer,
            producer_after,
            value,
            failed,
            result,
        ),
    ensures
        result is Ok <==> !before.owned->0.external[i].settling && !before.owned->0.abandoned,
        result matches Ok(edges) ==> {
            &&& edges@ == cell.signal.subscribers
            &&& cell_after.outcome is Some && cell_after.outcome->0 is Success
            &&& cell_after.outcome->0->Success_0.held() == value
            &&& cell_after.signal.status == Some(
                if failed {
                    SWTaskStatus::ApplicationFailed
                } else {
                    SWTaskStatus::Succeeded
                },
            )
            &&& cell_after.signal.subscribers.len() == 0
            &&& after.owned is Some && after.owned->0.external[i].settling
            &&& after.control == before.control && after.charges == before.charges
        },
        result matches Err(returned) ==> returned == value && cell_after == cell && after == before,
{
    let owned = before.owned->0;
    assert(external_at(owned.external, i, producer.record()));
    external_found(owned, i, producer.record());
}

/// A promise that ends without a value is cancelled, or abandoned where shutdown
/// gives it up; it releases its bytes and serves its waiters. One that was
/// settled before is not touched.
pub proof fn dropped_promises_settle_once<T>(
    before: RuntimeView,
    after: RuntimeView,
    cell: TaskView<SWRetained<T>>,
    cell_after: TaskView<SWRetained<T>>,
    producer: SWProducer,
    producer_after: SWProducer,
    abandonment: bool,
    edges: Option<Vec<Subscription>>,
    i: int,
)
    requires
        before.owned is Some,
        before.owned->0.wf(),
        0 <= i < before.owned->0.external.len(),
        before.owned->0.external[i].id == producer.record(),
        settled(before, after, cell, cell_after, producer, producer_after, abandonment, edges),
    ensures
        edges is Some <==> !before.owned->0.external[i].settling && (before.owned->0.abandoned
            ==> abandonment),
        edges matches Some(edges) ==> {
            &&& edges@ == cell.signal.subscribers
            &&& cell_after.signal.status == Some(
                if abandonment {
                    SWTaskStatus::Abandoned
                } else {
                    SWTaskStatus::Cancelled
                },
            )
            &&& cell_after.outcome is Some && !(cell_after.outcome->0 is Success)
            &&& cell_after.signal.subscribers.len() == 0
            &&& after.owned is Some && after.owned->0.external[i].settling
            &&& producer_after.lease() is None
            &&& producer.lease() is None ==> after.capacity == before.capacity
        },
        edges is None ==> cell_after == cell && after == before && producer_after == producer,
{
    let owned = before.owned->0;
    assert(external_at(owned.external, i, producer.record()));
    external_found(owned, i, producer.record());
}

/// A stage is charged what it declared, with its prerequisites and its promised
/// delivery; a refused one comes back whole.
pub proof fn stages_keep_or_return<'a, F, T>(
    before: RuntimeView,
    after: RuntimeView,
    request: SubmitRequest,
    options: SWStageOptions<'a>,
    job: OwnedJob<F, T>,
    capacity: Option<SWReservation>,
    operation: F,
    rejected: SWStageRejected<'a, F>,
)
    ensures
        stage_admitted(before, after, request, options, job, capacity) ==> {
            &&& options.retained_bytes <= options.cost.bytes
            &&& options.lease == WorkLease::Unset || options.lease == WorkLease::Granted
            &&& after.control.active == before.control.active + 1
            &&& after.owned is Some && after.owned->0.records.len()
                == before.owned->0.records.len() + 1
            &&& after.owned->0.records.last().edges == request.prerequisites
            &&& after.owned->0.records.last().class == request.class
        },
        stage_refused(before, after, request, options, operation, rejected) ==> {
            &&& rejected.operation == operation && rejected.options == options
            &&& after.control.active == before.control.active
            &&& after.charges == before.charges
        },
{
}

/// What a change at a route owes the runtime: one notification for a promise,
/// a claim, a settlement, and for the first word of a producer or a cancellation
/// that changes something; none where nothing changed. Closing owes one, and one
/// for each delivery that it cancels.
pub proof fn routes_owe_their_changes(
    v: TransportView,
    id: u64,
    endpoint: EndpointKind,
    charge: Option<SWReservation>,
)
    requires
        v.wf(),
        v.has(id),
        v.wake + v.records.len() + 1 < u64::MAX,
    ensures
        v.reserved(endpoint, charge).wake == v.wake + 1,
        v.claimed(id).wake == v.wake + 1,
        v.settled(id).wake == v.wake + 1,
        ({
            let r = v.get(id);
            let speaks = !r.terminal && r.status == SWDeliveryStatus::Waiting && !r.cancelled;
            &&& speaks ==> v.readied(id).wake == v.wake + 1
            &&& !speaks ==> v.readied(id).wake == v.wake
            &&& r.status != SWDeliveryStatus::Claimed ==> v.cancelled(id).wake == v.wake + 1
            &&& r.status == SWDeliveryStatus::Claimed ==> v.cancelled(id).wake == v.wake
        }),
        v.committed(id).wake == v.wake,
        v.all_cancelled().wake == v.wake + v.records.filter(
            |r: DeliveryRecord| r.status != SWDeliveryStatus::Claimed,
        ).len(),
        v.shut().wake == v.wake + 1 + v.records.filter(
            |r: DeliveryRecord| r.status != SWDeliveryStatus::Claimed,
        ).len(),
{
    let p = |r: DeliveryRecord| r.status != SWDeliveryStatus::Claimed;
    total_is_filtered(v.records, not_claimed(), p);
    v.records.lemma_filter_len(p);
}

/// The capacity of a delivery is what it was charged, and its settlement hands
/// it out; what others are charged stays.
pub proof fn deliveries_hold_their_charge(v: TransportView, k: int)
    requires
        v.wf(),
        0 <= k < v.charges.len(),
    ensures
        charge_of(v, v.charges[k].id) == Some(v.charges[k].reservation),
        v.settled(v.charges[k].id).charges == v.charges.remove(k),
{
    let id = v.charges[k].id;
    assert(charge_at(v.charges, k, id));
    let j = charge_slot(v.charges, id);
    assert(charge_at(v.charges, j, id));
    if j != k {
        assert(v.charges[j].id != v.charges[k].id);
    }
}

/// What a change in the books owes the runtime: one notification for a new
/// pipeline, a growth, a released lease and a retired reservation, and one more
/// where the pipeline ends with it.
pub proof fn books_owe_their_changes(a: Accounts, b: Accounts, bank: int, lease: int, cost: SWCost)
    requires
        a.wf(),
        live(a.banks, bank),
        live(a.leases, lease),
        a.wake < u64::MAX - 2,
    ensures
        a.grown(a.banks[bank]->0.pipeline as int, bank, cost).wake == a.wake + 1,
        a.without_lease(lease).wake == a.wake + 1,
        a.without_bank(bank).wake == a.wake + 1 || a.without_bank(bank).wake == a.wake + 2,
        a.without_bank(bank).wake == a.wake + 2 <==> !exists|x: int|
            x != bank && live(a.banks, x) && (#[trigger] a.banks[x])->0.pipeline
                == a.banks[bank]->0.pipeline,
        admitted(a, b, a.pipelines.len() as int, a.banks.len() as int, cost, Kind::Ordinary)
            ==> b.wake == a.wake + 1,
{
    let pipeline = a.banks[bank]->0.pipeline as int;
    let banks = a.banks_without(bank);
    if served(banks, pipeline) {
        let x = choose|x: int| #[trigger] serves(banks, x, pipeline);
        assert(live(banks, x));
        assert(a.bank_linked(bank));
        assert(a.banks[x]->0.pipeline == pipeline);
    }
    if exists|x: int|
        x != bank && live(a.banks, x) && (#[trigger] a.banks[x])->0.pipeline == pipeline {
        let x = choose|x: int|
            x != bank && live(a.banks, x) && (#[trigger] a.banks[x])->0.pipeline == pipeline;
        assert(a.bank_linked(bank));
        assert(live(banks, x));
        assert(serves(banks, x, pipeline));
    }
}

/// A draw that is undone has notified: once from a pipeline and three times
/// without one, and once more for each of retained bytes and a promise.
pub proof fn undone_draws_have_notified(window: &SWReservation, bytes: usize, promised: bool)
    ensures
        draw_wakes(None, bytes, promised) == draw_wakes(Some(window), bytes, promised) + 2,
        draw_wakes(Some(window), bytes, promised) == 1 + (if bytes > 0 {
            1int
        } else {
            0int
        }) + (if promised {
            1int
        } else {
            0int
        }),
{
}

/// What admitted work is charged. Without a policy it is charged nothing. Without
/// a pipeline the policy's ordinary usage grows by exactly its cost; with one the
/// policy's usage stays, since the pipeline was charged before.
pub proof fn supplies_are_charged(
    before: Accounts,
    after: Option<Accounts>,
    reservation: Option<&SWReservation>,
    need: Need,
    supply: Supplied,
)
    requires
        before.wf(),
        before.usage.ordinary.can_add(need.cost),
        supplied(Some(before), after, reservation, need, supply),
    ensures
        after is Some,
        supply.charge is Some,
        supply.bytes is Some <==> need.retained_bytes > 0,
        supply.bytes matches Some(lease) ==> lease.byte_count() == need.retained_bytes,
        supply.ticket is Some <==> need.delivery,
        reservation is Some ==> after->0.usage == before.usage,
        reservation is None ==> {
            let u = after->0.usage;
            &&& u.ordinary.records == before.usage.ordinary.records + need.cost.records
            &&& u.ordinary.edges == before.usage.ordinary.edges + need.cost.edges
            &&& u.ordinary.deliveries == before.usage.ordinary.deliveries + need.cost.deliveries
            &&& u.ordinary.bytes == before.usage.ordinary.bytes + need.cost.bytes
            &&& u.required == before.usage.required && u.pipelines == before.usage.pipelines
            &&& u.closed == before.usage.closed
        },
{
    within_by_numbers(before.usage.ordinary, need.cost);
    let (a1, a2) = choose|a1: Accounts, a2: Accounts| #[trigger]
        supply_steps(before, a1, a2, after->0, reservation, need, supply);
    assert(a2.usage == a1.usage);
    assert(after->0.usage == a2.usage);
}

/// A promise that is completed with a value that holds its own bytes releases
/// those that the promise held; otherwise it is like any completion.
pub proof fn retained_completions_settle_once<T>(
    before: RuntimeView,
    after: RuntimeView,
    cell: TaskView<SWRetained<T>>,
    cell_after: TaskView<SWRetained<T>>,
    producer: SWProducer,
    producer_after: SWProducer,
    value: SWRetained<T>,
    failed: bool,
    result: Result<Vec<Subscription>, SWRetained<T>>,
    i: int,
)
    requires
        before.owned is Some,
        before.owned->0.wf(),
        0 <= i < before.owned->0.external.len(),
        before.owned->0.external[i].id == producer.record(),
        completed_retained(
            before,
            after,
            cell,
            cell_after,
            producer,
            producer_after,
            value,
            failed,
            result,
        ),
    ensures
        result is Ok <==> !before.owned->0.external[i].settling && !before.owned->0.abandoned,
        result matches Ok(edges) ==> {
            &&& edges@ == cell.signal.subscribers
            &&& cell_after.outcome == Some(SWOutcome::Success(value))
            &&& cell_after.signal.status == Some(
                if failed {
                    SWTaskStatus::ApplicationFailed
                } else {
                    SWTaskStatus::Succeeded
                },
            )
            &&& after.owned is Some && after.owned->0.external[i].settling
            &&& producer_after.lease() is None
            &&& producer.lease() is None ==> after.capacity == before.capacity
            &&& producer.lease() matches Some(lease) ==> after.capacity == Some(
                before.capacity->0.without_lease(lease.lease_slot()),
            )
        },
        result matches Err(returned) ==> returned == value && cell_after == cell && after == before,
{
    let owned = before.owned->0;
    assert(external_at(owned.external, i, producer.record()));
    external_found(owned, i, producer.record());
}

/// What a registered delivery is charged: one delivery of the policy's ordinary
/// part, or one that its pipeline was charged before; nothing without a policy.
/// Nothing else of the runtime changes.
pub proof fn deliveries_are_charged_once(
    before: RuntimeView,
    after: RuntimeView,
    capacity: Option<&SWReservation>,
    charge: Option<SWReservation>,
)
    requires
        before.capacity matches Some(books) ==> books.wf() && books.usage.ordinary.deliveries
            < usize::MAX,
        charged_for(before, after, capacity, charge),
    ensures
        after.control == before.control && after.owned == before.owned && after.charges
            == before.charges,
        before.capacity is None ==> after.capacity is None && charge is None,
        before.capacity matches Some(books) ==> {
            let u = after.capacity->0.usage;
            &&& after.capacity is Some && charge is Some
            &&& capacity is Some ==> u == books.usage
            &&& capacity is None ==> {
                &&& u.ordinary.deliveries == books.usage.ordinary.deliveries + 1
                &&& u.ordinary.records == books.usage.ordinary.records && u.ordinary.edges
                    == books.usage.ordinary.edges && u.ordinary.bytes
                    == books.usage.ordinary.bytes
                &&& u.required == books.usage.required
            }
        },
{
    if let Some(books) = before.capacity {
        within_by_numbers(books.usage.ordinary, SWCost::one_delivery());
        supplies_are_charged(
            books,
            after.capacity,
            capacity,
            delivery_need(),
            Supplied { charge, bytes: None, ticket: None },
        );
    }
}

} // verus!
