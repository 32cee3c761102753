//! What an owner refuses, publishes and cleans up.
use crate::cost::SWCost;
use crate::delivery::all_cancelled_effect;
use crate::delivery::delivery_at;
use crate::delivery::delivery_found;
use crate::delivery::DeliveryRecord;
use crate::delivery::EndpointKind;
use crate::delivery::settled_wf;
use crate::delivery::SWDeliveryStatus;
use crate::delivery::TransportView;
use crate::delivery::unnotified_ids;
use crate::fates::cancelled_indexed;
use crate::fates::claimed_by_number;
use crate::fates::free_places_are_granted;
use crate::fates::ready_word;
use crate::owner::after_refused_delivery;
use crate::owner::arrivals_keep_their_order;
use crate::owner::claim_on;
use crate::owner::delivery_refused;
use crate::owner::eligible_count;
use crate::owner::entry_at;
use crate::owner::entry_found;
use crate::owner::entry_slot;
use crate::owner::has_entry;
use crate::owner::LocalDelivery;
use crate::owner::Observer;
use crate::owner::observer_at;
use crate::owner::observer_found;
use crate::owner::OwnerView;
use crate::owner::pending_has_callback;
use crate::owner::post_error;
use crate::owner::Pump;
use crate::owner::received_keeps;
use crate::owner::SWOwnerError;
use crate::owner::SWPhase;
use crate::owner::SWPumpMode;
use crate::policy::within_by_numbers;
use crate::reservation::claim_error;
use crate::reservation::Kind;
use crate::reservation::SWReservation;
use crate::runtime::RuntimeView;
use crate::supply::draw_error;
use crate::task::SWTaskStatus;
use vstd::prelude::*;

verus! {

/// When an owner takes a callback, lets an outcome be read at once and starts a
/// pump: in this order, it must be open, without a fault, with no callback
/// running, in the phase that is asked for, and with something to read.
pub proof fn owners_refuse_by_their_state<C>(v: OwnerView<C>, phase: SWPhase, ready: bool)
    ensures
        ({
            let closed = v.closed || v.transport.closed || v.close_requested;
            let error = v.accept_error();
            &&& error is None <==> !closed && !v.faulted && !v.active
            &&& error == Some(SWOwnerError::Closed) <==> closed
            &&& error == Some(SWOwnerError::Faulted) <==> !closed && v.faulted
            &&& error == Some(SWOwnerError::InvalidContext) <==> !closed && !v.faulted && v.active
        }),
        ({
            let error = v.access_error(phase, ready);
            &&& error is None <==> v.accept_error() is None && v.phase == Some(phase) && ready
            &&& v.accept_error() is Some ==> error == v.accept_error()
            &&& error == Some(SWOwnerError::WrongPhase) <==> v.accept_error() is None && v.phase
                != Some(phase)
            &&& error == Some(SWOwnerError::NotReady) <==> v.accept_error() is None && v.phase
                == Some(phase) && !ready
        }),
        ({
            let error = v.pump_error(phase);
            let draining = v.closed || v.faulted || v.transport.closed || v.close_requested;
            &&& error is None <==> !v.active && (v.phase == Some(phase) || draining)
            &&& error == Some(SWOwnerError::InvalidContext) <==> v.active
            &&& error == Some(SWOwnerError::WrongPhase) <==> !v.active && v.phase != Some(phase)
                && !draining
        }),
{
}

/// When a sender is refused: its owner's inbox or route has closed, its owner has
/// a fault, or there is no place. A running callback and the phase of the owner
/// are no reason.
pub proof fn senders_are_refused_by_the_inbox<C>(v: OwnerView<C>, runtime: RuntimeView)
    requires
        v.transport.next_id < u64::MAX,
    ensures
        ({
            let error = post_error(v, runtime);
            let closed = v.inbox_closed || v.transport.closed;
            let used = v.transport.records.filter(
                |r: DeliveryRecord| r.endpoint == EndpointKind::Ordinary,
            ).len();
            let room = used < v.transport.ordinary_capacity && (runtime.capacity is Some
                ==> claim_error(
                runtime.capacity->0.limits,
                runtime.capacity->0.usage,
                SWCost { records: 0, edges: 0, deliveries: 1, bytes: 0 },
                Kind::Ordinary,
                true,
            ) is None);
            &&& error is None <==> !closed && !v.inbox_faulted && room
            &&& error == Some(SWOwnerError::Closed) <==> closed
            &&& error == Some(SWOwnerError::Faulted) <==> !closed && v.inbox_faulted
            &&& error == Some(SWOwnerError::Full) <==> !closed && !v.inbox_faulted && !room
        }),
{
    free_places_are_granted(v.transport);
}

/// A delivery of a pipeline is refused exactly where the pipeline belongs to
/// another runtime, holds no credit for it, or no place of its kind is free:
/// required pipelines have places of their own.
pub proof fn pipelines_draw_their_own_credits(
    transport: TransportView,
    runtime: RuntimeView,
    window: &SWReservation,
)
    requires
        transport.next_id < u64::MAX,
        transport.runtime == runtime.control.id,
        !transport.closed,
    ensures
        ({
            let error = delivery_refused(transport, runtime, Some(window));
            let home = window.identity() == transport.runtime && runtime.capacity is Some;
            let credit = runtime.capacity->0.banks[window.bank_slot()]->0.balance.deliveries >= 1;
            let place = if window.drawn_kind() == Kind::Required {
                transport.records.filter(
                    |r: DeliveryRecord| r.endpoint == EndpointKind::Protected,
                ).len() < transport.protected_capacity
            } else {
                transport.records.filter(
                    |r: DeliveryRecord| r.endpoint == EndpointKind::Ordinary,
                ).len() < transport.ordinary_capacity
            };
            &&& error is None <==> home && credit && place
            &&& error == Some(SWOwnerError::InvalidContext) <==> !home
            &&& error == Some(SWOwnerError::Full) <==> home && !(credit && place)
        }),
{
    free_places_are_granted(transport);
    within_by_numbers(
        SWCost::one_delivery(),
        runtime.capacity->0.banks[window.bank_slot()]->0.balance,
    );
}

/// A batch ends with the callbacks that were there for its phase when it began,
/// or with everything pending where its owner only cleans up; a live pump has no
/// such end.
pub proof fn a_batch_is_what_was_there<C>(v: OwnerView<C>, phase: SWPhase)
    requires
        v.wf(),
    ensures
        v.frontier(phase, SWPumpMode::Live) == usize::MAX,
        v.closed || v.faulted || v.transport.closed ==> v.frontier(phase, SWPumpMode::Batch)
            == v.pending.len(),
        !v.closed && !v.faulted && !v.transport.closed ==> v.frontier(phase, SWPumpMode::Batch)
            == v.pending.filter(
            |id: u64|
                exists|e: int|
                    0 <= e < v.callbacks.len() && (#[trigger] v.callbacks[e]).id == id
                        && v.callbacks[e].phase == phase,
        ).len(),
{
    batch_counted(v, v.pending, phase);
}

proof fn batch_counted<C>(v: OwnerView<C>, pending: Seq<u64>, phase: SWPhase)
    requires
        v.wf(),
    ensures
        v.closed || v.faulted || v.transport.closed ==> eligible_count(
            v,
            pending,
            phase,
        ) == pending.len(),
        !v.closed && !v.faulted && !v.transport.closed ==> eligible_count(
            v,
            pending,
            phase,
        ) == pending.filter(
            |id: u64|
                exists|e: int|
                    0 <= e < v.callbacks.len() && (#[trigger] v.callbacks[e]).id == id
                        && v.callbacks[e].phase == phase,
        ).len(),
    decreases pending.len(),
{
    reveal(Seq::filter);
    if pending.len() > 0 {
        batch_counted(v, pending.drop_last(), phase);
        let id = pending.last();
        if exists|e: int|
            0 <= e < v.callbacks.len() && (#[trigger] v.callbacks[e]).id == id
                && v.callbacks[e].phase == phase {
            let e = choose|e: int|
                0 <= e < v.callbacks.len() && (#[trigger] v.callbacks[e]).id == id
                    && v.callbacks[e].phase == phase;
            assert(entry_at(v.callbacks, e, id));
            entry_found(v.callbacks, e, id);
        }
        if has_entry(v.callbacks, id) {
            assert(entry_at(v.callbacks, entry_slot(v.callbacks, id), id));
        }
    }
}

/// A pending callback that is taken is run exactly if its owner publishes, its
/// producer said that it is ready and nobody cancelled it; otherwise it is only
/// destroyed. The callback that leaves is the one of that notification, and all
/// others stay.
pub proof fn taking_runs_what_is_ready<C>(v: OwnerView<C>, k: int)
    requires
        v.wf(),
        v.claimed is None,
        0 <= k < v.pending.len(),
    ensures
        ({
            let w = v.taken(k);
            let id = v.pending[k];
            let r = v.transport.get(id);
            &&& w.active <==> !v.transport.closed && r.status == SWDeliveryStatus::Ready
                && !r.cancelled
            &&& w.claimed == Some(id)
            &&& w.transport.get(id).status == SWDeliveryStatus::Claimed
            &&& v.callback_of(k).id == id
            &&& w.callbacks.len() + 1 == v.callbacks.len()
            &&& forall|e: int|
                0 <= e < v.callbacks.len() && (#[trigger] v.callbacks[e]).id != id
                    ==> w.callbacks.contains(v.callbacks[e])
        }),
{
    let w = v.taken(k);
    let id = v.pending[k];
    pending_has_callback(v, k);
    let i = entry_slot(v.callbacks, id);
    assert(entry_at(v.callbacks, i, id));
    assert forall|e: int|
        0 <= e < v.callbacks.len() && (#[trigger] v.callbacks[e]).id
            != id implies w.callbacks.contains(v.callbacks[e]) by {
        let x = if e < i {
            e
        } else {
            e - 1
        };
        assert(w.callbacks[x] == v.callbacks[e]);
    }
    claimed_by_number(v.transport, id);
}

/// After a callback was processed its delivery is gone. Its handles see that it
/// was published if the callback returned, that it panicked if it did not, and
/// that it was suppressed if it never ran; those of other deliveries see no
/// change. A panic is a fault, which cancels everything else. A close request
/// that came meanwhile is honoured then.
pub proof fn processing_settles_the_claimed<C>(v: OwnerView<C>, panicked: bool)
    requires
        v.wf(),
        v.claimed is Some,
    ensures
        ({
            let w = v.processed(panicked);
            let id = v.claimed->0;
            let status = if v.active && panicked {
                SWDeliveryStatus::Panicked
            } else if v.active {
                SWDeliveryStatus::Published
            } else {
                SWDeliveryStatus::Suppressed
            };
            &&& w.claimed is None && !w.active && !w.close_requested
            &&& w.closed <==> v.closed || v.close_requested
            &&& w.transport.closed <==> v.transport.closed || v.close_requested
            &&& w.faulted <==> v.faulted || v.active && panicked
            &&& w.inbox_faulted <==> v.inbox_faulted || v.active && panicked
            &&& w.pending == v.pending && w.callbacks == v.callbacks && w.inbox == v.inbox
            &&& w.observers.len() == v.observers.len()
            &&& forall|i: int|
                0 <= i < v.observers.len() ==> (#[trigger] w.observers[i]) == (Observer {
                    settled: if v.observers[i].id == id {
                        Some(status)
                    } else {
                        v.observers[i].settled
                    },
                    ..v.observers[i]
                })
            &&& forall|x: u64| #[trigger] w.transport.has(x) <==> v.transport.has(x) && x != id
            &&& (v.active && panicked || v.close_requested) ==> forall|x: u64| #[trigger]
                w.transport.has(x) ==> w.transport.get(x).cancelled
            &&& !(v.active && panicked || v.close_requested) ==> forall|x: u64| #[trigger]
                w.transport.has(x) ==> w.transport.get(x) == v.transport.get(x)
        }),
{
    let id = v.claimed->0;
    assert(v.transport.has(id) && !v.unclaimed(id));
    settled_wf(v.transport, id);
    let t = v.transport.settled(id);
    assert forall|x: u64| #[trigger] t.has(x) implies t.get(x).status
        != SWDeliveryStatus::Claimed by {
        assert(v.transport.has(x));
        assert(t.get(x) == v.transport.get(x));
        if !v.unclaimed(x) {
            assert(v.claimed == Some(x));
        }
    }
    all_cancelled_effect(t, t.all_cancelled());
    cancelled_indexed(t);
    all_cancelled_effect(t.all_cancelled(), t.all_cancelled().all_cancelled());
    all_cancelled_effect(t, t.shut());
    all_cancelled_effect(t.all_cancelled(), t.all_cancelled().shut());
}

/// After immediate access has ended, its owner has a fault exactly if the caller
/// panicked or it had one, and is closed exactly if it was or was asked to.
pub proof fn access_ends_like_a_callback<C>(v: OwnerView<C>, panicked: bool)
    ensures
        ({
            let w = v.accessed(panicked);
            &&& !w.active && !w.close_requested
            &&& w.faulted <==> v.faulted || panicked
            &&& w.inbox_faulted <==> v.inbox_faulted || panicked
            &&& w.closed <==> v.closed || v.close_requested
            &&& w.transport.closed <==> v.transport.closed || v.close_requested
            &&& w.pending == v.pending && w.callbacks == v.callbacks && w.inbox == v.inbox
            &&& w.observers == v.observers
        }),
{
}

/// An owner is no longer counted once it is closed and holds no callback and no
/// delivery; until then it stays counted.
pub proof fn owners_count_until_they_are_empty<C>(v: OwnerView<C>)
    requires
        v.registered,
    ensures
        v.drained().registered <==> !v.closed || v.callbacks.len() > 0 || v.inbox.len() > 0
            || v.transport.records.len() > 0,
        v.drained() == (OwnerView { registered: v.drained().registered, ..v }),
        v.close_requested ==> (v.closed_on_request().registered <==> v.callbacks.len() > 0
            || v.inbox.len() > 0 || v.transport.records.len() > 0),
{
}

/// Closure takes in everything that was sent, arrives everything that was on its
/// way, and leaves nothing to be published.
pub proof fn closing_gathers_everything<C>(v: OwnerView<C>)
    requires
        v.wf(),
    ensures
        ({
            let w = v.closing();
            &&& w.closed && w.transport.closed && w.inbox_closed
            &&& w.inbox.len() == 0
            &&& w.callbacks == v.callbacks + v.inbox
            &&& w.transport.queue.len() == 0
            &&& forall|k: int|
                0 <= k < v.pending.len() ==> (#[trigger] w.pending[k]) == v.pending[k]
            &&& w.pending.len() >= v.pending.len() + v.transport.queue.len()
        }),
{
    let m = OwnerView {
        closed: true,
        inbox_closed: true,
        callbacks: v.callbacks + v.inbox,
        inbox: Seq::empty(),
        transport: v.transport.shut(),
        ..v
    };
    arrivals_keep_their_order(m);
    received_keeps(m);
    empty_inbox_stays(m);
}

proof fn empty_inbox_stays<C>(v: OwnerView<C>)
    requires
        v.inbox.len() == 0,
    ensures
        v.received().inbox == v.inbox,
        v.received().callbacks == v.callbacks,
        v.received().inbox_closed == v.inbox_closed,
    decreases v.transport.queue.len(),
{
    if v.transport.queue.len() > 0 {
        let id = v.transport.queue[0];
        if has_entry(v.inbox, id) {
            assert(entry_at(v.inbox, entry_slot(v.inbox, id), id));
        }
        empty_inbox_stays(v.received_one());
    }
}

/// A handle that is shared is one more, one that is released is one less, and
/// with the last one nobody sees the delivery any more. What the others see does
/// not change.
pub proof fn handles_are_counted<C>(v: OwnerView<C>, i: int)
    requires
        v.wf(),
        0 <= i < v.observers.len(),
        v.observers[i].handles < usize::MAX,
    ensures
        ({
            let o = v.observers[i];
            let s = v.shared(o.id);
            let r = v.released(o.id);
            &&& s.observers == v.observers.update(
                i,
                Observer { id: o.id, handles: (o.handles + 1) as usize, settled: o.settled },
            )
            &&& o.handles == 1 ==> r.observers == v.observers.remove(i)
            &&& o.handles > 1 ==> r.observers == v.observers.update(
                i,
                Observer { id: o.id, handles: (o.handles - 1) as usize, settled: o.settled },
            )
            &&& s == (OwnerView { observers: s.observers, ..v })
            &&& r == (OwnerView { observers: r.observers, ..v })
            &&& s.released(o.id).observers == v.observers
        }),
{
    let o = v.observers[i];
    assert(observer_at(v.observers, i, o.id));
    observer_found(v.observers, i, o.id);
    let s = v.shared(o.id);
    assert forall|a: int, b: int| 0 <= a < b < s.observers.len() implies (
    #[trigger] s.observers[a]).id < (#[trigger] s.observers[b]).id by {
        assert(v.observers[a].id < v.observers[b].id);
    }
    assert(observer_at(s.observers, i, o.id));
    observer_found(s.observers, i, o.id);
    assert(s.released(o.id).observers =~= v.observers);
}

/// What a handle sees of a delivery: how it settled once it has, and how far it
/// is before.
pub proof fn handles_see_their_delivery<C>(v: OwnerView<C>, i: int)
    requires
        v.wf(),
        0 <= i < v.observers.len(),
    ensures
        ({
            let id = v.observers[i].id;
            v.status_of(id) == (if v.transport.has(id) {
                Some(v.transport.get(id).status)
            } else {
                v.observers[i].settled
            })
        }),
        v.status_of(v.observers[i].id) is Some,
{
    assert(observer_at(v.observers, i, v.observers[i].id));
    observer_found(v.observers, i, v.observers[i].id);
}

/// A callback that waits for a completion is told the status of the first report
/// and no other; a promise does not make it ready.
pub proof fn reports_are_told_once<C>(
    v: OwnerView<C>,
    i: int,
    id: u64,
    status: SWTaskStatus,
)
    requires
        v.wf(),
        0 <= i < v.callbacks.len(),
    ensures
        ({
            let e = v.callbacks[i];
            let w = v.readied(id, status);
            let f = v.fulfilled(e.id);
            &&& w.callbacks.len() == v.callbacks.len()
            &&& w.callbacks[i] == (LocalDelivery {
                status: if e.id == id && !v.transport.get(id).terminal {
                    Some(status)
                } else {
                    e.status
                },
                ..e
            })
            &&& w.pending == v.pending && w.inbox == v.inbox && w.observers == v.observers
            &&& e.awaits ==> f == v
            &&& !e.awaits ==> f.transport.get(e.id).terminal
            &&& f.callbacks == v.callbacks
        }),
{
    let e = v.callbacks[i];
    assert(entry_at(v.callbacks, i, e.id));
    entry_found(v.callbacks, i, e.id);
    assert(v.unclaimed(e.id));
    ready_word(v.transport, e.id, e.id);
}

/// A pump is over once it has processed as many entries as its budget or its
/// frontier allows. Every processed entry counts once: as invoked if its callback
/// returned, and as suppressed otherwise.
pub proof fn pumps_count_every_entry(pump: Pump, invoked: bool)
    requires
        pump.report.invoked + pump.report.suppressed < pump.budget.max_entries,
    ensures
        pump.spent() <==> pump.report.invoked + pump.report.suppressed >= pump.frontier,
        ({
            let p = pump.counted(invoked);
            &&& p.report.invoked + p.report.suppressed == pump.report.invoked
                + pump.report.suppressed + 1
            &&& invoked ==> p.report.suppressed == pump.report.suppressed
            &&& !invoked ==> p.report.invoked == pump.report.invoked
            &&& p.phase == pump.phase && p.budget == pump.budget && p.frontier == pump.frontier
            &&& p.report.invoked + p.report.suppressed == p.budget.max_entries ==> p.spent()
        }),
{
}

/// A fault or a closure notifies of every delivery whose owner has not heard of
/// it, in the order in which they were reserved, behind what is on its way.
pub proof fn cancellations_are_notified_in_order(v: TransportView)
    ensures
        v.all_cancelled().queue == v.queue + v.records.filter(
            |r: DeliveryRecord| !r.notified,
        ).map_values(|r: DeliveryRecord| r.id),
        v.shut().queue == v.all_cancelled().queue,
        v.shut().records == v.all_cancelled().records,
        v.shut().closed,
        v.all_cancelled().closed == v.closed,
{
    unnotified_listed(v.records);
}

proof fn unnotified_listed(records: Seq<DeliveryRecord>)
    ensures
        unnotified_ids(records) == records.filter(
            |r: DeliveryRecord| !r.notified,
        ).map_values(|r: DeliveryRecord| r.id),
    decreases records.len(),
{
    reveal(Seq::filter);
    let p = |r: DeliveryRecord| !r.notified;
    let f = |r: DeliveryRecord| r.id;
    if records.len() > 0 {
        unnotified_listed(records.drop_last());
        let rest = records.drop_last().filter(p);
        assert(rest.push(records.last()).map_values(f) =~= rest.map_values(f).push(
            records.last().id,
        ));
    }
    assert(unnotified_ids(records) =~= records.filter(p).map_values(f));
}

/// Work that is admitted against a promise marks it, and hands it the capacity
/// that was drawn for it; nothing else of the owner changes.
pub proof fn admitted_promises_are_marked<C>(
    v: OwnerView<C>,
    i: int,
    capacity: Option<SWReservation>,
)
    requires
        v.wf(),
        0 <= i < v.transport.records.len(),
    ensures
        ({
            let r = v.transport.records[i];
            let w = v.delivery_committed(r.id, capacity);
            &&& w.transport.records == v.transport.records.update(
                i,
                DeliveryRecord {
                    committed: true,
                    accounted: r.accounted || capacity is Some,
                    ..r
                },
            )
            &&& capacity is None ==> w.transport.charges == v.transport.charges
            &&& capacity matches Some(reservation) ==> w.transport.charges.len()
                == v.transport.charges.len() + 1 && w.transport.charges.last().id == r.id
                && w.transport.charges.last().reservation == reservation
            &&& w.callbacks == v.callbacks && w.pending == v.pending && w.transport.queue
                == v.transport.queue
        }),
        ({
            let r = v.transport.records[i];
            let claim = claim_on(v.transport, r.id);
            &&& claim.runtime == v.transport.runtime
            &&& claim.accounted == r.accounted
            &&& claim.refusal is None <==> !v.transport.closed && !r.committed && !r.cancelled
                && r.status == SWDeliveryStatus::Waiting
        }),
{
    let t = v.transport;
    let r = t.records[i];
    assert(delivery_at(t.records, i, r.id));
    delivery_found(t.records, i, r.id);
    let m = t.committed(r.id);
    assert forall|a: int, b: int| 0 <= a < b < m.records.len() implies (#[trigger] m.records[a]).id
        < (#[trigger] m.records[b]).id by {
        assert(t.records[a].id < t.records[b].id);
    }
    assert(delivery_at(m.records, i, r.id));
    delivery_found(m.records, i, r.id);
    assert(v.delivery_committed(r.id, capacity).transport.records =~= t.records.update(
        i,
        DeliveryRecord { committed: true, accounted: r.accounted || capacity is Some, ..r },
    ));
}

/// A delivery that found no place gives back what was drawn for it, which the
/// books notify of; one that could not be paid leaves no trace.
pub proof fn unplaced_deliveries_pay_nothing(
    transport: TransportView,
    runtime: RuntimeView,
    capacity: Option<&SWReservation>,
)
    requires
        runtime.capacity matches Some(books) ==> books.wake < u64::MAX - 3,
    ensures
        ({
            let w = after_refused_delivery(transport, runtime, capacity);
            let foreign = capacity is Some && (capacity->0.identity() != transport.runtime
                || runtime.capacity is None);
            let unpaid = draw_error(
                runtime.capacity,
                runtime.control.id,
                capacity,
                SWCost { records: 0, edges: 0, deliveries: 1, bytes: 0 },
            ) is Some;
            &&& foreign || unpaid ==> w == runtime
            &&& w.owned == runtime.owned && w.charges == runtime.charges
            &&& w.control.active == runtime.control.active && w.control.phase
                == runtime.control.phase
            &&& !foreign && !unpaid && runtime.capacity is Some ==> {
                &&& w.capacity is Some && w.capacity->0.usage == runtime.capacity->0.usage
                &&& w.capacity->0.banks == runtime.capacity->0.banks
                &&& w.capacity->0.wake == runtime.capacity->0.wake + (if capacity is Some {
                    1int
                } else {
                    3int
                })
            }
        }),
{
}

/// A new owner takes callbacks, holds none, and is in no phase yet.
pub proof fn new_owners_take_callbacks<C>(transport: TransportView)
    requires
        !transport.closed,
    ensures
        ({
            let v = OwnerView::<C>::fresh(transport);
            &&& v.accept_error() is None && v.registered && v.phase is None
            &&& v.callbacks.len() == 0 && v.inbox.len() == 0 && v.pending.len() == 0
                && v.observers.len() == 0
            &&& !v.closed && !v.faulted && !v.inbox_closed && !v.inbox_faulted && !v.active
                && v.claimed is None
        }),
{
}

} // verus!
