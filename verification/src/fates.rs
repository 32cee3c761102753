//! What becomes of a delivery, by what was said of it.
use crate::admission::TicketCommitError;
use crate::delivery::all_cancelled_effect;
use crate::delivery::arrived_effect;
use crate::delivery::cancelled_record;
use crate::delivery::ClaimResult;
use crate::delivery::delivery_at;
use crate::delivery::delivery_found;
use crate::delivery::delivery_ok;
use crate::delivery::delivery_slot;
use crate::delivery::DeliveryRecord;
use crate::delivery::EndpointKind;
use crate::delivery::in_cleanup;
use crate::delivery::in_progress;
use crate::delivery::of_endpoint;
use crate::delivery::reserved_effect;
use crate::delivery::settled_wf;
use crate::delivery::stored_effect;
use crate::delivery::SWCancelResult;
use crate::delivery::SWDeliveryStatus;
use crate::delivery::TransportView;
use crate::reservation::SWReservation;
use crate::sums::total;
use crate::sums::total_is_filtered;
use vstd::prelude::*;

verus! {

/// What can be said to the transport of an owner.
pub enum Word {
    Reserve(EndpointKind, Option<SWReservation>),
    /// The producer of a delivery says that it is ready.
    Ready(u64),
    /// The producer of a delivery has gone.
    Suppress(u64),
    Cancel(u64),
    Commit(u64),
    Charge(u64, SWReservation),
    /// A notification arrives at the owner thread.
    Arrive,
    Claim(u64),
    Settle(u64),
    /// A fault cancels everything that is not claimed.
    Fault,
    Close,
    Report,
}

pub open spec fn says(v: TransportView, w: TransportView, word: Word) -> bool {
    match word {
        Word::Reserve(endpoint, charge) => v.accepts(endpoint) && w == v.reserved(endpoint, charge),
        Word::Ready(id) => w == v.readied(id),
        Word::Suppress(id) => w == v.suppressed(id),
        Word::Cancel(id) => w == v.cancelled(id),
        Word::Commit(id) => v.has(id) && w == v.committed(id),
        Word::Charge(id, capacity) => v.has(id) && w == v.with_capacity(id, capacity),
        Word::Arrive => v.queue.len() > 0 && w == v.arrived(),
        Word::Claim(id) => v.claimable(id) && w == v.claimed(id),
        Word::Settle(id) => v.has(id) && v.get(id).status == SWDeliveryStatus::Claimed && w
            == v.settled(id),
        Word::Fault => w == v.all_cancelled(),
        Word::Close => w == v.shut(),
        Word::Report => w == (TransportView { wake: 0, ..v }),
    }
}

/// States of a transport, and what was said between them.
pub open spec fn told(states: Seq<TransportView>, words: Seq<Word>) -> bool {
    &&& states.len() == words.len() + 1
    &&& forall|k: int| 0 <= k < states.len() ==> (#[trigger] states[k]).wf()
    &&& forall|k: int|
        0 <= k < words.len() ==> says(states[k], states[k + 1], #[trigger] words[k])
}

/// What the producer of a delivery said first: that it is ready, or that it will
/// not be.
pub open spec fn first_word(words: Seq<Word>, id: u64) -> Option<bool>
    decreases words.len(),
{
    if words.len() == 0 {
        None
    } else {
        let earlier = first_word(words.drop_last(), id);
        if earlier is Some {
            earlier
        } else {
            match words.last() {
                Word::Ready(x) => if x == id {
                    Some(true)
                } else {
                    None
                },
                Word::Suppress(x) => if x == id {
                    Some(false)
                } else {
                    None
                },
                _ => None,
            }
        }
    }
}

/// Somebody asked that a delivery not be published, or nothing is any more.
pub open spec fn stopped(words: Seq<Word>, id: u64) -> bool
    decreases words.len(),
{
    words.len() > 0 && (stopped(words.drop_last(), id) || match words.last() {
        Word::Cancel(x) => x == id,
        Word::Fault => true,
        Word::Close => true,
        _ => false,
    })
}

pub open spec fn closed_by(words: Seq<Word>) -> bool
    decreases words.len(),
{
    words.len() > 0 && (closed_by(words.drop_last()) || words.last() is Close)
}

/// How far what was said has brought an unclaimed delivery.
spec fn fate(v: TransportView, words: Seq<Word>, id: u64) -> bool {
    &&& id < v.next_id
    &&& v.closed <==> closed_by(words)
    &&& v.has(id) && v.get(id).status != SWDeliveryStatus::Claimed ==> {
        let r = v.get(id);
        &&& r.terminal <==> first_word(words, id) is Some
        &&& r.cancelled <==> stopped(words, id) || first_word(words, id) == Some(false)
        &&& r.status == SWDeliveryStatus::Ready ==> first_word(words, id) == Some(true)
        &&& first_word(words, id) == Some(true) && !r.cancelled ==> r.status
            == SWDeliveryStatus::Ready
        &&& r.status == SWDeliveryStatus::Ready || r.status == SWDeliveryStatus::Waiting
    }
}

/// What the word of its producer changes of a delivery.
pub proof fn ready_word(v: TransportView, x: u64, id: u64)
    requires
        v.wf(),
    ensures
        v.readied(x).has(id) <==> v.has(id),
        v.has(id) && x != id ==> v.readied(x).get(id) == v.get(id),
        v.has(id) && x == id ==> {
            let r = v.get(id);
            let s = v.readied(x).get(id);
            &&& s.terminal
            &&& s.cancelled == r.cancelled
            &&& s.status == (if !r.terminal && r.status == SWDeliveryStatus::Waiting
                && !r.cancelled {
                SWDeliveryStatus::Ready
            } else {
                r.status
            })
        },
        v.readied(x).next_id == v.next_id,
        v.readied(x).closed == v.closed,
{
    let w = v.readied(x);
    if v.has(x) && !v.get(x).terminal {
        let i = delivery_slot(v.records, x);
        assert(delivery_at(v.records, i, x));
        stored_effect(v, w, x, w.records[i]);
        assert(v.has(id) ==> w.has(id));
    }
}

proof fn cancel_word(v: TransportView, x: u64, id: u64)
    requires
        v.wf(),
    ensures
        v.cancelled(x).has(id) <==> v.has(id),
        v.has(id) && x != id ==> v.cancelled(x).get(id) == v.get(id),
        v.has(id) && x == id ==> {
            let r = v.get(id);
            let s = v.cancelled(x).get(id);
            &&& s.terminal == r.terminal
            &&& s.status == r.status
            &&& s.cancelled == (r.cancelled || r.status != SWDeliveryStatus::Claimed)
        },
        v.cancelled(x).next_id == v.next_id,
        v.cancelled(x).closed == v.closed,
{
    let w = v.cancelled(x);
    if v.cancellation(x) == SWCancelResult::Requested {
        let i = delivery_slot(v.records, x);
        assert(delivery_at(v.records, i, x));
        stored_effect(v, w, x, w.records[i]);
        assert(v.has(id) ==> w.has(id));
    }
}

proof fn suppress_word(v: TransportView, x: u64, id: u64)
    requires
        v.wf(),
    ensures
        v.suppressed(x).has(id) <==> v.has(id),
        v.has(id) && x != id ==> v.suppressed(x).get(id) == v.get(id),
        v.has(id) && x == id ==> {
            let r = v.get(id);
            let s = v.suppressed(x).get(id);
            &&& s.terminal
            &&& s.status == r.status
            &&& r.terminal ==> s.cancelled == r.cancelled
            &&& !r.terminal && r.status != SWDeliveryStatus::Claimed ==> s.cancelled
        },
        v.suppressed(x).next_id == v.next_id,
        v.suppressed(x).closed == v.closed,
{
    let w = v.suppressed(x);
    if v.has(x) && !v.get(x).terminal {
        let i = delivery_slot(v.records, x);
        assert(delivery_at(v.records, i, x));
        let r = DeliveryRecord { terminal: true, ..v.get(x) };
        let m = v.with(x, r);
        stored_effect(v, m, x, r);
        assert forall|a: int, b: int| 0 <= a < b < m.records.len() implies (
        #[trigger] m.records[a]).id < (#[trigger] m.records[b]).id by {
            assert(v.records[a].id < v.records[b].id);
        }
        assert(delivery_at(m.records, i, x));
        delivery_found(m.records, i, x);
        if m.cancellation(x) == SWCancelResult::Requested {
            let c = DeliveryRecord { cancelled: true, notified: true, ..r };
            assert(w.records =~= v.records.update(i, c));
            stored_effect(v, w, x, c);
        }
        assert(v.has(id) ==> w.has(id));
    }
}

proof fn change_word(v: TransportView, w: TransportView, x: u64, id: u64)
    requires
        v.wf(),
        v.has(x),
        w.records == v.records.update(
            delivery_slot(v.records, x),
            w.records[delivery_slot(v.records, x)],
        ),
        w.records[delivery_slot(v.records, x)].id == x,
    ensures
        w.has(id) <==> v.has(id),
        v.has(id) && id != x ==> w.get(id) == v.get(id),
        w.get(x) == w.records[delivery_slot(v.records, x)],
{
    let i = delivery_slot(v.records, x);
    assert(delivery_at(v.records, i, x));
    stored_effect(v, w, x, w.records[i]);
    assert(v.has(id) ==> w.has(id));
    assert(w.get(x) == w.records[i]);
}

proof fn word_decides(v: TransportView, w: TransportView, words: Seq<Word>, word: Word, id: u64)
    requires
        v.wf(),
        w.wf(),
        says(v, w, word),
        fate(v, words, id),
    ensures
        fate(w, words.push(word), id),
{
    let longer = words.push(word);
    assert(longer.drop_last() =~= words);
    assert(longer.last() == word);
    if v.has(id) {
        let i = delivery_slot(v.records, id);
        assert(delivery_at(v.records, i, id));
        assert(delivery_ok(v.records[i], v.closed));
    }
    match word {
        Word::Reserve(endpoint, charge) => {
            reserved_effect(v, endpoint, charge);
            assert(w.has(id) ==> v.has(id));
        },
        Word::Ready(x) => ready_word(v, x, id),
        Word::Suppress(x) => suppress_word(v, x, id),
        Word::Cancel(x) => cancel_word(v, x, id),
        Word::Commit(x) => {
            assert(delivery_at(v.records, delivery_slot(v.records, x), x));
            change_word(v, w, x, id);
        },
        Word::Charge(x, _) => {
            assert(delivery_at(v.records, delivery_slot(v.records, x), x));
            change_word(v, w, x, id);
        },
        Word::Arrive => {
            arrived_effect(v);
            assert(w.has(id) <==> v.has(id));
        },
        Word::Claim(x) => {
            assert(delivery_at(v.records, delivery_slot(v.records, x), x));
            change_word(v, w, x, id);
        },
        Word::Settle(x) => {
            settled_wf(v, x);
            assert(w.has(id) ==> v.has(id));
        },
        Word::Fault => {
            all_cancelled_effect(v, w);
            assert(w.has(id) <==> v.has(id));
        },
        Word::Close => {
            all_cancelled_effect(v, w);
            assert(w.has(id) <==> v.has(id));
        },
        Word::Report => {},
    }
}

proof fn words_decide(
    v: TransportView,
    endpoint: EndpointKind,
    charge: Option<SWReservation>,
    states: Seq<TransportView>,
    words: Seq<Word>,
)
    requires
        v.wf(),
        v.accepts(endpoint),
        told(states, words),
        states[0] == v.reserved(endpoint, charge),
    ensures
        fate(states.last(), words, v.next_id as u64),
    decreases words.len(),
{
    if words.len() == 0 {
        reserved_effect(v, endpoint, charge);
    } else {
        let n = words.len() - 1;
        let earlier = words.drop_last();
        let before = states.drop_last();
        assert forall|k: int| 0 <= k < before.len() implies (#[trigger] before[k]).wf() by {
            assert(states[k].wf());
        }
        assert forall|k: int| 0 <= k < earlier.len() implies says(
            before[k],
            before[k + 1],
            #[trigger] earlier[k],
        ) by {
            assert(says(states[k], states[k + 1], words[k]));
        }
        words_decide(v, endpoint, charge, before, earlier);
        assert(before.last() == states[n]);
        assert(states[n].wf() && states[n + 1].wf());
        assert(says(states[n], states[n + 1], words[n]));
        word_decides(states[n], states[n + 1], earlier, words[n], v.next_id as u64);
        assert(earlier.push(words[n]) =~= words);
    }
}

/// The fate of a delivery follows from what was said since it was reserved. Its
/// callback is run exactly if its producer said that it is ready before saying
/// anything else, and nobody cancelled it, no fault came and the transport was
/// not closed, before it was claimed. Its owner hears of it exactly if its
/// producer has spoken or it was stopped.
pub proof fn words_decide_deliveries(
    v: TransportView,
    endpoint: EndpointKind,
    charge: Option<SWReservation>,
    states: Seq<TransportView>,
    words: Seq<Word>,
)
    requires
        v.wf(),
        v.accepts(endpoint),
        told(states, words),
        states[0] == v.reserved(endpoint, charge),
        states.last().has(v.next_id as u64),
        states.last().get(v.next_id as u64).status != SWDeliveryStatus::Claimed,
    ensures
        ({
            let id = v.next_id as u64;
            let w = states.last();
            let ready = first_word(words, id) == Some(true);
            let gone = first_word(words, id) == Some(false);
            &&& w.claim_result(id) == ClaimResult::Run <==> ready && !stopped(words, id)
            &&& w.get(id).received || w.queue.contains(id) <==> ready || gone || stopped(words, id)
            &&& w.get(id).status == SWDeliveryStatus::Waiting && !w.get(id).cancelled <==> !ready
                && !gone && !stopped(words, id)
            &&& w.cancellation(id) == SWCancelResult::Requested
        }),
{
    let id = v.next_id as u64;
    let w = states.last();
    assert(states[states.len() - 1].wf());
    words_decide(v, endpoint, charge, states, words);
    let i = delivery_slot(w.records, id);
    assert(delivery_at(w.records, i, id));
    assert(delivery_ok(w.records[i], w.closed));
    assert(w.records[i].notified && !w.records[i].received <==> w.queue.contains(
        w.records[i].id,
    ));
    closing_stops(words, id);
}

proof fn closing_stops(words: Seq<Word>, id: u64)
    ensures
        closed_by(words) ==> stopped(words, id),
    decreases words.len(),
{
    if words.len() > 0 {
        closing_stops(words.drop_last(), id);
    }
}

/// A place is granted exactly while one is free: an open transport takes a
/// delivery of a kind as long as fewer of that kind live than there are places,
/// whatever the other kind holds.
pub proof fn free_places_are_granted(v: TransportView)
    requires
        v.next_id < u64::MAX,
    ensures
        v.accepts(EndpointKind::Ordinary) <==> !v.closed && v.records.filter(
            |r: DeliveryRecord| r.endpoint == EndpointKind::Ordinary,
        ).len() < v.ordinary_capacity,
        v.accepts(EndpointKind::Protected) <==> !v.closed && v.records.filter(
            |r: DeliveryRecord| r.endpoint == EndpointKind::Protected,
        ).len() < v.protected_capacity,
{
    total_is_filtered(
        v.records,
        of_endpoint(EndpointKind::Ordinary),
        |r: DeliveryRecord| r.endpoint == EndpointKind::Ordinary,
    );
    total_is_filtered(
        v.records,
        of_endpoint(EndpointKind::Protected),
        |r: DeliveryRecord| r.endpoint == EndpointKind::Protected,
    );
}

/// Work is admitted against a promise exactly once, while nothing was said of it
/// yet: a used one is refused as such, any other as closed.
pub proof fn promises_are_used_once(v: TransportView, i: int)
    requires
        v.wf(),
        0 <= i < v.records.len(),
    ensures
        ({
            let r = v.records[i];
            let error = v.commit_error(r.id);
            &&& error is None <==> !v.closed && !r.committed && !r.cancelled && r.status
                == SWDeliveryStatus::Waiting
            &&& error == Some(TicketCommitError::AlreadyCommitted) <==> !v.closed && r.committed
            &&& error is None ==> v.committed(r.id).commit_error(r.id) == Some(
                TicketCommitError::AlreadyCommitted,
            )
        }),
{
    let r = v.records[i];
    assert(delivery_at(v.records, i, r.id));
    delivery_found(v.records, i, r.id);
    let w = v.committed(r.id);
    change_word(v, w, r.id, r.id);
}

/// A delivery can be cancelled exactly until it is claimed, and asking again
/// changes nothing of that; one that is not there has settled.
pub proof fn cancellation_ends_with_the_claim(v: TransportView, id: u64)
    requires
        v.wf(),
    ensures
        v.cancellation(id) == SWCancelResult::Settled <==> !v.has(id),
        v.has(id) ==> (v.cancellation(id) == SWCancelResult::TooLate <==> v.get(id).status
            == SWDeliveryStatus::Claimed),
        v.cancelled(id).cancellation(id) == v.cancellation(id),
        v.cancellation(id) != SWCancelResult::Requested ==> v.cancelled(id) == v,
        v.cancellation(id) == SWCancelResult::Requested ==> v.cancelled(id).get(id).cancelled,
{
    cancel_word(v, id, id);
}

proof fn cleanup_counted(records: Seq<DeliveryRecord>, closed: bool)
    requires
        forall|i: int| 0 <= i < records.len() ==> !(#[trigger] records[i]).status.settled(),
    ensures
        total(records, in_cleanup(closed)) == records.filter(
            |r: DeliveryRecord| closed || r.cancelled,
        ).len(),
    decreases records.len(),
{
    reveal(Seq::filter);
    if records.len() > 0 {
        let n = records.len() - 1;
        assert(!records[n].status.settled());
        assert forall|i: int| 0 <= i < n implies !(
        #[trigger] records.drop_last()[i]).status.settled() by {
            assert(!records[i].status.settled());
        }
        cleanup_counted(records.drop_last(), closed);
    }
}

/// A snapshot counts every live delivery once: one that was cancelled, or whose
/// transport is closed, as cleanup, and any other by how far it is.
pub proof fn snapshots_count_every_delivery_once(v: TransportView)
    requires
        v.wf(),
    ensures
        total(v.records, in_progress(v.closed, SWDeliveryStatus::Waiting)) == v.records.filter(
            |r: DeliveryRecord|
                !v.closed && !r.cancelled && r.status == SWDeliveryStatus::Waiting,
        ).len(),
        total(v.records, in_progress(v.closed, SWDeliveryStatus::Ready)) == v.records.filter(
            |r: DeliveryRecord| !v.closed && !r.cancelled && r.status == SWDeliveryStatus::Ready,
        ).len(),
        total(v.records, in_progress(v.closed, SWDeliveryStatus::Claimed)) == v.records.filter(
            |r: DeliveryRecord| !v.closed && !r.cancelled && r.status == SWDeliveryStatus::Claimed,
        ).len(),
        total(v.records, in_cleanup(v.closed)) == v.records.filter(
            |r: DeliveryRecord| v.closed || r.cancelled,
        ).len(),
{
    total_is_filtered(
        v.records,
        in_progress(v.closed, SWDeliveryStatus::Waiting),
        |r: DeliveryRecord| !v.closed && !r.cancelled && r.status == SWDeliveryStatus::Waiting,
    );
    total_is_filtered(
        v.records,
        in_progress(v.closed, SWDeliveryStatus::Ready),
        |r: DeliveryRecord| !v.closed && !r.cancelled && r.status == SWDeliveryStatus::Ready,
    );
    total_is_filtered(
        v.records,
        in_progress(v.closed, SWDeliveryStatus::Claimed),
        |r: DeliveryRecord| !v.closed && !r.cancelled && r.status == SWDeliveryStatus::Claimed,
    );
    assert forall|i: int| 0 <= i < v.records.len() implies !(
    #[trigger] v.records[i]).status.settled() by {
        assert(delivery_ok(v.records[i], v.closed));
    }
    cleanup_counted(v.records, v.closed);
}

/// A claim marks the record of its delivery.
pub proof fn claimed_by_number(v: TransportView, id: u64)
    requires
        v.wf(),
        v.has(id),
    ensures
        v.claimed(id).get(id).status == SWDeliveryStatus::Claimed,
{
    assert(delivery_at(v.records, delivery_slot(v.records, id), id));
    change_word(v, v.claimed(id), id, id);
}

/// Cancelling everything leaves the records where they are.
pub proof fn cancelled_indexed(v: TransportView)
    requires
        v.indexed(),
    ensures
        v.all_cancelled().indexed(),
{
    let w = v.all_cancelled();
    assert forall|a: int, b: int| 0 <= a < b < w.records.len() implies (
    #[trigger] w.records[a]).id < (#[trigger] w.records[b]).id by {
        assert(v.records[a].id < v.records[b].id);
    }
    cancelled_counted(v.records, EndpointKind::Ordinary);
    cancelled_counted(v.records, EndpointKind::Protected);
}

proof fn cancelled_counted(records: Seq<DeliveryRecord>, endpoint: EndpointKind)
    ensures
        total(
            records.map_values(|r: DeliveryRecord| cancelled_record(r)),
            of_endpoint(endpoint),
        ) == total(records, of_endpoint(endpoint)),
    decreases records.len(),
{
    let f = |r: DeliveryRecord| cancelled_record(r);
    if records.len() > 0 {
        cancelled_counted(records.drop_last(), endpoint);
        assert(records.map_values(f).drop_last() =~= records.drop_last().map_values(f));
    }
}

/// A new route is open, and has all its places free: it takes as many deliveries
/// of each kind as it has places.
pub proof fn new_routes_take_deliveries(runtime: u64, ordinary: usize, protected: usize)
    ensures
        ({
            let v = TransportView::fresh(runtime, ordinary, protected);
            &&& v.runtime == runtime && !v.closed && v.records.len() == 0 && v.queue.len() == 0
                && v.charges.len() == 0 && v.wake == 0
            &&& v.accepts(EndpointKind::Ordinary) <==> ordinary > 0
            &&& v.accepts(EndpointKind::Protected) <==> protected > 0
            &&& v.ordinary_capacity == ordinary && v.protected_capacity == protected
        }),
{
}

} // verus!
