//! Bounded terminal notifications for callbacks owned by one thread.
//!
//! Records carry no owner state or local captures. Each live record owns one
//! notification entitlement, so a terminal send cannot block a CPU worker.
use crate::admission::TicketCommitError;
use crate::channel::NotificationQueue;
use crate::progress::SWOwnerProgress;
use crate::reservation::SWReservation;
use crate::runtime::charge_at;
use crate::runtime::charge_slot;
use crate::runtime::has_charge;
use crate::runtime::Charge;
use crate::sums::total;
use crate::sums::total_bounds;
use crate::sums::total_push;
use crate::sums::total_remove;
use crate::sums::total_update;
use crate::progress::owe;
use crate::progress::owing;
use vstd::prelude::*;
use vstd::set_lib::lemma_len_subset;

verus! {

#[derive(Clone, Copy, Debug, PartialEq, Eq, Structural)]
pub enum SWDeliveryStatus {
    Waiting,
    Ready,
    Claimed,
    Published,
    Suppressed,
    Panicked,
}

impl SWDeliveryStatus {
    pub open spec fn settled(self) -> bool {
        self == SWDeliveryStatus::Published || self == SWDeliveryStatus::Suppressed || self
            == SWDeliveryStatus::Panicked
    }

    pub fn is_settled(self) -> (settled: bool)
        ensures
            settled == self.settled(),
    {
        match self {
            SWDeliveryStatus::Published
            | SWDeliveryStatus::Suppressed
            | SWDeliveryStatus::Panicked => true,
            _ => false,
        }
    }
}

#[derive(Clone, Copy, Debug, PartialEq, Eq, Structural)]
pub enum SWCancelResult {
    Requested,
    TooLate,
    Settled,
}

/// Which places a delivery uses.
#[derive(Clone, Copy, Debug, PartialEq, Eq, Structural)]
pub enum EndpointKind {
    Ordinary,
    Protected,
}

/// What claiming a notification decides.
#[derive(Clone, Copy, Debug, PartialEq, Eq, Structural)]
pub enum ClaimResult {
    Run,
    Suppress,
}

/// One reserved delivery.
#[derive(Clone, Copy, Debug, PartialEq, Eq, Structural)]
pub struct DeliveryRecord {
    pub id: u64,
    pub endpoint: EndpointKind,
    pub status: SWDeliveryStatus,
    pub cancelled: bool,
    /// Its one notification was sent.
    pub notified: bool,
    /// The owner thread has received the notification.
    pub received: bool,
    /// CPU work was admitted against it.
    pub committed: bool,
    /// Its capacity is charged.
    pub accounted: bool,
    /// Its producer has spoken.
    pub terminal: bool,
}

/// One for each record of this endpoint.
pub open spec fn of_endpoint(endpoint: EndpointKind) -> spec_fn(DeliveryRecord) -> int {
    |r: DeliveryRecord|
        if r.endpoint == endpoint {
            1
        } else {
            0
        }
}

#[verifier::ext_equal]
pub struct TransportView {
    pub runtime: u64,
    pub ordinary_capacity: usize,
    pub protected_capacity: usize,
    pub closed: bool,
    pub next_id: int,
    /// Live deliveries, in reservation order.
    pub records: Seq<DeliveryRecord>,
    /// Notifications on their way to the owner thread.
    pub queue: Seq<u64>,
    /// Notifications that fit on their way.
    pub queue_capacity: nat,
    /// Capacity of accounted deliveries.
    pub charges: Seq<Charge>,
    /// Progress notifications that are owed to the host.
    pub wake: u64,
}

pub open spec fn delivery_at(records: Seq<DeliveryRecord>, i: int, id: u64) -> bool {
    0 <= i < records.len() && records[i].id == id
}

pub open spec fn delivery_present(records: Seq<DeliveryRecord>, id: u64) -> bool {
    exists|i: int| #[trigger] delivery_at(records, i, id)
}

pub open spec fn delivery_slot(records: Seq<DeliveryRecord>, id: u64) -> int {
    choose|i: int| #[trigger] delivery_at(records, i, id)
}

/// What holds of every live delivery by itself: a delivery that can be claimed
/// has been notified, and one that is cancelled will be.
pub open spec fn delivery_ok(r: DeliveryRecord, closed: bool) -> bool {
    &&& !r.status.settled()
    &&& r.received ==> r.notified
    &&& r.status != SWDeliveryStatus::Waiting ==> r.notified
    &&& r.status == SWDeliveryStatus::Claimed ==> r.received
    &&& r.cancelled ==> r.notified
    &&& closed ==> r.cancelled || r.status == SWDeliveryStatus::Claimed
    &&& r.notified && r.status == SWDeliveryStatus::Waiting ==> r.cancelled
}

impl TransportView {
    /// An open transport that holds nothing.
    pub open spec fn fresh(
        runtime: u64,
        ordinary_capacity: usize,
        protected_capacity: usize,
    ) -> TransportView {
        TransportView {
            runtime,
            ordinary_capacity,
            protected_capacity,
            closed: false,
            next_id: 1,
            records: Seq::empty(),
            queue: Seq::empty(),
            queue_capacity: (ordinary_capacity + protected_capacity) as nat,
            charges: Seq::empty(),
            wake: 0,
        }
    }

    pub open spec fn places(self, endpoint: EndpointKind) -> usize {
        match endpoint {
            EndpointKind::Ordinary => self.ordinary_capacity,
            EndpointKind::Protected => self.protected_capacity,
        }
    }

    pub open spec fn used(self, endpoint: EndpointKind) -> int {
        total(self.records, of_endpoint(endpoint))
    }

    /// Identities rise and are never reused; places are not exceeded.
    pub open spec fn indexed(self) -> bool {
        &&& 1 <= self.next_id <= u64::MAX
        &&& forall|i: int, j: int|
            0 <= i < j < self.records.len() ==> (#[trigger] self.records[i]).id < (
            #[trigger] self.records[j]).id
        &&& forall|i: int|
            0 <= i < self.records.len() ==> (#[trigger] self.records[i]).id < self.next_id
        &&& self.used(EndpointKind::Ordinary) <= self.ordinary_capacity
        &&& self.used(EndpointKind::Protected) <= self.protected_capacity
        &&& self.queue_capacity == self.ordinary_capacity + self.protected_capacity
        &&& self.queue_capacity <= usize::MAX
    }

    /// Exactly the notified deliveries that were not received are on their way,
    /// each once.
    pub open spec fn routed(self) -> bool {
        &&& self.queue.no_duplicates()
        &&& forall|k: int|
            0 <= k < self.queue.len() ==> delivery_present(self.records, #[trigger] self.queue[k])
        &&& forall|i: int|
            0 <= i < self.records.len() ==> ((#[trigger] self.records[i]).notified
                && !self.records[i].received <==> self.queue.contains(self.records[i].id))
    }

    pub open spec fn sound(self) -> bool {
        forall|i: int|
            0 <= i < self.records.len() ==> delivery_ok(#[trigger] self.records[i], self.closed)
    }

    /// Only live deliveries hold capacity, each at most once.
    pub open spec fn charged(self) -> bool {
        &&& forall|i: int|
            0 <= i < self.charges.len() ==> delivery_present(
                self.records,
                (#[trigger] self.charges[i]).id,
            ) && self.records[delivery_slot(self.records, self.charges[i].id)].accounted
        &&& forall|i: int, j: int|
            0 <= i < j < self.charges.len() ==> (#[trigger] self.charges[i]).id != (
            #[trigger] self.charges[j]).id
    }

    pub open spec fn wf(self) -> bool {
        &&& self.indexed()
        &&& self.routed()
        &&& self.sound()
        &&& self.charged()
    }

    pub open spec fn has(self, id: u64) -> bool {
        delivery_present(self.records, id)
    }

    pub open spec fn get(self, id: u64) -> DeliveryRecord {
        self.records[delivery_slot(self.records, id)]
    }

    pub open spec fn with(self, id: u64, r: DeliveryRecord) -> TransportView {
        TransportView {
            records: self.records.update(delivery_slot(self.records, id), r),
            ..self
        }
    }

    /// A place is free and the transport is open.
    pub open spec fn accepts(self, endpoint: EndpointKind) -> bool {
        !self.closed && self.used(endpoint) < self.places(endpoint) && self.next_id < u64::MAX
    }

    pub open spec fn reserved(self, endpoint: EndpointKind, charge: Option<SWReservation>) -> TransportView {
        let id = self.next_id as u64;
        TransportView {
            next_id: self.next_id + 1,
            records: self.records.push(
                DeliveryRecord {
                    id,
                    endpoint,
                    status: SWDeliveryStatus::Waiting,
                    cancelled: false,
                    notified: false,
                    received: false,
                    committed: false,
                    accounted: charge is Some,
                    terminal: false,
                },
            ),
            charges: match charge {
                Some(reservation) => self.charges.push(Charge { id, reservation }),
                None => self.charges,
            },
            wake: owing(self.wake, 1),
            ..self
        }
    }

    /// Changes a delivery and sends its notification, unless that was sent.
    pub open spec fn notified(self, id: u64, r: DeliveryRecord) -> TransportView {
        TransportView {
            queue: if r.notified {
                self.queue
            } else {
                self.queue.push(id)
            },
            wake: owing(self.wake, 1),
            ..self.with(id, DeliveryRecord { notified: true, ..r })
        }
    }

    /// A delivery whose producer has not spoken and that was not cancelled.
    pub open spec fn can_ready(self, id: u64) -> bool {
        &&& self.has(id)
        &&& !self.get(id).terminal
        &&& self.get(id).status == SWDeliveryStatus::Waiting
        &&& !self.get(id).cancelled
    }

    /// The producer says that the delivery is ready.
    pub open spec fn readied(self, id: u64) -> TransportView {
        if !self.has(id) || self.get(id).terminal {
            self
        } else if self.can_ready(id) {
            self.notified(
                id,
                DeliveryRecord {
                    terminal: true,
                    status: SWDeliveryStatus::Ready,
                    ..self.get(id)
                },
            )
        } else {
            self.with(id, DeliveryRecord { terminal: true, ..self.get(id) })
        }
    }

    pub open spec fn cancellation(self, id: u64) -> SWCancelResult {
        if !self.has(id) {
            SWCancelResult::Settled
        } else if self.get(id).status == SWDeliveryStatus::Claimed {
            SWCancelResult::TooLate
        } else {
            SWCancelResult::Requested
        }
    }

    /// A delivery is not to be published any more, if it is not claimed yet.
    pub open spec fn cancelled(self, id: u64) -> TransportView {
        if self.cancellation(id) == SWCancelResult::Requested {
            self.notified(id, DeliveryRecord { cancelled: true, ..self.get(id) })
        } else {
            self
        }
    }

    /// The producer has gone without making the delivery ready.
    pub open spec fn suppressed(self, id: u64) -> TransportView {
        if !self.has(id) || self.get(id).terminal {
            self
        } else {
            self.with(id, DeliveryRecord { terminal: true, ..self.get(id) }).cancelled(id)
        }
    }

    /// Why CPU work cannot be admitted against a delivery, if it cannot.
    pub open spec fn commit_error(self, id: u64) -> Option<TicketCommitError> {
        if self.closed || !self.has(id) {
            Some(TicketCommitError::Closed)
        } else if self.get(id).committed {
            Some(TicketCommitError::AlreadyCommitted)
        } else if self.get(id).cancelled || self.get(id).status != SWDeliveryStatus::Waiting {
            Some(TicketCommitError::Closed)
        } else {
            None
        }
    }

    pub open spec fn committed(self, id: u64) -> TransportView {
        self.with(id, DeliveryRecord { committed: true, ..self.get(id) })
    }

    /// The oldest notification has arrived at the owner thread.
    pub open spec fn arrived(self) -> TransportView {
        let id = self.queue[0];
        TransportView {
            queue: self.queue.skip(1),
            ..self.with(id, DeliveryRecord { received: true, ..self.get(id) })
        }
    }

    /// A notification that arrived and was not claimed.
    pub open spec fn claimable(self, id: u64) -> bool {
        &&& self.has(id)
        &&& self.get(id).received
        &&& self.get(id).status != SWDeliveryStatus::Claimed
    }

    /// A claim publishes only a ready delivery that nobody cancelled, of an
    /// open transport.
    pub open spec fn claim_result(self, id: u64) -> ClaimResult {
        if !self.closed && self.get(id).status == SWDeliveryStatus::Ready && !self.get(
            id,
        ).cancelled {
            ClaimResult::Run
        } else {
            ClaimResult::Suppress
        }
    }

    pub open spec fn claimed(self, id: u64) -> TransportView {
        TransportView {
            wake: owing(self.wake, 1),
            ..self.with(
                id,
                DeliveryRecord { status: SWDeliveryStatus::Claimed, ..self.get(id) },
            )
        }
    }

    /// A claimed delivery has settled: its place is free again.
    pub open spec fn settled(self, id: u64) -> TransportView {
        TransportView {
            records: self.records.remove(delivery_slot(self.records, id)),
            charges: if has_charge(self.charges, id) {
                self.charges.remove(charge_slot(self.charges, id))
            } else {
                self.charges
            },
            wake: owing(self.wake, 1),
            ..self
        }
    }
}

pub proof fn delivery_found(records: Seq<DeliveryRecord>, i: int, id: u64)
    requires
        delivery_at(records, i, id),
        forall|i: int, j: int|
            0 <= i < j < records.len() ==> (#[trigger] records[i]).id < (#[trigger] records[j]).id,
    ensures
        delivery_present(records, id),
        delivery_slot(records, id) == i,
{
    let k = delivery_slot(records, id);
    assert(delivery_at(records, k, id));
    if k < i {
        assert(records[k].id < records[i].id);
    } else if i < k {
        assert(records[i].id < records[k].id);
    }
}

/// There are never more notifications on their way than fit: a send cannot
/// find the queue full.
pub proof fn notifications_fit(v: TransportView)
    requires
        v.wf(),
    ensures
        v.queue.len() <= v.records.len() <= v.queue_capacity,
        forall|i: int|
            0 <= i < v.records.len() && !(#[trigger] v.records[i]).notified ==> v.queue.len()
                < v.queue_capacity,
{
    let ids = v.records.map_values(|r: DeliveryRecord| r.id);
    assert(v.queue.to_set().subset_of(ids.to_set())) by {
        assert forall|x: u64| v.queue.to_set().contains(x) implies ids.to_set().contains(x) by {
            let k = choose|k: int| 0 <= k < v.queue.len() && v.queue[k] == x;
            let i = delivery_slot(v.records, v.queue[k]);
            assert(delivery_at(v.records, i, v.queue[k]));
            assert(ids[i] == x);
        }
    }
    v.queue.unique_seq_to_set();
    ids.lemma_cardinality_of_set();
    vstd::seq_lib::seq_to_set_is_finite(ids);
    lemma_len_subset(v.queue.to_set(), ids.to_set());
    endpoints_cover(v.records);
    assert forall|i: int|
        0 <= i < v.records.len() && !(#[trigger] v.records[i]).notified implies v.queue.len()
        < v.queue_capacity by {
        // The record that was not notified is not among those on their way.
        let rest = ids.to_set().remove(ids[i]);
        assert(v.queue.to_set().subset_of(rest)) by {
            assert forall|x: u64| v.queue.to_set().contains(x) implies rest.contains(x) by {
                assert(ids.to_set().contains(x));
                if x == ids[i] {
                    assert(v.queue.contains(v.records[i].id));
                }
            }
        }
        assert(ids.to_set().contains(ids[i]));
        lemma_len_subset(v.queue.to_set(), rest);
    }
}

/// Every delivery uses one endpoint or the other.
proof fn endpoints_cover(records: Seq<DeliveryRecord>)
    ensures
        records.len() == total(records, of_endpoint(EndpointKind::Ordinary)) + total(
            records,
            of_endpoint(EndpointKind::Protected),
        ),
    decreases records.len(),
{
    if records.len() > 0 {
        endpoints_cover(records.drop_last());
    }
}

/// A change of one delivery, and of its notification with it, keeps the
/// transport consistent.
proof fn one_changed_wf(v: TransportView, w: TransportView, i: int)
    requires
        v.wf(),
        0 <= i < v.records.len(),
        w.records.len() == v.records.len(),
        w == (TransportView {
            records: v.records.update(i, w.records[i]),
            queue: w.queue,
            wake: w.wake,
            ..v
        }),
        w.records[i].id == v.records[i].id,
        w.records[i].endpoint == v.records[i].endpoint,
        v.records[i].accounted ==> w.records[i].accounted,
        delivery_ok(w.records[i], v.closed),
        w.queue.no_duplicates(),
        forall|x: u64|
            x != v.records[i].id ==> (#[trigger] w.queue.contains(x) <==> v.queue.contains(x)),
        w.queue.contains(v.records[i].id) <==> w.records[i].notified && !w.records[i].received,
    ensures
        w.wf(),
        forall|x: u64| #[trigger] w.has(x) <==> v.has(x),
        forall|x: u64| v.has(x) ==> delivery_slot(w.records, x) == #[trigger] delivery_slot(
            v.records,
            x,
        ),
{
    let r = v.records[i];
    assert forall|a: int, b: int| 0 <= a < b < w.records.len() implies (#[trigger] w.records[a]).id
        < (#[trigger] w.records[b]).id by {
        assert(v.records[a].id < v.records[b].id);
    }
    assert forall|a: int| 0 <= a < w.records.len() implies (#[trigger] w.records[a]).id
        < w.next_id by {
        assert(v.records[a].id < v.next_id);
    }
    total_update(v.records, i, w.records[i], of_endpoint(EndpointKind::Ordinary));
    total_update(v.records, i, w.records[i], of_endpoint(EndpointKind::Protected));
    assert forall|x: u64| #[trigger] w.has(x) <==> v.has(x) by {
        if w.has(x) {
            let a = delivery_slot(w.records, x);
            assert(delivery_at(w.records, a, x));
            assert(delivery_at(v.records, a, x));
        }
        if v.has(x) {
            let a = delivery_slot(v.records, x);
            assert(delivery_at(v.records, a, x));
            assert(delivery_at(w.records, a, x));
        }
    }
    assert forall|x: u64| v.has(x) implies delivery_slot(w.records, x)
        == #[trigger] delivery_slot(v.records, x) by {
        let a = delivery_slot(v.records, x);
        assert(delivery_at(v.records, a, x));
        assert(delivery_at(w.records, a, x));
        delivery_found(w.records, a, x);
    }
    assert(w.routed()) by {
        assert forall|k: int| 0 <= k < w.queue.len() implies delivery_present(
            w.records,
            #[trigger] w.queue[k],
        ) by {
            let x = w.queue[k];
            assert(w.queue.contains(x));
            if x == r.id {
                assert(delivery_at(w.records, i, x));
            } else {
                assert(v.queue.contains(x));
                let j = choose|j: int| 0 <= j < v.queue.len() && v.queue[j] == x;
                assert(delivery_present(v.records, v.queue[j]));
                assert(w.has(x));
            }
        }
        assert forall|a: int| 0 <= a < w.records.len() implies ((
        #[trigger] w.records[a]).notified && !w.records[a].received <==> w.queue.contains(
            w.records[a].id,
        )) by {
            if a != i {
                assert(w.records[a] == v.records[a]);
                if a < i {
                    assert(v.records[a].id < v.records[i].id);
                } else {
                    assert(v.records[i].id < v.records[a].id);
                }
            }
        }
    }
    assert(w.sound()) by {
        assert forall|a: int| 0 <= a < w.records.len() implies delivery_ok(
            #[trigger] w.records[a],
            w.closed,
        ) by {
            assert(delivery_ok(v.records[a], v.closed));
        }
    }
    assert(w.charged()) by {
        assert forall|k: int| 0 <= k < w.charges.len() implies delivery_present(
            w.records,
            (#[trigger] w.charges[k]).id,
        ) && w.records[delivery_slot(w.records, w.charges[k].id)].accounted by {
            let x = v.charges[k].id;
            assert(delivery_present(v.records, x));
            assert(w.has(x));
            assert(delivery_at(v.records, delivery_slot(v.records, x), x));
        }
    }
}

/// One more element at the end of a queue without repeats.
proof fn queue_pushed(q: Seq<u64>, id: u64)
    requires
        q.no_duplicates(),
        !q.contains(id),
    ensures
        q.push(id).no_duplicates(),
        forall|x: u64| #[trigger] q.push(id).contains(x) <==> q.contains(x) || x == id,
{
    let r = q.push(id);
    assert forall|x: u64| #[trigger] r.contains(x) <==> q.contains(x) || x == id by {
        if r.contains(x) {
            let k = choose|k: int| 0 <= k < r.len() && r[k] == x;
            if k < q.len() {
                assert(q[k] == x);
            }
        }
        if q.contains(x) {
            let k = choose|k: int| 0 <= k < q.len() && q[k] == x;
            assert(r[k] == x);
        }
        if x == id {
            assert(r[q.len() as int] == x);
        }
    }
    assert forall|a: int, b: int| 0 <= a < r.len() && 0 <= b < r.len() && a != b implies r[a]
        != r[b] by {
        if a < q.len() {
            assert(q.contains(q[a]));
        }
        if b < q.len() {
            assert(q.contains(q[b]));
        }
    }
}

proof fn notified_wf(v: TransportView, id: u64, r: DeliveryRecord)
    requires
        v.wf(),
        v.has(id),
        r.id == id,
        r.endpoint == v.get(id).endpoint,
        r.accounted == v.get(id).accounted,
        r.notified == v.get(id).notified,
        r.received == v.get(id).received,
        delivery_ok(DeliveryRecord { notified: true, ..r }, v.closed),
    ensures
        v.notified(id, r).wf(),
        !r.notified ==> v.queue.len() < v.queue_capacity,
{
    let w = v.notified(id, r);
    let i = delivery_slot(v.records, id);
    assert(delivery_at(v.records, i, id));
    assert(delivery_ok(v.records[i], v.closed));
    notifications_fit(v);
    if !r.notified {
        assert(!v.queue.contains(v.records[i].id));
        queue_pushed(v.queue, id);
    }
    one_changed_wf(v, w, i);
}

proof fn with_wf(v: TransportView, id: u64, r: DeliveryRecord, wake: u64)
    requires
        v.wf(),
        v.has(id),
        r.id == id,
        r.endpoint == v.get(id).endpoint,
        v.get(id).accounted ==> r.accounted,
        r.notified == v.get(id).notified,
        r.received == v.get(id).received,
        delivery_ok(r, v.closed),
    ensures
        (TransportView { wake, ..v.with(id, r) }).wf(),
        (TransportView { wake, ..v.with(id, r) }).has(id),
        (TransportView { wake, ..v.with(id, r) }).get(id) == r,
{
    let w = TransportView { wake, ..v.with(id, r) };
    let i = delivery_slot(v.records, id);
    assert(delivery_at(v.records, i, id));
    one_changed_wf(v, w, i);
    assert(delivery_at(w.records, i, id));
    delivery_found(w.records, i, id);
}

proof fn reserved_wf(v: TransportView, endpoint: EndpointKind, charge: Option<SWReservation>)
    requires
        v.wf(),
        v.accepts(endpoint),
    ensures
        v.reserved(endpoint, charge).wf(),
{
    let w = v.reserved(endpoint, charge);
    let id = v.next_id as u64;
    let n = v.records.len() as int;
    let r = w.records[n];
    notifications_fit(v);
    total_push(v.records, r, of_endpoint(EndpointKind::Ordinary));
    total_push(v.records, r, of_endpoint(EndpointKind::Protected));
    endpoints_cover(v.records);
    endpoints_cover(w.records);
    assert forall|a: int, b: int| 0 <= a < b < w.records.len() implies (#[trigger] w.records[a]).id
        < (#[trigger] w.records[b]).id by {
        if b < n {
            assert(v.records[a].id < v.records[b].id);
        } else {
            assert(v.records[a].id < v.next_id);
        }
    }
    assert forall|a: int| 0 <= a < w.records.len() implies (#[trigger] w.records[a]).id
        < w.next_id by {
        if a < n {
            assert(v.records[a].id < v.next_id);
        }
    }
    assert forall|x: u64| v.has(x) implies w.has(x) && delivery_slot(w.records, x)
        == #[trigger] delivery_slot(v.records, x) && x != id by {
        let a = delivery_slot(v.records, x);
        assert(delivery_at(v.records, a, x));
        assert(delivery_at(w.records, a, x));
        delivery_found(w.records, a, x);
        assert(v.records[a].id < v.next_id);
    }
    assert(delivery_at(w.records, n, id));
    delivery_found(w.records, n, id);
    assert(w.routed()) by {
        assert forall|k: int| 0 <= k < w.queue.len() implies delivery_present(
            w.records,
            #[trigger] w.queue[k],
        ) by {
            assert(delivery_present(v.records, v.queue[k]));
            assert(delivery_slot(w.records, v.queue[k]) == delivery_slot(v.records, v.queue[k]));
        }
        assert(!w.queue.contains(id)) by {
            if v.queue.contains(id) {
                let k = choose|k: int| 0 <= k < v.queue.len() && v.queue[k] == id;
                assert(delivery_present(v.records, v.queue[k]));
                assert(delivery_slot(w.records, v.queue[k]) == delivery_slot(
                    v.records,
                    v.queue[k],
                ));
            }
        }
        assert forall|a: int| 0 <= a < w.records.len() implies ((
        #[trigger] w.records[a]).notified && !w.records[a].received <==> w.queue.contains(
            w.records[a].id,
        )) by {
            if a < n {
                assert(w.records[a] == v.records[a]);
            }
        }
    }
    assert(w.sound()) by {
        assert forall|a: int| 0 <= a < w.records.len() implies delivery_ok(
            #[trigger] w.records[a],
            w.closed,
        ) by {
            if a < n {
                assert(delivery_ok(v.records[a], v.closed));
            }
        }
    }
    assert(w.charged()) by {
        assert forall|k: int| 0 <= k < w.charges.len() implies delivery_present(
            w.records,
            (#[trigger] w.charges[k]).id,
        ) && w.records[delivery_slot(w.records, w.charges[k].id)].accounted by {
            if k < v.charges.len() {
                let x = v.charges[k].id;
                assert(w.charges[k] == v.charges[k]);
                assert(delivery_present(v.records, x));
                let a = delivery_slot(v.records, x);
                assert(delivery_at(v.records, a, x));
                assert(delivery_slot(w.records, x) == a);
            }
        }
        assert forall|a: int, b: int| 0 <= a < b < w.charges.len() implies (
        #[trigger] w.charges[a]).id != (#[trigger] w.charges[b]).id by {
            assert(w.charges[a] == v.charges[a]);
            assert(delivery_present(v.records, v.charges[a].id));
            assert(delivery_slot(w.records, v.charges[a].id) == delivery_slot(
                v.records,
                v.charges[a].id,
            ));
            if b < v.charges.len() {
                assert(v.charges[a].id != v.charges[b].id);
            }
        }
    }
}

pub proof fn settled_wf(v: TransportView, id: u64)
    requires
        v.wf(),
        v.has(id),
        v.get(id).status == SWDeliveryStatus::Claimed,
    ensures
        v.settled(id).wf(),
        forall|x: u64| #[trigger] v.settled(id).has(x) <==> v.has(x) && x != id,
        forall|x: u64| v.settled(id).has(x) ==> #[trigger] v.settled(id).get(x) == v.get(x),
{
    let w = v.settled(id);
    let i = delivery_slot(v.records, id);
    assert(delivery_at(v.records, i, id));
    assert(delivery_ok(v.records[i], v.closed));
    total_remove(v.records, i, of_endpoint(EndpointKind::Ordinary));
    total_remove(v.records, i, of_endpoint(EndpointKind::Protected));
    assert forall|a: int| 0 <= a < w.records.len() implies #[trigger] w.records[a] == v.records[if a
        < i {
        a
    } else {
        a + 1
    }] by {}
    assert forall|a: int, b: int| 0 <= a < b < w.records.len() implies (#[trigger] w.records[a]).id
        < (#[trigger] w.records[b]).id by {
        let x = if a < i {
            a
        } else {
            a + 1
        };
        let y = if b < i {
            b
        } else {
            b + 1
        };
        assert(v.records[x].id < v.records[y].id);
    }
    assert forall|x: u64| #[trigger] w.has(x) <==> v.has(x) && x != id by {
        if w.has(x) {
            let a = delivery_slot(w.records, x);
            assert(delivery_at(w.records, a, x));
            let b = if a < i {
                a
            } else {
                a + 1
            };
            assert(delivery_at(v.records, b, x));
            if b < i {
                assert(v.records[b].id < v.records[i].id);
            } else {
                assert(v.records[i].id < v.records[b].id);
            }
        }
        if v.has(x) && x != id {
            let b = delivery_slot(v.records, x);
            assert(delivery_at(v.records, b, x));
            let a = if b < i {
                b
            } else {
                b - 1
            };
            assert(delivery_at(w.records, a, x));
        }
    }
    assert forall|x: u64| w.has(x) implies #[trigger] w.get(x) == v.get(x) by {
        let a = delivery_slot(w.records, x);
        assert(delivery_at(w.records, a, x));
        let b = if a < i {
            a
        } else {
            a + 1
        };
        assert(delivery_at(v.records, b, x));
        delivery_found(v.records, b, x);
    }
    assert(w.routed()) by {
        assert(!v.queue.contains(v.records[i].id));
        assert forall|k: int| 0 <= k < w.queue.len() implies delivery_present(
            w.records,
            #[trigger] w.queue[k],
        ) by {
            assert(delivery_present(v.records, v.queue[k]));
            assert(v.queue.contains(v.queue[k]));
            assert(w.has(v.queue[k]));
        }
        assert forall|a: int| 0 <= a < w.records.len() implies ((
        #[trigger] w.records[a]).notified && !w.records[a].received <==> w.queue.contains(
            w.records[a].id,
        )) by {
            let b = if a < i {
                a
            } else {
                a + 1
            };
            assert(w.records[a] == v.records[b]);
        }
    }
    assert(w.sound()) by {
        assert forall|a: int| 0 <= a < w.records.len() implies delivery_ok(
            #[trigger] w.records[a],
            w.closed,
        ) by {
            let b = if a < i {
                a
            } else {
                a + 1
            };
            assert(delivery_ok(v.records[b], v.closed));
        }
    }
    assert(w.charged()) by {
        let c = charge_slot(v.charges, id);
        if has_charge(v.charges, id) {
            assert(charge_at(v.charges, c, id));
        }
        assert forall|k: int| 0 <= k < w.charges.len() implies delivery_present(
            w.records,
            (#[trigger] w.charges[k]).id,
        ) && w.records[delivery_slot(w.records, w.charges[k].id)].accounted by {
            let m = if has_charge(v.charges, id) && k >= c {
                k + 1
            } else {
                k
            };
            assert(w.charges[k] == v.charges[m]);
            let x = v.charges[m].id;
            assert(delivery_present(v.records, x));
            if x == id {
                assert(charge_at(v.charges, m, id));
                if m < c {
                    assert(v.charges[m].id != v.charges[c].id);
                } else {
                    assert(v.charges[c].id != v.charges[m].id);
                }
            }
            assert(w.has(x));
            assert(w.get(x) == v.get(x));
        }
        assert forall|a: int, b: int| 0 <= a < b < w.charges.len() implies (
        #[trigger] w.charges[a]).id != (#[trigger] w.charges[b]).id by {
            let x = if has_charge(v.charges, id) && a >= c {
                a + 1
            } else {
                a
            };
            let y = if has_charge(v.charges, id) && b >= c {
                b + 1
            } else {
                b
            };
            assert(v.charges[x].id != v.charges[y].id);
        }
    }
}

/// The owner-side transport of one owner.
pub struct Transport {
    runtime: u64,
    ordinary_capacity: usize,
    protected_capacity: usize,
    closed: bool,
    next_id: u64,
    records: Vec<DeliveryRecord>,
    queue: NotificationQueue,
    ordinary: usize,
    protected: usize,
    charges: Vec<Charge>,
    wake: u64,
}

impl View for Transport {
    type V = TransportView;

    closed spec fn view(&self) -> TransportView {
        TransportView {
            runtime: self.runtime,
            ordinary_capacity: self.ordinary_capacity,
            protected_capacity: self.protected_capacity,
            closed: self.closed,
            next_id: self.next_id as int,
            records: self.records@,
            queue: self.queue@,
            queue_capacity: self.queue.capacity(),
            charges: self.charges@,
            wake: self.wake,
        }
    }
}

impl Transport {
    /// The channel is whole, and the cached counts are exact.
    pub closed spec fn cached(self) -> bool {
        &&& self.queue.wf()
        &&& self.ordinary == self@.used(EndpointKind::Ordinary)
        &&& self.protected == self@.used(EndpointKind::Protected)
    }

    pub open spec fn wf(self) -> bool {
        self@.wf() && self.cached()
    }

    /// A transport with `ordinary_capacity` ordinary places and, of a capacity
    /// policy, `protected_capacity` protected ones.
    pub fn new(ordinary_capacity: usize, protected_capacity: usize, runtime: u64) -> (transport: Self)
        requires
            ordinary_capacity > 0,
            (ordinary_capacity + protected_capacity) * 16 <= isize::MAX,
        ensures
            transport.wf(),
            transport@ == TransportView::fresh(runtime, ordinary_capacity, protected_capacity),
    {
        let queue = NotificationQueue::new(ordinary_capacity + protected_capacity);
        let transport = Transport {
            runtime,
            ordinary_capacity,
            protected_capacity,
            closed: false,
            next_id: 1,
            records: Vec::new(),
            queue,
            ordinary: 0,
            protected: 0,
            charges: Vec::new(),
            wake: 0,
        };
        assert(transport@ =~= TransportView::fresh(
            runtime,
            ordinary_capacity,
            protected_capacity,
        ));
        transport
    }

    fn find(&self, id: u64) -> (found: Option<usize>)
        requires
            self@.indexed(),
        ensures
            match found {
                Some(i) => {
                    &&& delivery_at(self@.records, i as int, id)
                    &&& self@.has(id)
                    &&& delivery_slot(self@.records, id) == i
                },
                None => !self@.has(id),
            },
    {
        let mut index: usize = 0;
        while index < self.records.len()
            invariant
                self@.indexed(),
                index <= self.records@.len(),
                forall|i: int| 0 <= i < index ==> (#[trigger] self.records@[i]).id != id,
            decreases self.records@.len() - index,
        {
            if self.records[index].id == id {
                proof {
                    delivery_found(self@.records, index as int, id);
                }
                return Some(index);
            }
            index += 1;
        }
        proof {
            if self@.has(id) {
                let i = delivery_slot(self@.records, id);
                assert(delivery_at(self@.records, i, id));
                assert(self.records@[i].id == id);
            }
        }
        None
    }

    pub fn runtime_identity(&self) -> (runtime: u64)
        ensures
            runtime == self@.runtime,
    {
        self.runtime
    }

    pub fn is_closed(&self) -> (closed: bool)
        ensures
            closed == self@.closed,
    {
        self.closed
    }

    pub fn pending_count(&self) -> (count: usize)
        ensures
            count == self@.records.len(),
    {
        self.records.len()
    }

    pub fn is_empty(&self) -> (empty: bool)
        ensures
            empty == (self@.records.len() == 0),
    {
        self.pending_count() == 0
    }

    /// Takes the progress notifications that are owed.
    pub fn take_wake(&mut self) -> (owed: u64)
        requires
            old(self).wf(),
        ensures
            final(self).wf(),
            owed == old(self)@.wake,
            final(self)@ == (TransportView { wake: 0, ..old(self)@ }),
    {
        let owed: u64 = self.wake;
        self.wake = 0;
        owed
    }

    /// Whether a place is free.
    pub fn would_accept(&self, endpoint: EndpointKind) -> (accepts: bool)
        requires
            self.wf(),
        ensures
            accepts == self@.accepts(endpoint),
    {
        let full = match endpoint {
            EndpointKind::Ordinary => self.ordinary >= self.ordinary_capacity,
            EndpointKind::Protected => self.protected >= self.protected_capacity,
        };
        !self.closed && !full && self.next_id < u64::MAX
    }

    /// Takes a place and its notification entitlement.
    pub fn reserve_with_charge(&mut self, endpoint: EndpointKind, charge: Option<SWReservation>) -> (
    id: u64)
        requires
            old(self).wf(),
            old(self)@.accepts(endpoint),
        ensures
            final(self).wf(),
            id == old(self)@.next_id,
            final(self)@ == old(self)@.reserved(endpoint, charge),
    {
        let ghost v = self@;
        proof {
            reserved_wf(v, endpoint, charge);
        }
        let id: u64 = self.next_id;
        let record = DeliveryRecord {
            id,
            endpoint,
            status: SWDeliveryStatus::Waiting,
            cancelled: false,
            notified: false,
            received: false,
            committed: false,
            accounted: charge.is_some(),
            terminal: false,
        };
        proof {
            total_push(v.records, record, of_endpoint(EndpointKind::Ordinary));
            total_push(v.records, record, of_endpoint(EndpointKind::Protected));
        }
        self.next_id = id + 1;
        self.records.push(record);
        match endpoint {
            EndpointKind::Ordinary => {
                self.ordinary = self.ordinary + 1;
            },
            EndpointKind::Protected => {
                self.protected = self.protected + 1;
            },
        }
        if let Some(reservation) = charge {
            self.charges.push(Charge { id, reservation });
        }
        self.wake = owe(self.wake, 1);
        id
    }

    /// Stores a changed record and sends its notification, unless that was
    /// sent before. The queue is never full here.
    fn notify(&mut self, k: usize, record: DeliveryRecord)
        requires
            old(self).wf(),
            delivery_at(old(self)@.records, k as int, record.id),
            record.endpoint == old(self)@.records[k as int].endpoint,
            record.accounted == old(self)@.records[k as int].accounted,
            record.notified == old(self)@.records[k as int].notified,
            record.received == old(self)@.records[k as int].received,
            delivery_ok((DeliveryRecord { notified: true, ..record }), old(self)@.closed),
        ensures
            final(self).wf(),
            final(self)@ == old(self)@.notified(record.id, record),
    {
        let ghost v = self@;
        proof {
            delivery_found(v.records, k as int, record.id);
            notified_wf(v, record.id, record);
            let s = DeliveryRecord { notified: true, ..record };
            total_update(v.records, k as int, s, of_endpoint(EndpointKind::Ordinary));
            total_update(v.records, k as int, s, of_endpoint(EndpointKind::Protected));
        }
        if !record.notified {
            let _ = self.queue.push(record.id);
        }
        self.records.set(k, DeliveryRecord { notified: true, ..record });
        self.wake = owe(self.wake, 1);
    }

    fn store(&mut self, k: usize, record: DeliveryRecord)
        requires
            old(self).wf(),
            delivery_at(old(self)@.records, k as int, record.id),
            record.endpoint == old(self)@.records[k as int].endpoint,
            old(self)@.records[k as int].accounted ==> record.accounted,
            record.notified == old(self)@.records[k as int].notified,
            record.received == old(self)@.records[k as int].received,
            delivery_ok(record, old(self)@.closed),
        ensures
            final(self).wf(),
            final(self)@ == old(self)@.with(record.id, record),
            final(self)@.has(record.id),
            final(self)@.get(record.id) == record,
    {
        let ghost v = self@;
        proof {
            delivery_found(v.records, k as int, record.id);
            with_wf(v, record.id, record, v.wake);
            total_update(v.records, k as int, record, of_endpoint(EndpointKind::Ordinary));
            total_update(v.records, k as int, record, of_endpoint(EndpointKind::Protected));
        }
        self.records.set(k, record);
    }

    /// The producer says that the delivery is ready. It is heard once.
    pub fn ready(&mut self, id: u64)
        requires
            old(self).wf(),
        ensures
            final(self).wf(),
            final(self)@ == old(self)@.readied(id),
    {
        let k: usize = match self.find(id) {
            Some(k) => k,
            None => {
                return ;
            },
        };
        let record = self.records[k];
        proof {
            assert(delivery_ok(self@.records[k as int], self@.closed));
        }
        if record.terminal {
            return ;
        }
        if record.status == SWDeliveryStatus::Waiting && !record.cancelled {
            self.notify(
                k,
                DeliveryRecord { terminal: true, status: SWDeliveryStatus::Ready, ..record },
            );
        } else {
            self.store(k, DeliveryRecord { terminal: true, ..record });
        }
    }

    /// Asks that a delivery not be published. Effective until its claim.
    pub fn cancel(&mut self, id: u64) -> (result: SWCancelResult)
        requires
            old(self).wf(),
        ensures
            final(self).wf(),
            result == old(self)@.cancellation(id),
            final(self)@ == old(self)@.cancelled(id),
    {
        let k: usize = match self.find(id) {
            Some(k) => k,
            None => {
                return SWCancelResult::Settled;
            },
        };
        let record = self.records[k];
        proof {
            assert(delivery_ok(self@.records[k as int], self@.closed));
        }
        match record.status {
            SWDeliveryStatus::Waiting | SWDeliveryStatus::Ready => {
                self.notify(k, DeliveryRecord { cancelled: true, ..record });
                SWCancelResult::Requested
            },
            SWDeliveryStatus::Claimed => SWCancelResult::TooLate,
            _ => SWCancelResult::Settled,
        }
    }

    /// The producer has gone. Unless it has spoken, the delivery is cancelled.
    pub fn suppress(&mut self, id: u64)
        requires
            old(self).wf(),
        ensures
            final(self).wf(),
            final(self)@ == old(self)@.suppressed(id),
    {
        let k: usize = match self.find(id) {
            Some(k) => k,
            None => {
                return ;
            },
        };
        let record = self.records[k];
        proof {
            assert(delivery_ok(self@.records[k as int], self@.closed));
        }
        if record.terminal {
            return ;
        }
        self.store(k, DeliveryRecord { terminal: true, ..record });
        let _ = self.cancel(id);
    }

    /// Why CPU work could not be admitted against a delivery now, if it could
    /// not.
    pub fn check_commit(&self, id: u64) -> (error: Option<TicketCommitError>)
        requires
            self.wf(),
        ensures
            error == self@.commit_error(id),
    {
        if self.closed {
            return Some(TicketCommitError::Closed);
        }
        match self.find(id) {
            None => Some(TicketCommitError::Closed),
            Some(k) => {
                let record = self.records[k];
                if record.committed {
                    Some(TicketCommitError::AlreadyCommitted)
                } else if record.cancelled || record.status != SWDeliveryStatus::Waiting {
                    Some(TicketCommitError::Closed)
                } else {
                    None
                }
            },
        }
    }

    /// The last fallible step of admitting CPU work against a delivery.
    pub fn try_commit(&mut self, id: u64) -> (result: Result<(), TicketCommitError>)
        requires
            old(self).wf(),
        ensures
            final(self).wf(),
            match result {
                Ok(()) => {
                    &&& old(self)@.commit_error(id) is None
                    &&& final(self)@ == old(self)@.committed(id)
                },
                Err(error) => {
                    &&& old(self)@.commit_error(id) == Some(error)
                    &&& final(self)@ == old(self)@
                },
            },
    {
        match self.check_commit(id) {
            Some(error) => Err(error),
            None => {
                if let Some(k) = self.find(id) {
                    let record = self.records[k];
                    proof {
                        assert(delivery_ok(self@.records[k as int], self@.closed));
                    }
                    self.store(k, DeliveryRecord { committed: true, ..record });
                }
                Ok(())
            },
        }
    }

    /// The oldest notification that arrives at the owner thread.
    pub fn try_recv(&mut self) -> (arrived: Option<u64>)
        requires
            old(self).wf(),
        ensures
            final(self).wf(),
            match arrived {
                Some(id) => {
                    &&& old(self)@.queue.len() > 0
                    &&& id == old(self)@.queue[0]
                    &&& old(self)@.has(id)
                    &&& final(self)@ == old(self)@.arrived()
                },
                None => old(self)@.queue.len() == 0 && final(self)@ == old(self)@,
            },
    {
        let ghost v = self@;
        match self.queue.pop() {
            None => None,
            Some(id) => {
                proof {
                    assert(delivery_present(v.records, v.queue[0]));
                    assert(self@.indexed());
                }
                if let Some(k) = self.find(id) {
                    let record = self.records[k];
                    let next = DeliveryRecord { received: true, ..record };
                    proof {
                        delivery_found(v.records, k as int, id);
                        assert(delivery_ok(v.records[k as int], v.closed));
                        assert(v.queue.contains(id));
                        arrived_wf(v);
                        total_update(
                            v.records,
                            k as int,
                            next,
                            of_endpoint(EndpointKind::Ordinary),
                        );
                        total_update(
                            v.records,
                            k as int,
                            next,
                            of_endpoint(EndpointKind::Protected),
                        );
                    }
                    self.records.set(k, next);
                }
                Some(id)
            },
        }
    }

    /// Claims an arrived notification, once. Closure and claim are decided
    /// here: once a claim has won, later closure cannot retract it.
    pub fn claim(&mut self, id: u64) -> (result: ClaimResult)
        requires
            old(self).wf(),
            old(self)@.claimable(id),
        ensures
            final(self).wf(),
            result == old(self)@.claim_result(id),
            final(self)@ == old(self)@.claimed(id),
            final(self)@.has(id),
            final(self)@.get(id).status == SWDeliveryStatus::Claimed,
    {
        let ghost v = self@;
        let mut result = ClaimResult::Suppress;
        if let Some(k) = self.find(id) {
            let record = self.records[k];
            proof {
                assert(delivery_ok(v.records[k as int], v.closed));
            }
            if !self.closed && record.status == SWDeliveryStatus::Ready && !record.cancelled {
                result = ClaimResult::Run;
            }
            self.store(k, DeliveryRecord { status: SWDeliveryStatus::Claimed, ..record });
        }
        self.wake = owe(self.wake, 1);
        result
    }

    /// Settles a claimed delivery and hands back its capacity.
    pub fn settle(&mut self, id: u64) -> (capacity: Option<SWReservation>)
        requires
            old(self).wf(),
            old(self)@.has(id),
            old(self)@.get(id).status == SWDeliveryStatus::Claimed,
        ensures
            final(self).wf(),
            final(self)@ == old(self)@.settled(id),
            capacity == (if has_charge(old(self)@.charges, id) {
                Some(old(self)@.charges[charge_slot(old(self)@.charges, id)].reservation)
            } else {
                None
            }),
            forall|x: u64| #[trigger] final(self)@.has(x) <==> old(self)@.has(x) && x != id,
            forall|x: u64|
                final(self)@.has(x) ==> #[trigger] final(self)@.get(x) == old(self)@.get(x),
    {
        let ghost v = self@;
        proof {
            settled_wf(v, id);
        }
        if let Some(k) = self.find(id) {
            proof {
                total_remove(v.records, k as int, of_endpoint(EndpointKind::Ordinary));
                total_remove(v.records, k as int, of_endpoint(EndpointKind::Protected));
                total_bounds(
                    v.records.remove(k as int),
                    of_endpoint(EndpointKind::Ordinary),
                );
                total_bounds(
                    v.records.remove(k as int),
                    of_endpoint(EndpointKind::Protected),
                );
            }
            let record = self.records.remove(k);
            match record.endpoint {
                EndpointKind::Ordinary => {
                    self.ordinary = self.ordinary - 1;
                },
                EndpointKind::Protected => {
                    self.protected = self.protected - 1;
                },
            }
        }
        self.wake = owe(self.wake, 1);
        self.take_charge(id)
    }

    fn take_charge(&mut self, id: u64) -> (capacity: Option<SWReservation>)
        requires
            forall|i: int, j: int|
                0 <= i < j < old(self)@.charges.len() ==> (#[trigger] old(self)@.charges[i]).id != (
                #[trigger] old(self)@.charges[j]).id,
        ensures
            capacity == (if has_charge(old(self)@.charges, id) {
                Some(old(self)@.charges[charge_slot(old(self)@.charges, id)].reservation)
            } else {
                None
            }),
            final(self)@ == (TransportView {
                charges: if has_charge(old(self)@.charges, id) {
                    old(self)@.charges.remove(charge_slot(old(self)@.charges, id))
                } else {
                    old(self)@.charges
                },
                ..old(self)@
            }),
            final(self).cached() == old(self).cached(),
    {
        let ghost charges = self@.charges;
        let mut index: usize = 0;
        while index < self.charges.len()
            invariant
                index <= charges.len(),
                charges == self.charges@,
                *self == *old(self),
                forall|i: int, j: int|
                    0 <= i < j < charges.len() ==> (#[trigger] charges[i]).id != (
                    #[trigger] charges[j]).id,
                forall|i: int| 0 <= i < index ==> (#[trigger] charges[i]).id != id,
            decreases charges.len() - index,
        {
            if self.charges[index].id == id {
                proof {
                    assert(charge_at(charges, index as int, id));
                    let k = charge_slot(charges, id);
                    assert(charge_at(charges, k, id));
                    if k < index {
                        assert(charges[k].id != charges[index as int].id);
                    } else if index < k {
                        assert(charges[index as int].id != charges[k].id);
                    }
                }
                let charge = self.charges.remove(index);
                return Some(charge.reservation);
            }
            assert(charges[index as int].id != id);
            index += 1;
        }
        proof {
            if has_charge(charges, id) {
                let k = charge_slot(charges, id);
                assert(charge_at(charges, k, id));
                assert(charges[k].id == id);
            }
        }
        None
    }
}

/// A delivery that is not to be published any more, unless it is claimed.
pub open spec fn cancelled_record(r: DeliveryRecord) -> DeliveryRecord {
    if r.status == SWDeliveryStatus::Claimed {
        r
    } else {
        DeliveryRecord { cancelled: true, notified: true, ..r }
    }
}

/// One for each delivery that is not claimed.
pub open spec fn not_claimed() -> spec_fn(DeliveryRecord) -> int {
    |r: DeliveryRecord|
        if r.status == SWDeliveryStatus::Claimed {
            0
        } else {
            1
        }
}

/// Deliveries whose notification was not sent, in reservation order.
pub open spec fn unnotified_ids(records: Seq<DeliveryRecord>) -> Seq<u64>
    decreases records.len(),
{
    if records.len() == 0 {
        Seq::empty()
    } else {
        let rest = unnotified_ids(records.drop_last());
        if records.last().notified {
            rest
        } else {
            rest.push(records.last().id)
        }
    }
}

/// One for each delivery that the owner only has to clean up.
pub open spec fn in_cleanup(closed: bool) -> spec_fn(DeliveryRecord) -> int {
    |r: DeliveryRecord|
        if closed || r.cancelled || r.status.settled() {
            1
        } else {
            0
        }
}

/// One for each delivery in this status that is not cancelled.
pub open spec fn in_progress(closed: bool, status: SWDeliveryStatus) -> spec_fn(
    DeliveryRecord,
) -> int {
    |r: DeliveryRecord|
        if !closed && !r.cancelled && r.status == status {
            1
        } else {
            0
        }
}

impl TransportView {
    /// No unclaimed delivery is to be published any more.
    pub open spec fn all_cancelled(self) -> TransportView {
        TransportView {
            records: self.records.map_values(|r: DeliveryRecord| cancelled_record(r)),
            queue: self.queue + unnotified_ids(self.records),
            wake: owing(self.wake, total(self.records, not_claimed())),
            ..self
        }
    }

    pub open spec fn shut(self) -> TransportView {
        TransportView {
            closed: true,
            wake: owing(self.wake, 1 + total(self.records, not_claimed())),
            ..self.all_cancelled()
        }
    }

    /// Capacity is charged to a delivery that has not settled.
    pub open spec fn with_capacity(self, id: u64, reservation: SWReservation) -> TransportView {
        TransportView {
            charges: self.charges.push(Charge { id, reservation }),
            ..self.with(id, DeliveryRecord { accounted: true, ..self.get(id) })
        }
    }
}

impl Transport {
    /// Cancels every unclaimed delivery.
    pub fn suppress_all(&mut self)
        requires
            old(self).wf(),
        ensures
            final(self).wf(),
            final(self)@ == old(self)@.all_cancelled(),
    {
        let ghost v = self@;
        let ghost w = v.all_cancelled();
        let mut index: usize = 0;
        proof {
            assert(v.records.take(0) =~= Seq::empty());
            assert(v.queue + Seq::<u64>::empty() =~= v.queue);
        }
        while index < self.records.len()
            invariant
                self.wf(),
                index <= v.records.len(),
                self.records@.len() == v.records.len(),
                w == v.all_cancelled(),
                v.wf(),
                self@ == (TransportView {
                    records: self.records@,
                    queue: v.queue + unnotified_ids(v.records.take(index as int)),
                    wake: owing(v.wake, total(v.records.take(index as int), not_claimed())),
                    ..v
                }),
                forall|i: int| 0 <= i < index ==> #[trigger] self.records@[i] == w.records[i],
                forall|i: int|
                    index <= i < v.records.len() ==> #[trigger] self.records@[i] == v.records[i],
            decreases v.records.len() - index,
        {
            let record = self.records[index];
            let ghost before = self@;
            proof {
                let next = v.records.take(index + 1);
                total_bounds(v.records.take(index as int), not_claimed());
                assert(next.drop_last() =~= v.records.take(index as int));
                assert(next.last() == record);
                assert(delivery_at(self@.records, index as int, record.id));
                delivery_found(self@.records, index as int, record.id);
                assert(delivery_ok(self@.records[index as int], self@.closed));
                assert(v.queue + unnotified_ids(v.records.take(index as int)).push(record.id)
                    =~= (v.queue + unnotified_ids(v.records.take(index as int))).push(record.id));
            }
            match record.status {
                SWDeliveryStatus::Claimed => {},
                _ => {
                    self.notify(index, DeliveryRecord { cancelled: true, ..record });
                },
            }
            index += 1;
        }
        proof {
            assert(v.records.take(index as int) =~= v.records);
            assert(self@.records =~= w.records);
        }
    }

    /// Closes the transport: nothing new is accepted, and no unclaimed delivery
    /// is published.
    pub fn close(&mut self)
        requires
            old(self).wf(),
        ensures
            final(self).wf(),
            final(self)@ == old(self)@.shut(),
    {
        self.wake = owe(self.wake, 1);
        self.suppress_all();
        let ghost m = self@;
        self.closed = true;
        proof {
            let v = old(self)@;
            total_bounds(v.records, not_claimed());
            assert forall|i: int| 0 <= i < self@.records.len() implies delivery_ok(
                #[trigger] self@.records[i],
                true,
            ) by {
                assert(delivery_ok(m.records[i], m.closed));
                assert(m.records[i] == cancelled_record(v.records[i]));
            }
        }
    }

    /// Charges capacity to a delivery that has none; a settled one hands it
    /// back.
    pub fn attach_capacity(&mut self, id: u64, capacity: SWReservation) -> (returned: Option<
        SWReservation,
    >)
        requires
            old(self).wf(),
            !has_charge(old(self)@.charges, id),
        ensures
            final(self).wf(),
            if old(self)@.has(id) {
                returned is None && final(self)@ == old(self)@.with_capacity(id, capacity)
            } else {
                returned == Some(capacity) && final(self)@ == old(self)@
            },
    {
        let ghost v = self@;
        match self.find(id) {
            None => Some(capacity),
            Some(k) => {
                let record = self.records[k];
                proof {
                    assert(delivery_ok(v.records[k as int], v.closed));
                }
                self.store(k, DeliveryRecord { accounted: true, ..record });
                let ghost m = self@;
                self.charges.push(Charge { id, reservation: capacity });
                proof {
                    let w = self@;
                    assert forall|i: int| 0 <= i < w.charges.len() implies delivery_present(
                        w.records,
                        (#[trigger] w.charges[i]).id,
                    ) && w.records[delivery_slot(w.records, w.charges[i].id)].accounted by {
                        if i < m.charges.len() {
                            assert(w.charges[i] == m.charges[i]);
                        } else {
                            assert(m.has(id));
                        }
                    }
                    assert forall|a: int, b: int| 0 <= a < b < w.charges.len() implies (
                    #[trigger] w.charges[a]).id != (#[trigger] w.charges[b]).id by {
                        if b < m.charges.len() {
                            assert(m.charges[a].id != m.charges[b].id);
                        } else {
                            assert(v.charges[a] == w.charges[a]);
                            if v.charges[a].id == id {
                                assert(charge_at(v.charges, a, id));
                            }
                        }
                    }
                }
                None
            },
        }
    }

    /// Status of a live delivery; none once it has settled.
    pub fn status(&self, id: u64) -> (status: Option<SWDeliveryStatus>)
        requires
            self.wf(),
        ensures
            status == (if self@.has(id) {
                Some(self@.get(id).status)
            } else {
                None
            }),
    {
        match self.find(id) {
            Some(k) => Some(self.records[k].status),
            None => None,
        }
    }

    /// Whether the producer of a live delivery has not spoken yet.
    pub fn is_unspoken(&self, id: u64) -> (unspoken: bool)
        requires
            self.wf(),
        ensures
            unspoken == (self@.has(id) && !self@.get(id).terminal),
    {
        match self.find(id) {
            Some(k) => !self.records[k].terminal,
            None => false,
        }
    }

    /// Whether a live delivery's capacity is charged already.
    pub fn is_accounted(&self, id: u64) -> (accounted: bool)
        requires
            self.wf(),
        ensures
            accounted == (self@.has(id) && self@.get(id).accounted),
    {
        match self.find(id) {
            Some(k) => self.records[k].accounted,
            None => false,
        }
    }

    /// A snapshot of transferable records only.
    pub fn progress(&self) -> (progress: SWOwnerProgress)
        requires
            self.wf(),
        ensures
            progress.routes == 1,
            progress.waiting == total(
                self@.records,
                in_progress(self@.closed, SWDeliveryStatus::Waiting),
            ),
            progress.ready == total(
                self@.records,
                in_progress(self@.closed, SWDeliveryStatus::Ready),
            ),
            progress.claimed == total(
                self@.records,
                in_progress(self@.closed, SWDeliveryStatus::Claimed),
            ),
            progress.cleanup == total(self@.records, in_cleanup(self@.closed)),
    {
        let mut progress = SWOwnerProgress {
            routes: 1,
            waiting: 0,
            ready: 0,
            claimed: 0,
            cleanup: 0,
        };
        let mut index: usize = 0;
        while index < self.records.len()
            invariant
                index <= self.records@.len(),
                progress.routes == 1,
                progress.waiting <= index,
                progress.ready <= index,
                progress.claimed <= index,
                progress.cleanup <= index,
                progress.waiting == total(
                    self@.records.take(index as int),
                    in_progress(self@.closed, SWDeliveryStatus::Waiting),
                ),
                progress.ready == total(
                    self@.records.take(index as int),
                    in_progress(self@.closed, SWDeliveryStatus::Ready),
                ),
                progress.claimed == total(
                    self@.records.take(index as int),
                    in_progress(self@.closed, SWDeliveryStatus::Claimed),
                ),
                progress.cleanup == total(
                    self@.records.take(index as int),
                    in_cleanup(self@.closed),
                ),
            decreases self.records@.len() - index,
        {
            let record = self.records[index];
            proof {
                let next = self@.records.take(index + 1);
                assert(next.drop_last() =~= self@.records.take(index as int));
                assert(next.last() == record);
            }
            if self.closed || record.cancelled {
                progress.cleanup = progress.cleanup + 1;
            } else {
                match record.status {
                    SWDeliveryStatus::Waiting => {
                        progress.waiting = progress.waiting + 1;
                    },
                    SWDeliveryStatus::Ready => {
                        progress.ready = progress.ready + 1;
                    },
                    SWDeliveryStatus::Claimed => {
                        progress.claimed = progress.claimed + 1;
                    },
                    _ => {
                        progress.cleanup = progress.cleanup + 1;
                    },
                }
            }
            index += 1;
        }
        proof {
            assert(self@.records.take(index as int) =~= self@.records);
        }
        progress
    }
}

/// A closed transport publishes nothing that was not claimed before.
pub proof fn closure_suppresses(v: TransportView, id: u64)
    requires
        v.wf(),
        v.closed,
        v.has(id),
    ensures
        v.claim_result(id) == ClaimResult::Suppress,
        !v.accepts(EndpointKind::Ordinary),
        !v.accepts(EndpointKind::Protected),
        v.commit_error(id) == Some(TicketCommitError::Closed),
{
}

/// A cancelled delivery is never published, and still reaches its owner to be
/// cleaned up.
pub proof fn cancellation_suppresses(v: TransportView, id: u64)
    requires
        v.wf(),
        v.cancellation(id) == SWCancelResult::Requested,
    ensures
        v.cancelled(id).wf(),
        v.cancelled(id).has(id),
        v.cancelled(id).claim_result(id) == ClaimResult::Suppress,
        v.cancelled(id).get(id).notified,
{
    let i = delivery_slot(v.records, id);
    assert(delivery_at(v.records, i, id));
    assert(delivery_ok(v.records[i], v.closed));
    let r = DeliveryRecord { cancelled: true, ..v.get(id) };
    notified_wf(v, id, r);
    let w = v.cancelled(id);
    assert(delivery_at(w.records, i, id));
    delivery_found(w.records, i, id);
}

/// A claim is final: a claimed delivery is not claimable again, and cancelling
/// it comes too late.
pub proof fn claims_are_final(v: TransportView, id: u64)
    requires
        v.wf(),
        v.claimable(id),
    ensures
        v.claimed(id).wf(),
        !v.claimed(id).claimable(id),
        v.claimed(id).cancellation(id) == SWCancelResult::TooLate,
        v.claimed(id).cancelled(id) == v.claimed(id),
{
    let i = delivery_slot(v.records, id);
    assert(delivery_at(v.records, i, id));
    assert(delivery_ok(v.records[i], v.closed));
    with_wf(
        v,
        id,
        DeliveryRecord { status: SWDeliveryStatus::Claimed, ..v.get(id) },
        owing(v.wake, 1),
    );
}

/// Protected places stay free for required work whatever ordinary work does.
pub proof fn protected_places_stay(v: TransportView, charge: Option<SWReservation>)
    requires
        v.wf(),
        v.accepts(EndpointKind::Ordinary),
    ensures
        v.reserved(EndpointKind::Ordinary, charge).used(EndpointKind::Protected) == v.used(
            EndpointKind::Protected,
        ),
{
    let w = v.reserved(EndpointKind::Ordinary, charge);
    total_push(
        v.records,
        w.records[v.records.len() as int],
        of_endpoint(EndpointKind::Protected),
    );
}

/// What storing one record does to the others: nothing.
pub proof fn stored_effect(v: TransportView, w: TransportView, id: u64, r: DeliveryRecord)
    requires
        v.indexed(),
        v.has(id),
        r.id == id,
        w.records == v.records.update(delivery_slot(v.records, id), r),
    ensures
        forall|x: u64| #[trigger] w.has(x) <==> v.has(x),
        forall|x: u64|
            v.has(x) ==> #[trigger] w.get(x) == (if x == id {
                r
            } else {
                v.get(x)
            }),
{
    let i = delivery_slot(v.records, id);
    assert(delivery_at(v.records, i, id));
    assert forall|a: int, b: int| 0 <= a < b < w.records.len() implies (#[trigger] w.records[a]).id
        < (#[trigger] w.records[b]).id by {
        assert(v.records[a].id < v.records[b].id);
    }
    assert forall|x: u64| #[trigger] w.has(x) <==> v.has(x) by {
        if w.has(x) {
            let a = delivery_slot(w.records, x);
            assert(delivery_at(w.records, a, x));
            assert(delivery_at(v.records, a, x));
        }
        if v.has(x) {
            let a = delivery_slot(v.records, x);
            assert(delivery_at(v.records, a, x));
            assert(delivery_at(w.records, a, x));
        }
    }
    assert forall|x: u64| v.has(x) implies #[trigger] w.get(x) == (if x == id {
        r
    } else {
        v.get(x)
    }) by {
        let a = delivery_slot(v.records, x);
        assert(delivery_at(v.records, a, x));
        assert(delivery_at(w.records, a, x));
        delivery_found(w.records, a, x);
    }
}

/// What reserving one delivery does to the others: nothing.
pub proof fn reserved_effect(
    v: TransportView,
    endpoint: EndpointKind,
    charge: Option<SWReservation>,
)
    requires
        v.wf(),
        v.accepts(endpoint),
    ensures
        ({
            let w = v.reserved(endpoint, charge);
            let id = v.next_id as u64;
            &&& forall|x: u64| #[trigger] w.has(x) <==> v.has(x) || x == id
            &&& forall|x: u64| v.has(x) ==> #[trigger] w.get(x) == v.get(x)
            &&& w.get(id).status == SWDeliveryStatus::Waiting
            &&& !w.get(id).received && !w.get(id).cancelled && !w.get(id).terminal
            &&& !v.has(id)
        }),
{
    let w = v.reserved(endpoint, charge);
    let id = v.next_id as u64;
    let n = v.records.len() as int;
    reserved_wf(v, endpoint, charge);
    assert forall|x: u64| #[trigger] w.has(x) <==> v.has(x) || x == id by {
        if w.has(x) {
            let a = delivery_slot(w.records, x);
            assert(delivery_at(w.records, a, x));
            if a < n {
                assert(delivery_at(v.records, a, x));
            }
        }
        if v.has(x) {
            let a = delivery_slot(v.records, x);
            assert(delivery_at(v.records, a, x));
            assert(delivery_at(w.records, a, x));
        }
        if x == id {
            assert(delivery_at(w.records, n, x));
        }
    }
    assert forall|x: u64| v.has(x) implies #[trigger] w.get(x) == v.get(x) by {
        let a = delivery_slot(v.records, x);
        assert(delivery_at(v.records, a, x));
        assert(delivery_at(w.records, a, x));
        delivery_found(w.records, a, x);
    }
    assert(delivery_at(w.records, n, id));
    delivery_found(w.records, n, id);
    if v.has(id) {
        assert(delivery_at(v.records, delivery_slot(v.records, id), id));
    }
}

/// What cancelling every delivery does to each.
pub proof fn all_cancelled_effect(v: TransportView, w: TransportView)
    requires
        v.indexed(),
        w.records == v.records.map_values(|r: DeliveryRecord| cancelled_record(r)),
    ensures
        forall|x: u64| #[trigger] w.has(x) <==> v.has(x),
        forall|x: u64| v.has(x) ==> #[trigger] w.get(x) == cancelled_record(v.get(x)),
{
    assert forall|a: int, b: int| 0 <= a < b < w.records.len() implies (#[trigger] w.records[a]).id
        < (#[trigger] w.records[b]).id by {
        assert(v.records[a].id < v.records[b].id);
    }
    assert forall|x: u64| #[trigger] w.has(x) <==> v.has(x) by {
        if w.has(x) {
            let a = delivery_slot(w.records, x);
            assert(delivery_at(w.records, a, x));
            assert(delivery_at(v.records, a, x));
        }
        if v.has(x) {
            let a = delivery_slot(v.records, x);
            assert(delivery_at(v.records, a, x));
            assert(delivery_at(w.records, a, x));
        }
    }
    assert forall|x: u64| v.has(x) implies #[trigger] w.get(x) == cancelled_record(v.get(x)) by {
        let a = delivery_slot(v.records, x);
        assert(delivery_at(v.records, a, x));
        assert(delivery_at(w.records, a, x));
        delivery_found(w.records, a, x);
    }
}

/// What the arrival of a notification does to each delivery.
pub proof fn arrived_effect(v: TransportView)
    requires
        v.wf(),
        v.queue.len() > 0,
    ensures
        ({
            let w = v.arrived();
            let id = v.queue[0];
            &&& v.has(id)
            &&& v.get(id).notified && !v.get(id).received
            &&& forall|x: u64| #[trigger] w.has(x) <==> v.has(x)
            &&& forall|x: u64|
                v.has(x) ==> #[trigger] w.get(x) == (if x == id {
                    DeliveryRecord { received: true, ..v.get(x) }
                } else {
                    v.get(x)
                })
        }),
{
    let id = v.queue[0];
    assert(delivery_present(v.records, v.queue[0]));
    let i = delivery_slot(v.records, id);
    assert(delivery_at(v.records, i, id));
    assert(v.queue.contains(v.records[i].id));
    stored_effect(v, v.arrived(), id, DeliveryRecord { received: true, ..v.get(id) });
}

/// The arrival of a notification keeps a transport in order.
pub proof fn arrived_wf(v: TransportView)
    requires
        v.wf(),
        v.queue.len() > 0,
    ensures
        v.arrived().wf(),
{
    let id = v.queue[0];
    assert(delivery_present(v.records, v.queue[0]));
    let k = delivery_slot(v.records, id);
    assert(delivery_at(v.records, k, id));
    assert(delivery_ok(v.records[k], v.closed));
    assert(v.queue.contains(id));
    let q = v.queue.skip(1);
    assert forall|x: u64|
        x != id implies (#[trigger] q.contains(x) <==> v.queue.contains(x)) by {
        if q.contains(x) {
            let j = choose|j: int| 0 <= j < q.len() && q[j] == x;
            assert(v.queue[j + 1] == x);
        }
        if v.queue.contains(x) {
            let j = choose|j: int| 0 <= j < v.queue.len() && v.queue[j] == x;
            assert(q[j - 1] == x);
        }
    }
    assert(!q.contains(id)) by {
        if q.contains(id) {
            let j = choose|j: int| 0 <= j < q.len() && q[j] == id;
            assert(v.queue[j + 1] == v.queue[0]);
        }
    }
    assert(q.no_duplicates()) by {
        assert forall|a: int, b: int|
            0 <= a < q.len() && 0 <= b < q.len() && a != b implies q[a]
            != q[b] by {
            assert(v.queue[a + 1] != v.queue[b + 1]);
        }
    }
    one_changed_wf(v, v.arrived(), k);
}

/// What suppressing one delivery does to each: at most one is cancelled.
pub proof fn suppressed_effect(v: TransportView, id: u64)
    requires
        v.wf(),
    ensures
        ({
            let w = v.suppressed(id);
            &&& forall|x: u64| #[trigger] w.has(x) <==> v.has(x)
            &&& forall|x: u64|
                v.has(x) ==> {
                    &&& (#[trigger] w.get(x)).received == v.get(x).received
                    &&& v.get(x).terminal ==> w.get(x).terminal
                    &&& w.get(x).status == v.get(x).status
                }
        }),
{
    let w = v.suppressed(id);
    if v.has(id) && !v.get(id).terminal {
        let i = delivery_slot(v.records, id);
        assert(delivery_at(v.records, i, id));
        let r = DeliveryRecord { terminal: true, ..v.get(id) };
        let m = v.with(id, r);
        stored_effect(v, m, id, r);
        assert forall|a: int, b: int| 0 <= a < b < m.records.len() implies (
        #[trigger] m.records[a]).id < (#[trigger] m.records[b]).id by {
            assert(v.records[a].id < v.records[b].id);
        }
        assert(delivery_at(m.records, i, id));
        delivery_found(m.records, i, id);
        if m.cancellation(id) == SWCancelResult::Requested {
            let c = DeliveryRecord { cancelled: true, notified: true, ..r };
            assert(w.records =~= v.records.update(i, c));
            stored_effect(v, w, id, c);
        }
    }
}

/// What making one delivery ready does to each: at most one is notified.
pub proof fn readied_effect(v: TransportView, id: u64)
    requires
        v.wf(),
    ensures
        ({
            let w = v.readied(id);
            &&& w.wf()
            &&& forall|x: u64| #[trigger] w.has(x) <==> v.has(x)
            &&& forall|x: u64|
                v.has(x) ==> {
                    &&& (#[trigger] w.get(x)).received == v.get(x).received
                    &&& v.get(x).terminal ==> w.get(x).terminal
                    &&& w.get(x).cancelled == v.get(x).cancelled
                    &&& x != id ==> w.get(x) == v.get(x)
                    &&& v.get(x).terminal ==> w.get(x) == v.get(x)
                    &&& x == id ==> w.get(x).terminal
                    &&& x == id && v.can_ready(id) ==> w.get(x).status == SWDeliveryStatus::Ready
                    &&& w.get(x).status == SWDeliveryStatus::Claimed
                        <==> v.get(x).status == SWDeliveryStatus::Claimed
                }
        }),
{
    let w = v.readied(id);
    if v.has(id) && !v.get(id).terminal {
        let i = delivery_slot(v.records, id);
        assert(delivery_at(v.records, i, id));
        assert(delivery_ok(v.records[i], v.closed));
        if v.can_ready(id) {
            notified_wf(
                v,
                id,
                DeliveryRecord { terminal: true, status: SWDeliveryStatus::Ready, ..v.get(id) },
            );
        } else {
            with_wf(v, id, DeliveryRecord { terminal: true, ..v.get(id) }, v.wake);
        }
        stored_effect(v, w, id, w.records[i]);
    }
}

} // verus!
