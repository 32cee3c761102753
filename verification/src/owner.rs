//! Thread-bound owner state and transferable delivery routes.
//!
//! Callbacks are kept here as values. An operation never runs or destroys one:
//! it hands the callback out, and the owner thread reports how that ended.
use crate::admission::DeliveryClaim;
use crate::context::SWExecutionError;
use crate::cost::SWCost;
use crate::delivery::all_cancelled_effect;
use crate::delivery::arrived_wf;
use crate::delivery::arrived_effect;
use crate::delivery::cancelled_record;
use crate::delivery::delivery_at;
use crate::delivery::delivery_ok;
use crate::delivery::delivery_slot;
use crate::delivery::in_cleanup;
use crate::delivery::in_progress;
use crate::delivery::readied_effect;
use crate::delivery::reserved_effect;
use crate::delivery::stored_effect;
use crate::delivery::suppressed_effect;
use crate::delivery::ClaimResult;
use crate::delivery::DeliveryRecord;
use crate::delivery::EndpointKind;
use crate::delivery::SWCancelResult;
use crate::delivery::SWDeliveryStatus;
use crate::delivery::Transport;
use crate::delivery::TransportView;
use crate::lifecycle::ControlView;
use crate::progress::SWOwnerProgress;
use crate::progress::SWRuntimeState;
use crate::reservation::Kind;
use crate::reservation::SWReservation;
use crate::runtime::charge_at;
use crate::runtime::charge_slot;
use crate::runtime::delivery_need;
use crate::runtime::has_charge;
use crate::runtime::RuntimeView;
use crate::runtime::SWRuntime;
use crate::runtime::WorkLease;
use crate::sums::total;
use crate::supply::draw_error;
use crate::supply::draw_wakes;
use crate::supply::reservation_known;
use crate::supply::supplied;
use crate::supply::Supplied;
use crate::task::Attachment;
use crate::task::SWCompletion;
use crate::task::SWTaskStatus;
use crate::task::SignalStep;
use crate::task::SignalView;
use crate::task::Subscription;
use vstd::prelude::*;

verus! {

/// An expected owner operation failure. `Panicked` means a local callback
/// unwound and this owner has faulted; its state is not rolled back.
#[derive(Clone, Copy, Debug, PartialEq, Eq, Structural)]
pub enum SWOwnerError {
    Closed,
    Full,
    InvalidContext,
    WrongPhase,
    Faulted,
    Panicked,
    NotReady,
}

/// Rejected registration returns the uninvoked local callback to its caller.
pub struct SWOwnerRejected<F> {
    pub reason: SWOwnerError,
    pub callback: F,
}

/// Result of immediate ready access. A pending result preserves its callback.
pub enum SWReadyAccess<R, F> {
    Ready(R),
    Rejected(SWOwnerRejected<F>),
    Panicked,
}

/// An application-defined phase.
#[derive(Clone, Copy, Debug, PartialEq, Eq, Structural)]
pub struct SWPhase(pub u64);

/// Live pumping rechecks arrivals; batch pumping freezes the entry frontier.
#[derive(Clone, Copy, Debug, PartialEq, Eq, Structural)]
pub enum SWPumpMode {
    Live,
    Batch,
}

/// How much one pump may do. Budgets apply between callbacks.
#[derive(Clone, Copy, Debug, PartialEq, Eq, Structural)]
pub struct SWPumpBudget {
    pub max_entries: usize,
    pub mode: SWPumpMode,
}

impl SWPumpBudget {
    pub fn new(max_entries: usize) -> (budget: Self)
        ensures
            budget == (SWPumpBudget { max_entries, mode: SWPumpMode::Live }),
    {
        SWPumpBudget { max_entries, mode: SWPumpMode::Live }
    }
}

/// What one pump did.
#[derive(Clone, Copy, Debug, PartialEq, Eq, Structural)]
pub struct SWPumpReport {
    pub invoked: usize,
    pub suppressed: usize,
}

impl SWPumpReport {
    pub open spec fn total(self) -> int {
        self.invoked + self.suppressed
    }

    pub fn processed(&self) -> (processed: usize)
        requires
            self.total() <= usize::MAX,
        ensures
            processed == self.total(),
    {
        self.invoked + self.suppressed
    }
}

/// A callback-safe teardown request.
#[derive(Clone, Copy, Debug, PartialEq, Eq, Structural)]
pub struct SWOwnerControl {
    close_requested: bool,
}

impl SWOwnerControl {
    pub closed spec fn requested(self) -> bool {
        self.close_requested
    }

    pub fn new() -> (control: Self)
        ensures
            !control.requested(),
    {
        SWOwnerControl { close_requested: false }
    }

    /// Requests closure for the next owner pump or callback return. This does
    /// not run cleanup on the requesting thread. Sender admission closes when
    /// the owner observes the request; no unclaimed callback then publishes.
    pub fn request_close(&mut self)
        ensures
            final(self).requested(),
    {
        self.close_requested = true;
    }

    /// Observes a request, once.
    pub fn take(&mut self) -> (requested: bool)
        ensures
            requested == old(self).requested(),
            !final(self).requested(),
    {
        let requested = self.close_requested;
        self.close_requested = false;
        requested
    }

    pub fn is_requested(&self) -> (requested: bool)
        ensures
            requested == self.requested(),
    {
        self.close_requested
    }
}

/// A callback, the phase that it is for, and what is to be given back with it.
pub struct LocalDelivery<C> {
    pub id: u64,
    pub phase: SWPhase,
    pub callback: C,
    /// The edge of a completion that this delivery waits for.
    pub subscription: Option<u64>,
    /// A consumer work set counts this delivery until it has settled.
    pub leased: bool,
    /// The callback is for a completion, and takes its status.
    pub awaits: bool,
    /// The published status that made this delivery ready.
    pub status: Option<SWTaskStatus>,
}

/// What the live handles of one delivery see.
#[derive(Clone, Copy, Debug, PartialEq, Eq, Structural)]
pub struct Observer {
    pub id: u64,
    pub handles: usize,
    /// How the delivery settled, once it has.
    pub settled: Option<SWDeliveryStatus>,
}

/// Observes one delivery, until the handle is released.
#[derive(Debug, PartialEq, Eq, Structural)]
pub struct SWDelivery {
    id: u64,
}

/// Asks that one delivery not be published.
#[derive(Clone, Copy, Debug, PartialEq, Eq, Structural)]
pub struct SWDeliveryControl {
    id: u64,
}

/// A delivery promise that can be attached to admitted CPU work.
#[derive(Debug, PartialEq, Eq, Structural)]
pub struct SWDeliveryTicket {
    id: u64,
}

/// A promised local delivery: the callback remains with its owner.
pub struct SWPreparedDelivery {
    pub ticket: SWDeliveryTicket,
    pub delivery: SWDelivery,
    pub control: SWDeliveryControl,
}

impl SWDelivery {
    pub closed spec fn identity(self) -> u64 {
        self.id
    }

    fn new(id: u64) -> (delivery: Self)
        ensures
            delivery.identity() == id,
    {
        SWDelivery { id }
    }
}

impl SWDeliveryControl {
    pub closed spec fn identity(self) -> u64 {
        self.id
    }

    fn new(id: u64) -> (control: Self)
        ensures
            control.identity() == id,
    {
        SWDeliveryControl { id }
    }
}

impl SWDeliveryTicket {
    pub closed spec fn identity(self) -> u64 {
        self.id
    }

    fn new(id: u64) -> (ticket: Self)
        ensures
            ticket.identity() == id,
    {
        SWDeliveryTicket { id }
    }

    /// The delivery that this ticket promises.
    pub fn id(&self) -> (id: u64)
        ensures
            id == self.identity(),
    {
        self.id
    }
}

impl SWPreparedDelivery {
    /// All three handles are of one delivery.
    pub open spec fn of(self, id: u64) -> bool {
        &&& self.ticket.identity() == id
        &&& self.delivery.identity() == id
        &&& self.control.identity() == id
    }
}

pub open spec fn entry_at<C>(entries: Seq<LocalDelivery<C>>, i: int, id: u64) -> bool {
    0 <= i < entries.len() && entries[i].id == id
}

pub open spec fn has_entry<C>(entries: Seq<LocalDelivery<C>>, id: u64) -> bool {
    exists|i: int| #[trigger] entry_at(entries, i, id)
}

pub open spec fn entry_slot<C>(entries: Seq<LocalDelivery<C>>, id: u64) -> int {
    choose|i: int| #[trigger] entry_at(entries, i, id)
}

pub open spec fn entries_distinct<C>(entries: Seq<LocalDelivery<C>>) -> bool {
    forall|i: int, j: int|
        0 <= i < j < entries.len() ==> (#[trigger] entries[i]).id != (#[trigger] entries[j]).id
}

#[verifier::ext_equal]
pub struct OwnerView<C> {
    pub transport: TransportView,
    /// Callbacks of senders that have not arrived here.
    pub inbox: Seq<LocalDelivery<C>>,
    pub inbox_closed: bool,
    pub inbox_faulted: bool,
    pub phase: Option<SWPhase>,
    /// Callbacks that this thread holds.
    pub callbacks: Seq<LocalDelivery<C>>,
    /// Arrived notifications, oldest first.
    pub pending: Seq<u64>,
    pub closed: bool,
    pub faulted: bool,
    /// A callback is running.
    pub active: bool,
    /// The delivery that is being run or destroyed.
    pub claimed: Option<u64>,
    pub close_requested: bool,
    /// The runtime still counts this owner.
    pub registered: bool,
    /// Observed deliveries, in reservation order.
    pub observers: Seq<Observer>,
}

pub open spec fn observer_at(observers: Seq<Observer>, i: int, id: u64) -> bool {
    0 <= i < observers.len() && observers[i].id == id
}

/// Some handle of this delivery is live.
pub open spec fn observed(observers: Seq<Observer>, id: u64) -> bool {
    exists|i: int| #[trigger] observer_at(observers, i, id)
}

pub open spec fn observer_slot(observers: Seq<Observer>, id: u64) -> int {
    choose|i: int| #[trigger] observer_at(observers, i, id)
}

/// The handles of a delivery see how it settled.
pub open spec fn noted(observers: Seq<Observer>, id: u64, status: SWDeliveryStatus) -> Seq<Observer> {
    observers.map_values(
        |o: Observer|
            if o.id == id {
                Observer { settled: Some(status), ..o }
            } else {
                o
            },
    )
}

/// The callback of a delivery learns the status that it waited for.
pub open spec fn told<C>(
    entries: Seq<LocalDelivery<C>>,
    id: u64,
    status: SWTaskStatus,
) -> Seq<LocalDelivery<C>> {
    entries.map_values(
        |e: LocalDelivery<C>|
            if e.id == id {
                LocalDelivery { status: Some(status), ..e }
            } else {
                e
            },
    )
}

impl<C> OwnerView<C> {
    /// An open owner that holds nothing.
    pub open spec fn fresh(transport: TransportView) -> OwnerView<C> {
        OwnerView {
            transport,
            inbox: Seq::empty(),
            inbox_closed: false,
            inbox_faulted: false,
            phase: None,
            callbacks: Seq::empty(),
            pending: Seq::empty(),
            closed: false,
            faulted: false,
            active: false,
            claimed: None,
            close_requested: false,
            registered: true,
            observers: Seq::empty(),
        }
    }

    /// A live delivery that nobody has claimed.
    pub open spec fn unclaimed(self, id: u64) -> bool {
        self.transport.has(id) && self.transport.get(id).status != SWDeliveryStatus::Claimed
    }

    /// Every live delivery is exactly where it belongs: its callback in one of
    /// the two stores until it is claimed, its notification pending once it has
    /// arrived.
    pub open spec fn placed(self) -> bool {
        &&& entries_distinct(self.callbacks)
        &&& entries_distinct(self.inbox)
        &&& forall|id: u64| #[trigger]
            has_entry(self.callbacks, id) ==> self.unclaimed(id) && !has_entry(self.inbox, id)
        &&& forall|id: u64| #[trigger]
            has_entry(self.inbox, id) ==> self.unclaimed(id) && !self.transport.get(id).received
        &&& forall|id: u64| #[trigger]
            self.unclaimed(id) ==> has_entry(self.callbacks, id) || has_entry(self.inbox, id)
        &&& self.pending.no_duplicates()
        &&& forall|id: u64| #[trigger]
            self.pending.contains(id) <==> self.transport.claimable(id)
        &&& forall|id: u64|
            #[trigger] self.transport.has(id) && !self.unclaimed(id) ==> self.claimed == Some(id)
        &&& self.claimed matches Some(id) ==> self.transport.has(id) && !self.unclaimed(id)
    }

    /// After closure or a fault nothing unclaimed is published.
    pub open spec fn halted(self) -> bool {
        &&& self.closed ==> self.transport.closed
        &&& self.faulted == self.inbox_faulted
        &&& self.faulted ==> forall|id: u64| #[trigger]
            self.unclaimed(id) ==> self.transport.get(id).cancelled
    }

    /// Every live handle sees its delivery: that is live, or has settled.
    pub open spec fn watched(self) -> bool {
        &&& forall|i: int, j: int|
            0 <= i < j < self.observers.len() ==> (#[trigger] self.observers[i]).id < (
            #[trigger] self.observers[j]).id
        &&& forall|i: int|
            0 <= i < self.observers.len() ==> {
                &&& (#[trigger] self.observers[i]).id < self.transport.next_id
                &&& self.observers[i].handles > 0
                &&& self.observers[i].settled is None <==> self.transport.has(self.observers[i].id)
                &&& self.observers[i].settled matches Some(status) ==> status.settled()
            }
    }

    /// A callback that is for a completion becomes ready only with its status,
    /// and a status is reported once.
    pub open spec fn informed(self) -> bool {
        &&& forall|i: int|
            0 <= i < self.callbacks.len() ==> {
                &&& (#[trigger] self.callbacks[i]).awaits && self.transport.get(
                    self.callbacks[i].id,
                ).status == SWDeliveryStatus::Ready ==> self.callbacks[i].status is Some
                &&& self.callbacks[i].status is Some ==> self.transport.get(
                    self.callbacks[i].id,
                ).terminal
            }
        &&& forall|i: int|
            0 <= i < self.inbox.len() ==> !(#[trigger] self.inbox[i]).awaits
                && self.inbox[i].status is None
    }

    pub open spec fn sound(self) -> bool {
        self.transport.wf() && self.placed() && self.halted()
    }

    pub open spec fn wf(self) -> bool {
        self.sound() && self.watched() && self.informed()
    }

    /// What a handle sees: how far the delivery is, or how it settled.
    pub open spec fn status_of(self, id: u64) -> Option<SWDeliveryStatus> {
        if !observed(self.observers, id) {
            None
        } else {
            match self.observers[observer_slot(self.observers, id)].settled {
                Some(status) => Some(status),
                None => Some(self.transport.get(id).status),
            }
        }
    }

    /// The callback of this delivery is for a completion.
    pub open spec fn awaiting(self, id: u64) -> bool {
        has_entry(self.callbacks, id) && self.callbacks[entry_slot(self.callbacks, id)].awaits
    }

    /// What the callback of this delivery was told of its completion.
    pub open spec fn report_to(self, id: u64) -> Option<SWTaskStatus> {
        if has_entry(self.callbacks, id) {
            self.callbacks[entry_slot(self.callbacks, id)].status
        } else {
            None
        }
    }

    /// A completion says how it ended to a delivery that waits for it. Only the
    /// first report counts.
    pub open spec fn readied(self, id: u64, status: SWTaskStatus) -> OwnerView<C> {
        OwnerView {
            transport: self.transport.readied(id),
            callbacks: if self.transport.has(id) && !self.transport.get(id).terminal {
                told(self.callbacks, id, status)
            } else {
                self.callbacks
            },
            ..self
        }
    }

    /// A promise is fulfilled. What waits for a completion is not.
    pub open spec fn fulfilled(self, id: u64) -> OwnerView<C> {
        if self.awaiting(id) {
            self
        } else {
            OwnerView { transport: self.transport.readied(id), ..self }
        }
    }

    /// Everything still here is to be cleaned up, not published.
    pub open spec fn draining(self) -> bool {
        self.closed || self.faulted || self.transport.closed
    }

    /// Why a registration is refused, if it is.
    pub open spec fn accept_error(self) -> Option<SWOwnerError> {
        if self.closed || self.transport.closed || self.close_requested {
            Some(SWOwnerError::Closed)
        } else if self.faulted {
            Some(SWOwnerError::Faulted)
        } else if self.active {
            Some(SWOwnerError::InvalidContext)
        } else {
            None
        }
    }

    /// One notification has arrived; a sender's callback comes with it.
    pub open spec fn received_one(self) -> OwnerView<C> {
        let id = self.transport.queue[0];
        let i = entry_slot(self.inbox, id);
        OwnerView {
            transport: self.transport.arrived(),
            callbacks: if has_entry(self.inbox, id) {
                self.callbacks.push(self.inbox[i])
            } else {
                self.callbacks
            },
            inbox: if has_entry(self.inbox, id) {
                self.inbox.remove(i)
            } else {
                self.inbox
            },
            pending: self.pending.push(id),
            ..self
        }
    }

    /// Everything on its way has arrived.
    pub open spec fn received(self) -> OwnerView<C>
        decreases self.transport.queue.len(),
    {
        if self.transport.queue.len() == 0 {
            self
        } else {
            self.received_one().received()
        }
    }

    /// A pending notification may be processed in this phase.
    pub open spec fn eligible(self, id: u64, phase: SWPhase) -> bool {
        ||| self.draining()
        ||| has_entry(self.callbacks, id) && self.callbacks[entry_slot(self.callbacks, id)].phase
            == phase
    }

    /// The oldest pending notification that may be processed in this phase.
    pub open spec fn next_at(self, k: int, phase: SWPhase) -> bool {
        &&& 0 <= k < self.pending.len()
        &&& self.eligible(self.pending[k], phase)
        &&& forall|j: int| 0 <= j < k ==> !self.eligible(#[trigger] self.pending[j], phase)
    }

    pub open spec fn next_for(self, phase: SWPhase) -> Option<int> {
        if exists|k: int| self.next_at(k, phase) {
            Some(choose|k: int| self.next_at(k, phase))
        } else {
            None
        }
    }

    /// A pending notification has been claimed, and its callback taken out.
    pub open spec fn taken(self, k: int) -> OwnerView<C> {
        let id = self.pending[k];
        OwnerView {
            transport: self.transport.claimed(id),
            callbacks: self.callbacks.remove(entry_slot(self.callbacks, id)),
            pending: self.pending.remove(k),
            claimed: Some(id),
            active: self.transport.claim_result(id) == ClaimResult::Run,
            ..self
        }
    }

    /// An owner whose last local callback is cleaned is no longer counted.
    pub open spec fn drained(self) -> OwnerView<C> {
        if self.closed && self.callbacks.len() == 0 && self.inbox.len() == 0
            && self.transport.records.len() == 0 {
            OwnerView { registered: false, ..self }
        } else {
            self
        }
    }

    /// A close request has been observed.
    pub open spec fn closed_on_request(self) -> OwnerView<C> {
        (if self.close_requested {
            OwnerView {
                close_requested: false,
                closed: true,
                inbox_closed: true,
                transport: self.transport.shut(),
                ..self
            }
        } else {
            self
        }).drained()
    }

    /// A callback has panicked: no other one is published until recovery.
    pub open spec fn with_fault(self) -> OwnerView<C> {
        OwnerView {
            faulted: true,
            inbox_faulted: true,
            transport: self.transport.all_cancelled(),
            ..self
        }
    }

    /// The claimed delivery has settled, which its handles see.
    pub open spec fn settled(self, status: SWDeliveryStatus) -> OwnerView<C> {
        OwnerView {
            transport: self.transport.settled(self.claimed->0),
            observers: noted(self.observers, self.claimed->0, status),
            claimed: None,
            active: false,
            ..self
        }
    }
}

/// An entry is where its identity says.
pub proof fn entry_found<C>(entries: Seq<LocalDelivery<C>>, i: int, id: u64)
    requires
        entries_distinct(entries),
        entry_at(entries, i, id),
    ensures
        has_entry(entries, id),
        entry_slot(entries, id) == i,
{
    let k = entry_slot(entries, id);
    assert(entry_at(entries, k, id));
    if k < i {
        assert(entries[k].id != entries[i].id);
    } else if i < k {
        assert(entries[i].id != entries[k].id);
    }
}

proof fn entry_pushed<C>(entries: Seq<LocalDelivery<C>>, e: LocalDelivery<C>)
    requires
        entries_distinct(entries),
        !has_entry(entries, e.id),
    ensures
        entries_distinct(entries.push(e)),
        forall|x: u64| #[trigger]
            has_entry(entries.push(e), x) <==> has_entry(entries, x) || x == e.id,
{
    let r = entries.push(e);
    assert forall|i: int, j: int| 0 <= i < j < r.len() implies (#[trigger] r[i]).id != (
    #[trigger] r[j]).id by {
        if j < entries.len() {
            assert(entries[i].id != entries[j].id);
        } else {
            if entries[i].id == e.id {
                assert(entry_at(entries, i, e.id));
            }
        }
    }
    assert forall|x: u64| #[trigger] has_entry(r, x) <==> has_entry(entries, x) || x == e.id by {
        if has_entry(r, x) {
            let i = entry_slot(r, x);
            assert(entry_at(r, i, x));
            if i < entries.len() {
                assert(entry_at(entries, i, x));
            }
        }
        if has_entry(entries, x) {
            let i = entry_slot(entries, x);
            assert(entry_at(entries, i, x));
            assert(entry_at(r, i, x));
        }
        if x == e.id {
            assert(entry_at(r, entries.len() as int, x));
        }
    }
}

proof fn entry_removed<C>(entries: Seq<LocalDelivery<C>>, i: int)
    requires
        entries_distinct(entries),
        0 <= i < entries.len(),
    ensures
        entries_distinct(entries.remove(i)),
        forall|x: u64| #[trigger]
            has_entry(entries.remove(i), x) <==> has_entry(entries, x) && x != entries[i].id,
{
    let r = entries.remove(i);
    assert forall|a: int| 0 <= a < r.len() implies #[trigger] r[a] == entries[if a < i {
        a
    } else {
        a + 1
    }] by {}
    assert forall|a: int, b: int| 0 <= a < b < r.len() implies (#[trigger] r[a]).id != (
    #[trigger] r[b]).id by {
        let x = if a < i {
            a
        } else {
            a + 1
        };
        let y = if b < i {
            b
        } else {
            b + 1
        };
        assert(entries[x].id != entries[y].id);
    }
    assert forall|x: u64| #[trigger]
        has_entry(r, x) <==> has_entry(entries, x) && x != entries[i].id by {
        if has_entry(r, x) {
            let a = entry_slot(r, x);
            assert(entry_at(r, a, x));
            let b = if a < i {
                a
            } else {
                a + 1
            };
            assert(entry_at(entries, b, x));
            if b < i {
                assert(entries[b].id != entries[i].id);
            } else {
                assert(entries[i].id != entries[b].id);
            }
        }
        if has_entry(entries, x) && x != entries[i].id {
            let b = entry_slot(entries, x);
            assert(entry_at(entries, b, x));
            let a = if b < i {
                b
            } else {
                b - 1
            };
            assert(entry_at(r, a, x));
        }
    }
}

proof fn received_one_sound<C>(v: OwnerView<C>, w: OwnerView<C>)
    requires
        v.wf(),
        v.transport.queue.len() > 0,
        w == v.received_one(),
        w.transport.wf(),
    ensures
        w.sound(),
{
    let id = v.transport.queue[0];
    arrived_effect(v.transport);
    assert(v.unclaimed(id)) by {
        let i = delivery_slot(v.transport.records, id);
        assert(delivery_at(v.transport.records, i, id));
        assert(delivery_ok(v.transport.records[i], v.transport.closed));
    }
    assert forall|x: u64| #[trigger] w.unclaimed(x) <==> v.unclaimed(x) by {
        assert(w.transport.has(x) <==> v.transport.has(x));
        if v.transport.has(x) {
            assert(w.transport.get(x).status == v.transport.get(x).status);
        }
    }
    let i = entry_slot(v.inbox, id);
    if has_entry(v.inbox, id) {
        assert(entry_at(v.inbox, i, id));
        entry_removed(v.inbox, i);
        assert(!has_entry(v.callbacks, id));
        entry_pushed(v.callbacks, v.inbox[i]);
    }
    assert(!v.transport.claimable(id));
    assert(!v.pending.contains(id));
    let q = v.pending.push(id);
    assert forall|x: u64| #[trigger] w.pending.contains(x) <==> w.transport.claimable(x) by {
        assert(w.transport.has(x) <==> v.transport.has(x));
        if w.pending.contains(x) {
            let k = choose|k: int| 0 <= k < q.len() && q[k] == x;
            if k < v.pending.len() {
                assert(v.pending[k] == x);
                assert(v.pending.contains(x));
                assert(v.transport.claimable(x));
                assert(w.transport.get(x) == v.transport.get(x));
            } else {
                assert(w.transport.get(x).received);
                assert(w.unclaimed(x));
            }
        }
        if w.transport.claimable(x) {
            if x == id {
                assert(q[v.pending.len() as int] == x);
            } else {
                assert(w.transport.get(x) == v.transport.get(x));
                assert(v.transport.claimable(x));
                assert(v.pending.contains(x));
                let k = choose|k: int| 0 <= k < v.pending.len() && v.pending[k] == x;
                assert(q[k] == x);
            }
        }
    }
    assert(w.pending.no_duplicates()) by {
        assert forall|a: int, b: int| 0 <= a < q.len() && 0 <= b < q.len() && a != b implies q[a]
            != q[b] by {
            if a < v.pending.len() {
                assert(v.pending.contains(v.pending[a]));
            }
            if b < v.pending.len() {
                assert(v.pending.contains(v.pending[b]));
            }
        }
    }
    assert forall|x: u64| #[trigger] has_entry(w.callbacks, x) implies w.unclaimed(x)
        && !has_entry(w.inbox, x) by {
        if has_entry(v.inbox, id) {
            if x == id {
                assert(w.unclaimed(x));
            } else {
                assert(has_entry(v.callbacks, x));
            }
        } else {
            assert(has_entry(v.callbacks, x));
        }
        assert(w.unclaimed(x) <==> v.unclaimed(x));
    }
    assert forall|x: u64| #[trigger] has_entry(w.inbox, x) implies w.unclaimed(x)
        && !w.transport.get(x).received by {
        assert(has_entry(v.inbox, x));
        assert(x != id);
        assert(w.transport.get(x) == v.transport.get(x));
        assert(w.unclaimed(x) <==> v.unclaimed(x));
    }
    assert forall|x: u64| #[trigger] w.unclaimed(x) implies has_entry(w.callbacks, x) || has_entry(
        w.inbox,
        x,
    ) by {
        assert(v.unclaimed(x));
    }
    assert forall|x: u64|
        #[trigger] w.transport.has(x) && !w.unclaimed(x) implies w.claimed == Some(x) by {
        assert(v.transport.has(x));
        assert(!v.unclaimed(x));
    }
}

/// After everything has arrived no sender's callback of an arrived notification
/// is left behind.
pub proof fn pending_has_callback<C>(v: OwnerView<C>, k: int)
    requires
        v.wf(),
        0 <= k < v.pending.len(),
    ensures
        has_entry(v.callbacks, v.pending[k]),
        v.transport.claimable(v.pending[k]),
        v.unclaimed(v.pending[k]),
{
    let id = v.pending[k];
    assert(v.pending.contains(id));
    assert(v.transport.claimable(id));
    assert(v.unclaimed(id));
}

proof fn taken_sound<C>(v: OwnerView<C>, w: OwnerView<C>, k: int)
    requires
        v.wf(),
        v.claimed is None,
        0 <= k < v.pending.len(),
        w == v.taken(k),
        w.transport.wf(),
    ensures
        w.sound(),
{
    let id = v.pending[k];
    pending_has_callback(v, k);
    let i = entry_slot(v.callbacks, id);
    assert(entry_at(v.callbacks, i, id));
    entry_removed(v.callbacks, i);
    let r = DeliveryRecord { status: SWDeliveryStatus::Claimed, ..v.transport.get(id) };
    assert(delivery_at(
        v.transport.records,
        delivery_slot(v.transport.records, id),
        id,
    ));
    stored_effect(v.transport, w.transport, id, r);
    assert forall|x: u64| #[trigger] w.unclaimed(x) <==> v.unclaimed(x) && x != id by {
        assert(w.transport.has(x) <==> v.transport.has(x));
        if v.transport.has(x) {
            assert(w.transport.get(x) == (if x == id {
                r
            } else {
                v.transport.get(x)
            }));
        }
    }
    let q = v.pending.remove(k);
    assert forall|x: u64| #[trigger] w.pending.contains(x) <==> w.transport.claimable(x) by {
        assert(w.transport.has(x) <==> v.transport.has(x));
        if w.pending.contains(x) {
            let a = choose|a: int| 0 <= a < q.len() && q[a] == x;
            let b = if a < k {
                a
            } else {
                a + 1
            };
            assert(v.pending[b] == x);
            assert(v.pending.contains(x));
            assert(v.transport.claimable(x));
            assert(x != id);
            assert(w.transport.get(x) == v.transport.get(x));
        }
        if w.transport.claimable(x) {
            assert(w.transport.get(x) == (if x == id {
                r
            } else {
                v.transport.get(x)
            }));
            assert(x != id);
            assert(v.transport.claimable(x));
            assert(v.pending.contains(x));
            let b = choose|b: int| 0 <= b < v.pending.len() && v.pending[b] == x;
            let a = if b < k {
                b
            } else {
                b - 1
            };
            assert(q[a] == x);
        }
    }
    assert(w.pending.no_duplicates()) by {
        assert forall|a: int, b: int| 0 <= a < q.len() && 0 <= b < q.len() && a != b implies q[a]
            != q[b] by {
            let x = if a < k {
                a
            } else {
                a + 1
            };
            let y = if b < k {
                b
            } else {
                b + 1
            };
            assert(v.pending[x] != v.pending[y]);
        }
    }
    assert forall|x: u64| #[trigger] has_entry(w.callbacks, x) implies w.unclaimed(x)
        && !has_entry(w.inbox, x) by {
        assert(has_entry(v.callbacks, x));
        assert(w.unclaimed(x) <==> v.unclaimed(x) && x != id);
    }
    assert forall|x: u64| #[trigger] has_entry(w.inbox, x) implies w.unclaimed(x)
        && !w.transport.get(x).received by {
        assert(has_entry(v.inbox, x));
        assert(x != id);
        assert(w.transport.get(x) == v.transport.get(x));
        assert(w.unclaimed(x) <==> v.unclaimed(x) && x != id);
    }
    assert forall|x: u64| #[trigger] w.unclaimed(x) implies has_entry(w.callbacks, x) || has_entry(
        w.inbox,
        x,
    ) by {
        assert(v.unclaimed(x));
    }
    assert forall|x: u64|
        #[trigger] w.transport.has(x) && !w.unclaimed(x) implies w.claimed == Some(x) by {
        assert(v.transport.has(x));
        assert(w.unclaimed(x) <==> v.unclaimed(x) && x != id);
    }
    assert(w.transport.has(id));
    assert(!w.unclaimed(id));
}

proof fn settled_owner_sound<C>(v: OwnerView<C>, w: OwnerView<C>, status: SWDeliveryStatus)
    requires
        v.wf(),
        v.claimed is Some,
        status.settled(),
        w == v.settled(status),
        w.transport.wf(),
        forall|x: u64| #[trigger]
            w.transport.has(x) <==> v.transport.has(x) && x != v.claimed->0,
        forall|x: u64| w.transport.has(x) ==> #[trigger] w.transport.get(x) == v.transport.get(x),
    ensures
        w.sound(),
{
    let id = v.claimed->0;
    assert forall|x: u64| #[trigger] w.unclaimed(x) <==> v.unclaimed(x) by {
        assert(w.transport.has(x) <==> v.transport.has(x) && x != id);
        if w.transport.has(x) {
            assert(w.transport.get(x) == v.transport.get(x));
        }
    }
    assert forall|x: u64| #[trigger] w.pending.contains(x) <==> w.transport.claimable(x) by {
        assert(w.transport.has(x) <==> v.transport.has(x) && x != id);
        assert(v.pending.contains(x) <==> v.transport.claimable(x));
        if w.transport.has(x) {
            assert(w.transport.get(x) == v.transport.get(x));
        }
        if v.transport.claimable(x) {
            assert(v.unclaimed(x));
        }
    }
    assert forall|x: u64| #[trigger] has_entry(w.callbacks, x) implies w.unclaimed(x)
        && !has_entry(w.inbox, x) by {
        assert(v.unclaimed(x));
        assert(w.unclaimed(x) <==> v.unclaimed(x));
    }
    assert forall|x: u64| #[trigger] has_entry(w.inbox, x) implies w.unclaimed(x)
        && !w.transport.get(x).received by {
        assert(v.unclaimed(x));
        assert(w.unclaimed(x) <==> v.unclaimed(x));
        assert(w.transport.get(x) == v.transport.get(x));
    }
    assert forall|x: u64| #[trigger] w.unclaimed(x) implies has_entry(w.callbacks, x) || has_entry(
        w.inbox,
        x,
    ) by {
        assert(v.unclaimed(x));
    }
    assert forall|x: u64|
        #[trigger] w.transport.has(x) && !w.unclaimed(x) implies w.claimed == Some(x) by {
        assert(v.transport.has(x));
        assert(w.unclaimed(x) <==> v.unclaimed(x));
    }
}

/// Changes of a transport that leave every delivery where it is.
proof fn retransported_sound<C>(v: OwnerView<C>, w: OwnerView<C>)
    requires
        v.wf(),
        w.closed ==> w.transport.closed,
        w.faulted == w.inbox_faulted,
        w.faulted ==> forall|x: u64|
            w.unclaimed(x) ==> #[trigger] w.transport.get(x).cancelled,
        w.inbox == v.inbox,
        entries_distinct(w.callbacks),
        forall|x: u64| #[trigger] has_entry(w.callbacks, x) <==> has_entry(v.callbacks, x),
        w.pending == v.pending,
        w.claimed == v.claimed,
        w.transport.wf(),
        forall|x: u64| #[trigger] w.transport.has(x) <==> v.transport.has(x),
        forall|x: u64|
            v.transport.has(x) ==> {
                &&& (#[trigger] w.transport.get(x)).received == v.transport.get(x).received
                &&& w.transport.get(x).status == SWDeliveryStatus::Claimed
                    <==> v.transport.get(x).status == SWDeliveryStatus::Claimed
            },
    ensures
        w.sound(),
{
    assert forall|x: u64| #[trigger] w.unclaimed(x) <==> v.unclaimed(x) by {
        assert(w.transport.has(x) <==> v.transport.has(x));
        if v.transport.has(x) {
            assert(w.transport.get(x).received == v.transport.get(x).received);
        }
    }
    assert forall|x: u64| #[trigger] w.pending.contains(x) <==> w.transport.claimable(x) by {
        assert(v.pending.contains(x) <==> v.transport.claimable(x));
        assert(w.transport.has(x) <==> v.transport.has(x));
        if v.transport.has(x) {
            assert(w.transport.get(x).received == v.transport.get(x).received);
        }
    }
    assert forall|x: u64| #[trigger] has_entry(w.callbacks, x) implies w.unclaimed(x)
        && !has_entry(w.inbox, x) by {
        assert(v.unclaimed(x));
        assert(w.unclaimed(x) <==> v.unclaimed(x));
    }
    assert forall|x: u64| #[trigger] has_entry(w.inbox, x) implies w.unclaimed(x)
        && !w.transport.get(x).received by {
        assert(v.unclaimed(x));
        assert(w.unclaimed(x) <==> v.unclaimed(x));
        assert(w.transport.get(x).received == v.transport.get(x).received);
    }
    assert forall|x: u64| #[trigger] w.unclaimed(x) implies has_entry(w.callbacks, x) || has_entry(
        w.inbox,
        x,
    ) by {
        assert(v.unclaimed(x));
    }
    assert forall|x: u64|
        #[trigger] w.transport.has(x) && !w.unclaimed(x) implies w.claimed == Some(x) by {
        assert(v.transport.has(x));
        assert(w.unclaimed(x) <==> v.unclaimed(x));
    }
    if let Some(id) = w.claimed {
        assert(v.transport.has(id) && !v.unclaimed(id));
        assert(w.transport.has(id) <==> v.transport.has(id));
        assert(w.unclaimed(id) <==> v.unclaimed(id));
    }
}

/// A new delivery joins with its callback, here or in the inbox.
proof fn joined_sound<C>(
    v: OwnerView<C>,
    w: OwnerView<C>,
    endpoint: EndpointKind,
    charge: Option<SWReservation>,
    entry: LocalDelivery<C>,
    local: bool,
)
    requires
        v.wf(),
        !v.faulted,
        v.transport.accepts(endpoint),
        entry.id == v.transport.next_id,
        w == (OwnerView {
            transport: v.transport.reserved(endpoint, charge),
            callbacks: if local {
                v.callbacks.push(entry)
            } else {
                v.callbacks
            },
            inbox: if local {
                v.inbox
            } else {
                v.inbox.push(entry)
            },
            observers: v.observers.push(Observer { id: entry.id, handles: 1, settled: None }),
            ..v
        }),
        w.transport.wf(),
    ensures
        w.sound(),
        !has_entry(v.callbacks, entry.id),
        !has_entry(v.inbox, entry.id),
{
    let id = entry.id;
    reserved_effect(v.transport, endpoint, charge);
    assert(!has_entry(v.callbacks, id)) by {
        if has_entry(v.callbacks, id) {
            assert(v.unclaimed(id));
        }
    }
    assert(!has_entry(v.inbox, id)) by {
        if has_entry(v.inbox, id) {
            assert(v.unclaimed(id));
        }
    }
    entry_pushed(v.callbacks, entry);
    entry_pushed(v.inbox, entry);
    assert forall|x: u64| #[trigger] w.unclaimed(x) <==> v.unclaimed(x) || x == id by {
        assert(w.transport.has(x) <==> v.transport.has(x) || x == id);
        if v.transport.has(x) {
            assert(w.transport.get(x) == v.transport.get(x));
        }
    }
    assert forall|x: u64| #[trigger] w.pending.contains(x) <==> w.transport.claimable(x) by {
        assert(v.pending.contains(x) <==> v.transport.claimable(x));
        assert(w.transport.has(x) <==> v.transport.has(x) || x == id);
        if v.transport.has(x) {
            assert(w.transport.get(x) == v.transport.get(x));
        }
    }
    assert forall|x: u64| #[trigger] has_entry(w.callbacks, x) implies w.unclaimed(x)
        && !has_entry(w.inbox, x) by {
        assert(w.unclaimed(x) <==> v.unclaimed(x) || x == id);
        if x != id {
            assert(has_entry(v.callbacks, x));
        }
    }
    assert forall|x: u64| #[trigger] has_entry(w.inbox, x) implies w.unclaimed(x)
        && !w.transport.get(x).received by {
        assert(w.unclaimed(x) <==> v.unclaimed(x) || x == id);
        if x != id {
            assert(has_entry(v.inbox, x));
            assert(w.transport.get(x) == v.transport.get(x));
        }
    }
    assert forall|x: u64| #[trigger] w.unclaimed(x) implies has_entry(w.callbacks, x) || has_entry(
        w.inbox,
        x,
    ) by {
        if x != id {
            assert(v.unclaimed(x));
        }
    }
    assert forall|x: u64|
        #[trigger] w.transport.has(x) && !w.unclaimed(x) implies w.claimed == Some(x) by {
        assert(w.unclaimed(x) <==> v.unclaimed(x) || x == id);
        assert(v.transport.has(x));
    }
    if let Some(c) = v.claimed {
        assert(v.transport.has(c) && !v.unclaimed(c));
        assert(w.transport.has(c) <==> v.transport.has(c) || c == id);
        assert(w.unclaimed(c) <==> v.unclaimed(c) || c == id);
    }
}

/// Handles see the same as before while their deliveries stay.
proof fn still_watched<C>(v: OwnerView<C>, w: OwnerView<C>)
    requires
        v.watched(),
        w.observers == v.observers,
        v.transport.next_id <= w.transport.next_id,
        forall|x: u64| #[trigger] w.transport.has(x) <==> v.transport.has(x),
    ensures
        w.watched(),
{
    assert forall|i: int| 0 <= i < w.observers.len() implies {
        &&& (#[trigger] w.observers[i]).id < w.transport.next_id
        &&& w.observers[i].handles > 0
        &&& w.observers[i].settled is None <==> w.transport.has(w.observers[i].id)
        &&& w.observers[i].settled matches Some(status) ==> status.settled()
    } by {
        assert(v.observers[i] == w.observers[i]);
        assert(w.transport.has(w.observers[i].id) <==> v.transport.has(w.observers[i].id));
    }
}

/// Changes of a transport that leave every delivery where it is, and make none
/// ready.
proof fn retransported_wf<C>(v: OwnerView<C>, w: OwnerView<C>)
    requires
        v.wf(),
        w.closed ==> w.transport.closed,
        w.faulted == w.inbox_faulted,
        w.faulted ==> forall|x: u64|
            w.unclaimed(x) ==> #[trigger] w.transport.get(x).cancelled,
        w.inbox == v.inbox,
        w.callbacks == v.callbacks,
        w.pending == v.pending,
        w.claimed == v.claimed,
        w.observers == v.observers,
        w.transport.wf(),
        v.transport.next_id <= w.transport.next_id,
        forall|x: u64| #[trigger] w.transport.has(x) <==> v.transport.has(x),
        forall|x: u64|
            v.transport.has(x) ==> {
                &&& (#[trigger] w.transport.get(x)).received == v.transport.get(x).received
                &&& w.transport.get(x).status == v.transport.get(x).status
                &&& v.transport.get(x).terminal ==> w.transport.get(x).terminal
            },
    ensures
        w.wf(),
{
    retransported_sound(v, w);
    still_watched(v, w);
    assert forall|i: int| 0 <= i < w.callbacks.len() implies {
        &&& (#[trigger] w.callbacks[i]).awaits && w.transport.get(w.callbacks[i].id).status
            == SWDeliveryStatus::Ready ==> w.callbacks[i].status is Some
        &&& w.callbacks[i].status is Some ==> w.transport.get(w.callbacks[i].id).terminal
    } by {
        entry_is_live(v, i);
        assert(v.callbacks[i] == w.callbacks[i]);
        assert(w.transport.get(w.callbacks[i].id).status == v.transport.get(
            w.callbacks[i].id,
        ).status);
    }
}

/// The delivery of a callback is live.
proof fn entry_is_live<C>(v: OwnerView<C>, i: int)
    requires
        v.sound(),
        0 <= i < v.callbacks.len(),
    ensures
        v.unclaimed(v.callbacks[i].id),
        has_entry(v.callbacks, v.callbacks[i].id),
{
    assert(entry_at(v.callbacks, i, v.callbacks[i].id));
    assert(has_entry(v.callbacks, v.callbacks[i].id));
}

/// Telling a callback keeps every entry where it is.
proof fn told_keeps<C>(entries: Seq<LocalDelivery<C>>, id: u64, status: SWTaskStatus)
    requires
        entries_distinct(entries),
    ensures
        entries_distinct(told(entries, id, status)),
        forall|x: u64| #[trigger]
            has_entry(told(entries, id, status), x) <==> has_entry(entries, x),
{
    let r = told(entries, id, status);
    assert forall|i: int, j: int| 0 <= i < j < r.len() implies (#[trigger] r[i]).id != (
    #[trigger] r[j]).id by {
        assert(entries[i].id != entries[j].id);
    }
    assert forall|x: u64| #[trigger] has_entry(r, x) <==> has_entry(entries, x) by {
        if has_entry(r, x) {
            let i = entry_slot(r, x);
            assert(entry_at(r, i, x));
            assert(entry_at(entries, i, x));
        }
        if has_entry(entries, x) {
            let i = entry_slot(entries, x);
            assert(entry_at(entries, i, x));
            assert(entry_at(r, i, x));
        }
    }
}

/// A delivery becomes ready, with or without a status for its callback.
proof fn readied_wf<C>(v: OwnerView<C>, w: OwnerView<C>, id: u64)
    requires
        v.wf(),
        w.transport.wf(),
        (exists|status: SWTaskStatus| w == #[trigger] v.readied(id, status)) || (!v.awaiting(id)
            && w == v.fulfilled(id)),
    ensures
        w.wf(),
{
    readied_effect(v.transport, id);
    let fresh = v.transport.has(id) && !v.transport.get(id).terminal;
    let status = choose|status: SWTaskStatus| w == #[trigger] v.readied(id, status);
    if w == v.readied(id, status) {
        told_keeps(v.callbacks, id, status);
    }
    assert forall|x: u64| w.faulted && w.unclaimed(x) implies #[trigger] w.transport.get(
        x,
    ).cancelled by {
        assert(w.transport.has(x) <==> v.transport.has(x));
        assert(v.unclaimed(x));
    }
    retransported_sound(v, w);
    still_watched(v, w);
    assert forall|i: int| 0 <= i < w.callbacks.len() implies {
        &&& (#[trigger] w.callbacks[i]).awaits && w.transport.get(w.callbacks[i].id).status
            == SWDeliveryStatus::Ready ==> w.callbacks[i].status is Some
        &&& w.callbacks[i].status is Some ==> w.transport.get(w.callbacks[i].id).terminal
    } by {
        let x = v.callbacks[i].id;
        entry_is_live(v, i);
        assert(w.callbacks[i].id == x);
        assert(w.transport.get(x).received == v.transport.get(x).received);
        if x == id {
            entry_found(v.callbacks, i, id);
        }
    }
}

/// A notification arrives.
proof fn received_one_wf<C>(v: OwnerView<C>, w: OwnerView<C>)
    requires
        v.wf(),
        v.transport.queue.len() > 0,
        w == v.received_one(),
        w.transport.wf(),
    ensures
        w.wf(),
{
    received_one_sound(v, w);
    arrived_effect(v.transport);
    still_watched(v, w);
    let id = v.transport.queue[0];
    let k = entry_slot(v.inbox, id);
    if has_entry(v.inbox, id) {
        assert(entry_at(v.inbox, k, id));
        assert forall|i: int| 0 <= i < w.inbox.len() implies !(#[trigger] w.inbox[i]).awaits
            && w.inbox[i].status is None by {
            assert(w.inbox[i] == v.inbox[if i < k {
                i
            } else {
                i + 1
            }]);
        }
    }
    assert forall|i: int| 0 <= i < w.callbacks.len() implies {
        &&& (#[trigger] w.callbacks[i]).awaits && w.transport.get(w.callbacks[i].id).status
            == SWDeliveryStatus::Ready ==> w.callbacks[i].status is Some
        &&& w.callbacks[i].status is Some ==> w.transport.get(w.callbacks[i].id).terminal
    } by {
        if i < v.callbacks.len() {
            entry_is_live(v, i);
            assert(w.callbacks[i] == v.callbacks[i]);
            let x = v.callbacks[i].id;
            assert(w.transport.get(x) == (if x == id {
                DeliveryRecord { received: true, ..v.transport.get(x) }
            } else {
                v.transport.get(x)
            }));
        } else {
            assert(w.callbacks[i] == v.inbox[k]);
        }
    }
}

/// A pending callback is taken out.
proof fn taken_wf<C>(v: OwnerView<C>, w: OwnerView<C>, k: int)
    requires
        v.wf(),
        v.claimed is None,
        0 <= k < v.pending.len(),
        w == v.taken(k),
        w.transport.wf(),
    ensures
        w.wf(),
{
    taken_sound(v, w, k);
    let id = v.pending[k];
    pending_has_callback(v, k);
    let n = entry_slot(v.callbacks, id);
    assert(entry_at(v.callbacks, n, id));
    let r = DeliveryRecord { status: SWDeliveryStatus::Claimed, ..v.transport.get(id) };
    assert(delivery_at(v.transport.records, delivery_slot(v.transport.records, id), id));
    stored_effect(v.transport, w.transport, id, r);
    still_watched(v, w);
    assert forall|i: int| 0 <= i < w.callbacks.len() implies {
        &&& (#[trigger] w.callbacks[i]).awaits && w.transport.get(w.callbacks[i].id).status
            == SWDeliveryStatus::Ready ==> w.callbacks[i].status is Some
        &&& w.callbacks[i].status is Some ==> w.transport.get(w.callbacks[i].id).terminal
    } by {
        let j = if i < n {
            i
        } else {
            i + 1
        };
        assert(w.callbacks[i] == v.callbacks[j]);
        entry_is_live(v, j);
        let x = v.callbacks[j].id;
        assert(w.transport.get(x) == (if x == id {
            r
        } else {
            v.transport.get(x)
        }));
    }
}

/// The delivery in hand settles.
proof fn settled_owner_wf<C>(v: OwnerView<C>, w: OwnerView<C>, status: SWDeliveryStatus)
    requires
        v.wf(),
        v.claimed is Some,
        status.settled(),
        w == v.settled(status),
        w.transport.wf(),
        forall|x: u64| #[trigger]
            w.transport.has(x) <==> v.transport.has(x) && x != v.claimed->0,
        forall|x: u64| w.transport.has(x) ==> #[trigger] w.transport.get(x) == v.transport.get(x),
    ensures
        w.wf(),
{
    settled_owner_sound(v, w, status);
    let id = v.claimed->0;
    assert(v.transport.has(id) && !v.unclaimed(id));
    assert forall|i: int, j: int| 0 <= i < j < w.observers.len() implies (
    #[trigger] w.observers[i]).id < (#[trigger] w.observers[j]).id by {
        assert(v.observers[i].id < v.observers[j].id);
    }
    assert forall|i: int| 0 <= i < w.observers.len() implies {
        &&& (#[trigger] w.observers[i]).id < w.transport.next_id
        &&& w.observers[i].handles > 0
        &&& w.observers[i].settled is None <==> w.transport.has(w.observers[i].id)
        &&& w.observers[i].settled matches Some(status) ==> status.settled()
    } by {
        let o = v.observers[i];
        assert(w.transport.has(o.id) <==> v.transport.has(o.id) && o.id != id);
    }
    assert forall|i: int| 0 <= i < w.callbacks.len() implies {
        &&& (#[trigger] w.callbacks[i]).awaits && w.transport.get(w.callbacks[i].id).status
            == SWDeliveryStatus::Ready ==> w.callbacks[i].status is Some
        &&& w.callbacks[i].status is Some ==> w.transport.get(w.callbacks[i].id).terminal
    } by {
        entry_is_live(v, i);
        let x = v.callbacks[i].id;
        assert(w.transport.has(x) <==> v.transport.has(x) && x != id);
        assert(w.transport.get(x) == v.transport.get(x));
    }
}

/// A new delivery joins with its callback and one handle.
proof fn joined_wf<C>(
    v: OwnerView<C>,
    w: OwnerView<C>,
    endpoint: EndpointKind,
    charge: Option<SWReservation>,
    entry: LocalDelivery<C>,
    local: bool,
)
    requires
        v.wf(),
        !v.faulted,
        v.transport.accepts(endpoint),
        entry.id == v.transport.next_id,
        entry.status is None,
        !local ==> !entry.awaits,
        w == (OwnerView {
            transport: v.transport.reserved(endpoint, charge),
            callbacks: if local {
                v.callbacks.push(entry)
            } else {
                v.callbacks
            },
            inbox: if local {
                v.inbox
            } else {
                v.inbox.push(entry)
            },
            observers: v.observers.push(Observer { id: entry.id, handles: 1, settled: None }),
            ..v
        }),
        w.transport.wf(),
    ensures
        w.wf(),
{
    joined_sound(v, w, endpoint, charge, entry, local);
    reserved_effect(v.transport, endpoint, charge);
    let n = v.observers.len() as int;
    assert forall|i: int, j: int| 0 <= i < j < w.observers.len() implies (
    #[trigger] w.observers[i]).id < (#[trigger] w.observers[j]).id by {
        if j < n {
            assert(v.observers[i].id < v.observers[j].id);
        } else {
            assert(v.observers[i].id < v.transport.next_id);
        }
    }
    assert forall|i: int| 0 <= i < w.observers.len() implies {
        &&& (#[trigger] w.observers[i]).id < w.transport.next_id
        &&& w.observers[i].handles > 0
        &&& w.observers[i].settled is None <==> w.transport.has(w.observers[i].id)
        &&& w.observers[i].settled matches Some(status) ==> status.settled()
    } by {
        if i < n {
            let o = v.observers[i];
            assert(w.observers[i] == o);
            assert(w.transport.has(o.id) <==> v.transport.has(o.id) || o.id == entry.id);
        }
    }
    assert forall|i: int| 0 <= i < w.callbacks.len() implies {
        &&& (#[trigger] w.callbacks[i]).awaits && w.transport.get(w.callbacks[i].id).status
            == SWDeliveryStatus::Ready ==> w.callbacks[i].status is Some
        &&& w.callbacks[i].status is Some ==> w.transport.get(w.callbacks[i].id).terminal
    } by {
        if i < v.callbacks.len() {
            entry_is_live(v, i);
            assert(w.callbacks[i] == v.callbacks[i]);
            assert(w.transport.get(v.callbacks[i].id) == v.transport.get(v.callbacks[i].id));
        }
    }
    assert forall|i: int| 0 <= i < w.inbox.len() implies !(#[trigger] w.inbox[i]).awaits
        && w.inbox[i].status is None by {
        if i < v.inbox.len() {
            assert(w.inbox[i] == v.inbox[i]);
        }
    }
}

/// An observed delivery is where its identity says.
pub proof fn observer_found(observers: Seq<Observer>, i: int, id: u64)
    requires
        forall|i: int, j: int|
            0 <= i < j < observers.len() ==> (#[trigger] observers[i]).id < (
            #[trigger] observers[j]).id,
        observer_at(observers, i, id),
    ensures
        observed(observers, id),
        observer_slot(observers, id) == i,
{
    let k = observer_slot(observers, id);
    assert(observer_at(observers, k, id));
    if k < i {
        assert(observers[k].id < observers[i].id);
    } else if i < k {
        assert(observers[i].id < observers[k].id);
    }
}

/// A host-thread owner of state `O`, with callbacks of type `C`.
pub struct SWOwner<O, C> {
    state: O,
    transport: Transport,
    inbox: Vec<LocalDelivery<C>>,
    inbox_closed: bool,
    inbox_faulted: bool,
    phase: Option<SWPhase>,
    callbacks: Vec<LocalDelivery<C>>,
    pending: Vec<u64>,
    closed: bool,
    faulted: bool,
    active: bool,
    claimed: Option<u64>,
    control: SWOwnerControl,
    registered: bool,
    observers: Vec<Observer>,
}

impl<O, C> View for SWOwner<O, C> {
    type V = OwnerView<C>;

    closed spec fn view(&self) -> OwnerView<C> {
        OwnerView {
            transport: self.transport@,
            inbox: self.inbox@,
            inbox_closed: self.inbox_closed,
            inbox_faulted: self.inbox_faulted,
            phase: self.phase,
            callbacks: self.callbacks@,
            pending: self.pending@,
            closed: self.closed,
            faulted: self.faulted,
            active: self.active,
            claimed: self.claimed,
            close_requested: self.control.requested(),
            registered: self.registered,
            observers: self.observers@,
        }
    }
}

/// Finds a callback by its delivery.
fn find_entry<C>(entries: &Vec<LocalDelivery<C>>, id: u64) -> (found: Option<usize>)
    requires
        entries_distinct(entries@),
    ensures
        match found {
            Some(i) => {
                &&& entry_at(entries@, i as int, id)
                &&& has_entry(entries@, id)
                &&& entry_slot(entries@, id) == i
            },
            None => !has_entry(entries@, id),
        },
{
    let mut index: usize = 0;
    while index < entries.len()
        invariant
            index <= entries@.len(),
            entries_distinct(entries@),
            forall|i: int| 0 <= i < index ==> (#[trigger] entries@[i]).id != id,
        decreases entries@.len() - index,
    {
        if entries[index].id == id {
            proof {
                entry_found(entries@, index as int, id);
            }
            return Some(index);
        }
        index += 1;
    }
    proof {
        if has_entry(entries@, id) {
            let i = entry_slot(entries@, id);
            assert(entry_at(entries@, i, id));
            assert(entries@[i].id == id);
        }
    }
    None
}

/// The capacity that a delivery draws, in this runtime.
pub open spec fn delivery_refused(
    transport: TransportView,
    runtime: RuntimeView,
    capacity: Option<&SWReservation>,
) -> Option<SWOwnerError> {
    let drawn = draw_error(runtime.capacity, runtime.control.id, capacity, SWCost::one_delivery());
    match capacity {
        Some(reservation) => if reservation.identity() != transport.runtime || runtime.capacity
            is None {
            Some(SWOwnerError::InvalidContext)
        } else if drawn is Some || !transport.accepts(endpoint_of(capacity)) {
            Some(SWOwnerError::Full)
        } else {
            None
        },
        None => if drawn is Some || !transport.accepts(EndpointKind::Ordinary) {
            Some(SWOwnerError::Full)
        } else {
            None
        },
    }
}

/// The runtime after a delivery was refused a place. Capacity that was drawn for
/// it is given back.
pub open spec fn after_refused_delivery(
    transport: TransportView,
    runtime: RuntimeView,
    capacity: Option<&SWReservation>,
) -> RuntimeView {
    let foreign = capacity is Some && (capacity->0.identity() != transport.runtime
        || runtime.capacity is None);
    if foreign || draw_error(
        runtime.capacity,
        runtime.control.id,
        capacity,
        SWCost::one_delivery(),
    ) is Some {
        runtime
    } else {
        runtime.touched(0, draw_wakes(capacity, 0, false), None)
    }
}

/// Required pipelines use protected places.
pub open spec fn endpoint_of(capacity: Option<&SWReservation>) -> EndpointKind {
    if capacity is Some && capacity->0.drawn_kind() == Kind::Required {
        EndpointKind::Protected
    } else {
        EndpointKind::Ordinary
    }
}

impl<O, C> SWOwner<O, C> {
    pub closed spec fn held(self) -> O {
        self.state
    }

    pub closed spec fn cached(self) -> bool {
        self.transport.cached()
    }

    pub open spec fn wf(self) -> bool {
        self@.wf() && self.cached()
    }

    fn over(state: O, transport: Transport) -> (owner: Self)
        requires
            transport.wf(),
            transport@.records.len() == 0,
        ensures
            owner.wf(),
            owner.held() == state,
            owner@ == OwnerView::<C>::fresh(transport@),
    {
        let owner = SWOwner {
            state,
            transport,
            inbox: Vec::new(),
            inbox_closed: false,
            inbox_faulted: false,
            phase: None,
            callbacks: Vec::new(),
            pending: Vec::new(),
            closed: false,
            faulted: false,
            active: false,
            claimed: None,
            control: SWOwnerControl::new(),
            registered: true,
            observers: Vec::new(),
        };
        proof {
            let v = owner@;
            assert(v.observers =~= Seq::empty());
            assert(v.inbox =~= Seq::empty());
            assert(v.callbacks =~= Seq::empty());
            assert(v.pending =~= Seq::empty());
            assert forall|id: u64| !#[trigger] v.transport.has(id) by {
                if v.transport.has(id) {
                    assert(delivery_at(
                        v.transport.records,
                        delivery_slot(v.transport.records, id),
                        id,
                    ));
                }
            }
            assert forall|id: u64| !#[trigger] v.unclaimed(id) by {
                assert(!v.transport.has(id));
            }
            assert forall|id: u64| #[trigger] v.pending.contains(id) <==> v.transport.claimable(
                id,
            ) by {
                assert(!v.transport.has(id));
            }
        }
        owner
    }

    /// The host explicitly establishes the current application phase. It may
    /// then use immediate access or pump that phase's delivery route.
    pub fn set_phase(&mut self, phase: SWPhase) -> (result: Result<(), SWOwnerError>)
        requires
            old(self).wf(),
        ensures
            final(self).wf(),
            final(self).held() == old(self).held(),
            if old(self)@.active {
                result == Err::<(), SWOwnerError>(SWOwnerError::InvalidContext) && final(self)@
                    == old(self)@
            } else {
                result == Ok::<(), SWOwnerError>(()) && final(self)@ == (OwnerView {
                    phase: Some(phase),
                    ..old(self)@
                })
            },
    {
        if self.active {
            return Err(SWOwnerError::InvalidContext);
        }
        self.phase = Some(phase);
        proof {
            retransported_wf(old(self)@, self@);
        }
        Ok(())
    }

    pub fn phase(&self) -> (phase: Option<SWPhase>)
        ensures
            phase == self@.phase,
    {
        self.phase
    }

    /// State inspection is explicit host recovery after a caught callback
    /// panic. Calling this does not clear the fault automatically.
    pub fn state(&self) -> (state: &O)
        ensures
            *state == self.held(),
    {
        &self.state
    }

    pub fn state_mut(&mut self) -> (state: &mut O)
        ensures
            *state == old(self).held(),
            final(self).held() == *final(state),
            final(self)@ == old(self)@,
            final(self).cached() == old(self).cached(),
    {
        &mut self.state
    }

    /// The teardown authority of this owner.
    pub fn control(&mut self) -> (control: &mut SWOwnerControl)
        ensures
            control.requested() == old(self)@.close_requested,
            final(self)@ == (OwnerView {
                close_requested: final(control).requested(),
                ..old(self)@
            }),
            final(self).held() == old(self).held(),
            final(self).cached() == old(self).cached(),
    {
        &mut self.control
    }

    /// Takes the progress notifications that this owner's route owes.
    pub fn take_wake(&mut self) -> (owed: u64)
        requires
            old(self).wf(),
        ensures
            final(self).wf(),
            final(self).held() == old(self).held(),
            owed == old(self)@.transport.wake,
            final(self)@ == (OwnerView {
                transport: TransportView { wake: 0, ..old(self)@.transport },
                ..old(self)@
            }),
    {
        let owed: u64 = self.transport.take_wake();
        proof {
            let v = old(self)@;
            let w = self@;
            assert forall|x: u64| w.faulted && w.unclaimed(x) implies #[trigger] w.transport.get(
                x,
            ).cancelled by {
                assert(v.unclaimed(x));
                assert(v.transport.get(x).cancelled);
            }
            retransported_wf(v, w);
        }
        owed
    }

    /// Requests closure for the next pump or callback return.
    pub fn request_close(&mut self)
        requires
            old(self).wf(),
        ensures
            final(self).wf(),
            final(self).held() == old(self).held(),
            final(self)@ == (OwnerView { close_requested: true, ..old(self)@ }),
    {
        self.control.request_close();
        proof {
            retransported_wf(old(self)@, self@);
        }
    }

    /// Ends a fault, once everything that it suppressed is cleaned up.
    pub fn recover(&mut self) -> (result: Result<(), SWOwnerError>)
        requires
            old(self).wf(),
        ensures
            final(self).wf(),
            final(self).held() == old(self).held(),
            ({
                let v = old(self)@;
                if v.closed || v.transport.closed {
                    result == Err::<(), SWOwnerError>(SWOwnerError::Closed) && final(self)@ == v
                } else if v.callbacks.len() > 0 || v.inbox.len() > 0 || v.transport.records.len()
                    > 0 {
                    result == Err::<(), SWOwnerError>(SWOwnerError::Faulted) && final(self)@ == v
                } else {
                    result == Ok::<(), SWOwnerError>(()) && final(self)@ == (OwnerView {
                        faulted: false,
                        inbox_faulted: false,
                        ..v
                    })
                }
            }),
    {
        if self.closed || self.transport.is_closed() {
            return Err(SWOwnerError::Closed);
        }
        if self.callbacks.len() > 0 || self.inbox.len() > 0 || !self.transport.is_empty() {
            return Err(SWOwnerError::Faulted);
        }
        self.faulted = false;
        self.inbox_faulted = false;
        proof {
            retransported_wf(old(self)@, self@);
        }
        Ok(())
    }

    fn accept(&self) -> (error: Option<SWOwnerError>)
        ensures
            error == self@.accept_error(),
    {
        if self.closed || self.transport.is_closed() || self.control.is_requested() {
            Some(SWOwnerError::Closed)
        } else if self.faulted {
            Some(SWOwnerError::Faulted)
        } else if self.active {
            Some(SWOwnerError::InvalidContext)
        } else {
            None
        }
    }

    /// Why the transport or the capacity would refuse a delivery now.
    fn check_reserve(&self, runtime: &SWRuntime, capacity: Option<&SWReservation>) -> (error: Option<
        SWOwnerError,
    >)
        requires
            self.wf(),
            runtime.wf(),
            self@.transport.runtime == runtime@.control.id,
            reservation_known(runtime@.capacity, runtime@.control.id, capacity),
        ensures
            error == delivery_refused(self@.transport, runtime@, capacity),
    {
        let mut endpoint = EndpointKind::Ordinary;
        if let Some(reservation) = capacity {
            if reservation.runtime_identity() != self.transport.runtime_identity() {
                return Some(SWOwnerError::InvalidContext);
            }
            if !runtime.has_capacity() {
                return Some(SWOwnerError::InvalidContext);
            }
            if reservation.is_required() {
                endpoint = EndpointKind::Protected;
            }
        }
        if runtime.check_delivery(capacity).is_some() || !self.transport.would_accept(endpoint) {
            return Some(SWOwnerError::Full);
        }
        None
    }

    /// Leaves what a refused registration leaves.
    fn refuse_reserve(&self, runtime: &mut SWRuntime, capacity: Option<&SWReservation>)
        requires
            self.wf(),
            old(runtime).wf(),
            self@.transport.runtime == old(runtime)@.control.id,
            reservation_known(old(runtime)@.capacity, old(runtime)@.control.id, capacity),
        ensures
            final(runtime).wf(),
            final(runtime)@ == after_refused_delivery(self@.transport, old(runtime)@, capacity),
    {
        if let Some(reservation) = capacity {
            if reservation.runtime_identity() != self.transport.runtime_identity()
                || !runtime.has_capacity() {
                return ;
            }
        }
        if runtime.check_delivery(capacity).is_none() {
            runtime.give_delivery_back(capacity);
        }
    }
}

/// The runtime after a local registration was refused.
pub open spec fn after_refused_reserve<C>(
    owner: OwnerView<C>,
    runtime: RuntimeView,
    capacity: Option<&SWReservation>,
) -> RuntimeView {
    if owner.accept_error() is Some {
        runtime
    } else {
        after_refused_delivery(owner.transport, runtime, capacity)
    }
}

/// The runtime after a promised delivery was refused.
pub open spec fn after_refused_prepare<C>(
    owner: OwnerView<C>,
    runtime: RuntimeView,
    lease: WorkLease,
    capacity: Option<&SWReservation>,
) -> RuntimeView {
    if lease.error() is Some {
        runtime
    } else {
        after_refused_reserve(owner, runtime, capacity)
    }
}

/// Why a local registration is refused, if it is.
pub open spec fn reserve_error<C>(
    owner: OwnerView<C>,
    runtime: RuntimeView,
    capacity: Option<&SWReservation>,
) -> Option<SWOwnerError> {
    if owner.accept_error() is Some {
        owner.accept_error()
    } else {
        delivery_refused(owner.transport, runtime, capacity)
    }
}

/// The owner and its runtime after a registration: one more delivery, its
/// capacity charged, its callback kept.
pub open spec fn registered<C>(
    before: OwnerView<C>,
    after: OwnerView<C>,
    runtime_before: RuntimeView,
    runtime_after: RuntimeView,
    capacity: Option<&SWReservation>,
    entry: LocalDelivery<C>,
    charge: Option<SWReservation>,
) -> bool {
    &&& entry.id == before.transport.next_id
    &&& after == (OwnerView {
        transport: before.transport.reserved(endpoint_of(capacity), charge),
        callbacks: before.callbacks.push(entry),
        observers: before.observers.push(
            Observer { id: entry.id, handles: 1, settled: None },
        ),
        ..before
    })
    &&& charged_for(runtime_before, runtime_after, capacity, charge)
}

/// The runtime after the capacity of one delivery was drawn.
pub open spec fn charged_for(
    before: RuntimeView,
    after: RuntimeView,
    capacity: Option<&SWReservation>,
    charge: Option<SWReservation>,
) -> bool {
    &&& after == (RuntimeView { capacity: after.capacity, ..before })
    &&& supplied(
        before.capacity,
        after.capacity,
        capacity,
        delivery_need(),
        Supplied { charge, bytes: None, ticket: None },
    )
    &&& charge matches Some(charge) ==> after.capacity is Some && charge.held_in(
        after.capacity->0,
    ) && after.outside(charge)
}

/// Why a promised delivery is refused, if it is. A consumer set that grants no
/// lease counts as closed.
pub open spec fn prepare_error<C>(
    owner: OwnerView<C>,
    runtime: RuntimeView,
    lease: WorkLease,
    capacity: Option<&SWReservation>,
) -> Option<SWOwnerError> {
    if lease.error() is Some {
        Some(SWOwnerError::Closed)
    } else {
        reserve_error(owner, runtime, capacity)
    }
}

/// The entry of a delivery that is reserved next.
pub open spec fn new_entry<C>(
    transport: TransportView,
    lease: WorkLease,
    subscription: Option<u64>,
    awaits: bool,
    phase: SWPhase,
    callback: C,
) -> LocalDelivery<C> {
    LocalDelivery {
        id: transport.next_id as u64,
        phase,
        callback,
        subscription,
        leased: lease.accounted(),
        awaits,
        status: None,
    }
}

/// What preparing a delivery does: the callback is kept, or it comes back and
/// the owner has not changed.
pub open spec fn prepared<C>(
    before: OwnerView<C>,
    after: OwnerView<C>,
    runtime_before: RuntimeView,
    runtime_after: RuntimeView,
    lease: WorkLease,
    capacity: Option<&SWReservation>,
    phase: SWPhase,
    callback: C,
    result: Result<SWPreparedDelivery, SWOwnerRejected<C>>,
) -> bool {
    let id = before.transport.next_id as u64;
    match result {
        Ok(handles) => {
            &&& prepare_error(before, runtime_before, lease, capacity) is None
            &&& handles.of(id)
            &&& after.status_of(id) == Some(SWDeliveryStatus::Waiting)
            &&& exists|charge: Option<SWReservation>| #[trigger]
                registered(
                    before,
                    after,
                    runtime_before,
                    runtime_after,
                    capacity,
                    new_entry(before.transport, lease, None, false, phase, callback),
                    charge,
                )
        },
        Err(rejected) => {
            &&& prepare_error(before, runtime_before, lease, capacity) == Some(rejected.reason)
            &&& rejected.callback == callback
            &&& after == before
            &&& runtime_after == after_refused_prepare(before, runtime_before, lease, capacity)
        },
    }
}

/// The edge by which a delivery waits for a completion, if it has to wait.
pub open spec fn awaited(signal: SignalView) -> Option<u64> {
    if signal.status is Some {
        None
    } else {
        Some(signal.next_subscriber as u64)
    }
}

pub open spec fn edge_to(completion: Option<&mut SWCompletion>) -> Option<u64> {
    match completion {
        Some(completion) => awaited(completion@),
        None => None,
    }
}

/// The completion after a delivery was attached to it.
pub open spec fn signal_attached(signal: SignalView, id: u64) -> SignalView {
    if signal.status is Some {
        signal
    } else {
        let edge = signal.next_subscriber as u64;
        SignalView {
            subscribers: signal.subscribers.push(Subscription { id: edge, token: id }),
            next_subscriber: edge + 1,
            ..signal
        }
    }
}

/// The owner, with a delivery notified at once where what it waited for had
/// ended before, and its callback told how.
pub open spec fn readied_if<C>(
    owner: OwnerView<C>,
    ended: Option<SWTaskStatus>,
    id: u64,
) -> OwnerView<C> {
    match ended {
        Some(status) => owner.readied(id, status),
        None => owner,
    }
}

impl<C> OwnerView<C> {
    /// The owner after a publication served these edges.
    pub open spec fn all_readied(self, edges: Seq<Subscription>, status: SWTaskStatus) -> OwnerView<
        C,
    >
        decreases edges.len(),
    {
        if edges.len() == 0 {
            self
        } else {
            self.all_readied(edges.drop_last(), status).readied(edges.last().token, status)
        }
    }
}

/// What attaching a callback to a completion does. A completion that has ended
/// before follows the same deferred path as a pending one.
pub open spec fn attached_on_ready<C>(
    before: OwnerView<C>,
    after: OwnerView<C>,
    runtime_before: RuntimeView,
    runtime_after: RuntimeView,
    signal_before: SignalView,
    signal_after: SignalView,
    lease: WorkLease,
    capacity: Option<&SWReservation>,
    phase: SWPhase,
    callback: C,
    result: Result<(SWDelivery, SWDeliveryControl), SWOwnerRejected<C>>,
) -> bool {
    let id = before.transport.next_id as u64;
    match result {
        Ok(handles) => {
            &&& prepare_error(before, runtime_before, lease, capacity) is None
            &&& handles.0.identity() == id
            &&& handles.1.identity() == id
            &&& signal_after == signal_attached(signal_before, id)
            &&& after.status_of(id) == Some(
                if signal_before.status is Some {
                    SWDeliveryStatus::Ready
                } else {
                    SWDeliveryStatus::Waiting
                },
            )
            &&& after.awaiting(id) && after.report_to(id) == signal_before.status
            &&& exists|middle: OwnerView<C>, charge: Option<SWReservation>|
                {
                    &&& #[trigger] registered(
                        before,
                        middle,
                        runtime_before,
                        runtime_after,
                        capacity,
                        new_entry(
                            before.transport,
                            lease,
                            awaited(signal_before),
                            true,
                            phase,
                            callback,
                        ),
                        charge,
                    )
                    &&& after == readied_if(middle, signal_before.status, id)
                }
        },
        Err(rejected) => {
            &&& prepare_error(before, runtime_before, lease, capacity) == Some(rejected.reason)
            &&& rejected.callback == callback
            &&& after == before
            &&& runtime_after == after_refused_prepare(before, runtime_before, lease, capacity)
            &&& signal_after == signal_before
        },
    }
}

/// The newest observer sees its delivery.
proof fn newcomer_is_seen<C>(v: OwnerView<C>, id: u64)
    requires
        v.wf(),
        v.observers.len() > 0,
        v.observers.last() == (Observer { id, handles: 1, settled: None }),
    ensures
        observed(v.observers, id),
        v.status_of(id) == Some(v.transport.get(id).status),
{
    let n = v.observers.len() - 1;
    assert(observer_at(v.observers, n, id));
    observer_found(v.observers, n, id);
}

/// A delivery that becomes ready is seen to be.
proof fn readied_is_seen<C>(v: OwnerView<C>, w: OwnerView<C>, id: u64)
    requires
        v.wf(),
        v.transport.can_ready(id),
        observed(v.observers, id),
        w.transport == v.transport.readied(id),
        w.observers == v.observers,
    ensures
        w.status_of(id) == Some(SWDeliveryStatus::Ready),
{
    readied_effect(v.transport, id);
    let i = observer_slot(v.observers, id);
    assert(observer_at(v.observers, i, id));
}

/// The first report reaches the callback.
proof fn report_is_kept<C>(v: OwnerView<C>, id: u64, status: SWTaskStatus)
    requires
        v.wf(),
        v.transport.can_ready(id),
        has_entry(v.callbacks, id),
    ensures
        v.readied(id, status).report_to(id) == Some(status),
        v.readied(id, status).awaiting(id) == v.awaiting(id),
{
    let w = v.readied(id, status);
    let i = entry_slot(v.callbacks, id);
    assert(entry_at(v.callbacks, i, id));
    told_keeps(v.callbacks, id, status);
    assert(entry_at(w.callbacks, i, id));
    entry_found(w.callbacks, i, id);
}

impl<O, C> SWOwner<O, C> {
    /// A completion that a delivery waits for, or that a promise was bound to,
    /// has ended. The callback is told how; only the first report counts.
    pub fn ready(&mut self, id: u64, status: SWTaskStatus)
        requires
            old(self).wf(),
        ensures
            final(self).wf(),
            final(self).held() == old(self).held(),
            final(self)@ == old(self)@.readied(id, status),
    {
        let ghost v = self@;
        let first = self.transport.is_unspoken(id);
        self.transport.ready(id);
        if first {
            if let Some(i) = find_entry(&self.callbacks, id) {
                self.callbacks[i].status = Some(status);
            }
        }
        proof {
            if first {
                let r = told(v.callbacks, id, status);
                assert forall|j: int| 0 <= j < r.len() implies self@.callbacks[j] == r[j] by {
                    if v.callbacks[j].id == id {
                        entry_found(v.callbacks, j, id);
                    }
                }
                assert(self@.callbacks =~= r);
            }
            assert(self@ =~= v.readied(id, status));
            readied_wf(v, self@, id);
        }
    }

    /// Serves the edges that a publication handed out to deliveries of this
    /// owner.
    pub fn deliver(&mut self, edges: &Vec<Subscription>, status: SWTaskStatus)
        requires
            old(self).wf(),
        ensures
            final(self).wf(),
            final(self).held() == old(self).held(),
            final(self)@ == old(self)@.all_readied(edges@, status),
    {
        let mut index: usize = 0;
        proof {
            assert(edges@.take(0) =~= Seq::empty());
        }
        while index < edges.len()
            invariant
                self.wf(),
                self.held() == old(self).held(),
                index <= edges@.len(),
                self@ == old(self)@.all_readied(edges@.take(index as int), status),
            decreases edges@.len() - index,
        {
            proof {
                assert(edges@.take(index + 1).drop_last() =~= edges@.take(index as int));
            }
            self.ready(edges[index].token, status);
            index += 1;
        }
        proof {
            assert(edges@.take(index as int) =~= edges@);
        }
    }

    /// A promise is fulfilled.
    fn fulfill(&mut self, id: u64)
        requires
            old(self).wf(),
        ensures
            final(self).wf(),
            final(self).held() == old(self).held(),
            final(self)@ == old(self)@.fulfilled(id),
    {
        let ghost v = self@;
        if let Some(i) = find_entry(&self.callbacks, id) {
            if self.callbacks[i].awaits {
                return;
            }
        }
        self.transport.ready(id);
        proof {
            readied_wf(v, self@, id);
        }
    }

    /// Accepts a callback, whose entry in the transport is new.
    fn join(
        &mut self,
        runtime: &mut SWRuntime,
        capacity: Option<&SWReservation>,
        completion: Option<&mut SWCompletion>,
        leased: bool,
        phase: SWPhase,
        callback: C,
    ) -> (id: u64)
        requires
            old(self).wf(),
            old(runtime).wf(),
            old(self)@.transport.runtime == old(runtime)@.control.id,
            reservation_known(old(runtime)@.capacity, old(runtime)@.control.id, capacity),
            reserve_error(old(self)@, old(runtime)@, capacity) is None,
            completion matches Some(completion) ==> completion@.wf() && (completion@.status is None
                ==> completion@.next_subscriber < u64::MAX),
        ensures
            final(self).wf(),
            final(runtime).wf(),
            final(self).held() == old(self).held(),
            id == old(self)@.transport.next_id,
            final(self)@.status_of(id) == Some(SWDeliveryStatus::Waiting),
            final(self)@.transport.can_ready(id),
            observed(final(self)@.observers, id),
            final(self)@.awaiting(id) <==> completion is Some,
            has_entry(final(self)@.callbacks, id),
            final(self)@.report_to(id) is None,
            completion matches Some(completion) ==> final(completion)@.wf() && final(completion)@
                == signal_attached(completion@, id),
            exists|charge: Option<SWReservation>| #[trigger]
                registered(
                    old(self)@,
                    final(self)@,
                    old(runtime)@,
                    final(runtime)@,
                    capacity,
                    LocalDelivery {
                        id,
                        phase,
                        callback,
                        subscription: edge_to(completion),
                        leased,
                        awaits: completion is Some,
                        status: None,
                    },
                    charge,
                ),
    {
        let ghost v = self@;
        let ghost r = runtime@;
        let endpoint = match capacity {
            Some(reservation) => if reservation.is_required() {
                EndpointKind::Protected
            } else {
                EndpointKind::Ordinary
            },
            None => EndpointKind::Ordinary,
        };
        let charge = runtime.charge_delivery(capacity);
        let ghost drawn = charge;
        let id: u64 = self.transport.reserve_with_charge(endpoint, charge);
        let awaits = completion.is_some();
        let subscription = match completion {
            Some(completion) => match completion.subscribe(id) {
                Attachment::Ready(_) => None,
                Attachment::Registered(edge) => Some(edge),
            },
            None => None,
        };
        let entry = LocalDelivery {
            id,
            phase,
            callback,
            subscription,
            leased,
            awaits,
            status: None,
        };
        let ghost kept = entry;
        self.callbacks.push(entry);
        self.observers.push(Observer { id, handles: 1, settled: None });
        proof {
            joined_wf(v, self@, endpoint, drawn, kept, true);
            assert(registered(v, self@, r, runtime@, capacity, kept, drawn));
            reserved_effect(v.transport, endpoint, drawn);
            newcomer_is_seen(self@, id);
            let n = v.callbacks.len() as int;
            assert(entry_at(self@.callbacks, n, id));
            entry_found(self@.callbacks, n, id);
        }
        id
    }

    fn prepare_with_capacity(
        &mut self,
        runtime: &mut SWRuntime,
        lease: WorkLease,
        capacity: Option<&SWReservation>,
        phase: SWPhase,
        callback: C,
    ) -> (result: Result<SWPreparedDelivery, SWOwnerRejected<C>>)
        requires
            old(self).wf(),
            old(runtime).wf(),
            old(self)@.transport.runtime == old(runtime)@.control.id,
            reservation_known(old(runtime)@.capacity, old(runtime)@.control.id, capacity),
        ensures
            final(self).wf(),
            final(runtime).wf(),
            final(self).held() == old(self).held(),
            prepared(
                old(self)@,
                final(self)@,
                old(runtime)@,
                final(runtime)@,
                lease,
                capacity,
                phase,
                callback,
                result,
            ),
    {
        if lease.check().is_some() {
            return Err(SWOwnerRejected { reason: SWOwnerError::Closed, callback });
        }
        if let Some(reason) = self.accept() {
            return Err(SWOwnerRejected { reason, callback });
        }
        if let Some(reason) = self.check_reserve(runtime, capacity) {
            self.refuse_reserve(runtime, capacity);
            return Err(SWOwnerRejected { reason, callback });
        }
        let ghost t = self@.transport;
        let leased = lease.is_accounted();
        let id: u64 = self.join(runtime, capacity, None, leased, phase, callback);
        assert(new_entry(t, lease, None, false, phase, callback) == (LocalDelivery {
            id,
            phase,
            callback,
            subscription: None,
            leased,
            awaits: false,
            status: None,
        }));
        Ok(
            SWPreparedDelivery {
                ticket: SWDeliveryTicket::new(id),
                delivery: SWDelivery::new(id),
                control: SWDeliveryControl::new(id),
            },
        )
    }

    fn on_ready_with_lease(
        &mut self,
        runtime: &mut SWRuntime,
        completion: &mut SWCompletion,
        lease: WorkLease,
        capacity: Option<&SWReservation>,
        phase: SWPhase,
        callback: C,
    ) -> (result: Result<(SWDelivery, SWDeliveryControl), SWOwnerRejected<C>>)
        requires
            old(self).wf(),
            old(runtime).wf(),
            old(self)@.transport.runtime == old(runtime)@.control.id,
            reservation_known(old(runtime)@.capacity, old(runtime)@.control.id, capacity),
            old(completion)@.wf(),
            old(completion)@.status is None ==> old(completion)@.next_subscriber < u64::MAX,
        ensures
            final(self).wf(),
            final(runtime).wf(),
            final(self).held() == old(self).held(),
            final(completion)@.wf(),
            attached_on_ready(
                old(self)@,
                final(self)@,
                old(runtime)@,
                final(runtime)@,
                old(completion)@,
                final(completion)@,
                lease,
                capacity,
                phase,
                callback,
                result,
            ),
    {
        if lease.check().is_some() {
            return Err(SWOwnerRejected { reason: SWOwnerError::Closed, callback });
        }
        if let Some(reason) = self.accept() {
            return Err(SWOwnerRejected { reason, callback });
        }
        if let Some(reason) = self.check_reserve(runtime, capacity) {
            self.refuse_reserve(runtime, capacity);
            return Err(SWOwnerRejected { reason, callback });
        }
        let ghost t = self@.transport;
        let ghost subscription = awaited(completion@);
        let leased = lease.is_accounted();
        let ended = completion.status();
        let id: u64 = self.join(runtime, capacity, Some(completion), leased, phase, callback);
        assert(new_entry(t, lease, subscription, true, phase, callback) == (LocalDelivery {
            id,
            phase,
            callback,
            subscription,
            leased,
            awaits: true,
            status: None,
        }));
        if let Some(status) = ended {
            let ghost middle = self@;
            self.ready(id, status);
            proof {
                readied_is_seen(middle, self@, id);
                report_is_kept(middle, id, status);
            }
        }
        Ok((SWDelivery::new(id), SWDeliveryControl::new(id)))
    }

    /// Reserves bounded notification capacity before an application admits
    /// producing work. Suppressing an unused ticket cleans the callback locally at
    /// the next owner pump or close.
    pub fn prepare_delivery(
        &mut self,
        runtime: &mut SWRuntime,
        phase: SWPhase,
        callback: C,
    ) -> (result: Result<SWPreparedDelivery, SWOwnerRejected<C>>)
        requires
            old(self).wf(),
            old(runtime).wf(),
            old(self)@.transport.runtime == old(runtime)@.control.id,
        ensures
            final(self).wf(),
            final(runtime).wf(),
            final(self).held() == old(self).held(),
            prepared(
                old(self)@,
                final(self)@,
                old(runtime)@,
                final(runtime)@,
                WorkLease::Unset,
                None,
                phase,
                callback,
                result,
            ),
    {
        self.prepare_with_capacity(runtime, WorkLease::Unset, None, phase, callback)
    }

    /// Reserves a promised delivery from a pipeline's delivery credits. The
    /// callback stays owner-local and its credit lasts through settlement.
    pub fn prepare_delivery_reserved(
        &mut self,
        runtime: &mut SWRuntime,
        reservation: &SWReservation,
        phase: SWPhase,
        callback: C,
    ) -> (result: Result<SWPreparedDelivery, SWOwnerRejected<C>>)
        requires
            old(self).wf(),
            old(runtime).wf(),
            old(self)@.transport.runtime == old(runtime)@.control.id,
            reservation_known(old(runtime)@.capacity, old(runtime)@.control.id, Some(reservation)),
        ensures
            final(self).wf(),
            final(runtime).wf(),
            final(self).held() == old(self).held(),
            prepared(
                old(self)@,
                final(self)@,
                old(runtime)@,
                final(runtime)@,
                WorkLease::Unset,
                Some(reservation),
                phase,
                callback,
                result,
            ),
    {
        self.prepare_with_capacity(runtime, WorkLease::Unset, Some(reservation), phase, callback)
    }

    /// Reserves a delivery owned by a consumer work set. Cancellation of that set
    /// suppresses this unclaimed callback without cancelling its producer.
    pub fn prepare_delivery_in(
        &mut self,
        runtime: &mut SWRuntime,
        lease: WorkLease,
        phase: SWPhase,
        callback: C,
    ) -> (result: Result<SWPreparedDelivery, SWOwnerRejected<C>>)
        requires
            old(self).wf(),
            old(runtime).wf(),
            old(self)@.transport.runtime == old(runtime)@.control.id,
        ensures
            final(self).wf(),
            final(runtime).wf(),
            final(self).held() == old(self).held(),
            prepared(
                old(self)@,
                final(self)@,
                old(runtime)@,
                final(runtime)@,
                lease,
                None,
                phase,
                callback,
                result,
            ),
    {
        self.prepare_with_capacity(runtime, lease, None, phase, callback)
    }

    /// Reserves a consumer-owned promised delivery from a pipeline's credits.
    pub fn prepare_delivery_reserved_in(
        &mut self,
        runtime: &mut SWRuntime,
        lease: WorkLease,
        reservation: &SWReservation,
        phase: SWPhase,
        callback: C,
    ) -> (result: Result<SWPreparedDelivery, SWOwnerRejected<C>>)
        requires
            old(self).wf(),
            old(runtime).wf(),
            old(self)@.transport.runtime == old(runtime)@.control.id,
            reservation_known(old(runtime)@.capacity, old(runtime)@.control.id, Some(reservation)),
        ensures
            final(self).wf(),
            final(runtime).wf(),
            final(self).held() == old(self).held(),
            prepared(
                old(self)@,
                final(self)@,
                old(runtime)@,
                final(runtime)@,
                lease,
                Some(reservation),
                phase,
                callback,
                result,
            ),
    {
        self.prepare_with_capacity(runtime, lease, Some(reservation), phase, callback)
    }

    /// Reserves a promised descendant delivery using the lease of an existing
    /// discoverer.
    pub fn prepare_delivery_from(
        &mut self,
        runtime: &mut SWRuntime,
        lease: WorkLease,
        phase: SWPhase,
        callback: C,
    ) -> (result: Result<SWPreparedDelivery, SWOwnerRejected<C>>)
        requires
            old(self).wf(),
            old(runtime).wf(),
            old(self)@.transport.runtime == old(runtime)@.control.id,
        ensures
            final(self).wf(),
            final(runtime).wf(),
            final(self).held() == old(self).held(),
            prepared(
                old(self)@,
                final(self)@,
                old(runtime)@,
                final(runtime)@,
                lease,
                None,
                phase,
                callback,
                result,
            ),
    {
        self.prepare_with_capacity(runtime, lease, None, phase, callback)
    }

    /// Reserves a descendant consumer delivery from a pipeline's credits.
    pub fn prepare_delivery_reserved_from(
        &mut self,
        runtime: &mut SWRuntime,
        lease: WorkLease,
        reservation: &SWReservation,
        phase: SWPhase,
        callback: C,
    ) -> (result: Result<SWPreparedDelivery, SWOwnerRejected<C>>)
        requires
            old(self).wf(),
            old(runtime).wf(),
            old(self)@.transport.runtime == old(runtime)@.control.id,
            reservation_known(old(runtime)@.capacity, old(runtime)@.control.id, Some(reservation)),
        ensures
            final(self).wf(),
            final(runtime).wf(),
            final(self).held() == old(self).held(),
            prepared(
                old(self)@,
                final(self)@,
                old(runtime)@,
                final(runtime)@,
                lease,
                Some(reservation),
                phase,
                callback,
                result,
            ),
    {
        self.prepare_with_capacity(runtime, lease, Some(reservation), phase, callback)
    }

    /// Attaches a callback to a CPU completion. Ready-at-registration follows the
    /// same deferred path as pending work.
    pub fn on_ready(
        &mut self,
        runtime: &mut SWRuntime,
        completion: &mut SWCompletion,
        phase: SWPhase,
        callback: C,
    ) -> (result: Result<(SWDelivery, SWDeliveryControl), SWOwnerRejected<C>>)
        requires
            old(self).wf(),
            old(runtime).wf(),
            old(self)@.transport.runtime == old(runtime)@.control.id,
            old(completion)@.wf(),
            old(completion)@.status is None ==> old(completion)@.next_subscriber < u64::MAX,
        ensures
            final(self).wf(),
            final(runtime).wf(),
            final(self).held() == old(self).held(),
            final(completion)@.wf(),
            attached_on_ready(
                old(self)@,
                final(self)@,
                old(runtime)@,
                final(runtime)@,
                old(completion)@,
                final(completion)@,
                WorkLease::Unset,
                None,
                phase,
                callback,
                result,
            ),
    {
        self.on_ready_with_lease(runtime, completion, WorkLease::Unset, None, phase, callback)
    }

    /// Attaches a consumer-owned delivery to an outcome. Cancelling that set only
    /// suppresses its callback; other consumers and the producer remain live.
    pub fn on_ready_in(
        &mut self,
        runtime: &mut SWRuntime,
        lease: WorkLease,
        completion: &mut SWCompletion,
        phase: SWPhase,
        callback: C,
    ) -> (result: Result<(SWDelivery, SWDeliveryControl), SWOwnerRejected<C>>)
        requires
            old(self).wf(),
            old(runtime).wf(),
            old(self)@.transport.runtime == old(runtime)@.control.id,
            old(completion)@.wf(),
            old(completion)@.status is None ==> old(completion)@.next_subscriber < u64::MAX,
        ensures
            final(self).wf(),
            final(runtime).wf(),
            final(self).held() == old(self).held(),
            final(completion)@.wf(),
            attached_on_ready(
                old(self)@,
                final(self)@,
                old(runtime)@,
                final(runtime)@,
                old(completion)@,
                final(completion)@,
                lease,
                None,
                phase,
                callback,
                result,
            ),
    {
        self.on_ready_with_lease(runtime, completion, lease, None, phase, callback)
    }

    /// Attaches to an existing outcome using reserved delivery capacity. No CPU
    /// job is created.
    pub fn on_ready_reserved(
        &mut self,
        runtime: &mut SWRuntime,
        reservation: &SWReservation,
        completion: &mut SWCompletion,
        phase: SWPhase,
        callback: C,
    ) -> (result: Result<(SWDelivery, SWDeliveryControl), SWOwnerRejected<C>>)
        requires
            old(self).wf(),
            old(runtime).wf(),
            old(self)@.transport.runtime == old(runtime)@.control.id,
            reservation_known(old(runtime)@.capacity, old(runtime)@.control.id, Some(reservation)),
            old(completion)@.wf(),
            old(completion)@.status is None ==> old(completion)@.next_subscriber < u64::MAX,
        ensures
            final(self).wf(),
            final(runtime).wf(),
            final(self).held() == old(self).held(),
            final(completion)@.wf(),
            attached_on_ready(
                old(self)@,
                final(self)@,
                old(runtime)@,
                final(runtime)@,
                old(completion)@,
                final(completion)@,
                WorkLease::Unset,
                Some(reservation),
                phase,
                callback,
                result,
            ),
    {
        self.on_ready_with_lease(runtime, completion, WorkLease::Unset, Some(reservation), phase, callback)
    }

    /// A reserved subscription owned by a consumer set, independent of the
    /// producer's set. Its credit and set count last through owner-local cleanup.
    pub fn on_ready_reserved_in(
        &mut self,
        runtime: &mut SWRuntime,
        lease: WorkLease,
        reservation: &SWReservation,
        completion: &mut SWCompletion,
        phase: SWPhase,
        callback: C,
    ) -> (result: Result<(SWDelivery, SWDeliveryControl), SWOwnerRejected<C>>)
        requires
            old(self).wf(),
            old(runtime).wf(),
            old(self)@.transport.runtime == old(runtime)@.control.id,
            reservation_known(old(runtime)@.capacity, old(runtime)@.control.id, Some(reservation)),
            old(completion)@.wf(),
            old(completion)@.status is None ==> old(completion)@.next_subscriber < u64::MAX,
        ensures
            final(self).wf(),
            final(runtime).wf(),
            final(self).held() == old(self).held(),
            final(completion)@.wf(),
            attached_on_ready(
                old(self)@,
                final(self)@,
                old(runtime)@,
                final(runtime)@,
                old(completion)@,
                final(completion)@,
                lease,
                Some(reservation),
                phase,
                callback,
                result,
            ),
    {
        self.on_ready_with_lease(runtime, completion, lease, Some(reservation), phase, callback)
    }

    /// Attaches a reserved descendant subscription after the consumer set has
    /// sealed. Cancelling that set suppresses only this consumer's publication.
    pub fn on_ready_reserved_from(
        &mut self,
        runtime: &mut SWRuntime,
        lease: WorkLease,
        reservation: &SWReservation,
        completion: &mut SWCompletion,
        phase: SWPhase,
        callback: C,
    ) -> (result: Result<(SWDelivery, SWDeliveryControl), SWOwnerRejected<C>>)
        requires
            old(self).wf(),
            old(runtime).wf(),
            old(self)@.transport.runtime == old(runtime)@.control.id,
            reservation_known(old(runtime)@.capacity, old(runtime)@.control.id, Some(reservation)),
            old(completion)@.wf(),
            old(completion)@.status is None ==> old(completion)@.next_subscriber < u64::MAX,
        ensures
            final(self).wf(),
            final(runtime).wf(),
            final(self).held() == old(self).held(),
            final(completion)@.wf(),
            attached_on_ready(
                old(self)@,
                final(self)@,
                old(runtime)@,
                final(runtime)@,
                old(completion)@,
                final(completion)@,
                lease,
                Some(reservation),
                phase,
                callback,
                result,
            ),
    {
        self.on_ready_with_lease(runtime, completion, lease, Some(reservation), phase, callback)
    }

    /// Queues a local callback for this phase. It never invokes inline.
    pub fn try_post(&mut self, runtime: &mut SWRuntime, phase: SWPhase, callback: C) -> (result: Result<
        (SWDelivery, SWDeliveryControl),
        SWOwnerRejected<C>,
    >)
        requires
            old(self).wf(),
            old(runtime).wf(),
            old(self)@.transport.runtime == old(runtime)@.control.id,
        ensures
            final(self).wf(),
            final(runtime).wf(),
            final(self).held() == old(self).held(),
            ({
                let id = old(self)@.transport.next_id as u64;
                match result {
                    Ok(handles) => {
                        &&& reserve_error(old(self)@, old(runtime)@, None) is None
                        &&& handles.0.identity() == id
                        &&& handles.1.identity() == id
                        &&& final(self)@.status_of(id) == Some(SWDeliveryStatus::Ready)
                        &&& exists|middle: OwnerView<C>, charge: Option<SWReservation>|
                            {
                                &&& #[trigger] registered(
                                    old(self)@,
                                    middle,
                                    old(runtime)@,
                                    final(runtime)@,
                                    None,
                                    LocalDelivery {
                                        id,
                                        phase,
                                        callback,
                                        subscription: None,
                                        leased: false,
                                        awaits: false,
                                        status: None,
                                    },
                                    charge,
                                )
                                &&& final(self)@ == middle.fulfilled(id)
                            }
                    },
                    Err(rejected) => {
                        &&& reserve_error(old(self)@, old(runtime)@, None) == Some(
                            rejected.reason,
                        )
                        &&& rejected.callback == callback
                        &&& final(self)@ == old(self)@
                        &&& final(runtime)@ == after_refused_reserve(
                            old(self)@,
                            old(runtime)@,
                            None,
                        )
                    },
                }
            }),
    {
        if let Some(reason) = self.accept() {
            return Err(SWOwnerRejected { reason, callback });
        }
        if let Some(reason) = self.check_reserve(runtime, None) {
            self.refuse_reserve(runtime, None);
            return Err(SWOwnerRejected { reason, callback });
        }
        let id: u64 = self.join(runtime, None, None, false, phase, callback);
        let ghost middle = self@;
        self.fulfill(id);
        proof {
            readied_is_seen(middle, self@, id);
        }
        Ok((SWDelivery::new(id), SWDeliveryControl::new(id)))
    }

    /// The transferable, phase-addressed route of this owner. Callbacks sent
    /// through it still execute and are destroyed on the owner thread.
    pub fn sender(&self) -> (sender: SWOwnerSender)
        ensures
            sender.runtime() == self@.transport.runtime,
    {
        SWOwnerSender { runtime: self.transport.runtime_identity() }
    }

    fn cancel(&mut self, id: u64) -> (result: SWCancelResult)
        requires
            old(self).wf(),
        ensures
            final(self).wf(),
            final(self).held() == old(self).held(),
            result == old(self)@.transport.cancellation(id),
            final(self)@ == (OwnerView {
                transport: old(self)@.transport.cancelled(id),
                ..old(self)@
            }),
    {
        let ghost v = self@;
        let result = self.transport.cancel(id);
        proof {
            let t = v.transport;
            if result == SWCancelResult::Requested {
                let i = delivery_slot(t.records, id);
                assert(delivery_at(t.records, i, id));
                stored_effect(t, self@.transport, id, self@.transport.records[i]);
            }
            retransported_wf(v, self@);
        }
        result
    }

    fn suppress(&mut self, id: u64)
        requires
            old(self).wf(),
        ensures
            final(self).wf(),
            final(self).held() == old(self).held(),
            final(self)@ == (OwnerView {
                transport: old(self)@.transport.suppressed(id),
                ..old(self)@
            }),
    {
        let ghost v = self@;
        self.transport.suppress(id);
        proof {
            suppressed_effect(v.transport, id);
            retransported_wf(v, self@);
        }
    }
}

impl<O, C> SWOwner<O, C> {
    fn find_observer(&self, id: u64) -> (found: Option<usize>)
        requires
            self@.watched(),
        ensures
            match found {
                Some(i) => {
                    &&& observer_at(self@.observers, i as int, id)
                    &&& observed(self@.observers, id)
                    &&& observer_slot(self@.observers, id) == i
                },
                None => !observed(self@.observers, id),
            },
    {
        let mut index: usize = 0;
        while index < self.observers.len()
            invariant
                self@.watched(),
                self@.observers == self.observers@,
                index <= self.observers@.len(),
                forall|i: int| 0 <= i < index ==> (#[trigger] self.observers@[i]).id != id,
            decreases self.observers@.len() - index,
        {
            if self.observers[index].id == id {
                proof {
                    observer_found(self@.observers, index as int, id);
                }
                return Some(index);
            }
            index += 1;
        }
        proof {
            if observed(self@.observers, id) {
                let i = observer_slot(self@.observers, id);
                assert(observer_at(self@.observers, i, id));
                assert(self.observers@[i].id == id);
            }
        }
        None
    }

    /// The handles of a delivery see how it settled.
    fn note(&mut self, id: u64, status: SWDeliveryStatus)
        requires
            old(self)@.watched(),
        ensures
            final(self).held() == old(self).held(),
            final(self).cached() == old(self).cached(),
            final(self)@ == (OwnerView {
                observers: noted(old(self)@.observers, id, status),
                ..old(self)@
            }),
    {
        let ghost v = self@;
        if let Some(i) = self.find_observer(id) {
            let observer = self.observers[i];
            self.observers.set(i, Observer { settled: Some(status), ..observer });
        }
        proof {
            let r = noted(v.observers, id, status);
            assert forall|j: int| 0 <= j < r.len() implies self@.observers[j] == r[j] by {
                if v.observers[j].id == id {
                    observer_found(v.observers, j, id);
                }
            }
            assert(self@.observers =~= r);
        }
    }
}

impl<C> OwnerView<C> {
    /// Another handle of a delivery.
    pub open spec fn shared(self, id: u64) -> OwnerView<C> {
        let i = observer_slot(self.observers, id);
        let o = self.observers[i];
        OwnerView {
            observers: self.observers.update(
                i,
                Observer { handles: (o.handles + 1) as usize, ..o },
            ),
            ..self
        }
    }

    /// A handle of a delivery has gone; nobody sees it after the last one.
    pub open spec fn released(self, id: u64) -> OwnerView<C> {
        let i = observer_slot(self.observers, id);
        let o = self.observers[i];
        if !observed(self.observers, id) {
            self
        } else if o.handles == 1 {
            OwnerView { observers: self.observers.remove(i), ..self }
        } else {
            OwnerView {
                observers: self.observers.update(
                    i,
                    Observer { handles: (o.handles - 1) as usize, ..o },
                ),
                ..self
            }
        }
    }
}

impl SWDelivery {
    /// How far this delivery is, or how it settled.
    pub fn status<O, C>(&self, owner: &SWOwner<O, C>) -> (status: Option<SWDeliveryStatus>)
        requires
            owner.wf(),
        ensures
            status == owner@.status_of(self.identity()),
    {
        match owner.find_observer(self.id) {
            Some(i) => match owner.observers[i].settled {
                Some(status) => Some(status),
                None => owner.transport.status(self.id),
            },
            None => None,
        }
    }

    /// Another handle of the same delivery, unless the count is exhausted.
    pub fn share<O, C>(&self, owner: &mut SWOwner<O, C>) -> (shared: Option<SWDelivery>)
        requires
            old(owner).wf(),
        ensures
            final(owner).wf(),
            final(owner).held() == old(owner).held(),
            ({
                let v = old(owner)@;
                let id = self.identity();
                let room = observed(v.observers, id) && v.observers[observer_slot(
                    v.observers,
                    id,
                )].handles < usize::MAX;
                match shared {
                    Some(shared) => {
                        &&& room
                        &&& shared.identity() == id
                        &&& final(owner)@ == v.shared(id)
                    },
                    None => !room && final(owner)@ == v,
                }
            }),
    {
        let ghost v = owner@;
        match owner.find_observer(self.id) {
            Some(i) => {
                let observer = owner.observers[i];
                if observer.handles == usize::MAX {
                    return None;
                }
                owner.observers.set(
                    i,
                    Observer { handles: observer.handles + 1, ..observer },
                );
                proof {
                    rehandled_wf(v, owner@, i as int);
                }
                Some(SWDelivery { id: self.id })
            },
            None => None,
        }
    }

    /// Ends this handle.
    pub fn release<O, C>(self, owner: &mut SWOwner<O, C>)
        requires
            old(owner).wf(),
        ensures
            final(owner).wf(),
            final(owner).held() == old(owner).held(),
            final(owner)@ == old(owner)@.released(self.identity()),
    {
        let ghost v = owner@;
        if let Some(i) = owner.find_observer(self.id) {
            let observer = owner.observers[i];
            proof {
                assert(v.observers[i as int].handles > 0);
            }
            if observer.handles == 1 {
                let _ = owner.observers.remove(i);
                proof {
                    unobserved_wf(v, owner@, i as int);
                }
            } else {
                owner.observers.set(
                    i,
                    Observer { handles: observer.handles - 1, ..observer },
                );
                proof {
                    rehandled_wf(v, owner@, i as int);
                }
            }
        }
    }
}

/// Counting handles changes nothing that they see.
proof fn rehandled_wf<C>(v: OwnerView<C>, w: OwnerView<C>, i: int)
    requires
        v.wf(),
        0 <= i < v.observers.len(),
        w == (OwnerView { observers: w.observers, ..v }),
        w.observers.len() == v.observers.len(),
        w.observers[i] == (Observer { handles: w.observers[i].handles, ..v.observers[i] }),
        w.observers[i].handles > 0,
        forall|j: int|
            0 <= j < v.observers.len() && j != i ==> #[trigger] w.observers[j] == v.observers[j],
    ensures
        w.wf(),
{
    assert forall|a: int, b: int| 0 <= a < b < w.observers.len() implies (
    #[trigger] w.observers[a]).id < (#[trigger] w.observers[b]).id by {
        assert(v.observers[a].id < v.observers[b].id);
    }
    assert forall|j: int| 0 <= j < w.observers.len() implies {
        &&& (#[trigger] w.observers[j]).id < w.transport.next_id
        &&& w.observers[j].handles > 0
        &&& w.observers[j].settled is None <==> w.transport.has(w.observers[j].id)
        &&& w.observers[j].settled matches Some(status) ==> status.settled()
    } by {
        assert(v.observers[j].handles > 0);
    }
    resound(v, w);
}

/// Without its last handle a delivery goes on unseen.
proof fn unobserved_wf<C>(v: OwnerView<C>, w: OwnerView<C>, i: int)
    requires
        v.wf(),
        0 <= i < v.observers.len(),
        w == (OwnerView { observers: v.observers.remove(i), ..v }),
    ensures
        w.wf(),
{
    assert forall|j: int| 0 <= j < w.observers.len() implies #[trigger] w.observers[j]
        == v.observers[if j < i {
        j
    } else {
        j + 1
    }] by {}
    assert forall|a: int, b: int| 0 <= a < b < w.observers.len() implies (
    #[trigger] w.observers[a]).id < (#[trigger] w.observers[b]).id by {
        let x = if a < i {
            a
        } else {
            a + 1
        };
        let y = if b < i {
            b
        } else {
            b + 1
        };
        assert(v.observers[x].id < v.observers[y].id);
    }
    assert forall|j: int| 0 <= j < w.observers.len() implies {
        &&& (#[trigger] w.observers[j]).id < w.transport.next_id
        &&& w.observers[j].handles > 0
        &&& w.observers[j].settled is None <==> w.transport.has(w.observers[j].id)
        &&& w.observers[j].settled matches Some(status) ==> status.settled()
    } by {
        assert(v.observers[if j < i {
            j
        } else {
            j + 1
        }].handles > 0);
    }
    resound(v, w);
}

/// Soundness does not rest on handles.
proof fn resound<C>(v: OwnerView<C>, w: OwnerView<C>)
    requires
        v.sound(),
        v.informed(),
        w == (OwnerView { observers: w.observers, ..v }),
    ensures
        w.sound(),
        w.informed(),
{
    assert forall|x: u64| #[trigger] w.unclaimed(x) <==> v.unclaimed(x) by {}
    assert forall|x: u64| #[trigger] has_entry(w.callbacks, x) implies w.unclaimed(x)
        && !has_entry(w.inbox, x) by {
        assert(has_entry(v.callbacks, x));
        assert(v.unclaimed(x));
    }
    assert forall|x: u64| #[trigger] has_entry(w.inbox, x) implies w.unclaimed(x)
        && !w.transport.get(x).received by {
        assert(has_entry(v.inbox, x));
        assert(v.unclaimed(x));
    }
    assert forall|x: u64| #[trigger] w.unclaimed(x) implies has_entry(w.callbacks, x) || has_entry(
        w.inbox,
        x,
    ) by {
        assert(v.unclaimed(x));
    }
    assert forall|x: u64|
        #[trigger] w.transport.has(x) && !w.unclaimed(x) implies w.claimed == Some(x) by {
        assert(v.transport.has(x) && !v.unclaimed(x));
    }
    assert forall|x: u64| w.faulted && #[trigger] w.unclaimed(x) implies w.transport.get(
        x,
    ).cancelled by {
        assert(v.unclaimed(x));
    }
    if let Some(x) = w.claimed {
        assert(v.transport.has(x) && !v.unclaimed(x));
    }
}

impl SWDeliveryControl {
    /// Asks that the delivery not be published; too late once it is claimed.
    pub fn cancel<O, C>(&self, owner: &mut SWOwner<O, C>) -> (result: SWCancelResult)
        requires
            old(owner).wf(),
        ensures
            final(owner).wf(),
            final(owner).held() == old(owner).held(),
            result == old(owner)@.transport.cancellation(self.identity()),
            final(owner)@ == (OwnerView {
                transport: old(owner)@.transport.cancelled(self.identity()),
                ..old(owner)@
            }),
    {
        owner.cancel(self.id)
    }
}

impl SWDeliveryTicket {
    /// The promised result is there: the callback may be published.
    pub fn ready<O, C>(self, owner: &mut SWOwner<O, C>)
        requires
            old(owner).wf(),
        ensures
            final(owner).wf(),
            final(owner).held() == old(owner).held(),
            final(owner)@ == old(owner)@.fulfilled(self.identity()),
    {
        owner.fulfill(self.id)
    }

    /// The promise ends without a result: the callback is cleaned up.
    pub fn suppress<O, C>(self, owner: &mut SWOwner<O, C>)
        requires
            old(owner).wf(),
        ensures
            final(owner).wf(),
            final(owner).held() == old(owner).held(),
            final(owner)@ == (OwnerView {
                transport: old(owner)@.transport.suppressed(self.identity()),
                ..old(owner)@
            }),
    {
        owner.suppress(self.id)
    }
}

/// A sender for callbacks that may originate on other threads. The callback is
/// always deferred to an eligible owner phase.
#[derive(Clone, Copy, Debug, PartialEq, Eq, Structural)]
pub struct SWOwnerSender {
    runtime: u64,
}

/// Why a sender is refused, if it is.
pub open spec fn post_error<C>(owner: OwnerView<C>, runtime: RuntimeView) -> Option<SWOwnerError> {
    if owner.inbox_closed || owner.transport.closed {
        Some(SWOwnerError::Closed)
    } else if owner.inbox_faulted {
        Some(SWOwnerError::Faulted)
    } else {
        delivery_refused(owner.transport, runtime, None)
    }
}

impl SWOwnerSender {
    pub closed spec fn runtime(self) -> u64 {
        self.runtime
    }

    /// Reserves delivery before accepting the callback. Rejection returns it
    /// uninvoked, so the caller decides where its captures are destroyed.
    pub fn try_post<O, C>(
        &self,
        owner: &mut SWOwner<O, C>,
        runtime: &mut SWRuntime,
        phase: SWPhase,
        callback: C,
    ) -> (result: Result<(SWDelivery, SWDeliveryControl), SWOwnerRejected<C>>)
        requires
            old(owner).wf(),
            old(runtime).wf(),
            old(owner)@.transport.runtime == old(runtime)@.control.id,
            old(owner)@.transport.runtime == self.runtime(),
        ensures
            final(owner).wf(),
            final(runtime).wf(),
            final(owner).held() == old(owner).held(),
            ({
                let v = old(owner)@;
                let id = v.transport.next_id as u64;
                match result {
                    Ok(handles) => {
                        &&& post_error(v, old(runtime)@) is None
                        &&& handles.0.identity() == id
                        &&& handles.1.identity() == id
                        &&& final(owner)@.status_of(id) == Some(SWDeliveryStatus::Ready)
                        &&& exists|charge: Option<SWReservation>|
                            {
                                &&& #[trigger] charged_for(
                                    old(runtime)@,
                                    final(runtime)@,
                                    None,
                                    charge,
                                )
                                &&& final(owner)@ == (OwnerView {
                                    transport: v.transport.reserved(
                                        EndpointKind::Ordinary,
                                        charge,
                                    ).readied(id),
                                    inbox: v.inbox.push(
                                        LocalDelivery {
                                            id,
                                            phase,
                                            callback,
                                            subscription: None,
                                            leased: false,
                                            awaits: false,
                                            status: None,
                                        },
                                    ),
                                    observers: v.observers.push(
                                        Observer { id, handles: 1, settled: None },
                                    ),
                                    ..v
                                })
                            }
                    },
                    Err(rejected) => {
                        &&& post_error(v, old(runtime)@) == Some(rejected.reason)
                        &&& rejected.callback == callback
                        &&& final(owner)@ == v
                        &&& final(runtime)@ == (if v.inbox_closed || v.transport.closed
                            || v.inbox_faulted {
                            old(runtime)@
                        } else {
                            after_refused_delivery(v.transport, old(runtime)@, None)
                        })
                    },
                }
            }),
    {
        if owner.inbox_closed || owner.transport.is_closed() {
            return Err(SWOwnerRejected { reason: SWOwnerError::Closed, callback });
        }
        if owner.inbox_faulted {
            return Err(SWOwnerRejected { reason: SWOwnerError::Faulted, callback });
        }
        if let Some(reason) = owner.check_reserve(runtime, None) {
            owner.refuse_reserve(runtime, None);
            return Err(SWOwnerRejected { reason, callback });
        }
        let ghost v = owner@;
        let ghost r = runtime@;
        let charge = runtime.charge_delivery(None);
        let ghost drawn = charge;
        let id: u64 = owner.transport.reserve_with_charge(EndpointKind::Ordinary, charge);
        let entry = LocalDelivery {
            id,
            phase,
            callback,
            subscription: None,
            leased: false,
            awaits: false,
            status: None,
        };
        let ghost kept = entry;
        owner.inbox.push(entry);
        owner.observers.push(Observer { id, handles: 1, settled: None });
        proof {
            joined_wf(v, owner@, EndpointKind::Ordinary, drawn, kept, false);
            assert(charged_for(r, runtime@, None, drawn));
            assert(!has_entry(owner@.callbacks, id)) by {
                if has_entry(owner@.callbacks, id) {
                    let n = v.inbox.len() as int;
                    assert(entry_at(owner@.inbox, n, id));
                    assert(has_entry(owner@.inbox, id));
                }
            }
        }
        let ghost middle = owner@;
        proof {
            reserved_effect(v.transport, EndpointKind::Ordinary, drawn);
            newcomer_is_seen(middle, id);
        }
        owner.fulfill(id);
        proof {
            readied_is_seen(middle, owner@, id);
        }
        Ok((SWDelivery::new(id), SWDeliveryControl::new(id)))
    }
}

/// A pump under way. Budgets apply between callbacks.
#[derive(Clone, Copy, Debug, PartialEq, Eq, Structural)]
pub struct Pump {
    pub phase: SWPhase,
    pub budget: SWPumpBudget,
    /// A batch ends with the entries that were eligible at its start.
    pub frontier: usize,
    pub report: SWPumpReport,
}

impl Pump {
    pub open spec fn wf(self) -> bool {
        self.report.total() <= self.budget.max_entries && self.report.total() <= self.frontier
    }

    pub open spec fn spent(self) -> bool {
        self.report.total() >= self.budget.max_entries || self.report.total() >= self.frontier
    }

    /// What the pump has processed after one more entry.
    pub open spec fn counted(self, invoked: bool) -> Pump {
        Pump {
            report: if invoked {
                SWPumpReport { invoked: (self.report.invoked + 1) as usize, ..self.report }
            } else {
                SWPumpReport { suppressed: (self.report.suppressed + 1) as usize, ..self.report }
            },
            ..self
        }
    }
}

/// What the owner thread does next in a pump.
pub enum PumpStep<C> {
    /// The pump is over.
    Done,
    /// Run this callback, then report how it ended.
    Run(LocalDelivery<C>),
    /// Destroy this callback without running it, then report that.
    Discard(LocalDelivery<C>),
}

/// How many of these pending notifications may be processed in this phase.
pub open spec fn eligible_count<C>(v: OwnerView<C>, pending: Seq<u64>, phase: SWPhase) -> nat
    decreases pending.len(),
{
    if pending.len() == 0 {
        0
    } else {
        eligible_count(v, pending.drop_last(), phase) + if v.eligible(pending.last(), phase) {
            1nat
        } else {
            0nat
        }
    }
}

impl<C> OwnerView<C> {
    /// A pump has observed closure.
    pub open spec fn pump_opened(self) -> OwnerView<C> {
        let v = self.closed_on_request();
        OwnerView { closed: v.closed || v.transport.closed, ..v }
    }

    /// Why a pump is refused, if it is.
    pub open spec fn pump_error(self, phase: SWPhase) -> Option<SWOwnerError> {
        if self.active {
            Some(SWOwnerError::InvalidContext)
        } else if self.phase != Some(phase) && !self.pump_opened().draining() {
            Some(SWOwnerError::WrongPhase)
        } else {
            None
        }
    }

    /// The entries that a batch pump may process, or no limit.
    pub open spec fn frontier(self, phase: SWPhase, mode: SWPumpMode) -> int {
        if mode == SWPumpMode::Batch {
            eligible_count(self, self.pending, phase) as int
        } else {
            usize::MAX as int
        }
    }

    /// What has arrived by the next entry of a pump.
    pub open spec fn looked(self, mode: SWPumpMode) -> OwnerView<C> {
        if mode == SWPumpMode::Live {
            self.received()
        } else {
            self
        }
    }

    /// The callback of a pending notification.
    pub open spec fn callback_of(self, k: int) -> LocalDelivery<C> {
        self.callbacks[entry_slot(self.callbacks, self.pending[k])]
    }

    /// The claimed delivery has been processed.
    pub open spec fn processed(self, panicked: bool) -> OwnerView<C> {
        let settled = self.settled(settled_status(self.active, panicked));
        (if self.active && panicked {
            settled.with_fault()
        } else {
            settled
        }).closed_on_request()
    }

    /// Closure: everything is here, and nothing will be published.
    pub open spec fn closing(self) -> OwnerView<C> {
        OwnerView {
            closed: true,
            inbox_closed: true,
            callbacks: self.callbacks + self.inbox,
            inbox: Seq::empty(),
            transport: self.transport.shut(),
            ..self
        }.received()
    }
}

/// The oldest eligible notification is one and the same.
proof fn next_is<C>(v: OwnerView<C>, k: int, phase: SWPhase)
    requires
        v.next_at(k, phase),
    ensures
        v.next_for(phase) == Some(k),
{
    let c = choose|c: int| v.next_at(c, phase);
    assert(v.next_at(c, phase));
    if c < k {
        assert(!v.eligible(v.pending[c], phase));
    } else if k < c {
        assert(!v.eligible(v.pending[k], phase));
    }
}

proof fn eligible_bounded<C>(v: OwnerView<C>, pending: Seq<u64>, phase: SWPhase)
    ensures
        eligible_count(v, pending, phase) <= pending.len(),
    decreases pending.len(),
{
    if pending.len() > 0 {
        eligible_bounded(v, pending.drop_last(), phase);
    }
}

proof fn drained_wf<C>(v: OwnerView<C>)
    requires
        v.wf(),
    ensures
        v.drained().wf(),
{
    retransported_wf(v, v.drained());
}

impl<O, C> SWOwner<O, C> {
    fn unregister_if_drained(&mut self)
        requires
            old(self).wf(),
        ensures
            final(self).wf(),
            final(self).held() == old(self).held(),
            final(self)@ == old(self)@.drained(),
    {
        proof {
            drained_wf(self@);
        }
        if self.closed && self.callbacks.len() == 0 && self.inbox.len() == 0
            && self.transport.is_empty() {
            self.registered = false;
        }
    }

    /// A snapshot of this owner's deliveries.
    pub fn progress(&self) -> (progress: SWOwnerProgress)
        requires
            self.wf(),
        ensures
            progress.routes == 1,
            progress.waiting == total(
                self@.transport.records,
                in_progress(self@.transport.closed, SWDeliveryStatus::Waiting),
            ),
            progress.ready == total(
                self@.transport.records,
                in_progress(self@.transport.closed, SWDeliveryStatus::Ready),
            ),
            progress.claimed == total(
                self@.transport.records,
                in_progress(self@.transport.closed, SWDeliveryStatus::Claimed),
            ),
            progress.cleanup == total(
                self@.transport.records,
                in_cleanup(self@.transport.closed),
            ),
    {
        self.transport.progress()
    }

    /// Whether the runtime still counts this owner.
    pub fn is_registered(&self) -> (registered: bool)
        ensures
            registered == self@.registered,
    {
        self.registered
    }

    /// Observes a close request: senders are refused from here on, and no
    /// unclaimed callback will be published.
    fn finish_close_request(&mut self)
        requires
            old(self).wf(),
        ensures
            final(self).wf(),
            final(self).held() == old(self).held(),
            final(self)@ == old(self)@.closed_on_request(),
    {
        if self.control.take() {
            self.closed = true;
            self.inbox_closed = true;
            self.transport.close();
        }
        proof {
            let v = old(self)@;
            if v.close_requested {
                all_cancelled_effect(v.transport, self@.transport);
            }
            retransported_wf(v, self@);
        }
        self.unregister_if_drained();
    }

    /// Shuts the delivery route, as runtime abandonment does; local cleanup is
    /// left to the owner thread.
    pub fn shut(&mut self)
        requires
            old(self).wf(),
        ensures
            final(self).wf(),
            final(self).held() == old(self).held(),
            final(self)@ == (OwnerView { transport: old(self)@.transport.shut(), ..old(self)@ }),
    {
        let ghost v = self@;
        self.transport.close();
        proof {
            all_cancelled_effect(v.transport, self@.transport);
            retransported_wf(v, self@);
        }
    }

    fn fault(&mut self)
        requires
            old(self).wf(),
        ensures
            final(self).wf(),
            final(self).held() == old(self).held(),
            final(self)@ == old(self)@.with_fault(),
    {
        let ghost v = self@;
        self.faulted = true;
        self.inbox_faulted = true;
        self.transport.suppress_all();
        proof {
            all_cancelled_effect(v.transport, self@.transport);
            retransported_wf(v, self@);
        }
    }

    /// Takes in everything that is on its way.
    fn receive(&mut self)
        requires
            old(self).wf(),
        ensures
            final(self).wf(),
            final(self).held() == old(self).held(),
            final(self)@ == old(self)@.received(),
    {
        let ghost goal = self@.received();
        loop
            invariant
                self.wf(),
                self.held() == old(self).held(),
                self@.received() == goal,
            ensures
                self@ == goal,
            decreases self@.transport.queue.len(),
        {
            let ghost v = self@;
            match self.transport.try_recv() {
                None => {
                    break;
                },
                Some(id) => {
                    if let Some(i) = find_entry(&self.inbox, id) {
                        let entry = self.inbox.remove(i);
                        self.callbacks.push(entry);
                    }
                    self.pending.push(id);
                    proof {
                        assert(self@ =~= v.received_one());
                        received_one_wf(v, self@);
                    }
                },
            }
        }
    }

    /// Whether a pending notification may be processed in this phase.
    fn is_eligible(&self, id: u64, phase: SWPhase) -> (eligible: bool)
        requires
            self.wf(),
        ensures
            eligible == self@.eligible(id, phase),
    {
        if self.closed || self.faulted || self.transport.is_closed() {
            return true;
        }
        match find_entry(&self.callbacks, id) {
            Some(i) => self.callbacks[i].phase == phase,
            None => false,
        }
    }

    /// The oldest pending notification that may be processed in this phase.
    fn next_for(&self, phase: SWPhase) -> (next: Option<usize>)
        requires
            self.wf(),
        ensures
            match next {
                Some(k) => self@.next_at(k as int, phase) && self@.next_for(phase) == Some(
                    k as int,
                ),
                None => self@.next_for(phase) is None,
            },
    {
        let mut index: usize = 0;
        while index < self.pending.len()
            invariant
                self.wf(),
                index <= self@.pending.len(),
                self@.pending == self.pending@,
                forall|j: int|
                    0 <= j < index ==> !self@.eligible(#[trigger] self@.pending[j], phase),
            decreases self@.pending.len() - index,
        {
            if self.is_eligible(self.pending[index], phase) {
                proof {
                    next_is(self@, index as int, phase);
                }
                return Some(index);
            }
            index += 1;
        }
        None
    }

    /// Counts what a batch pump may process.
    fn count_eligible(&self, phase: SWPhase) -> (count: usize)
        requires
            self.wf(),
        ensures
            count == eligible_count(self@, self@.pending, phase),
    {
        let mut count: usize = 0;
        let mut index: usize = 0;
        while index < self.pending.len()
            invariant
                self.wf(),
                index <= self.pending@.len(),
                self@.pending == self.pending@,
                count == eligible_count(self@, self.pending@.take(index as int), phase),
            decreases self.pending@.len() - index,
        {
            proof {
                let next = self.pending@.take(index + 1);
                assert(next.drop_last() =~= self.pending@.take(index as int));
                eligible_bounded(self@, self.pending@.take(index as int), phase);
            }
            if self.is_eligible(self.pending[index], phase) {
                count += 1;
            }
            index += 1;
        }
        proof {
            assert(self.pending@.take(index as int) =~= self.pending@);
        }
        count
    }

    /// Claims a pending notification and takes its callback out.
    fn take_pending(&mut self, k: usize) -> (taken: (ClaimResult, LocalDelivery<C>))
        requires
            old(self).wf(),
            old(self)@.claimed is None,
            k < old(self)@.pending.len(),
        ensures
            final(self).wf(),
            final(self).held() == old(self).held(),
            final(self)@ == old(self)@.taken(k as int),
            taken.0 == old(self)@.transport.claim_result(old(self)@.pending[k as int]),
            taken.1 == old(self)@.callback_of(k as int),
            taken.1.id == old(self)@.pending[k as int],
    {
        let ghost v = self@;
        proof {
            pending_has_callback(v, k as int);
        }
        let id: u64 = self.pending.remove(k);
        let index = match find_entry(&self.callbacks, id) {
            Some(i) => i,
            None => 0,
        };
        let entry = self.callbacks.remove(index);
        let result = self.transport.claim(id);
        self.claimed = Some(id);
        self.active = result == ClaimResult::Run;
        proof {
            assert(self@ =~= v.taken(k as int));
            taken_wf(v, self@, k as int);
        }
        (result, entry)
    }

    /// Starts a pump of this phase. Entries are then run or cleaned one by one
    /// within the caller's budget.
    pub fn pump(&mut self, phase: SWPhase, budget: SWPumpBudget) -> (result: Result<
        Pump,
        SWOwnerError,
    >)
        requires
            old(self).wf(),
            old(self)@.claimed is Some ==> old(self)@.active,
        ensures
            final(self).wf(),
            final(self).held() == old(self).held(),
            match result {
                Ok(pump) => {
                    &&& old(self)@.pump_error(phase) is None
                    &&& final(self)@ == old(self)@.pump_opened().received()
                    &&& pump == (Pump {
                        phase,
                        budget,
                        frontier: final(self)@.frontier(phase, budget.mode) as usize,
                        report: SWPumpReport { invoked: 0, suppressed: 0 },
                    })
                    &&& 0 <= final(self)@.frontier(phase, budget.mode) <= usize::MAX
                    &&& pump.wf()
                    &&& !final(self)@.active
                    &&& final(self)@.claimed is None
                    &&& final(self)@.transport.queue.len() == 0
                },
                Err(error) => {
                    &&& old(self)@.pump_error(phase) == Some(error)
                    &&& final(self)@ == (if error == SWOwnerError::InvalidContext {
                        old(self)@
                    } else {
                        old(self)@.pump_opened()
                    })
                },
            },
    {
        if self.active {
            return Err(SWOwnerError::InvalidContext);
        }
        self.finish_close_request();
        let ghost v = self@;
        if self.transport.is_closed() {
            self.closed = true;
        }
        proof {
            retransported_wf(v, self@);
            assert(self@ =~= old(self)@.pump_opened());
        }
        let current = match self.phase {
            Some(current) => current == phase,
            None => false,
        };
        if !current && !self.closed && !self.faulted && !self.transport.is_closed() {
            return Err(SWOwnerError::WrongPhase);
        }
        proof {
            received_keeps(self@);
        }
        self.receive();
        let frontier: usize = match budget.mode {
            SWPumpMode::Batch => self.count_eligible(phase),
            SWPumpMode::Live => usize::MAX,
        };
        Ok(
            Pump {
                phase,
                budget,
                frontier,
                report: SWPumpReport { invoked: 0, suppressed: 0 },
            },
        )
    }

    /// The next entry of a pump: the oldest one that is eligible, unless the
    /// budget is spent or its time has expired.
    pub fn pump_next(&mut self, pump: &Pump, expired: bool) -> (step: PumpStep<C>)
        requires
            old(self).wf(),
            pump.wf(),
            !old(self)@.active,
            old(self)@.claimed is None,
        ensures
            final(self).wf(),
            final(self).held() == old(self).held(),
            final(self)@.active == (step is Run),
            step matches PumpStep::Run(entry) ==> (entry.awaits ==> entry.status is Some),
            final(self)@.claimed == (match step {
                PumpStep::Done => None,
                PumpStep::Run(entry) => Some(entry.id),
                PumpStep::Discard(entry) => Some(entry.id),
            }),
            ({
                let v = old(self)@;
                let w = v.looked(pump.budget.mode);
                if pump.spent() || expired {
                    step is Done && final(self)@ == v.drained()
                } else {
                    match w.next_for(pump.phase) {
                        None => step is Done && final(self)@ == w.drained(),
                        Some(k) => {
                            &&& w.next_at(k, pump.phase)
                            &&& final(self)@ == w.taken(k)
                            &&& match w.transport.claim_result(w.pending[k]) {
                                ClaimResult::Run => step == PumpStep::Run(w.callback_of(k)),
                                ClaimResult::Suppress => step == PumpStep::Discard(
                                    w.callback_of(k),
                                ),
                            }
                        },
                    }
                }
            }),
            ({
                let v = old(self)@;
                let w = final(self)@;
                let count = pump.report.invoked + pump.report.suppressed;
                let over = count >= pump.budget.max_entries || count >= pump.frontier || expired;
                let live = pump.budget.mode == SWPumpMode::Live;
                &&& over ==> step is Done && w.pending == v.pending && w.transport == v.transport
                &&& !over && live ==> w.transport.queue.len() == 0
                &&& !over && live && step is Done ==> w.pending == v.pending + v.transport.queue
                &&& !over && !live ==> w.transport.queue == v.transport.queue
                &&& !over && !live && step is Done ==> w.pending == v.pending
                &&& !over && step is Done && w.pending.len() > 0 ==> !w.closed && !w.faulted
                    && !w.transport.closed
                &&& !over && step is Done ==> forall|k: int, e: int|
                    0 <= k < w.pending.len() && 0 <= e < w.callbacks.len() && (
                    #[trigger] w.callbacks[e]).id == (#[trigger] w.pending[k])
                        ==> w.callbacks[e].phase != pump.phase
                &&& step matches PumpStep::Run(entry) ==> entry.phase == pump.phase && !v.closed
                    && !v.faulted && !v.transport.closed
                &&& !(step is Done) ==> v.pending.contains(w.claimed->0) || live
                    && v.transport.queue.contains(w.claimed->0)
            }),
    {
        let processed: usize = pump.report.processed();
        if processed >= pump.budget.max_entries || processed >= pump.frontier || expired {
            self.unregister_if_drained();
            return PumpStep::Done;
        }
        if pump.budget.mode == SWPumpMode::Live {
            self.receive();
        }
        proof {
            received_keeps(old(self)@);
            arrivals_keep_their_order(old(self)@);
            assert(self@ == old(self)@.looked(pump.budget.mode));
        }
        match self.next_for(pump.phase) {
            None => {
                proof {
                    waiting_callbacks_are_of_other_phases(self@, pump.phase);
                }
                self.unregister_if_drained();
                PumpStep::Done
            },
            Some(k) => {
                proof {
                    run_is_informed(self@, k as int);
                    if self@.transport.claim_result(self@.pending[k as int]) == ClaimResult::Run {
                        callbacks_run_in_their_phase(self@, k as int, pump.phase);
                    }
                    let id = self@.pending[k as int];
                    assert(self@.pending.contains(id));
                }
                let (result, entry) = self.take_pending(k);
                match result {
                    ClaimResult::Run => PumpStep::Run(entry),
                    ClaimResult::Suppress => PumpStep::Discard(entry),
                }
            },
        }
    }

    /// Reports that the entry in hand was run or destroyed. Returns how the
    /// delivery settled, and its capacity.
    pub fn pump_settle(&mut self, pump: &mut Pump, panicked: bool) -> (settled: (
        SWDeliveryStatus,
        Option<SWReservation>,
    ))
        requires
            old(self).wf(),
            old(pump).wf(),
            !old(pump).spent(),
            old(self)@.claimed is Some,
        ensures
            final(self).wf(),
            final(self).held() == old(self).held(),
            final(self)@ == old(self)@.processed(panicked),
            final(self)@.claimed is None,
            !final(self)@.active,
            *final(pump) == old(pump).counted(old(self)@.active && !panicked),
            final(pump).wf(),
            settled.0 == settled_status(old(self)@.active, panicked),
            settled.1 == charge_of(old(self)@.transport, old(self)@.claimed->0),
            observed(old(self)@.observers, old(self)@.claimed->0) ==> final(self)@.status_of(
                old(self)@.claimed->0,
            ) == Some(settled.0),
    {
        let ran = self.active;
        let settled = self.settle_claimed(panicked);
        if ran && !panicked {
            pump.report = SWPumpReport {
                invoked: pump.report.invoked + 1,
                suppressed: pump.report.suppressed,
            };
        } else {
            pump.report = SWPumpReport {
                invoked: pump.report.invoked,
                suppressed: pump.report.suppressed + 1,
            };
        }
        settled
    }

    /// Settles the delivery in hand: its place is free, and its handles see how
    /// it ended.
    fn settle_as(&mut self, status: SWDeliveryStatus) -> (capacity: Option<SWReservation>)
        requires
            old(self).wf(),
            old(self)@.claimed is Some,
            status.settled(),
        ensures
            final(self).wf(),
            final(self).held() == old(self).held(),
            final(self)@ == old(self)@.settled(status),
            capacity == charge_of(old(self)@.transport, old(self)@.claimed->0),
    {
        let ghost v = self@;
        let mut capacity: Option<SWReservation> = None;
        if let Some(id) = self.claimed {
            assert(v.transport.has(id) && !v.unclaimed(id));
            self.note(id, status);
            capacity = self.transport.settle(id);
        }
        self.claimed = None;
        self.active = false;
        proof {
            assert(self@ =~= v.settled(status));
            settled_owner_wf(v, self@, status);
        }
        capacity
    }

    fn settle_claimed(&mut self, panicked: bool) -> (settled: (
        SWDeliveryStatus,
        Option<SWReservation>,
    ))
        requires
            old(self).wf(),
            old(self)@.claimed is Some,
        ensures
            final(self).wf(),
            final(self).held() == old(self).held(),
            final(self)@ == old(self)@.processed(panicked),
            final(self)@.claimed is None,
            !final(self)@.active,
            settled.0 == settled_status(old(self)@.active, panicked),
            settled.1 == charge_of(old(self)@.transport, old(self)@.claimed->0),
            observed(old(self)@.observers, old(self)@.claimed->0) ==> final(self)@.status_of(
                old(self)@.claimed->0,
            ) == Some(settled.0),
    {
        let ran = self.active;
        let ghost v = self@;
        let status = if !ran {
            SWDeliveryStatus::Suppressed
        } else if panicked {
            SWDeliveryStatus::Panicked
        } else {
            SWDeliveryStatus::Published
        };
        let capacity = self.settle_as(status);
        if ran && panicked {
            self.fault();
        }
        self.finish_close_request();
        proof {
            if observed(v.observers, v.claimed->0) {
                noted_status(v.observers, v.claimed->0, status);
            }
        }
        (status, capacity)
    }

    /// Starts immediate access to a ready outcome in the selected phase. A
    /// refusal leaves the caller's callback untouched.
    pub fn with_ready(&mut self, phase: SWPhase, ready: bool) -> (error: Option<SWOwnerError>)
        requires
            old(self).wf(),
        ensures
            final(self).wf(),
            final(self).held() == old(self).held(),
            error == old(self)@.access_error(phase, ready),
            final(self)@ == (if error is None {
                OwnerView { active: true, ..old(self)@ }
            } else {
                old(self)@
            }),
    {
        if let Some(reason) = self.accept() {
            return Some(reason);
        }
        let current = match self.phase {
            Some(current) => current == phase,
            None => false,
        };
        if !current {
            return Some(SWOwnerError::WrongPhase);
        }
        if !ready {
            return Some(SWOwnerError::NotReady);
        }
        self.active = true;
        proof {
            retransported_wf(old(self)@, self@);
        }
        None
    }

    /// Ends immediate access. A panic faults every ordinary route; the host
    /// may inspect the state and explicitly recover or close.
    pub fn with_ready_ended(&mut self, panicked: bool)
        requires
            old(self).wf(),
            old(self)@.active,
            old(self)@.claimed is None,
        ensures
            final(self).wf(),
            final(self).held() == old(self).held(),
            final(self)@ == old(self)@.accessed(panicked),
    {
        self.active = false;
        proof {
            retransported_wf(old(self)@, self@);
        }
        if panicked {
            self.fault();
        }
        self.finish_close_request();
    }

    /// Rejects new registrations and suppresses unclaimed callbacks. Each is
    /// then handed out to be destroyed.
    pub fn close(&mut self)
        requires
            old(self).wf(),
            !old(self)@.active,
            old(self)@.claimed is None,
        ensures
            final(self).wf(),
            final(self).held() == old(self).held(),
            final(self)@ == old(self)@.closing(),
            final(self)@.transport.closed,
            final(self)@.claimed is None,
    {
        let ghost v = self@;
        self.callbacks.append(&mut self.inbox);
        proof {
            assert(self@.inbox =~= Seq::empty());
            moved_wf(v, self@);
        }
        self.shut();
        let ghost m = self@;
        self.closed = true;
        self.inbox_closed = true;
        proof {
            retransported_wf(m, self@);
            received_keeps(self@);
        }
        self.receive();
    }

    /// The next callback that a closed owner has to destroy. When there is
    /// none, cleanup is over and the runtime counts this owner no more.
    pub fn cleanup_next(&mut self) -> (next: Option<LocalDelivery<C>>)
        requires
            old(self).wf(),
            old(self)@.transport.closed,
            old(self)@.claimed is None,
            !old(self)@.active,
        ensures
            final(self).wf(),
            final(self).held() == old(self).held(),
            match next {
                Some(entry) => {
                    &&& old(self)@.pending.len() > 0
                    &&& entry == old(self)@.callback_of(0)
                    &&& final(self)@ == old(self)@.taken(0)
                    &&& !final(self)@.active
                },
                None => {
                    &&& old(self)@.pending.len() == 0
                    &&& final(self)@ == (OwnerView { registered: false, ..old(self)@ })
                },
            },
    {
        if self.pending.len() == 0 {
            self.registered = false;
            proof {
                retransported_wf(old(self)@, self@);
            }
            return None;
        }
        let (_, entry) = self.take_pending(0);
        Some(entry)
    }

    /// Reports that the callback in hand was destroyed. Returns its capacity.
    pub fn cleanup_settle(&mut self) -> (capacity: Option<SWReservation>)
        requires
            old(self).wf(),
            old(self)@.claimed is Some,
            !old(self)@.active,
        ensures
            final(self).wf(),
            final(self).held() == old(self).held(),
            final(self)@ == old(self)@.settled(SWDeliveryStatus::Suppressed),
            capacity == charge_of(old(self)@.transport, old(self)@.claimed->0),
            observed(old(self)@.observers, old(self)@.claimed->0) ==> final(self)@.status_of(
                old(self)@.claimed->0,
            ) == Some(SWDeliveryStatus::Suppressed),
    {
        proof {
            if observed(self@.observers, self@.claimed->0) {
                noted_status(self@.observers, self@.claimed->0, SWDeliveryStatus::Suppressed);
            }
        }
        self.settle_as(SWDeliveryStatus::Suppressed)
    }
}

/// Handles of a settled delivery see its status.
proof fn noted_status(observers: Seq<Observer>, id: u64, status: SWDeliveryStatus)
    requires
        forall|i: int, j: int|
            0 <= i < j < observers.len() ==> (#[trigger] observers[i]).id < (
            #[trigger] observers[j]).id,
        observed(observers, id),
    ensures
        observed(noted(observers, id, status), id),
        noted(observers, id, status)[observer_slot(noted(observers, id, status), id)].settled
            == Some(status),
{
    let w = noted(observers, id, status);
    let i = observer_slot(observers, id);
    assert(observer_at(observers, i, id));
    assert(observer_at(w, i, id));
    assert(observer_at(w, observer_slot(w, id), id));
}

/// How a delivery settles: published only if its callback returned.
pub open spec fn settled_status(ran: bool, panicked: bool) -> SWDeliveryStatus {
    if !ran {
        SWDeliveryStatus::Suppressed
    } else if panicked {
        SWDeliveryStatus::Panicked
    } else {
        SWDeliveryStatus::Published
    }
}

/// The capacity that a delivery holds.
pub open spec fn charge_of(transport: TransportView, id: u64) -> Option<SWReservation> {
    if has_charge(transport.charges, id) {
        Some(transport.charges[charge_slot(transport.charges, id)].reservation)
    } else {
        None
    }
}

impl<C> OwnerView<C> {
    /// Why immediate access is refused, if it is.
    pub open spec fn access_error(self, phase: SWPhase, ready: bool) -> Option<SWOwnerError> {
        if self.accept_error() is Some {
            self.accept_error()
        } else if self.phase != Some(phase) {
            Some(SWOwnerError::WrongPhase)
        } else if !ready {
            Some(SWOwnerError::NotReady)
        } else {
            None
        }
    }

    /// Immediate access has ended.
    pub open spec fn accessed(self, panicked: bool) -> OwnerView<C> {
        let v = OwnerView { active: false, ..self };
        (if panicked {
            v.with_fault()
        } else {
            v
        }).closed_on_request()
    }
}

/// Arrival moves callbacks and notifications, and nothing else.
pub proof fn received_keeps<C>(v: OwnerView<C>)
    ensures
        ({
            let w = v.received();
            &&& w.transport.queue.len() == 0
            &&& w.transport.closed == v.transport.closed
            &&& w.claimed == v.claimed
            &&& w.active == v.active
            &&& w.closed == v.closed
            &&& w.faulted == v.faulted
            &&& w.phase == v.phase
        }),
    decreases v.transport.queue.len(),
{
    if v.transport.queue.len() > 0 {
        received_keeps(v.received_one());
    }
}

/// Everything on its way arrives, in the order in which it was sent, behind what
/// is pending already.
pub proof fn arrivals_keep_their_order<C>(v: OwnerView<C>)
    ensures
        v.received().transport.queue.len() == 0,
        v.received().pending == v.pending + v.transport.queue,
    decreases v.transport.queue.len(),
{
    if v.transport.queue.len() > 0 {
        let w = v.received_one();
        arrivals_keep_their_order(w);
        assert(w.pending + w.transport.queue =~= v.pending + v.transport.queue);
    } else {
        assert(v.pending + v.transport.queue =~= v.pending);
    }
}

/// A pump finds nothing more to do exactly if nothing is pending, or its owner
/// publishes and the callbacks of all pending notifications are for other
/// phases.
pub proof fn waiting_callbacks_are_of_other_phases<C>(v: OwnerView<C>, phase: SWPhase)
    requires
        v.wf(),
    ensures
        v.next_for(phase) is None <==> {
            ||| v.pending.len() == 0
            ||| !v.closed && !v.faulted && !v.transport.closed && forall|k: int, e: int|
                0 <= k < v.pending.len() && 0 <= e < v.callbacks.len() && (
                #[trigger] v.callbacks[e]).id == (#[trigger] v.pending[k])
                    ==> v.callbacks[e].phase != phase
        },
        v.next_for(phase) is None ==> forall|k: int, e: int|
            0 <= k < v.pending.len() && 0 <= e < v.callbacks.len() && (
            #[trigger] v.callbacks[e]).id == (#[trigger] v.pending[k]) ==> v.callbacks[e].phase
                != phase,
{
    if v.next_for(phase) is None {
        assert forall|k: int| 0 <= k < v.pending.len() implies !v.eligible(
            #[trigger] v.pending[k],
            phase,
        ) by {
            none_before(v, phase, k);
        }
        assert forall|k: int, e: int|
            0 <= k < v.pending.len() && 0 <= e < v.callbacks.len() && (
            #[trigger] v.callbacks[e]).id == (#[trigger] v.pending[k]) implies v.callbacks[e].phase
            != phase by {
            assert(entry_at(v.callbacks, e, v.pending[k]));
            entry_found(v.callbacks, e, v.pending[k]);
            assert(!v.eligible(v.pending[k], phase));
        }
        if v.pending.len() > 0 {
            assert(!v.eligible(v.pending[0], phase));
        }
    } else {
        let k = choose|k: int| v.next_at(k, phase);
        assert(v.next_at(k, phase));
        pending_has_callback(v, k);
        let e = entry_slot(v.callbacks, v.pending[k]);
        assert(entry_at(v.callbacks, e, v.pending[k]));
        assert(v.callbacks[e].id == v.pending[k]);
    }
}

/// Where there is no oldest eligible notification there is none.
proof fn none_before<C>(v: OwnerView<C>, phase: SWPhase, k: int)
    requires
        v.next_for(phase) is None,
        0 <= k < v.pending.len(),
    ensures
        forall|j: int| 0 <= j <= k ==> !v.eligible(#[trigger] v.pending[j], phase),
    decreases k,
{
    if k > 0 {
        none_before(v, phase, k - 1);
    }
    assert(!v.next_at(k, phase));
}

/// Everything on its way arrives, and the owner stays in order.
proof fn received_wf<C>(v: OwnerView<C>)
    requires
        v.wf(),
    ensures
        v.received().wf(),
    decreases v.transport.queue.len(),
{
    if v.transport.queue.len() > 0 {
        arrived_wf(v.transport);
        received_one_wf(v, v.received_one());
        received_wf(v.received_one());
    }
}

/// A live pump that finds nothing more to do has left nothing behind: no
/// notification is on its way any more, everything that was on its way or
/// pending is still pending, and its callbacks are for other phases. A batch
/// pump looks only at what is pending already.
pub proof fn live_pumps_leave_nothing<C>(v: OwnerView<C>, phase: SWPhase)
    requires
        v.wf(),
    ensures
        v.looked(SWPumpMode::Batch) == v,
        ({
            let w = v.looked(SWPumpMode::Live);
            &&& w.transport.queue.len() == 0
            &&& w.pending == v.pending + v.transport.queue
            &&& w.next_for(phase) is None <==> {
                ||| v.pending.len() == 0 && v.transport.queue.len() == 0
                ||| !v.closed && !v.faulted && !v.transport.closed && forall|k: int, e: int|
                    0 <= k < w.pending.len() && 0 <= e < w.callbacks.len() && (
                    #[trigger] w.callbacks[e]).id == (#[trigger] w.pending[k])
                        ==> w.callbacks[e].phase != phase
            }
        }),
{
    arrivals_keep_their_order(v);
    received_keeps(v);
    received_wf(v);
    waiting_callbacks_are_of_other_phases(v.received(), phase);
}

/// Callbacks of senders may move here at any time.
proof fn moved_sound<C>(v: OwnerView<C>, w: OwnerView<C>)
    requires
        v.wf(),
        w == (OwnerView { callbacks: v.callbacks + v.inbox, inbox: Seq::empty(), ..v }),
    ensures
        w.sound(),
{
    let n = v.callbacks.len() as int;
    assert forall|i: int, j: int| 0 <= i < j < w.callbacks.len() implies (
    #[trigger] w.callbacks[i]).id != (#[trigger] w.callbacks[j]).id by {
        if j < n {
            assert(v.callbacks[i].id != v.callbacks[j].id);
        } else if i >= n {
            assert(v.inbox[i - n].id != v.inbox[j - n].id);
        } else {
            assert(entry_at(v.callbacks, i, v.callbacks[i].id));
            assert(entry_at(v.inbox, j - n, v.inbox[j - n].id));
            assert(has_entry(v.callbacks, v.callbacks[i].id));
        }
    }
    assert forall|x: u64| #[trigger]
        has_entry(w.callbacks, x) <==> has_entry(v.callbacks, x) || has_entry(v.inbox, x) by {
        if has_entry(w.callbacks, x) {
            let i = entry_slot(w.callbacks, x);
            assert(entry_at(w.callbacks, i, x));
            if i < n {
                assert(entry_at(v.callbacks, i, x));
            } else {
                assert(entry_at(v.inbox, i - n, x));
            }
        }
        if has_entry(v.callbacks, x) {
            let i = entry_slot(v.callbacks, x);
            assert(entry_at(v.callbacks, i, x));
            assert(entry_at(w.callbacks, i, x));
        }
        if has_entry(v.inbox, x) {
            let i = entry_slot(v.inbox, x);
            assert(entry_at(v.inbox, i, x));
            assert(entry_at(w.callbacks, n + i, x));
        }
    }
    assert forall|x: u64| !#[trigger] has_entry(w.inbox, x) by {
        if has_entry(w.inbox, x) {
            assert(entry_at(w.inbox, entry_slot(w.inbox, x), x));
        }
    }
    assert forall|x: u64| #[trigger] w.unclaimed(x) <==> v.unclaimed(x) by {}
    assert forall|x: u64| #[trigger] w.unclaimed(x) implies has_entry(w.callbacks, x) || has_entry(
        w.inbox,
        x,
    ) by {
        assert(v.unclaimed(x));
        assert(has_entry(w.callbacks, x) <==> has_entry(v.callbacks, x) || has_entry(v.inbox, x));
    }
    assert forall|x: u64| #[trigger] has_entry(w.callbacks, x) implies w.unclaimed(x)
        && !has_entry(w.inbox, x) by {
        assert(w.unclaimed(x) <==> v.unclaimed(x));
    }
    assert forall|x: u64|
        #[trigger] w.transport.has(x) && !w.unclaimed(x) implies w.claimed == Some(x) by {
        assert(v.transport.has(x) && !v.unclaimed(x));
    }
    if let Some(id) = w.claimed {
        assert(v.transport.has(id) && !v.unclaimed(id));
    }
}

/// Callbacks of senders move here.
proof fn moved_wf<C>(v: OwnerView<C>, w: OwnerView<C>)
    requires
        v.wf(),
        w == (OwnerView { callbacks: v.callbacks + v.inbox, inbox: Seq::empty(), ..v }),
    ensures
        w.wf(),
{
    moved_sound(v, w);
    still_watched(v, w);
    let n = v.callbacks.len() as int;
    assert forall|i: int| 0 <= i < w.callbacks.len() implies {
        &&& (#[trigger] w.callbacks[i]).awaits && w.transport.get(w.callbacks[i].id).status
            == SWDeliveryStatus::Ready ==> w.callbacks[i].status is Some
        &&& w.callbacks[i].status is Some ==> w.transport.get(w.callbacks[i].id).terminal
    } by {
        if i < n {
            assert(w.callbacks[i] == v.callbacks[i]);
        } else {
            assert(w.callbacks[i] == v.inbox[i - n]);
        }
    }
}

/// A callback that runs for a completion has its status.
proof fn run_is_informed<C>(v: OwnerView<C>, k: int)
    requires
        v.wf(),
        0 <= k < v.pending.len(),
    ensures
        v.transport.claim_result(v.pending[k]) == ClaimResult::Run && v.callback_of(k).awaits
            ==> v.callback_of(k).status is Some,
{
    pending_has_callback(v, k);
    let i = entry_slot(v.callbacks, v.pending[k]);
    assert(entry_at(v.callbacks, i, v.pending[k]));
    assert(v.callbacks[i].id == v.pending[k]);
}

/// A callback runs only in the phase that it is for, and never after its owner
/// closed or faulted, nor after it was cancelled.
pub proof fn callbacks_run_in_their_phase<C>(v: OwnerView<C>, k: int, phase: SWPhase)
    requires
        v.wf(),
        v.next_at(k, phase),
        v.transport.claim_result(v.pending[k]) == ClaimResult::Run,
    ensures
        v.callback_of(k).phase == phase,
        v.callback_of(k).id == v.pending[k],
        !v.closed,
        !v.faulted,
        !v.transport.closed,
        !v.transport.get(v.pending[k]).cancelled,
{
    pending_has_callback(v, k);
    let i = entry_slot(v.callbacks, v.pending[k]);
    assert(entry_at(v.callbacks, i, v.pending[k]));
}

/// Callbacks of one phase run in the order in which their notifications
/// arrived.
pub proof fn a_phase_is_fifo<C>(v: OwnerView<C>, k: int, phase: SWPhase, j: int)
    requires
        v.wf(),
        v.next_at(k, phase),
        0 <= j < v.pending.len(),
        v.callback_of(j).phase == phase,
    ensures
        k <= j,
{
    pending_has_callback(v, j);
    if j < k {
        assert(!v.eligible(v.pending[j], phase));
    }
}

/// A callback leaves its owner at most once: once taken, neither it nor its
/// notification is there any more.
pub proof fn callbacks_leave_once<C>(v: OwnerView<C>, k: int)
    requires
        v.wf(),
        v.claimed is None,
        0 <= k < v.pending.len(),
    ensures
        ({
            let w = v.taken(k);
            let id = v.pending[k];
            &&& !has_entry(w.callbacks, id)
            &&& !has_entry(w.inbox, id)
            &&& !w.pending.contains(id)
            &&& w.pending.len() + 1 == v.pending.len()
        }),
{
    let w = v.taken(k);
    let id = v.pending[k];
    pending_has_callback(v, k);
    let i = entry_slot(v.callbacks, id);
    assert(entry_at(v.callbacks, i, id));
    entry_removed(v.callbacks, i);
    if w.pending.contains(id) {
        let a = choose|a: int| 0 <= a < w.pending.len() && w.pending[a] == id;
        let b = if a < k {
            a
        } else {
            a + 1
        };
        assert(v.pending[b] == v.pending[k]);
    }
}

/// A closed owner that has nothing pending holds no callback, no delivery and
/// no capacity.
pub proof fn closure_leaves_nothing<C>(v: OwnerView<C>)
    requires
        v.wf(),
        v.transport.closed,
        v.transport.queue.len() == 0,
        v.pending.len() == 0,
        v.claimed is None,
    ensures
        v.callbacks.len() == 0,
        v.inbox.len() == 0,
        v.transport.records.len() == 0,
        v.transport.charges.len() == 0,
{
    let t = v.transport;
    if t.records.len() > 0 {
        let r = t.records[0];
        assert(delivery_at(t.records, 0, r.id));
        assert(t.has(r.id));
        let i = delivery_slot(t.records, r.id);
        assert(delivery_at(t.records, i, r.id));
        if i > 0 {
            assert(t.records[0].id < t.records[i].id);
        }
        assert(delivery_ok(t.records[0], t.closed));
        if v.unclaimed(r.id) {
            assert(!t.queue.contains(r.id));
            assert(t.claimable(r.id));
            assert(v.pending.contains(r.id));
        }
    }
    if t.charges.len() > 0 {
        let id = t.charges[0].id;
        assert(delivery_at(t.records, delivery_slot(t.records, id), id));
    }
    if v.callbacks.len() > 0 {
        assert(entry_at(v.callbacks, 0, v.callbacks[0].id));
        assert(has_entry(v.callbacks, v.callbacks[0].id));
        assert(v.unclaimed(v.callbacks[0].id));
        let i = delivery_slot(t.records, v.callbacks[0].id);
        assert(delivery_at(t.records, i, v.callbacks[0].id));
    }
    if v.inbox.len() > 0 {
        assert(entry_at(v.inbox, 0, v.inbox[0].id));
        assert(has_entry(v.inbox, v.inbox[0].id));
        assert(v.unclaimed(v.inbox[0].id));
        let i = delivery_slot(t.records, v.inbox[0].id);
        assert(delivery_at(t.records, i, v.inbox[0].id));
    }
}

/// A fault suppresses every callback that is not claimed yet, until the host
/// recovers.
pub proof fn faults_suppress<C>(v: OwnerView<C>, id: u64)
    requires
        v.wf(),
        v.unclaimed(id),
    ensures
        v.with_fault().transport.has(id),
        v.with_fault().transport.claim_result(id) == ClaimResult::Suppress,
        v.with_fault().accept_error() is Some,
{
    all_cancelled_effect(v.transport, v.with_fault().transport);
    assert(v.with_fault().transport.has(id) <==> v.transport.has(id));
    assert(v.with_fault().transport.get(id) == cancelled_record(v.transport.get(id)));
}

impl SWRuntime {
    /// Registers thread-bound state and bounded deferred delivery. Owners are
    /// closed and cleaned before the runtime joins. `participating` says that
    /// the calling thread takes part in work or runs a callback.
    pub fn owner<O, C>(&mut self, state: O, capacity: usize, participating: bool) -> (result: Result<
        (SWOwner<O, C>, u64),
        SWOwnerError,
    >)
        requires
            old(self).wf(),
            old(self)@.control.next_owner < u64::MAX,
            0 < capacity,
            (capacity + old(self)@.protected_deliveries()) * 16 <= isize::MAX,
        ensures
            final(self).wf(),
            match result {
                Ok((owner, id)) => {
                    &&& !participating && old(self)@.control.phase == SWRuntimeState::Running
                    &&& owner.wf()
                    &&& owner.held() == state
                    &&& owner@ == OwnerView::<C>::fresh(owner@.transport)
                    &&& owner@.transport == TransportView::fresh(
                        old(self)@.control.id,
                        capacity,
                        old(self)@.protected_deliveries(),
                    )
                    &&& id == old(self)@.control.next_owner
                    &&& final(self)@ == (RuntimeView {
                        control: (ControlView {
                            owners: old(self)@.control.owners.push(id),
                            next_owner: id + 1,
                            ..old(self)@.control
                        }).woken(),
                        ..old(self)@
                    })
                },
                Err(error) => {
                    &&& participating || old(self)@.control.phase != SWRuntimeState::Running
                    &&& error == (if participating {
                        SWOwnerError::InvalidContext
                    } else {
                        SWOwnerError::Closed
                    })
                    &&& final(self)@ == old(self)@
                },
            },
    {
        let protected: usize = self.protected_delivery_capacity();
        let transport = Transport::new(capacity, protected, self.identity());
        match self.register_owner(participating) {
            Err(SWExecutionError::Closed) => Err(SWOwnerError::Closed),
            Err(SWExecutionError::InvalidContext) => Err(SWOwnerError::InvalidContext),
            Ok(id) => Ok((SWOwner::over(state, transport), id)),
        }
    }
}

impl<O, C> SWOwner<O, C> {
    /// A promised delivery, as admission sees it.
    pub fn delivery_claim(&self, ticket: &SWDeliveryTicket) -> (claim: DeliveryClaim)
        requires
            self.wf(),
        ensures
            claim == claim_on(self@.transport, ticket.identity()),
    {
        DeliveryClaim {
            runtime: self.transport.runtime_identity(),
            accounted: self.transport.is_accounted(ticket.id),
            refusal: self.transport.check_commit(ticket.id),
        }
    }

    /// Commits a promised delivery to admitted CPU work, with the capacity that
    /// this admission charged for it.
    pub fn commit_delivery(&mut self, ticket: &SWDeliveryTicket, capacity: Option<SWReservation>)
        requires
            old(self).wf(),
            old(self)@.transport.commit_error(ticket.identity()) is None,
            capacity is Some ==> !old(self)@.transport.get(ticket.identity()).accounted,
        ensures
            final(self).wf(),
            final(self).held() == old(self).held(),
            final(self)@ == old(self)@.delivery_committed(ticket.identity(), capacity),
    {
        let ghost v = self@;
        let ghost t = v.transport;
        let ghost id = ticket.identity();
        let ghost drawn = capacity;
        let _ = self.transport.try_commit(ticket.id);
        let ghost m = self@.transport;
        proof {
            let i = delivery_slot(t.records, id);
            assert(delivery_at(t.records, i, id));
            stored_effect(t, m, id, m.records[i]);
            assert(m.has(id) <==> t.has(id));
            assert(m.get(id) == m.records[i]);
        }
        if let Some(capacity) = capacity {
            proof {
                if has_charge(m.charges, id) {
                    let c = charge_slot(m.charges, id);
                    assert(charge_at(m.charges, c, id));
                    assert(t.charges[c].id == id);
                }
            }
            let _ = self.transport.attach_capacity(ticket.id, capacity);
            proof {
                let w = self@.transport;
                let j = delivery_slot(m.records, id);
                assert(delivery_at(m.records, j, id));
                stored_effect(m, w, id, w.records[j]);
            }
        }
        proof {
            let w = self@;
            assert forall|x: u64| v.transport.has(x) implies {
                &&& (#[trigger] w.transport.get(x)).received == v.transport.get(x).received
                &&& w.transport.get(x).status == v.transport.get(x).status
                &&& w.transport.get(x).cancelled == v.transport.get(x).cancelled
            } by {
                assert(m.has(x) <==> t.has(x));
                assert(m.get(x).status == t.get(x).status);
            }
            assert forall|x: u64| #[trigger] w.transport.has(x) <==> v.transport.has(x) by {
                assert(m.has(x) <==> t.has(x));
            }
            assert forall|x: u64| w.faulted && w.unclaimed(x) implies #[trigger] w.transport.get(
                x,
            ).cancelled by {
                assert(w.transport.has(x) <==> v.transport.has(x));
                assert(v.unclaimed(x));
            }
            retransported_wf(v, w);
        }
    }
}

/// A promised delivery of this route, as admission sees it.
pub open spec fn claim_on(transport: TransportView, id: u64) -> DeliveryClaim {
    DeliveryClaim {
        runtime: transport.runtime,
        accounted: transport.has(id) && transport.get(id).accounted,
        refusal: transport.commit_error(id),
    }
}

impl<C> OwnerView<C> {
    /// CPU work has been admitted against a promised delivery.
    pub open spec fn delivery_committed(self, id: u64, capacity: Option<SWReservation>) -> OwnerView<
        C,
    > {
        OwnerView {
            transport: match capacity {
                Some(capacity) => self.transport.committed(id).with_capacity(id, capacity),
                None => self.transport.committed(id),
            },
            ..self
        }
    }
}

/// What can happen to an owner.
pub enum OwnerStep<C> {
    /// A callback is registered here, or sent.
    Register(EndpointKind, Option<SWReservation>, LocalDelivery<C>, bool),
    /// A completion reports to a delivery.
    Ready(u64, SWTaskStatus),
    Fulfill(u64),
    Cancel(u64),
    Suppress(u64),
    Commit(u64, Option<SWReservation>),
    /// A notification arrives.
    Arrive,
    /// A pending callback is taken out, to be run or destroyed.
    Take(int),
    /// The callback in hand has ended.
    Settle(SWDeliveryStatus),
    Share(u64),
    Release(u64),
    Fault,
    Shut,
    ObserveClose,
    Close,
    SetPhase(SWPhase),
    RequestClose,
    Recover,
    /// Immediate access begins in this phase.
    Access(SWPhase),
    /// Immediate access ends, by a panic or not.
    AccessEnd(bool),
    /// A pump looks at closure before it starts.
    OpenPump,
    /// An owner without callbacks is no longer counted.
    Drain,
    /// Cleanup is over.
    Unregister,
    /// Owed notifications are taken.
    TakeWake,
}

impl<C> OwnerView<C> {
    /// The callback of a delivery is still with this owner.
    pub open spec fn keeps(self, id: u64) -> bool {
        has_entry(self.callbacks, id) || has_entry(self.inbox, id)
    }

    pub open spec fn can(self, step: OwnerStep<C>) -> bool {
        match step {
            OwnerStep::Register(endpoint, _, entry, _) => {
                &&& !self.faulted
                &&& self.transport.accepts(endpoint)
                &&& entry.id == self.transport.next_id
            },
            OwnerStep::Arrive => self.transport.queue.len() > 0,
            OwnerStep::Take(k) => self.claimed is None && 0 <= k < self.pending.len(),
            OwnerStep::Settle(status) => self.claimed is Some && status.settled(),
            OwnerStep::Share(id) => observed(self.observers, id),
            OwnerStep::SetPhase(_) => !self.active,
            OwnerStep::Recover => {
                &&& !self.closed && !self.transport.closed
                &&& self.callbacks.len() == 0 && self.inbox.len() == 0
                &&& self.transport.records.len() == 0
            },
            OwnerStep::Access(phase) => self.access_error(phase, true) is None,
            OwnerStep::AccessEnd(_) => self.active && self.claimed is None,
            _ => true,
        }
    }

    pub open spec fn after(self, step: OwnerStep<C>) -> OwnerView<C> {
        match step {
            OwnerStep::Register(endpoint, charge, entry, local) => OwnerView {
                transport: self.transport.reserved(endpoint, charge),
                callbacks: if local {
                    self.callbacks.push(entry)
                } else {
                    self.callbacks
                },
                inbox: if local {
                    self.inbox
                } else {
                    self.inbox.push(entry)
                },
                observers: self.observers.push(
                    Observer { id: entry.id, handles: 1, settled: None },
                ),
                ..self
            },
            OwnerStep::Ready(id, status) => self.readied(id, status),
            OwnerStep::Fulfill(id) => self.fulfilled(id),
            OwnerStep::Share(id) => self.shared(id),
            OwnerStep::Release(id) => self.released(id),
            OwnerStep::Cancel(id) => OwnerView { transport: self.transport.cancelled(id), ..self },
            OwnerStep::Suppress(id) => OwnerView {
                transport: self.transport.suppressed(id),
                ..self
            },
            OwnerStep::Commit(id, capacity) => self.delivery_committed(id, capacity),
            OwnerStep::Arrive => self.received_one(),
            OwnerStep::Take(k) => self.taken(k),
            OwnerStep::Settle(status) => self.settled(status),
            OwnerStep::Fault => self.with_fault(),
            OwnerStep::Shut => OwnerView { transport: self.transport.shut(), ..self },
            OwnerStep::ObserveClose => self.closed_on_request(),
            OwnerStep::Close => OwnerView {
                closed: true,
                inbox_closed: true,
                callbacks: self.callbacks + self.inbox,
                inbox: Seq::empty(),
                transport: self.transport.shut(),
                ..self
            },
            OwnerStep::SetPhase(phase) => OwnerView { phase: Some(phase), ..self },
            OwnerStep::RequestClose => OwnerView { close_requested: true, ..self },
            OwnerStep::Recover => OwnerView { faulted: false, inbox_faulted: false, ..self },
            OwnerStep::Access(_) => OwnerView { active: true, ..self },
            OwnerStep::AccessEnd(panicked) => self.accessed(panicked),
            OwnerStep::OpenPump => self.pump_opened(),
            OwnerStep::Drain => self.drained(),
            OwnerStep::Unregister => OwnerView { registered: false, ..self },
            OwnerStep::TakeWake => OwnerView {
                transport: TransportView { wake: 0, ..self.transport },
                ..self
            },
        }
    }
}

/// A callback that has left its owner never comes back, whatever happens next:
/// it runs or is destroyed, once.
pub proof fn callbacks_do_not_return<C>(v: OwnerView<C>, step: OwnerStep<C>, id: u64)
    requires
        v.wf(),
        v.can(step),
        !v.keeps(id),
        id < v.transport.next_id,
    ensures
        !v.after(step).keeps(id),
        id < v.after(step).transport.next_id,
{
    let w = v.after(step);
    match step {
        OwnerStep::Register(_, _, entry, _) => {
            if has_entry(v.callbacks, entry.id) || has_entry(v.inbox, entry.id) {
                assert(v.unclaimed(entry.id));
                let i = delivery_slot(v.transport.records, entry.id);
                assert(delivery_at(v.transport.records, i, entry.id));
            }
            entry_pushed(v.callbacks, entry);
            entry_pushed(v.inbox, entry);
        },
        OwnerStep::Arrive => {
            let x = v.transport.queue[0];
            if has_entry(v.inbox, x) {
                let i = entry_slot(v.inbox, x);
                assert(entry_at(v.inbox, i, x));
                entry_removed(v.inbox, i);
                assert(!has_entry(v.callbacks, x)) by {
                    if has_entry(v.callbacks, x) {
                        assert(!has_entry(v.inbox, x));
                    }
                }
                entry_pushed(v.callbacks, v.inbox[i]);
            }
        },
        OwnerStep::Take(k) => {
            pending_has_callback(v, k);
            let i = entry_slot(v.callbacks, v.pending[k]);
            assert(entry_at(v.callbacks, i, v.pending[k]));
            entry_removed(v.callbacks, i);
        },
        OwnerStep::Ready(x, status) => {
            told_keeps(v.callbacks, x, status);
        },
        OwnerStep::Close => {
            if has_entry(w.callbacks, id) {
                let i = entry_slot(w.callbacks, id);
                assert(entry_at(w.callbacks, i, id));
                let n = v.callbacks.len() as int;
                if i < n {
                    assert(entry_at(v.callbacks, i, id));
                } else {
                    assert(entry_at(v.inbox, i - n, id));
                }
            }
            if has_entry(w.inbox, id) {
                assert(entry_at(w.inbox, entry_slot(w.inbox, id), id));
            }
        },
        _ => {},
    }
}

/// A step that leaves the handles of all deliveries alone.
pub open spec fn unobserved_step<C>(step: OwnerStep<C>) -> bool {
    !(step is Register || step is Settle || step is Share || step is Release)
}

/// A step that moves no callback, and tells none anything.
pub open spec fn still_step<C>(step: OwnerStep<C>) -> bool {
    !(step is Register || step is Ready || step is Arrive || step is Take || step is Close)
}

proof fn observers_stay<C>(v: OwnerView<C>, step: OwnerStep<C>)
    requires
        unobserved_step(step),
    ensures
        v.after(step).observers == v.observers,
{
}

proof fn callbacks_stay<C>(v: OwnerView<C>, step: OwnerStep<C>)
    requires
        still_step(step),
    ensures
        v.after(step).callbacks == v.callbacks,
        v.after(step).inbox == v.inbox,
{
}

/// Handles of a settled delivery see no more than its observer.
proof fn settled_is_noted<C>(v: OwnerView<C>, w: OwnerView<C>, id: u64)
    requires
        observed(v.observers, id),
        v.observers[observer_slot(v.observers, id)].settled is Some,
        observed(w.observers, id),
        w.observers[observer_slot(w.observers, id)].settled
            == v.observers[observer_slot(v.observers, id)].settled,
    ensures
        w.status_of(id) == v.status_of(id),
{
}

/// A new delivery leaves what the handles of others see.
proof fn registration_keeps_others<C>(v: OwnerView<C>, w: OwnerView<C>, x: Observer, id: u64)
    requires
        v.watched(),
        observed(v.observers, id),
        w.observers == v.observers.push(x),
        x.id == v.transport.next_id,
    ensures
        observed(w.observers, id),
        w.observers[observer_slot(w.observers, id)] == v.observers[observer_slot(
            v.observers,
            id,
        )],
{
    let i = observer_slot(v.observers, id);
    assert(observer_at(v.observers, i, id));
    assert(observer_at(w.observers, i, id));
    let k = observer_slot(w.observers, id);
    assert(observer_at(w.observers, k, id));
    if k < v.observers.len() {
        assert(observer_at(v.observers, k, id));
        observer_found(v.observers, k, id);
    }
}

/// A settlement leaves what the handles of others see.
proof fn settlement_keeps_others<C>(v: OwnerView<C>, status: SWDeliveryStatus, id: u64)
    requires
        v.watched(),
        observed(v.observers, id),
        id != v.claimed->0,
    ensures
        observed(v.settled(status).observers, id),
        v.settled(status).observers[observer_slot(v.settled(status).observers, id)]
            == v.observers[observer_slot(v.observers, id)],
{
    let w = v.settled(status);
    let i = observer_slot(v.observers, id);
    assert(observer_at(v.observers, i, id));
    assert(observer_at(w.observers, i, id));
    let k = observer_slot(w.observers, id);
    assert(observer_at(w.observers, k, id));
    assert(observer_at(v.observers, k, id));
    observer_found(v.observers, k, id);
}

/// One more handle leaves what all handles see.
proof fn sharing_keeps_status<C>(v: OwnerView<C>, x: u64, id: u64)
    requires
        v.watched(),
        observed(v.observers, id),
        observed(v.observers, x),
    ensures
        observed(v.shared(x).observers, id),
        v.shared(x).observers[observer_slot(v.shared(x).observers, id)].settled
            == v.observers[observer_slot(v.observers, id)].settled,
{
    let w = v.shared(x);
    let y = observer_slot(v.observers, x);
    assert(observer_at(v.observers, y, x));
    let i = observer_slot(v.observers, id);
    assert(observer_at(v.observers, i, id));
    assert(observer_at(w.observers, i, id));
    let k = observer_slot(w.observers, id);
    assert(observer_at(w.observers, k, id));
    assert(observer_at(v.observers, k, id));
    observer_found(v.observers, k, id);
}

/// A settled status never changes: whatever happens next, every handle of the
/// delivery sees the same, until the last one is released.
#[verifier::spinoff_prover]
pub proof fn settled_deliveries_stay<C>(v: OwnerView<C>, step: OwnerStep<C>, id: u64)
    requires
        v.wf(),
        v.can(step),
        v.status_of(id) is Some,
        v.status_of(id)->0.settled(),
        step == OwnerStep::<C>::Release(id) ==> v.observers[observer_slot(
            v.observers,
            id,
        )].handles > 1,
    ensures
        v.after(step).status_of(id) == v.status_of(id),
{
    let w = v.after(step);
    live_is_unsettled(v, id);
    if unobserved_step(step) {
        observers_stay(v, step);
        settled_is_noted(v, w, id);
    } else {
        match step {
            OwnerStep::Register(_, _, entry, _) => {
                let x = Observer { id: entry.id, handles: 1, settled: None };
                registration_keeps_others(v, w, x, id);
                settled_is_noted(v, w, id);
            },
            OwnerStep::Settle(status) => {
                assert(v.transport.has(v.claimed->0));
                settlement_keeps_others(v, status, id);
                settled_is_noted(v, w, id);
            },
            OwnerStep::Share(x) => {
                sharing_keeps_status(v, x, id);
                settled_is_noted(v, w, id);
            },
            OwnerStep::Release(x) => {
                release_keeps_others(v, x, id);
            },
            _ => {},
        }
    }
}

/// Releasing a handle leaves what the others see.
proof fn release_keeps_others<C>(v: OwnerView<C>, x: u64, id: u64)
    requires
        v.wf(),
        observed(v.observers, id),
        x == id ==> v.observers[observer_slot(v.observers, id)].handles > 1,
    ensures
        observed(v.released(x).observers, id),
        v.released(x).status_of(id) == v.status_of(id),
{
    let w = v.released(x);
    let i = observer_slot(v.observers, id);
    assert(observer_at(v.observers, i, id));
    if observed(v.observers, x) {
        let y = observer_slot(v.observers, x);
        assert(observer_at(v.observers, y, x));
        if v.observers[y].handles == 1 {
            let j = if i < y {
                i
            } else {
                i - 1
            };
            assert(observer_at(w.observers, j, id));
            let k = observer_slot(w.observers, id);
            assert(observer_at(w.observers, k, id));
            let m = if k < y {
                k
            } else {
                k + 1
            };
            assert(observer_at(v.observers, m, id));
            observer_found(v.observers, m, id);
        } else {
            assert(observer_at(w.observers, i, id));
            let k = observer_slot(w.observers, id);
            assert(observer_at(w.observers, k, id));
            assert(observer_at(v.observers, k, id));
            observer_found(v.observers, k, id);
        }
    }
}

/// A delivery that is still live has not settled.
proof fn live_is_unsettled<C>(v: OwnerView<C>, id: u64)
    requires
        v.wf(),
        observed(v.observers, id),
    ensures
        v.status_of(id) is Some,
        v.observers[observer_slot(v.observers, id)].settled is None <==> v.transport.has(id),
        v.transport.has(id) <==> !v.status_of(id)->0.settled(),
{
    let i = observer_slot(v.observers, id);
    assert(observer_at(v.observers, i, id));
    if v.transport.has(id) {
        let k = delivery_slot(v.transport.records, id);
        assert(delivery_at(v.transport.records, k, id));
        assert(delivery_ok(v.transport.records[k], v.transport.closed));
    }
}

/// One report leaves what other callbacks were told.
proof fn report_step<C>(v: OwnerView<C>, x: u64, status: SWTaskStatus, id: u64)
    requires
        v.wf(),
        has_entry(v.callbacks, id),
        v.transport.has(id),
    ensures
        ({
            let w = v.readied(x, status);
            &&& w.wf()
            &&& has_entry(w.callbacks, id)
            &&& w.transport.has(id)
            &&& w.awaiting(id) == v.awaiting(id)
            &&& w.transport.get(id).terminal == (v.transport.get(id).terminal || x == id)
            &&& w.report_to(id) == (if x == id && !v.transport.get(id).terminal {
                Some(status)
            } else {
                v.report_to(id)
            })
        }),
{
    let w = v.readied(x, status);
    readied_effect(v.transport, x);
    readied_wf(v, w, x);
    let i = entry_slot(v.callbacks, id);
    assert(entry_at(v.callbacks, i, id));
    assert(entry_at(w.callbacks, i, id));
    entry_found(w.callbacks, i, id);
}

/// Reports to a callback that was told nothing yet.
proof fn reports_reach<C>(
    v: OwnerView<C>,
    edges: Seq<Subscription>,
    status: SWTaskStatus,
    id: u64,
)
    requires
        v.wf(),
        has_entry(v.callbacks, id),
        v.transport.has(id),
        !v.transport.get(id).terminal,
        v.report_to(id) is None,
    ensures
        ({
            let w = v.all_readied(edges, status);
            let named = exists|k: int| 0 <= k < edges.len() && (#[trigger] edges[k]).token == id;
            &&& w.wf()
            &&& has_entry(w.callbacks, id)
            &&& w.transport.has(id)
            &&& w.awaiting(id) == v.awaiting(id)
            &&& w.transport.get(id).terminal == named
            &&& w.report_to(id) == (if named {
                Some(status)
            } else {
                None::<SWTaskStatus>
            })
        }),
    decreases edges.len(),
{
    if edges.len() > 0 {
        let rest = edges.drop_last();
        let n = rest.len() as int;
        reports_reach(v, rest, status, id);
        report_step(v.all_readied(rest, status), edges[n].token, status, id);
        if exists|k: int| 0 <= k < rest.len() && (#[trigger] rest[k]).token == id {
            let k = choose|k: int| 0 <= k < rest.len() && (#[trigger] rest[k]).token == id;
            assert(edges[k].token == id);
        }
        if exists|k: int| 0 <= k < edges.len() && (#[trigger] edges[k]).token == id {
            let k = choose|k: int| 0 <= k < edges.len() && (#[trigger] edges[k]).token == id;
            if k < n {
                assert(rest[k].token == id);
            }
        }
    }
}

/// A callback that waits for a completion learns exactly the status that was
/// published: serving the edges of that publication tells it, and a publication
/// that it does not wait for tells it nothing.
pub proof fn callbacks_learn_what_was_published<C>(
    v: OwnerView<C>,
    signal: SignalView,
    status: SWTaskStatus,
    id: u64,
)
    requires
        v.wf(),
        v.awaiting(id),
        v.transport.has(id),
        !v.transport.get(id).terminal,
        v.report_to(id) is None,
    ensures
        ({
            let edges = signal.handed_out(SignalStep::Publish(status));
            let waits = exists|k: int|
                0 <= k < signal.subscribers.len() && (#[trigger] signal.subscribers[k]).token == id;
            let w = v.all_readied(edges, status);
            &&& w.awaiting(id)
            &&& w.report_to(id) == (if waits {
                Some(status)
            } else {
                None::<SWTaskStatus>
            })
        }),
{
    reports_reach(v, signal.handed_out(SignalStep::Publish(status)), status, id);
}

/// A status that a callback was told stays until it leaves: only the first
/// report of a completion counts.
#[verifier::spinoff_prover]
pub proof fn reported_status_stays<C>(v: OwnerView<C>, step: OwnerStep<C>, i: int)
    requires
        v.wf(),
        v.can(step),
        0 <= i < v.callbacks.len(),
        v.callbacks[i].status is Some,
        has_entry(v.after(step).callbacks, v.callbacks[i].id),
    ensures
        ({
            let w = v.after(step);
            let id = v.callbacks[i].id;
            w.callbacks[entry_slot(w.callbacks, id)].status == v.callbacks[i].status
        }),
{
    let w = v.after(step);
    let id = v.callbacks[i].id;
    let k = entry_slot(w.callbacks, id);
    assert(entry_at(w.callbacks, k, id));
    entry_is_live(v, i);
    let n = v.callbacks.len() as int;
    match step {
        OwnerStep::Ready(x, status) => {
            assert(entry_at(v.callbacks, k, id));
            entry_found(v.callbacks, k, id);
            entry_found(v.callbacks, i, id);
        },
        OwnerStep::Take(t) => {
            pending_has_callback(v, t);
            let r = entry_slot(v.callbacks, v.pending[t]);
            assert(entry_at(v.callbacks, r, v.pending[t]));
            let m = if k < r {
                k
            } else {
                k + 1
            };
            assert(w.callbacks[k] == v.callbacks[m]);
            assert(entry_at(v.callbacks, m, id));
            entry_found(v.callbacks, m, id);
            entry_found(v.callbacks, i, id);
        },
        OwnerStep::Register(_, _, entry, _) => {
            if k == n {
                assert(delivery_at(
                    v.transport.records,
                    delivery_slot(v.transport.records, id),
                    id,
                ));
            } else {
                assert(entry_at(v.callbacks, k, id));
                entry_found(v.callbacks, k, id);
                entry_found(v.callbacks, i, id);
            }
        },
        OwnerStep::Arrive => {
            if k == n {
                let x = v.transport.queue[0];
                assert(entry_at(v.inbox, entry_slot(v.inbox, x), x));
                assert(!has_entry(v.inbox, id));
            } else {
                assert(entry_at(v.callbacks, k, id));
                entry_found(v.callbacks, k, id);
                entry_found(v.callbacks, i, id);
            }
        },
        OwnerStep::Close => {
            if k >= n {
                assert(entry_at(v.inbox, k - n, id));
                assert(has_entry(v.inbox, id));
            } else {
                assert(entry_at(v.callbacks, k, id));
                entry_found(v.callbacks, k, id);
                entry_found(v.callbacks, i, id);
            }
        },
        _ => {
            callbacks_stay(v, step);
            assert(entry_at(v.callbacks, k, id));
            entry_found(v.callbacks, k, id);
            entry_found(v.callbacks, i, id);
        },
    }
}

} // verus!
