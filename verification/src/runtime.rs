//! One runtime: admission control, owned work and capacity, kept consistent.
//!
//! Every accepted record holds one place in the runtime's lease count and, with
//! a capacity policy, one charge in the pool, from admission to its end.
use crate::admission::discovery_refusal;
use crate::admission::map_discovery_error;
use crate::admission::DeliveryClaim;
use crate::admission::SWDiscoveryError;
use crate::admission::SWSpawnError;
use crate::config::SWExecutionClass;
use crate::context::Context;
use crate::context::SWExecutionError;
use crate::cost::SWCost;
use crate::cost::SWReservationError;
use crate::external::in_state;
use crate::external::PhysicalState;
use crate::group::GroupInner;
use crate::jobs::at;
use crate::jobs::external_at;
use crate::jobs::external_present;
use crate::jobs::group_present;
use crate::jobs::group_slot;
use crate::jobs::present;
use crate::jobs::promoted_wf;
use crate::jobs::record_at;
use crate::jobs::Record;
use crate::jobs::group_at;
use crate::jobs::SchedulerView;
use crate::jobs::Stage;
use crate::lifecycle::follows;
use crate::lifecycle::ControlView;
use crate::lifecycle::RuntimeControl;
use crate::lifecycle::SWShutdownError;
use crate::lifecycle::SWWorkSetProgress;
use crate::lifecycle::ShutdownStep;
use crate::progress::SWExternalProgress;
use crate::progress::SWOwnerProgress;
use crate::progress::SWProgress;
use crate::progress::SWRuntimeState;
use crate::progress::SWSchedulerProgress;
use crate::progress::SWWorkSetsProgress;
use crate::queue::LaneView;
use crate::queue::SWPriority;
use crate::queue::Selection;
use crate::reservation::carries;
use crate::reservation::carries_handles;
use crate::reservation::claim_error;
use crate::reservation::draws_carry;
use crate::reservation::reservations_stay;
use crate::reservation::reserved;
use crate::reservation::retained;
use crate::reservation::retirement_keeps_others;
use crate::reservation::serves;
use crate::reservation::Accounts;
use crate::reservation::Kind;
use crate::reservation::SWByteLease;
use crate::reservation::SWCapacityUsage;
use crate::reservation::SWReservation;
use crate::reservation::SWReservationPool;
use crate::reservation::Usage;
use crate::scheduler::Claim;
use crate::scheduler::Finalized;
use crate::scheduler::FinishStep;
use crate::scheduler::OwnedScheduler;
use crate::slots::live;
use crate::steps::dispatched_wf;
use crate::steps::helpable;
use crate::steps::oldest_helpable;
use crate::steps::submitted_wf;
use crate::steps::unclaimed_ids;
use crate::steps::unsettled_ids;
use crate::steps::Activated;
use crate::steps::SubmitRequest;
use crate::sums::total;
use crate::supply::books;
use crate::supply::books_wf;
use crate::supply::check_draw;
use crate::supply::draw_error;
use crate::supply::reservation_known;
use crate::supply::supplied;
use crate::supply::count_draw_wakes;
use crate::supply::draw_wakes;
use crate::supply::supply;
use crate::supply::Need;
use crate::supply::Supplied;
use crate::task::SWTaskStatus;
use crate::progress::owe;
use crate::progress::owing;
use vstd::prelude::*;

verus! {

/// The capacity that one live record holds.
pub struct Charge {
    pub id: u64,
    pub reservation: SWReservation,
}

#[verifier::ext_equal]
pub struct RuntimeView {
    pub control: ControlView,
    /// None where the runtime provides scoped execution only.
    pub owned: Option<SchedulerView>,
    /// None where no capacity policy is enabled.
    pub capacity: Option<Accounts>,
    /// In admission order.
    pub charges: Seq<Charge>,
}

/// An owned or provider-owned record that has not ended.
pub open spec fn live_work(owned: SchedulerView, id: u64) -> bool {
    present(owned.records, id) || external_present(owned.external, id)
}

pub open spec fn charge_at(charges: Seq<Charge>, i: int, id: u64) -> bool {
    0 <= i < charges.len() && charges[i].id == id
}

pub open spec fn has_charge(charges: Seq<Charge>, id: u64) -> bool {
    exists|i: int| #[trigger] charge_at(charges, i, id)
}

pub open spec fn charge_slot(charges: Seq<Charge>, id: u64) -> int {
    choose|i: int| #[trigger] charge_at(charges, i, id)
}

impl RuntimeView {
    /// Every charge is live in the pool, and no two are the same.
    pub open spec fn charged(self) -> bool {
        &&& self.capacity is None ==> self.charges.len() == 0
        &&& forall|i: int|
            0 <= i < self.charges.len() ==> (#[trigger] self.charges[i]).reservation.held_in(
                self.capacity->0,
            )
        &&& forall|i: int, j: int|
            0 <= i < self.charges.len() && 0 <= j < self.charges.len() && i != j ==> {
                &&& (#[trigger] self.charges[i]).id != (#[trigger] self.charges[j]).id
                &&& self.charges[i].reservation.bank_slot()
                    != self.charges[j].reservation.bank_slot()
            }
    }

    /// With a capacity policy exactly the live records hold a charge.
    pub open spec fn matched(self) -> bool {
        self.owned matches Some(owned) ==> {
            &&& forall|i: int|
                0 <= i < self.charges.len() ==> live_work(owned, (#[trigger] self.charges[i]).id)
            &&& self.capacity is Some ==> forall|id: u64| #[trigger]
                live_work(owned, id) ==> has_charge(self.charges, id)
        }
    }

    /// Every live record holds its place in the runtime's counts.
    pub open spec fn counted(self) -> bool {
        match self.owned {
            Some(owned) => {
                &&& self.control.active >= owned.records.len()
                &&& self.control.external == owned.external.len()
            },
            None => self.capacity is None && self.control.external == 0,
        }
    }

    pub open spec fn wf(self) -> bool {
        &&& self.control.wf()
        &&& self.owned matches Some(owned) ==> owned.wf()
        &&& books_wf(self.capacity, self.control.id)
        &&& self.charged()
        &&& self.matched()
        &&& self.counted()
    }

    /// A handle that belongs to a caller, not to a record of this runtime.
    pub open spec fn outside(self, reservation: SWReservation) -> bool {
        forall|i: int|
            0 <= i < self.charges.len() ==> (
            #[trigger] self.charges[i]).reservation.bank_slot() != reservation.bank_slot()
    }
}

/// The lease that work asks of a work set, and what became of it.
#[derive(Clone, Copy, Debug, PartialEq, Eq, Structural)]
pub enum WorkLease {
    /// The work belongs to no set.
    Unset,
    Granted,
    Refused(SWDiscoveryError),
    /// Both a root set and a discovery permit were named.
    Ambiguous,
}

impl WorkLease {
    pub open spec fn accounted(self) -> bool {
        self == WorkLease::Granted
    }

    pub open spec fn error(self) -> Option<SWSpawnError> {
        match self {
            WorkLease::Refused(error) => Some(discovery_refusal(error)),
            WorkLease::Ambiguous => Some(SWSpawnError::InvalidContext),
            _ => None,
        }
    }

    pub fn is_accounted(&self) -> (accounted: bool)
        ensures
            accounted == self.accounted(),
    {
        *self == WorkLease::Granted
    }

    pub fn check(&self) -> (error: Option<SWSpawnError>)
        ensures
            error == self.error(),
    {
        match self {
            WorkLease::Refused(error) => Some(map_discovery_error(*error)),
            WorkLease::Ambiguous => Some(SWSpawnError::InvalidContext),
            _ => None,
        }
    }
}

/// A delivery that this admission has to account.
pub open spec fn unaccounted(delivery: Option<DeliveryClaim>) -> bool {
    delivery matches Some(claim) && !claim.accounted
}

fn is_unaccounted(delivery: &Option<DeliveryClaim>) -> (result: bool)
    ensures
        result == unaccounted(*delivery),
{
    match delivery {
        Some(claim) => !claim.accounted,
        None => false,
    }
}

/// What a job without declared cost needs: one record, its edges, and its
/// delivery.
pub open spec fn plain_need(request: SubmitRequest) -> Need {
    Need {
        cost: SWCost {
            records: 1,
            edges: request.prerequisites,
            deliveries: if unaccounted(request.delivery) {
                1
            } else {
                0
            },
            bytes: 0,
        },
        retained_bytes: 0,
        delivery: unaccounted(request.delivery),
    }
}

pub open spec fn at_least(a: usize, b: usize) -> usize {
    if a >= b {
        a
    } else {
        b
    }
}

/// What a stage with declared cost needs: at least one record, all its edges,
/// and its delivery unless that is accounted already.
pub open spec fn declared_need(
    cost: SWCost,
    retained_bytes: usize,
    edges: usize,
    delivery: Option<DeliveryClaim>,
) -> Need {
    Need {
        cost: SWCost {
            records: at_least(cost.records, 1),
            edges: at_least(cost.edges, edges),
            deliveries: (at_least(
                cost.deliveries,
                if delivery is Some {
                    1
                } else {
                    0
                },
            ) - (if delivery is Some && delivery->0.accounted {
                1int
            } else {
                0int
            })) as usize,
            bytes: cost.bytes,
        },
        retained_bytes,
        delivery: unaccounted(delivery),
    }
}

fn larger(a: usize, b: usize) -> (result: usize)
    ensures
        result == at_least(a, b),
{
    if a >= b {
        a
    } else {
        b
    }
}

fn declare(
    cost: SWCost,
    retained_bytes: usize,
    edges: usize,
    delivery: &Option<DeliveryClaim>,
) -> (need: Need)
    ensures
        need == declared_need(cost, retained_bytes, edges, *delivery),
        need.delivery ==> need.cost.deliveries >= 1,
{
    let deliveries: usize = match delivery {
        Some(claim) => if claim.accounted {
            larger(cost.deliveries, 1) - 1
        } else {
            larger(cost.deliveries, 1)
        },
        None => cost.deliveries,
    };
    Need {
        cost: SWCost::new(larger(cost.records, 1), larger(cost.edges, edges), deliveries, cost.bytes),
        retained_bytes,
        delivery: is_unaccounted(delivery),
    }
}

/// The request as the scheduler of this runtime sees it.
pub open spec fn routed(request: SubmitRequest, runtime: u64, reserved: bool) -> SubmitRequest {
    SubmitRequest { runtime, reserved, ..request }
}

impl RuntimeView {
    /// Whether owned work exists here at all.
    pub open spec fn owned_error(self) -> Option<SWSpawnError> {
        if self.owned is Some {
            None
        } else if self.control.phase == SWRuntimeState::Running {
            Some(SWSpawnError::Disabled)
        } else {
            Some(SWSpawnError::Closed)
        }
    }

    /// Why a job without declared cost is refused, if it is.
    pub open spec fn submit_error(self, request: SubmitRequest, lease: WorkLease) -> Option<
        SWSpawnError,
    > {
        if self.owned_error() is Some {
            self.owned_error()
        } else if lease.error() is Some {
            lease.error()
        } else if !self.control.admits(lease.accounted(), request.context) {
            Some(SWSpawnError::Closed)
        } else if draw_error(
            self.capacity,
            self.control.id,
            None,
            plain_need(request).cost,
        ) is Some {
            draw_error(self.capacity, self.control.id, None, plain_need(request).cost)
        } else {
            self.owned->0.submit_error(routed(request, self.control.id, false))
        }
    }

    /// Why a stage with declared cost is refused, if it is.
    pub open spec fn stage_error(
        self,
        request: SubmitRequest,
        lease: WorkLease,
        reservation: Option<&SWReservation>,
        need: Need,
    ) -> Option<SWSpawnError> {
        if self.owned_error() is Some {
            self.owned_error()
        } else if lease.error() is Some {
            lease.error()
        } else if need.retained_bytes > need.cost.bytes {
            Some(SWSpawnError::TooLarge)
        } else if draw_error(self.capacity, self.control.id, reservation, need.cost) is Some {
            draw_error(self.capacity, self.control.id, reservation, need.cost)
        } else if !self.control.admits(lease.accounted(), request.context) {
            Some(SWSpawnError::Closed)
        } else {
            self.owned->0.submit_error(routed(request, self.control.id, reservation is Some))
        }
    }
}

impl RuntimeView {
    /// The runtime after an attempt that was refused: it owes the notifications
    /// of an admission and of draws that ended again, and a wave that was joined
    /// and left looks for work.
    pub open spec fn touched(self, admission: int, draws: int, wave: Option<u64>) -> RuntimeView {
        RuntimeView {
            control: self.control.woken_by(admission),
            capacity: match self.capacity {
                Some(pool) => Some(pool.woken_by(draws)),
                None => None,
            },
            owned: match wave {
                Some(id) => Some(self.owned->0.revisited(id)),
                None => self.owned,
            },
            ..self
        }
    }

    /// The runtime after the scheduler refused a job that was admitted and had
    /// drawn its capacity.
    pub open spec fn turned_away(
        self,
        request: SubmitRequest,
        reservation: Option<&SWReservation>,
        need: Need,
    ) -> RuntimeView {
        let owned = self.owned->0;
        self.touched(
            2,
            draw_wakes(
                reservation,
                need.retained_bytes,
                need.delivery && owned.commits(request),
            ),
            if owned.joins(request) {
                Some(request.group->0.id)
            } else {
                None
            },
        )
    }

    /// The runtime after it refused a job without declared cost.
    pub open spec fn after_refused_submit(self, request: SubmitRequest, lease: WorkLease) -> RuntimeView {
        let need = plain_need(request);
        if self.owned_error() is Some || lease.error() is Some || !self.control.admits(
            lease.accounted(),
            request.context,
        ) {
            self
        } else if draw_error(self.capacity, self.control.id, None, need.cost) is Some {
            self.touched(2, 0, None)
        } else {
            self.turned_away(routed(request, self.control.id, false), None, need)
        }
    }

    /// The runtime after it refused a stage with declared cost.
    pub open spec fn after_refused_stage(
        self,
        request: SubmitRequest,
        lease: WorkLease,
        reservation: Option<&SWReservation>,
        need: Need,
    ) -> RuntimeView {
        if self.owned_error() is Some || lease.error() is Some || need.retained_bytes
            > need.cost.bytes || draw_error(
            self.capacity,
            self.control.id,
            reservation,
            need.cost,
        ) is Some {
            self
        } else if !self.control.admits(lease.accounted(), request.context) {
            self.touched(0, draw_wakes(reservation, need.retained_bytes, false), None)
        } else {
            self.turned_away(
                routed(request, self.control.id, reservation is Some),
                reservation,
                need,
            )
        }
    }
}

/// Further notifications leave everything else as it was.
proof fn touched_wf(v: RuntimeView, w: RuntimeView)
    requires
        v.wf(),
        w.control == (ControlView { wake: w.control.wake, ..v.control }),
        w.charges == v.charges,
        w.owned == v.owned,
        w.capacity is Some <==> v.capacity is Some,
        w.capacity matches Some(pool) ==> books_wf(w.capacity, w.control.id) && pool == (Accounts {
            wake: pool.wake,
            ..v.capacity->0
        }),
    ensures
        w.wf(),
{
    if v.capacity is Some {
        assert forall|i: int|
            0 <= i < v.charges.len() implies (#[trigger] v.charges[i]).reservation.held_in(
            w.capacity->0,
        ) by {
            assert(v.charges[i].reservation.held_in(v.capacity->0));
        }
    }
}

/// An accepted job: its identity, whether its caller executes it, and what
/// follows its result and its delivery.
pub struct OwnedAccepted {
    pub id: u64,
    pub inline: bool,
    pub bytes: Option<SWByteLease>,
    pub ticket: Option<SWReservation>,
}

/// The capacity of one more record, drawn and charged to it.
pub open spec fn newly_charged(
    before: RuntimeView,
    after: RuntimeView,
    id: u64,
    reservation: Option<&SWReservation>,
    need: Need,
    bytes: Option<SWByteLease>,
    ticket: Option<SWReservation>,
) -> bool {
    match before.capacity {
        None => {
            &&& after.capacity is None
            &&& after.charges == before.charges
            &&& bytes is None
            &&& ticket is None
        },
        Some(_) => {
            &&& after.charges.len() == before.charges.len() + 1
            &&& after.charges.drop_last() == before.charges
            &&& after.charges.last().id == id
            &&& supplied(
                before.capacity,
                after.capacity,
                reservation,
                need,
                Supplied {
                    charge: Some(after.charges.last().reservation),
                    bytes,
                    ticket,
                },
            )
            &&& carries(before.capacity->0, after.capacity->0)
            &&& ticket matches Some(ticket) ==> ticket.held_in(after.capacity->0) && after.outside(
                ticket,
            )
            &&& bytes matches Some(lease) ==> lease.held_in(after.capacity->0)
        },
    }
}

/// The state after a job has been accepted: admitted by the runtime, recorded
/// by the scheduler, and charged to the pool, all or nothing.
pub open spec fn committed(
    before: RuntimeView,
    after: RuntimeView,
    request: SubmitRequest,
    reservation: Option<&SWReservation>,
    need: Need,
    accepted: OwnedAccepted,
) -> bool {
    &&& after.control == (ControlView { active: before.control.active + 1, ..before.control })
        .woken()
    &&& after.owned == Some(before.owned->0.submitted(request))
    &&& accepted.id == before.owned->0.next_id
    &&& accepted.inline == before.owned->0.inline(request)
    &&& newly_charged(
        before,
        after,
        accepted.id,
        reservation,
        need,
        accepted.bytes,
        accepted.ticket,
    )
}

/// One runtime.
pub struct SWRuntime {
    control: RuntimeControl,
    owned: Option<OwnedScheduler>,
    capacity: Option<SWReservationPool>,
    charges: Vec<Charge>,
}

impl View for SWRuntime {
    type V = RuntimeView;

    closed spec fn view(&self) -> RuntimeView {
        RuntimeView {
            control: self.control@,
            owned: match self.owned {
                Some(owned) => Some(owned@),
                None => None,
            },
            capacity: books(self.capacity),
            charges: self.charges@,
        }
    }
}

/// Another record does not disturb the charges of the others.
proof fn charged_push(
    before: RuntimeView,
    after: RuntimeView,
    charge: Charge,
)
    requires
        before.charged(),
        before.capacity is Some,
        after.capacity is Some,
        carries(before.capacity->0, after.capacity->0),
        after.charges == before.charges.push(charge),
        charge.reservation.held_in(after.capacity->0),
        !live(before.capacity->0.banks, charge.reservation.bank_slot()),
        !has_charge(before.charges, charge.id),
    ensures
        after.charged(),
{
    carries_handles(before.capacity->0, after.capacity->0);
    assert forall|i: int|
        0 <= i < after.charges.len() implies (#[trigger] after.charges[i]).reservation.held_in(
        after.capacity->0,
    ) by {
        if i < before.charges.len() {
            assert(before.charges[i].reservation.held_in(before.capacity->0));
        }
    }
    assert forall|i: int, j: int|
        0 <= i < after.charges.len() && 0 <= j < after.charges.len() && i != j implies {
        &&& (#[trigger] after.charges[i]).id != (#[trigger] after.charges[j]).id
        &&& after.charges[i].reservation.bank_slot() != after.charges[j].reservation.bank_slot()
    } by {
        if i < before.charges.len() {
            assert(before.charges[i].reservation.held_in(before.capacity->0));
            assert(charge_at(before.charges, i, before.charges[i].id));
        }
        if j < before.charges.len() {
            assert(before.charges[j].reservation.held_in(before.capacity->0));
            assert(charge_at(before.charges, j, before.charges[j].id));
        }
    }
}

/// Work that was live stays live when one record is added, which is then live.
proof fn submitted_live(v: SchedulerView, request: SubmitRequest)
    requires
        v.wf(),
        v.submit_error(request) is None,
        v.next_id < u64::MAX,
    ensures
        forall|id: u64| #[trigger]
            live_work(v.submitted(request), id) <==> live_work(v, id) || id == v.next_id,
        !live_work(v, v.next_id as u64),
{
    let w = v.submitted(request);
    assert forall|id: u64| #[trigger]
        live_work(w, id) <==> live_work(v, id) || id == v.next_id by {
        if present(w.records, id) {
            let i = at(w.records, id);
            assert(record_at(w.records, i, id));
            if i < v.records.len() {
                assert(record_at(v.records, i, id));
            }
        }
        if present(v.records, id) {
            let i = at(v.records, id);
            assert(record_at(v.records, i, id));
            assert(record_at(w.records, i, id));
        }
        if id == v.next_id {
            assert(record_at(w.records, v.records.len() as int, id));
        }
    }
    let id = v.next_id as u64;
    if present(v.records, id) {
        assert(record_at(v.records, at(v.records, id), id));
    }
    if external_present(v.external, id) {
        let i = choose|i: int| #[trigger] external_at(v.external, i, id);
        assert(v.external[i].id < v.next_id);
    }
}

impl SWRuntime {
    pub closed spec fn cached(self) -> bool {
        self.control.counted()
    }

    pub open spec fn wf(self) -> bool {
        self@.wf() && self.cached()
    }

    /// Admits the runtime's part, the capacity and the record together.
    fn commit(
        &mut self,
        request: &SubmitRequest,
        accounted: bool,
        reservation: Option<&SWReservation>,
        need: Need,
    ) -> (accepted: OwnedAccepted)
        requires
            old(self).wf(),
            old(self)@.owned is Some,
            old(self)@.owned->0.next_id < u64::MAX,
            old(self)@.control.active < usize::MAX,
            old(self)@.control.admits(accounted, request.context),
            need.coherent(),
            reservation_known(old(self)@.capacity, old(self)@.control.id, reservation),
            draw_error(old(self)@.capacity, old(self)@.control.id, reservation, need.cost) is None,
            old(self)@.owned->0.submit_error(*request) is None,
        ensures
            final(self).wf(),
            committed(old(self)@, final(self)@, *request, reservation, need, accepted),
    {
        let ghost v = self@;
        let ghost s = self@.owned->0;
        proof {
            submitted_wf(s, *request);
            submitted_live(s, *request);
        }
        let _ = self.control.admit_owned(accounted, request.context);
        let runtime: u64 = self.control.identity();
        let supply = supply(&mut self.capacity, runtime, reservation, need);
        let Supplied { charge, bytes, ticket } = supply;
        let mut id: u64 = 0;
        let mut inline = false;
        match &mut self.owned {
            Some(owned) => {
                match owned.submit(request) {
                    Ok(accepted) => {
                        id = accepted.id;
                        inline = accepted.inline;
                    },
                    Err(_) => {},
                }
            },
            None => {},
        }
        let ghost charges = self.charges@;
        if let Some(reservation) = charge {
            self.charges.push(Charge { id, reservation });
        }
        proof {
            let w = self@;
            if v.capacity is Some {
                let charge = w.charges.last();
                assert(w.charges == v.charges.push(charge));
                assert(!has_charge(v.charges, id)) by {
                    if has_charge(v.charges, id) {
                        let i = charge_slot(v.charges, id);
                        assert(charge_at(v.charges, i, id));
                        assert(live_work(s, v.charges[i].id));
                    }
                }
                charged_push(v, w, charge);
                assert(w.charges.drop_last() =~= v.charges);
                if ticket is Some {
                    assert forall|i: int|
                        0 <= i < w.charges.len() implies (
                    #[trigger] w.charges[i]).reservation.bank_slot() != ticket->0.bank_slot() by {
                        if i < v.charges.len() {
                            assert(v.charges[i].reservation.held_in(v.capacity->0));
                        }
                    }
                }
                assert forall|x: u64| #[trigger] live_work(w.owned->0, x) implies has_charge(
                    w.charges,
                    x,
                ) by {
                    if x == id {
                        assert(charge_at(w.charges, v.charges.len() as int, x));
                    } else {
                        assert(live_work(s, x));
                        let i = charge_slot(v.charges, x);
                        assert(charge_at(v.charges, i, x));
                        assert(charge_at(w.charges, i, x));
                    }
                }
            }
            assert forall|i: int| 0 <= i < w.charges.len() implies live_work(
                w.owned->0,
                (#[trigger] w.charges[i]).id,
            ) by {
                if i < v.charges.len() {
                    assert(live_work(s, v.charges[i].id));
                }
            }
        }
        OwnedAccepted { id, inline, bytes, ticket }
    }
}

impl SWRuntime {
    fn check_owned(&self) -> (error: Option<SWSpawnError>)
        ensures
            error == self@.owned_error(),
    {
        match self.control.owned_scheduler(self.owned.is_some(), self.owned.is_some()) {
            Ok(()) => None,
            Err(error) => Some(error),
        }
    }

    fn check_scheduler(&self, request: &SubmitRequest) -> (error: Option<SWSpawnError>)
        requires
            self.wf(),
            self@.owned is Some,
        ensures
            error == self@.owned->0.submit_error(*request),
    {
        match &self.owned {
            Some(owned) => owned.check_submit(request),
            None => None,
        }
    }

    /// Leaves what a refused attempt leaves.
    fn touch(&mut self, admission: u64, draws: u64, wave: Option<u64>)
        requires
            old(self).wf(),
            wave matches Some(id) ==> old(self)@.owned is Some && group_present(
                old(self)@.owned->0.groups,
                id,
            ),
        ensures
            final(self).wf(),
            final(self)@ == old(self)@.touched(admission as int, draws as int, wave),
    {
        let ghost v = self@;
        self.control.wake_by(admission);
        if let Some(pool) = &mut self.capacity {
            pool.wake_by(draws);
        }
        let ghost m = self@;
        proof {
            touched_wf(v, m);
        }
        if let Some(id) = wave {
            if let Some(owned) = &mut self.owned {
                owned.revisit_group(id);
            }
            proof {
                rescheduled(m, self@);
            }
        }
    }

    /// Leaves what a job leaves that the scheduler refused.
    fn turn_away(
        &mut self,
        request: &SubmitRequest,
        reservation: Option<&SWReservation>,
        need: Need,
    )
        requires
            old(self).wf(),
            old(self)@.owned is Some,
        ensures
            final(self).wf(),
            final(self)@ == old(self)@.turned_away(*request, reservation, need),
    {
        let mut promised = false;
        let mut wave: Option<u64> = None;
        if let Some(owned) = &self.owned {
            promised = need.delivery && owned.commits(request);
            if owned.joins(request) {
                if let Some(group) = request.group {
                    wave = Some(group.id);
                }
            }
        }
        let draws: u64 = count_draw_wakes(reservation, need.retained_bytes, promised);
        self.touch(2, draws, wave);
    }

    /// Admits a job without declared cost, or refuses it. A refusal accepts
    /// nothing; it may have notified of what was admitted and ended again.
    pub fn submit(&mut self, request: &SubmitRequest, lease: WorkLease) -> (result: Result<
        OwnedAccepted,
        SWSpawnError,
    >)
        requires
            old(self).wf(),
            old(self)@.owned matches Some(owned) ==> owned.next_id < u64::MAX,
            old(self)@.control.active < usize::MAX,
        ensures
            final(self).wf(),
            match result {
                Ok(accepted) => {
                    &&& old(self)@.submit_error(*request, lease) is None
                    &&& committed(
                        old(self)@,
                        final(self)@,
                        routed(*request, old(self)@.control.id, false),
                        None,
                        plain_need(*request),
                        accepted,
                    )
                },
                Err(error) => {
                    &&& old(self)@.submit_error(*request, lease) == Some(error)
                    &&& final(self)@ == old(self)@.after_refused_submit(*request, lease)
                },
            },
    {
        match self.check_owned() {
            Some(error) => {
                return Err(error);
            },
            None => {},
        }
        match lease.check() {
            Some(error) => {
                return Err(error);
            },
            None => {},
        }
        let accounted = lease.is_accounted();
        if !self.control.would_admit(accounted, request.context) {
            return Err(SWSpawnError::Closed);
        }
        let runtime: u64 = self.control.identity();
        let delivery = is_unaccounted(&request.delivery);
        let need = Need {
            cost: SWCost::new(
                1,
                request.prerequisites,
                if delivery {
                    1
                } else {
                    0
                },
                0,
            ),
            retained_bytes: 0,
            delivery,
        };
        match check_draw(&self.capacity, runtime, None, need.cost) {
            Some(error) => {
                self.touch(2, 0, None);
                return Err(error);
            },
            None => {},
        }
        let request = SubmitRequest { runtime, reserved: false, ..*request };
        match self.check_scheduler(&request) {
            Some(error) => {
                self.turn_away(&request, None, need);
                return Err(error);
            },
            None => {},
        }
        Ok(self.commit(&request, accounted, None, need))
    }

    /// Admits a stage with declared cost, or refuses it.
    /// Declared retained bytes follow the returned value.
    pub fn submit_stage(
        &mut self,
        request: &SubmitRequest,
        lease: WorkLease,
        reservation: Option<&SWReservation>,
        cost: SWCost,
        retained_bytes: usize,
    ) -> (result: Result<OwnedAccepted, SWSpawnError>)
        requires
            old(self).wf(),
            old(self)@.owned matches Some(owned) ==> owned.next_id < u64::MAX,
            old(self)@.control.active < usize::MAX,
            reservation_known(old(self)@.capacity, old(self)@.control.id, reservation),
        ensures
            final(self).wf(),
            ({
                let need = declared_need(
                    cost,
                    retained_bytes,
                    request.prerequisites,
                    request.delivery,
                );
                match result {
                    Ok(accepted) => {
                        &&& old(self)@.stage_error(*request, lease, reservation, need) is None
                        &&& committed(
                            old(self)@,
                            final(self)@,
                            routed(*request, old(self)@.control.id, reservation is Some),
                            reservation,
                            need,
                            accepted,
                        )
                    },
                    Err(error) => {
                        &&& old(self)@.stage_error(*request, lease, reservation, need) == Some(
                            error,
                        )
                        &&& final(self)@ == old(self)@.after_refused_stage(
                            *request,
                            lease,
                            reservation,
                            need,
                        )
                    },
                }
            }),
    {
        match self.check_owned() {
            Some(error) => {
                return Err(error);
            },
            None => {},
        }
        match lease.check() {
            Some(error) => {
                return Err(error);
            },
            None => {},
        }
        let need = declare(cost, retained_bytes, request.prerequisites, &request.delivery);
        if need.retained_bytes > need.cost.bytes {
            return Err(SWSpawnError::TooLarge);
        }
        let runtime: u64 = self.control.identity();
        match check_draw(&self.capacity, runtime, reservation, need.cost) {
            Some(error) => {
                return Err(error);
            },
            None => {},
        }
        let accounted = lease.is_accounted();
        if !self.control.would_admit(accounted, request.context) {
            let draws: u64 = count_draw_wakes(reservation, need.retained_bytes, false);
            self.touch(0, draws, None);
            return Err(SWSpawnError::Closed);
        }
        let request = SubmitRequest { runtime, reserved: reservation.is_some(), ..*request };
        match self.check_scheduler(&request) {
            Some(error) => {
                self.turn_away(&request, reservation, need);
                return Err(error);
            },
            None => {},
        }
        Ok(self.commit(&request, accounted, reservation, need))
    }
}

/// The charges without one.
pub open spec fn uncharged(
    before: RuntimeView,
    after: RuntimeView,
    id: u64,
) -> bool {
    match before.capacity {
        None => after.capacity is None && after.charges == before.charges,
        Some(pool) => {
            let i = charge_slot(before.charges, id);
            &&& has_charge(before.charges, id)
            &&& after.charges == before.charges.remove(i)
            &&& after.capacity == Some(
                pool.without_bank(before.charges[i].reservation.bank_slot()),
            )
        },
    }
}

/// Retiring one charge leaves the others.
proof fn charged_remove(before: RuntimeView, after: RuntimeView, i: int)
    requires
        before.charged(),
        before.capacity is Some,
        before.capacity->0.wf(),
        0 <= i < before.charges.len(),
        after.charges == before.charges.remove(i),
        after.capacity == Some(
            before.capacity->0.without_bank(before.charges[i].reservation.bank_slot()),
        ),
    ensures
        after.charged(),
        forall|id: u64| #[trigger]
            has_charge(after.charges, id) <==> has_charge(before.charges, id) && id
                != before.charges[i].id,
{
    let gone = before.charges[i];
    assert forall|k: int| 0 <= k < after.charges.len() implies #[trigger] after.charges[k]
        == before.charges[if k < i {
        k
    } else {
        k + 1
    }] by {}
    assert(gone.reservation.held_in(before.capacity->0));
    assert forall|k: int|
        0 <= k < after.charges.len() implies (#[trigger] after.charges[k]).reservation.held_in(
        after.capacity->0,
    ) by {
        let other = before.charges[if k < i {
            k
        } else {
            k + 1
        }];
        assert(other.reservation.held_in(before.capacity->0));
        retirement_keeps_others(before.capacity->0, gone.reservation, other.reservation);
    }
    assert forall|id: u64| #[trigger]
        has_charge(after.charges, id) <==> has_charge(before.charges, id) && id != gone.id by {
        if has_charge(after.charges, id) {
            let k = charge_slot(after.charges, id);
            assert(charge_at(after.charges, k, id));
            let j = if k < i {
                k
            } else {
                k + 1
            };
            assert(charge_at(before.charges, j, id));
        }
        if has_charge(before.charges, id) && id != gone.id {
            let j = charge_slot(before.charges, id);
            assert(charge_at(before.charges, j, id));
            let k = if j < i {
                j
            } else {
                j - 1
            };
            assert(charge_at(after.charges, k, id));
        }
    }
}

/// What stays live when one record ends.
proof fn finalized_live(v: SchedulerView, id: u64)
    requires
        v.wf(),
        v.removable(id),
    ensures
        forall|x: u64| #[trigger]
            live_work(v.finalized(id), x) <==> live_work(v, x) && x != id,
        live_work(v, id),
{
    let w = v.finalized(id);
    let k = at(v.records, id);
    assert(record_at(v.records, k, id));
    assert forall|x: u64| #[trigger] live_work(w, x) <==> live_work(v, x) && x != id by {
        if present(w.records, x) {
            let j = at(w.records, x);
            assert(record_at(w.records, j, x));
            let o = if j < k {
                j
            } else {
                j + 1
            };
            assert(record_at(v.records, o, x));
            if o < k {
                assert(v.records[o].id < v.records[k].id);
            } else {
                assert(v.records[k].id < v.records[o].id);
            }
        }
        if present(v.records, x) && x != id {
            let o = at(v.records, x);
            assert(record_at(v.records, o, x));
            let j = if o < k {
                o
            } else {
                o - 1
            };
            assert(record_at(w.records, j, x));
        }
        if external_present(v.external, id) {
            let e = choose|e: int| #[trigger] external_at(v.external, e, id);
            assert(v.records[k].id != v.external[e].id);
        }
    }
}

/// What stays live when one provider-owned result ends.
proof fn external_ended_live(v: SchedulerView, id: u64)
    requires
        v.wf(),
        external_present(v.external, id),
    ensures
        forall|x: u64| #[trigger]
            live_work(v.without_external(id), x) <==> live_work(v, x) && x != id,
        live_work(v, id),
{
    let w = v.without_external(id);
    let k = v.external_slot(id);
    assert(external_at(v.external, k, id));
    assert forall|x: u64| #[trigger] live_work(w, x) <==> live_work(v, x) && x != id by {
        if external_present(w.external, x) {
            let j = choose|j: int| #[trigger] external_at(w.external, j, x);
            let o = if j < k {
                j
            } else {
                j + 1
            };
            assert(w.external[j] == v.external[o]);
            assert(external_at(v.external, o, x));
            if o < k {
                assert(v.external[o].id < v.external[k].id);
            } else {
                assert(v.external[k].id < v.external[o].id);
            }
        }
        if external_present(v.external, x) && x != id {
            let o = choose|o: int| #[trigger] external_at(v.external, o, x);
            let j = if o < k {
                o
            } else {
                o - 1
            };
            assert(w.external[j] == v.external[o]);
            assert(external_at(w.external, j, x));
        }
        if present(v.records, id) {
            let r = at(v.records, id);
            assert(record_at(v.records, r, id));
            assert(v.records[r].id != v.external[k].id);
        }
    }
}

impl SWRuntime {
    /// Returns the capacity of a record that has ended.
    fn uncharge(&mut self, id: u64)
        requires
            old(self)@.charged(),
            books_wf(old(self)@.capacity, old(self)@.control.id),
            old(self)@.capacity is Some ==> has_charge(old(self)@.charges, id),
        ensures
            uncharged(old(self)@, final(self)@, id),
            final(self)@.charged(),
            books_wf(final(self)@.capacity, final(self)@.control.id),
            final(self)@.control == old(self)@.control,
            final(self)@.owned == old(self)@.owned,
            final(self).cached() == old(self).cached(),
            final(self)@.capacity is Some ==> forall|x: u64| #[trigger]
                has_charge(final(self)@.charges, x) <==> has_charge(old(self)@.charges, x) && x
                    != id,
    {
        let ghost v = self@;
        if let Some(pool) = &mut self.capacity {
            let mut index: usize = 0;
            while index < self.charges.len() && self.charges[index].id != id
                invariant
                    index <= self.charges@.len(),
                    self.charges@ == v.charges,
                    has_charge(v.charges, id),
                    forall|i: int| 0 <= i < index ==> (#[trigger] v.charges[i]).id != id,
                decreases self.charges@.len() - index,
            {
                assert(v.charges[index as int].id != id);
                index += 1;
            }
            proof {
                let i = charge_slot(v.charges, id);
                assert(charge_at(v.charges, i, id));
                assert(v.charges[i].id == id);
                if i != index {
                    assert(v.charges[i].id != v.charges[index as int].id);
                }
            }
            let charge = self.charges.remove(index);
            let Charge { id: _, reservation } = charge;
            proof {
                assert(v.charges[index as int].reservation.held_in(v.capacity->0));
            }
            reservation.retire(pool);
            proof {
                charged_remove(v, self@, index as int);
            }
        }
    }

    /// Ends a record whose publication is done: its capacity returns first,
    /// then its group membership and its admission end.
    pub fn finalize_record(&mut self, id: u64) -> (finalized: Option<Finalized>)
        requires
            old(self).wf(),
        ensures
            final(self).wf(),
            finalized is Some <==> old(self)@.owned is Some && old(self)@.owned->0.removable(id),
            match finalized {
                Some(finalized) => {
                    let owned = old(self)@.owned->0;
                    &&& finalized.record == owned.get(id)
                    &&& finalized.settled_group == owned.settles_group(id)
                    &&& final(self)@.owned == Some(owned.finalized(id))
                    &&& uncharged(old(self)@, final(self)@, id)
                    &&& final(self)@.control == (ControlView {
                        active: old(self)@.control.active - 1,
                        ..old(self)@.control
                    }).woken()
                },
                None => final(self)@ == old(self)@,
            },
    {
        let ghost v = self@;
        let finalized = match &mut self.owned {
            Some(owned) => owned.finalize_record(id),
            None => None,
        };
        if finalized.is_some() {
            proof {
                finalized_live(v.owned->0, id);
                let k = at(v.owned->0.records, id);
                assert(record_at(v.owned->0.records, k, id));
            }
            self.uncharge(id);
            self.control.release_active();
            proof {
                let w = self@;
                assert forall|i: int| 0 <= i < w.charges.len() implies live_work(
                    w.owned->0,
                    (#[trigger] w.charges[i]).id,
                ) by {
                    assert(charge_at(w.charges, i, w.charges[i].id));
                    assert(has_charge(w.charges, w.charges[i].id));
                    let j = charge_slot(v.charges, w.charges[i].id);
                    assert(charge_at(v.charges, j, w.charges[i].id));
                    assert(live_work(v.owned->0, v.charges[j].id));
                }
            }
        }
        finalized
    }

    /// Ends a provider-owned result after its publication: its capacity and
    /// its admission return.
    pub fn finish_external(&mut self, id: u64) -> (removed: bool)
        requires
            old(self).wf(),
        ensures
            final(self).wf(),
            removed == (old(self)@.owned is Some && external_present(
                old(self)@.owned->0.external,
                id,
            )),
            if removed {
                &&& final(self)@.owned == Some(old(self)@.owned->0.without_external(id))
                &&& uncharged(old(self)@, final(self)@, id)
                &&& final(self)@.control == (ControlView {
                    external: old(self)@.control.external - 1,
                    ..old(self)@.control
                }).woken()
            } else {
                final(self)@ == old(self)@
            },
    {
        let ghost v = self@;
        let removed = match &mut self.owned {
            Some(owned) => owned.finish_external(id),
            None => false,
        };
        if removed {
            proof {
                external_ended_live(v.owned->0, id);
                let k = v.owned->0.external_slot(id);
                assert(external_at(v.owned->0.external, k, id));
            }
            self.uncharge(id);
            self.control.release_external();
            proof {
                let w = self@;
                assert forall|i: int| 0 <= i < w.charges.len() implies live_work(
                    w.owned->0,
                    (#[trigger] w.charges[i]).id,
                ) by {
                    assert(charge_at(w.charges, i, w.charges[i].id));
                    assert(has_charge(w.charges, w.charges[i].id));
                    let j = charge_slot(v.charges, w.charges[i].id);
                    assert(charge_at(v.charges, j, w.charges[i].id));
                    assert(live_work(v.owned->0, v.charges[j].id));
                }
            }
        }
        removed
    }
}

/// An accepted provider-owned result, and what follows it.
pub struct ExternalAccepted {
    pub id: u64,
    pub bytes: Option<SWByteLease>,
    pub ticket: Option<SWReservation>,
}

/// What is asked of admission for one provider-owned result.
#[derive(Clone, Copy, Debug, PartialEq, Eq, Structural)]
pub struct ExternalRequest {
    pub priority: Option<SWPriority>,
    /// The provider wants to hear of aggregate demand.
    pub provider_demand: bool,
    pub cost: SWCost,
    pub retained_bytes: usize,
    pub delivery: Option<DeliveryClaim>,
    /// What the caller currently takes part in.
    pub context: Option<Context>,
}

impl ExternalRequest {
    pub open spec fn need(self) -> Need {
        declared_need(self.cost, self.retained_bytes, 0, self.delivery)
    }
}

impl RuntimeView {
    /// Why a provider-owned result is refused, if it is.
    pub open spec fn external_error(
        self,
        request: ExternalRequest,
        lease: WorkLease,
        reservation: Option<&SWReservation>,
    ) -> Option<SWSpawnError> {
        let need = request.need();
        if self.owned_error() is Some {
            self.owned_error()
        } else if !self.control.admits(lease.accounted(), request.context) {
            Some(SWSpawnError::Closed)
        } else if lease.error() is Some {
            lease.error()
        } else if need.retained_bytes > need.cost.bytes {
            Some(SWSpawnError::TooLarge)
        } else if draw_error(self.capacity, self.control.id, reservation, need.cost) is Some {
            draw_error(self.capacity, self.control.id, reservation, need.cost)
        } else {
            self.owned->0.external_error(
                self.control.id,
                request.priority,
                request.provider_demand,
                request.delivery,
            )
        }
    }

    /// The runtime after it refused a provider-owned result.
    pub open spec fn after_refused_external(
        self,
        request: ExternalRequest,
        lease: WorkLease,
        reservation: Option<&SWReservation>,
    ) -> RuntimeView {
        let need = request.need();
        if self.owned_error() is Some || !self.control.admits(lease.accounted(), request.context) {
            self
        } else if lease.error() is Some || need.retained_bytes > need.cost.bytes || draw_error(
            self.capacity,
            self.control.id,
            reservation,
            need.cost,
        ) is Some {
            self.touched(2, 0, None)
        } else {
            let commits = self.owned->0.external_error(
                self.control.id,
                request.priority,
                request.provider_demand,
                None,
            ) is None;
            self.touched(
                2,
                draw_wakes(reservation, need.retained_bytes, need.delivery && commits),
                None,
            )
        }
    }

    /// The runtime after it refused a physical access.
    pub open spec fn after_refused_access(
        self,
        cost: SWCost,
        lease: WorkLease,
        reservation: Option<&SWReservation>,
    ) -> RuntimeView {
        let need = physical_need(cost);
        if lease == WorkLease::Ambiguous || cost.edges != 0 || cost.deliveries != 0 || lease
            is Refused || draw_error(self.capacity, self.control.id, reservation, need.cost)
            is Some {
            self
        } else {
            self.touched(0, draw_wakes(reservation, need.retained_bytes, false), None)
        }
    }

    /// Why a physical access is refused, if it is.
    pub open spec fn prepare_error(
        self,
        cost: SWCost,
        lease: WorkLease,
        reservation: Option<&SWReservation>,
        context: Option<Context>,
    ) -> Option<SWSpawnError> {
        let need = physical_need(cost);
        let required = reservation is Some && reservation->0.drawn_kind() == Kind::Required;
        if lease == WorkLease::Ambiguous || cost.edges != 0 || cost.deliveries != 0 {
            Some(SWSpawnError::InvalidContext)
        } else if lease is Refused {
            Some(SWSpawnError::Closed)
        } else if draw_error(self.capacity, self.control.id, reservation, need.cost) is Some {
            draw_error(self.capacity, self.control.id, reservation, need.cost)
        } else if !self.control.admits(lease.accounted(), context) {
            Some(SWSpawnError::Closed)
        } else {
            self.control.physical.reserve_error(required)
        }
    }
}

/// What a physical access needs: at least one record, and its bytes, which
/// follow the resource.
pub open spec fn physical_need(cost: SWCost) -> Need {
    Need {
        cost: SWCost {
            records: at_least(cost.records, 1),
            edges: 0,
            deliveries: 0,
            bytes: cost.bytes,
        },
        retained_bytes: cost.bytes,
        delivery: false,
    }
}

/// The state after a provider-owned result has been accepted.
pub open spec fn external_committed(
    before: RuntimeView,
    after: RuntimeView,
    request: ExternalRequest,
    reservation: Option<&SWReservation>,
    accepted: ExternalAccepted,
) -> bool {
    &&& after.control == (ControlView { external: before.control.external + 1, ..before.control })
        .woken()
    &&& after.owned == Some(before.owned->0.with_external())
    &&& accepted.id == before.owned->0.next_id
    &&& newly_charged(
        before,
        after,
        accepted.id,
        reservation,
        request.need(),
        accepted.bytes,
        accepted.ticket,
    )
}

/// Work that was live stays live when one provider-owned result is added.
proof fn with_external_live(v: SchedulerView)
    requires
        v.wf(),
    ensures
        forall|id: u64| #[trigger]
            live_work(v.with_external(), id) <==> live_work(v, id) || id == v.next_id as u64,
        !live_work(v, v.next_id as u64),
{
    let w = v.with_external();
    assert forall|id: u64| #[trigger]
        live_work(w, id) <==> live_work(v, id) || id == v.next_id as u64 by {
        if external_present(w.external, id) {
            let i = choose|i: int| #[trigger] external_at(w.external, i, id);
            if i < v.external.len() {
                assert(external_at(v.external, i, id));
            }
        }
        if external_present(v.external, id) {
            let i = choose|i: int| #[trigger] external_at(v.external, i, id);
            assert(external_at(w.external, i, id));
        }
        if id == v.next_id as u64 {
            assert(external_at(w.external, v.external.len() as int, id));
        }
    }
    let id = v.next_id as u64;
    if present(v.records, id) {
        assert(record_at(v.records, at(v.records, id), id));
    }
    if external_present(v.external, id) {
        let i = choose|i: int| #[trigger] external_at(v.external, i, id);
        assert(v.external[i].id < v.next_id);
    }
}

impl SWRuntime {
    /// Admits a provider-owned result without occupying a worker, or refuses it.
    /// A refusal accepts nothing.
    pub fn external(
        &mut self,
        request: &ExternalRequest,
        lease: WorkLease,
        reservation: Option<&SWReservation>,
    ) -> (result: Result<ExternalAccepted, SWSpawnError>)
        requires
            old(self).wf(),
            old(self)@.owned matches Some(owned) ==> owned.next_id < u64::MAX,
            old(self)@.control.external < usize::MAX,
            reservation_known(old(self)@.capacity, old(self)@.control.id, reservation),
        ensures
            final(self).wf(),
            match result {
                Ok(accepted) => {
                    &&& old(self)@.external_error(*request, lease, reservation) is None
                    &&& external_committed(
                        old(self)@,
                        final(self)@,
                        *request,
                        reservation,
                        accepted,
                    )
                },
                Err(error) => {
                    &&& old(self)@.external_error(*request, lease, reservation) == Some(error)
                    &&& final(self)@ == old(self)@.after_refused_external(
                        *request,
                        lease,
                        reservation,
                    )
                },
            },
    {
        match self.check_owned() {
            Some(error) => {
                return Err(error);
            },
            None => {},
        }
        let accounted = lease.is_accounted();
        if !self.control.would_admit(accounted, request.context) {
            return Err(SWSpawnError::Closed);
        }
        match lease.check() {
            Some(error) => {
                self.touch(2, 0, None);
                return Err(error);
            },
            None => {},
        }
        let need = declare(request.cost, request.retained_bytes, 0, &request.delivery);
        if need.retained_bytes > need.cost.bytes {
            self.touch(2, 0, None);
            return Err(SWSpawnError::TooLarge);
        }
        let runtime: u64 = self.control.identity();
        match check_draw(&self.capacity, runtime, reservation, need.cost) {
            Some(error) => {
                self.touch(2, 0, None);
                return Err(error);
            },
            None => {},
        }
        let refusal = match &self.owned {
            Some(owned) => owned.check_external(
                runtime,
                request.priority,
                request.provider_demand,
                request.delivery,
            ),
            None => None,
        };
        if let Some(error) = refusal {
            let commits = match &self.owned {
                Some(owned) => owned.check_external(
                    runtime,
                    request.priority,
                    request.provider_demand,
                    None,
                ).is_none(),
                None => false,
            };
            let draws: u64 = count_draw_wakes(
                reservation,
                need.retained_bytes,
                need.delivery && commits,
            );
            self.touch(2, draws, None);
            return Err(error);
        }
        let ghost v = self@;
        let ghost s = self@.owned->0;
        proof {
            with_external_live(s);
        }
        let _ = self.control.admit_external(accounted, request.context);
        let supply = supply(&mut self.capacity, runtime, reservation, need);
        let Supplied { charge, bytes, ticket } = supply;
        let mut id: u64 = 0;
        match &mut self.owned {
            Some(owned) => {
                match owned.admit_external(
                    runtime,
                    request.priority,
                    request.provider_demand,
                    request.delivery,
                ) {
                    Ok(accepted) => {
                        id = accepted;
                    },
                    Err(_) => {},
                }
            },
            None => {},
        }
        if let Some(reservation) = charge {
            self.charges.push(Charge { id, reservation });
        }
        proof {
            let w = self@;
            if v.capacity is Some {
                let charge = w.charges.last();
                assert(w.charges == v.charges.push(charge));
                assert(!has_charge(v.charges, id)) by {
                    if has_charge(v.charges, id) {
                        let i = charge_slot(v.charges, id);
                        assert(charge_at(v.charges, i, id));
                        assert(live_work(s, v.charges[i].id));
                    }
                }
                charged_push(v, w, charge);
                assert(w.charges.drop_last() =~= v.charges);
                if ticket is Some {
                    assert forall|i: int|
                        0 <= i < w.charges.len() implies (
                    #[trigger] w.charges[i]).reservation.bank_slot() != ticket->0.bank_slot() by {
                        if i < v.charges.len() {
                            assert(v.charges[i].reservation.held_in(v.capacity->0));
                        }
                    }
                }
                assert forall|x: u64| #[trigger] live_work(w.owned->0, x) implies has_charge(
                    w.charges,
                    x,
                ) by {
                    if x == id {
                        assert(charge_at(w.charges, v.charges.len() as int, x));
                    } else {
                        assert(live_work(s, x));
                        let i = charge_slot(v.charges, x);
                        assert(charge_at(v.charges, i, x));
                        assert(charge_at(w.charges, i, x));
                    }
                }
            }
            assert forall|i: int| 0 <= i < w.charges.len() implies live_work(
                w.owned->0,
                (#[trigger] w.charges[i]).id,
            ) by {
                if i < v.charges.len() {
                    assert(live_work(s, v.charges[i].id));
                }
            }
        }
        Ok(ExternalAccepted { id, bytes, ticket })
    }

    /// Reserves storage before foreign access starts, or refuses it. The
    /// prepared access is safe to reclaim; activation separately
    /// commits it.
    pub fn prepare_external(
        &mut self,
        cost: SWCost,
        lease: WorkLease,
        reservation: Option<&SWReservation>,
        context: Option<Context>,
    ) -> (result: Result<PreparedAccess, SWSpawnError>)
        requires
            old(self).wf(),
            old(self)@.control.physical.next_id < u64::MAX,
            reservation_known(old(self)@.capacity, old(self)@.control.id, reservation),
        ensures
            final(self).wf(),
            match result {
                Ok(prepared) => {
                    let required = reservation is Some && reservation->0.drawn_kind()
                        == Kind::Required;
                    &&& old(self)@.prepare_error(cost, lease, reservation, context) is None
                    &&& prepared.id == old(self)@.control.physical.next_id
                    &&& final(self)@.control == (ControlView {
                        physical: old(self)@.control.physical.reserved(required),
                        ..old(self)@.control
                    }).woken()
                    &&& final(self)@.owned == old(self)@.owned
                    &&& final(self)@.charges == old(self)@.charges
                    &&& supplied(
                        old(self)@.capacity,
                        final(self)@.capacity,
                        reservation,
                        physical_need(cost),
                        Supplied {
                            charge: prepared.charge,
                            bytes: prepared.bytes,
                            ticket: None,
                        },
                    )
                    &&& prepared.held_in(final(self)@)
                },
                Err(error) => {
                    &&& old(self)@.prepare_error(cost, lease, reservation, context) == Some(error)
                    &&& final(self)@ == old(self)@.after_refused_access(cost, lease, reservation)
                },
            },
    {
        if lease == WorkLease::Ambiguous || cost.edges != 0 || cost.deliveries != 0 {
            return Err(SWSpawnError::InvalidContext);
        }
        if let WorkLease::Refused(_) = lease {
            return Err(SWSpawnError::Closed);
        }
        let need = Need {
            cost: SWCost::new(larger(cost.records, 1), 0, 0, cost.bytes),
            retained_bytes: cost.bytes,
            delivery: false,
        };
        let runtime: u64 = self.control.identity();
        match check_draw(&self.capacity, runtime, reservation, need.cost) {
            Some(error) => {
                return Err(error);
            },
            None => {},
        }
        let required = match reservation {
            Some(parent) => parent.is_required(),
            None => false,
        };
        let accounted = lease.is_accounted();
        let id: u64 = match self.control.reserve_physical(required, accounted, context) {
            Ok(id) => id,
            Err(error) => {
                let draws: u64 = count_draw_wakes(reservation, need.retained_bytes, false);
                self.touch(0, draws, None);
                return Err(error);
            },
        };
        let ghost v = self@;
        let supply = supply(&mut self.capacity, runtime, reservation, need);
        let Supplied { charge, bytes, ticket } = supply;
        proof {
            let w = self@;
            assert(ticket is None);
            if v.capacity is Some {
                carries_handles(v.capacity->0, w.capacity->0);
                assert forall|i: int|
                    0 <= i < w.charges.len() implies (
                #[trigger] w.charges[i]).reservation.held_in(w.capacity->0) by {
                    assert(v.charges[i].reservation.held_in(v.capacity->0));
                }
                assert forall|i: int|
                    0 <= i < w.charges.len() implies (
                #[trigger] w.charges[i]).reservation.bank_slot() != charge->0.bank_slot() by {
                    assert(v.charges[i].reservation.held_in(v.capacity->0));
                }
            }
            let p = old(self)@.control.physical;
            assert(w.control.physical.entry_at(p.entries.len() as int, id));
        }
        Ok(PreparedAccess { id, charge, bytes })
    }
}

/// Storage reserved for one physical access.
pub struct PreparedAccess {
    pub id: u64,
    pub charge: Option<SWReservation>,
    pub bytes: Option<SWByteLease>,
}

impl PreparedAccess {
    /// The access and its capacity are live in this runtime.
    pub open spec fn held_in(self, runtime: RuntimeView) -> bool {
        &&& runtime.control.physical.has(self.id)
        &&& self.charge matches Some(charge) ==> runtime.capacity is Some && charge.held_in(
            runtime.capacity->0,
        ) && runtime.outside(charge)
        &&& self.bytes matches Some(lease) ==> runtime.capacity is Some && lease.held_in(
            runtime.capacity->0,
        )
    }
}

/// The same records and results, in the same places.
pub open spec fn same_ids(v: SchedulerView, w: SchedulerView) -> bool {
    &&& w.records.len() == v.records.len()
    &&& forall|i: int| 0 <= i < v.records.len() ==> (#[trigger] w.records[i]).id == v.records[i].id
    &&& w.external.len() == v.external.len()
    &&& forall|i: int|
        0 <= i < v.external.len() ==> (#[trigger] w.external[i]).id == v.external[i].id
}

/// A transition of the scheduler that ends and admits nothing leaves the
/// runtime consistent.
proof fn rescheduled(v: RuntimeView, w: RuntimeView)
    requires
        v.wf(),
        v.owned is Some,
        w.owned is Some,
        w.owned->0.wf(),
        same_ids(v.owned->0, w.owned->0),
        w.capacity == v.capacity,
        w.charges == v.charges,
        w.control.wf(),
        w.control.id == v.control.id,
        w.control.active >= v.owned->0.records.len(),
        w.control.external == v.control.external,
    ensures
        w.wf(),
{
    let a = v.owned->0;
    let b = w.owned->0;
    assert forall|id: u64| #[trigger] live_work(b, id) <==> live_work(a, id) by {
        if present(b.records, id) {
            let i = at(b.records, id);
            assert(record_at(b.records, i, id));
            assert(b.records[i].id == a.records[i].id);
            assert(record_at(a.records, i, id));
        }
        if present(a.records, id) {
            let i = at(a.records, id);
            assert(record_at(a.records, i, id));
            assert(b.records[i].id == a.records[i].id);
            assert(record_at(b.records, i, id));
        }
        if external_present(b.external, id) {
            let i = choose|i: int| #[trigger] external_at(b.external, i, id);
            assert(b.external[i].id == a.external[i].id);
            assert(external_at(a.external, i, id));
        }
        if external_present(a.external, id) {
            let i = choose|i: int| #[trigger] external_at(a.external, i, id);
            assert(b.external[i].id == a.external[i].id);
            assert(external_at(b.external, i, id));
        }
    }
    assert forall|i: int| 0 <= i < w.charges.len() implies live_work(
        b,
        (#[trigger] w.charges[i]).id,
    ) by {
        assert(live_work(a, v.charges[i].id));
    }
}

/// Leaving a queue, refilling a window and waking groups end nothing.
proof fn withdrawn_same_ids(v: SchedulerView, id: u64, stage: Stage)
    requires
        v.wf(),
        v.has(id),
    ensures
        same_ids(v, v.withdrawn(id, stage)),
        forall|c: int| same_ids(v, #[trigger] v.withdrawn(id, stage).promoted(c)),
        forall|c: int| same_ids(v, #[trigger] v.promoted(c)),
{
    assert(record_at(v.records, at(v.records, id), id));
}

impl SWRuntime {
    /// Claims a ready or handed-out job for execution. The claim holds an
    /// execution lease, which ends with [`Self::release_lease`] after the job
    /// has settled. `backend` says that the workers still exist.
    pub fn claim(&mut self, id: u64, caller: bool, backend: bool) -> (claim: Option<Claim>)
        requires
            old(self).wf(),
            old(self)@.control.active < usize::MAX,
        ensures
            final(self).wf(),
            claim is Some <==> {
                &&& old(self)@.owned is Some
                &&& old(self)@.control.executing() && backend
                &&& old(self)@.owned->0.claimable(id, caller)
            },
            match claim {
                Some(claim) => {
                    let owned = old(self)@.owned->0;
                    &&& claim == (Claim { class: owned.get(id).class, group: owned.get(id).group })
                    &&& final(self)@ == (RuntimeView {
                        owned: Some(owned.claimed(id)),
                        control: (ControlView {
                            active: old(self)@.control.active + 1,
                            ..old(self)@.control
                        }).woken(),
                        ..old(self)@
                    })
                },
                None => final(self)@ == (if old(self)@.owned is Some && old(self)@.owned->0.has(id)
                    && old(self)@.control.executing() && backend {
                    old(self)@.visited()
                } else {
                    old(self)@
                }),
            },
    {
        if !self.can_execute(backend) {
            return None;
        }
        let known = match &self.owned {
            Some(owned) => owned.knows(id),
            None => false,
        };
        let ghost v = self@;
        let claim = match &mut self.owned {
            Some(owned) => owned.claim(id, caller),
            None => None,
        };
        if claim.is_some() {
            let _ = self.control.acquire_owned(backend);
            proof {
                withdrawn_same_ids(v.owned->0, id, Stage::Running);
                rescheduled(v, self@);
            }
        } else if known {
            self.touch(2, 0, None);
        }
        claim
    }

    /// Claims the oldest member of a group that this caller may execute.
    pub fn help_group(&mut self, group: u64, backend: bool) -> (helped: Option<(u64, Claim)>)
        requires
            old(self).wf(),
            old(self)@.control.active < usize::MAX,
        ensures
            final(self).wf(),
            match helped {
                Some((id, claim)) => {
                    let owned = old(self)@.owned->0;
                    &&& old(self)@.owned is Some
                    &&& old(self)@.control.executing() && backend
                    &&& oldest_helpable(owned.records, group, id)
                    &&& claim == (Claim { class: owned.get(id).class, group: Some(group) })
                    &&& final(self)@ == (RuntimeView {
                        owned: Some(owned.claimed(id)),
                        control: (ControlView {
                            active: old(self)@.control.active + 1,
                            ..old(self)@.control
                        }).woken(),
                        ..old(self)@
                    })
                },
                None => {
                    &&& old(self)@.owned matches Some(owned) ==> !(old(self)@.control.executing()
                        && backend) || forall|j: int|
                        0 <= j < owned.records.len() ==> !helpable(
                            #[trigger] owned.records[j],
                            group,
                        )
                    &&& final(self)@ == old(self)@
                },
            },
    {
        if !self.can_execute(backend) {
            return None;
        }
        let ghost v = self@;
        let helped = match &mut self.owned {
            Some(owned) => owned.help_group(group),
            None => None,
        };
        if let Some((id, _)) = helped {
            let _ = self.control.acquire_owned(backend);
            proof {
                withdrawn_same_ids(v.owned->0, id, Stage::Running);
                rescheduled(v, self@);
            }
        }
        helped
    }

    fn can_execute(&self, backend: bool) -> (result: bool)
        ensures
            result == (self@.control.executing() && backend),
    {
        match self.control.phase() {
            SWRuntimeState::Running | SWRuntimeState::Closing => backend,
            _ => false,
        }
    }

    /// Ends an execution lease or a lexical invocation.
    pub fn release_lease(&mut self)
        requires
            old(self).wf(),
            old(self)@.control.active > (match old(self)@.owned {
                Some(owned) => owned.records.len(),
                None => 0,
            }),
        ensures
            final(self).wf(),
            final(self)@ == (RuntimeView {
                control: (ControlView {
                    active: old(self)@.control.active - 1,
                    ..old(self)@.control
                }).woken(),
                ..old(self)@
            }),
    {
        self.control.release_active();
    }

    /// Backend ownership for a lexical invocation in a lane.
    pub fn acquire(
        &mut self,
        class: SWExecutionClass,
        context: Option<Context>,
        backend: bool,
    ) -> (result: Result<(), SWExecutionError>)
        requires
            old(self).wf(),
            old(self)@.control.active < usize::MAX,
        ensures
            final(self).wf(),
            match result {
                Ok(()) => {
                    &&& old(self)@.control.acquire_error(class, context, backend) is None
                    &&& final(self)@ == (RuntimeView {
                        control: (ControlView {
                            active: old(self)@.control.active + 1,
                            ..old(self)@.control
                        }).woken(),
                        ..old(self)@
                    })
                },
                Err(error) => {
                    &&& old(self)@.control.acquire_error(class, context, backend) == Some(error)
                    &&& final(self)@ == old(self)@
                },
            },
    {
        self.control.acquire(class, context, backend)
    }

    /// Suppresses a job that has not been claimed.
    pub fn suppress(&mut self, id: u64, status: SWTaskStatus) -> (settled: Option<SWTaskStatus>)
        requires
            old(self).wf(),
        ensures
            final(self).wf(),
            settled == (match old(self)@.owned {
                Some(owned) => owned.suppression(id, status),
                None => None,
            }),
            final(self)@ == (if settled is Some {
                RuntimeView { owned: Some(old(self)@.owned->0.suppressed(id)), ..old(self)@ }
            } else {
                old(self)@
            }),
    {
        let ghost v = self@;
        let settled = match &mut self.owned {
            Some(owned) => owned.suppress(id, status),
            None => None,
        };
        proof {
            if settled is Some {
                withdrawn_same_ids(v.owned->0, id, Stage::Finalizing);
                rescheduled(v, self@);
            }
        }
        settled
    }

    /// Takes the report of one prerequisite.
    pub fn activate_prerequisite(&mut self, id: u64, status: SWTaskStatus) -> (activated: Activated)
        requires
            old(self).wf(),
        ensures
            final(self).wf(),
            match old(self)@.owned {
                Some(owned) => {
                    &&& activated == owned.activation(id, status)
                    &&& final(self)@ == (RuntimeView {
                        owned: Some(owned.activated(id, status)),
                        ..old(self)@
                    })
                },
                None => activated == Activated::Ignored && final(self)@ == old(self)@,
            },
    {
        let ghost v = self@;
        match &mut self.owned {
            Some(owned) => {
                let activated = owned.activate_prerequisite(id, status);
                proof {
                    let s = v.owned->0;
                    if s.activation(id, status) != Activated::Ignored {
                        assert(record_at(s.records, at(s.records, id), id));
                    }
                    rescheduled(v, self@);
                }
                activated
            },
            None => Activated::Ignored,
        }
    }

    /// Marks a claimed job as executed.
    pub fn settle(&mut self, id: u64)
        requires
            old(self).wf(),
        ensures
            final(self).wf(),
            final(self)@ == (match old(self)@.owned {
                Some(owned) => if owned.has(id) && owned.get(id).stage == Stage::Running {
                    RuntimeView {
                        owned: Some(
                            owned.noted(
                                id,
                                Record { stage: Stage::Finalizing, ..owned.get(id) },
                            ),
                        ),
                        ..old(self)@
                    }
                } else {
                    old(self)@
                },
                None => old(self)@,
            }),
    {
        let ghost v = self@;
        if let Some(owned) = &mut self.owned {
            owned.settle(id);
            proof {
                let s = v.owned->0;
                if s.has(id) {
                    assert(record_at(s.records, at(s.records, id), id));
                }
                rescheduled(v, self@);
            }
        }
    }

    /// Ends the cleanup of an executed or suppressed job.
    pub fn finish_record(&mut self, id: u64, status: SWTaskStatus) -> (step: FinishStep)
        requires
            old(self).wf(),
            old(self)@.owned matches Some(owned) ==> (owned.has(id) ==> owned.get(id).stage
                == Stage::Finalizing && owned.get(id).parked is None && owned.get(id).outcome
                is None),
        ensures
            final(self).wf(),
            match old(self)@.owned {
                Some(owned) => if !owned.has(id) {
                    step == FinishStep::Gone && final(self)@ == old(self)@
                } else if owned.get(id).attaching {
                    step == FinishStep::Parked && final(self)@ == (RuntimeView {
                        owned: Some(
                            owned.noted(id, Record { parked: Some(status), ..owned.get(id) }),
                        ),
                        ..old(self)@
                    })
                } else {
                    step == FinishStep::Publish && final(self)@ == (RuntimeView {
                        owned: Some(
                            owned.noted(id, Record { outcome: Some(status), ..owned.get(id) }),
                        ),
                        ..old(self)@
                    })
                },
                None => step == FinishStep::Gone && final(self)@ == old(self)@,
            },
    {
        let ghost v = self@;
        match &mut self.owned {
            Some(owned) => {
                let step = owned.finish_record(id, status);
                proof {
                    let s = v.owned->0;
                    if s.has(id) {
                        assert(record_at(s.records, at(s.records, id), id));
                    }
                    rescheduled(v, self@);
                }
                step
            },
            None => FinishStep::Gone,
        }
    }

    /// Ends the attachment of prerequisites; a terminal status that waited for
    /// it is published now.
    pub fn attached(&mut self, id: u64) -> (parked: Option<SWTaskStatus>)
        requires
            old(self).wf(),
        ensures
            final(self).wf(),
            parked == (match old(self)@.owned {
                Some(owned) => if owned.has(id) {
                    owned.get(id).parked
                } else {
                    None
                },
                None => None,
            }),
            final(self)@ == (match old(self)@.owned {
                Some(owned) => if owned.has(id) {
                    RuntimeView {
                        owned: Some(
                            owned.noted(
                                id,
                                Record {
                                    attaching: false,
                                    parked: None,
                                    outcome: if owned.get(id).parked is Some {
                                        owned.get(id).parked
                                    } else {
                                        owned.get(id).outcome
                                    },
                                    ..owned.get(id)
                                },
                            ),
                        ),
                        ..old(self)@
                    }
                } else {
                    old(self)@
                },
                None => old(self)@,
            }),
    {
        let ghost v = self@;
        match &mut self.owned {
            Some(owned) => {
                let parked = owned.attached(id);
                proof {
                    let s = v.owned->0;
                    if s.has(id) {
                        assert(record_at(s.records, at(s.records, id), id));
                    }
                    rescheduled(v, self@);
                }
                parked
            },
            None => None,
        }
    }

    /// Looks once for work of a class to hand to the backend. The lease that
    /// covers the handoff begins and ends here. Where the workers are gone, the job that came up and everything else unclaimed is
    /// given up instead.
    pub fn dispatch_one(&mut self, class: SWExecutionClass, backend: bool) -> (step: DispatchStep)
        requires
            old(self).wf(),
        ensures
            final(self).wf(),
            match old(self)@.owned {
                Some(owned) => {
                    let c = class.slot();
                    match owned.handoff(c) {
                        None => {
                            &&& step is Idle
                            &&& final(self)@ == (RuntimeView {
                                owned: Some(owned.dispatched(c)),
                                ..old(self)@
                            })
                        },
                        Some(id) => if old(self)@.control.executing() && backend {
                            &&& step matches DispatchStep::Handed(handed) && handed == id
                            &&& final(self)@ == (RuntimeView {
                                owned: Some(owned.dispatched(c)),
                                ..old(self)@.visited()
                            })
                        } else {
                            let returned = handoff_returned(owned.dispatched(c), c);
                            &&& step matches DispatchStep::GivenUp(jobs, results) && jobs@
                                == unclaimed_ids(returned.records) && results@
                                == unsettled_ids(returned.external)
                            &&& final(self)@ == (RuntimeView {
                                owned: Some(returned.abandoned_all().external_abandoned()),
                                ..old(self)@
                            })
                        },
                    }
                },
                None => step is Idle && final(self)@ == old(self)@,
            },
    {
        let ghost v = self@;
        let ghost c = class.slot();
        let execute = self.can_execute(backend);
        match &mut self.owned {
            None => DispatchStep::Idle,
            Some(owned) => {
                proof {
                    dispatched_wf(owned@, c);
                    dispatched_same_ids(owned@, c);
                }
                match owned.dispatch_one(class) {
                    None => {
                        proof {
                            rescheduled(v, self@);
                        }
                        DispatchStep::Idle
                    },
                    Some(id) => {
                        if execute {
                            proof {
                                rescheduled(v, self@);
                            }
                            self.touch(2, 0, None);
                            return DispatchStep::Handed(id);
                        }
                        owned.decrement_handoff(class);
                        let (jobs, results) = owned.abandon();
                        proof {
                            rescheduled(v, self@);
                        }
                        DispatchStep::GivenUp(jobs, results)
                    },
                }
            },
        }
    }

    /// Returns the place of a wrapper that the backend refused, and gives up
    /// everything unclaimed.
    pub fn handoff_refused(&mut self, class: SWExecutionClass) -> (settle: (Vec<u64>, Vec<u64>))
        requires
            old(self).wf(),
            old(self)@.owned is Some,
            old(self)@.owned->0.lanes[class.slot()].handed_off > 0,
        ensures
            final(self).wf(),
            ({
                let returned = handoff_returned(old(self)@.owned->0, class.slot());
                &&& settle.0@ == unclaimed_ids(returned.records)
                &&& settle.1@ == unsettled_ids(returned.external)
                &&& final(self)@ == (RuntimeView {
                    owned: Some(returned.abandoned_all().external_abandoned()),
                    ..old(self)@
                })
            }),
    {
        let ghost v = self@;
        match &mut self.owned {
            Some(owned) => {
                owned.decrement_handoff(class);
                let settle = owned.abandon();
                proof {
                    rescheduled(v, self@);
                }
                settle
            },
            None => (Vec::new(), Vec::new()),
        }
    }

    /// Returns the place of a wrapper that has returned from the backend.
    pub fn release_handoff(&mut self, class: SWExecutionClass)
        requires
            old(self).wf(),
            old(self)@.owned is Some,
            old(self)@.owned->0.lanes[class.slot()].handed_off > 0,
        ensures
            final(self).wf(),
            final(self)@ == (RuntimeView {
                owned: Some(handoff_returned(old(self)@.owned->0, class.slot())),
                ..old(self)@
            }),
    {
        let ghost v = self@;
        if let Some(owned) = &mut self.owned {
            owned.decrement_handoff(class);
            proof {
                rescheduled(v, self@);
            }
        }
    }

    /// Suppresses unclaimed work and requests stop without joining. Hands back
    /// the owned and provider-owned records to settle as abandoned, or none
    /// where the runtime had ended before.
    pub fn abandon(&mut self) -> (settle: Option<(Vec<u64>, Vec<u64>)>)
        requires
            old(self).wf(),
        ensures
            final(self).wf(),
            settle is Some <==> old(self)@.control.executing(),
            match settle {
                Some((jobs, results)) => {
                    &&& final(self)@.control == (ControlView {
                        phase: SWRuntimeState::Abandoned,
                        ..old(self)@.control
                    }).woken()
                    &&& final(self)@.charges == old(self)@.charges
                    &&& final(self)@.capacity == closed_books(old(self)@.capacity)
                    &&& match old(self)@.owned {
                        Some(owned) => {
                            &&& final(self)@.owned == Some(
                                owned.abandoned_all().external_abandoned(),
                            )
                            &&& jobs@ == unclaimed_ids(owned.records)
                            &&& results@ == unsettled_ids(owned.external)
                        },
                        None => final(self)@.owned is None && jobs@.len() == 0 && results@.len()
                            == 0,
                    }
                },
                None => final(self)@ == old(self)@,
            },
    {
        let ghost v = self@;
        if !self.control.abandon() {
            return None;
        }
        if let Some(pool) = &mut self.capacity {
            pool.close();
        }
        let ghost m = self@;
        proof {
            assert forall|i: int|
                0 <= i < m.charges.len() implies (#[trigger] m.charges[i]).reservation.held_in(
                m.capacity->0,
            ) by {
                assert(v.charges[i].reservation.held_in(v.capacity->0));
            }
            assert(m.wf());
        }
        let settle = match &mut self.owned {
            Some(owned) => {
                let settle = owned.abandon();
                proof {
                    rescheduled(m, self@);
                }
                settle
            },
            None => (Vec::new(), Vec::new()),
        };
        Some(settle)
    }
}

/// The state after one wrapper's place has been returned.
pub open spec fn handoff_returned(v: SchedulerView, c: int) -> SchedulerView {
    v.with_lane(
        c,
        LaneView { handed_off: v.lanes[c].handed_off - 1, ..v.lanes[c] },
    )
}

proof fn dispatched_same_ids(v: SchedulerView, c: int)
    requires
        v.wf(),
        0 <= c < 3,
    ensures
        same_ids(v, v.dispatched(c)),
        v.handoff(c) is Some ==> v.dispatched(c).lanes[c].handed_off > 0,
{
    dispatched_wf(v, c);
    promoted_wf(v, c);
    let p = v.promoted(c);
    assert(p.lane_ok(c));
    assert(same_ids(v, p));
    if !v.abandoned {
        if let Some(id) = v.handoff(c) {
            assert(record_at(p.records, at(p.records, id), id));
        }
    }
}

/// What one look for work leads to.
pub enum DispatchStep {
    /// Nothing to hand out now.
    Idle,
    /// Offer this job to the backend.
    Handed(u64),
    /// The workers are gone: settle these owned and provider-owned records as
    /// abandoned.
    GivenUp(Vec<u64>, Vec<u64>),
}

impl RuntimeView {
    /// Why a caller's pipeline is refused, if it is. Without a capacity policy,
    /// and once the runtime no longer runs, it is closed.
    pub open spec fn reserve_error(self, cost: SWCost, kind: Kind) -> Option<SWReservationError> {
        if self.control.phase != SWRuntimeState::Running || self.capacity is None {
            Some(SWReservationError::Closed)
        } else {
            claim_error(
                self.capacity->0.limits,
                self.capacity->0.usage,
                cost,
                kind,
                true,
            )
        }
    }
}

/// The outcome of asking for a caller's pipeline.
pub open spec fn pipeline_reserved(
    before: RuntimeView,
    after: RuntimeView,
    cost: SWCost,
    kind: Kind,
    result: Result<SWReservation, SWReservationError>,
) -> bool {
    match result {
        Ok(reservation) => {
            &&& before.reserve_error(cost, kind) is None
            &&& after == (RuntimeView { capacity: after.capacity, ..before })
            &&& after.capacity is Some
            &&& reserved(
                before.capacity->0,
                after.capacity->0,
                cost,
                kind,
                result,
            )
            &&& after.outside(reservation)
        },
        Err(error) => before.reserve_error(cost, kind) == Some(error) && after == before,
    }
}

/// Another capacity state in which every reservation is still live keeps the
/// runtime consistent.
proof fn recharged(v: RuntimeView, w: RuntimeView)
    requires
        v.wf(),
        w == (RuntimeView { capacity: w.capacity, ..v }),
        v.capacity is Some,
        w.capacity is Some,
        books_wf(w.capacity, w.control.id),
        forall|i: int|
            0 <= i < v.charges.len() ==> (#[trigger] v.charges[i]).reservation.held_in(
                w.capacity->0,
            ),
    ensures
        w.wf(),
{
    assert forall|i: int|
        0 <= i < w.charges.len() implies (#[trigger] w.charges[i]).reservation.held_in(
        w.capacity->0,
    ) by {
        assert(v.charges[i].reservation.held_in(w.capacity->0));
    }
}

impl SWRuntime {
    fn reserve(&mut self, cost: SWCost, kind: Kind) -> (result: Result<
        SWReservation,
        SWReservationError,
    >)
        requires
            old(self).wf(),
        ensures
            final(self).wf(),
            pipeline_reserved(old(self)@, final(self)@, cost, kind, result),
    {
        let ghost v = self@;
        if self.control.phase() != SWRuntimeState::Running {
            return Err(SWReservationError::Closed);
        }
        match &mut self.capacity {
            None => Err(SWReservationError::Closed),
            Some(pool) => {
                let ghost a = pool@;
                let result = match kind {
                    Kind::Ordinary => pool.try_reserve_ordinary(cost),
                    Kind::Required => pool.try_reserve_required(cost),
                };
                proof {
                    if result is Ok {
                        let r = result->Ok_0;
                        draws_carry(
                            a,
                            pool@,
                            r.pipeline_slot(),
                            r.bank_slot(),
                            0,
                            cost,
                            kind,
                            0,
                        );
                        carries_handles(a, pool@);
                        assert forall|i: int|
                            0 <= i < v.charges.len() implies (
                        #[trigger] v.charges[i]).reservation.held_in(pool@)
                            && v.charges[i].reservation.bank_slot() != r.bank_slot() by {
                            assert(v.charges[i].reservation.held_in(a));
                        }
                        recharged(v, self@);
                    }
                }
                result
            },
        }
    }

    /// Reserves a required pipeline without borrowing the ordinary allowance.
    pub fn reserve_required(&mut self, cost: SWCost) -> (result: Result<
        SWReservation,
        SWReservationError,
    >)
        requires
            old(self).wf(),
        ensures
            final(self).wf(),
            pipeline_reserved(old(self)@, final(self)@, cost, Kind::Required, result),
    {
        self.reserve(cost, Kind::Required)
    }

    /// Reserves an ordinary window without using protected metadata capacity.
    pub fn reserve_ordinary(&mut self, cost: SWCost) -> (result: Result<
        SWReservation,
        SWReservationError,
    >)
        requires
            old(self).wf(),
        ensures
            final(self).wf(),
            pipeline_reserved(old(self)@, final(self)@, cost, Kind::Ordinary, result),
    {
        self.reserve(cost, Kind::Ordinary)
    }

    pub fn capacity_usage(&self) -> (usage: Option<SWCapacityUsage>)
        ensures
            usage == (match self@.capacity {
                Some(pool) => Some(
                    SWCapacityUsage {
                        ordinary: pool.usage.ordinary,
                        required: pool.usage.required,
                        required_pipelines: pool.usage.pipelines,
                    },
                ),
                None => None,
            }),
    {
        match &self.capacity {
            Some(pool) => Some(pool.snapshot()),
            None => None,
        }
    }

    /// Free credits of a caller's reservation.
    pub fn available(&self, reservation: &SWReservation) -> (cost: SWCost)
        requires
            self@.capacity is Some,
            reservation.held_in(self@.capacity->0),
        ensures
            cost == self@.capacity->0.banks[reservation.bank_slot()]->0.balance,
    {
        match &self.capacity {
            Some(pool) => reservation.available(pool),
            None => SWCost::new(0, 0, 0, 0),
        }
    }

    /// Transfers part of a caller's reservation to a child stage.
    pub fn stage(&mut self, reservation: &SWReservation, cost: SWCost) -> (result: Result<
        SWReservation,
        SWReservationError,
    >)
        requires
            old(self).wf(),
            old(self)@.capacity is Some,
            reservation.held_in(old(self)@.capacity->0),
        ensures
            final(self).wf(),
            final(self)@ == (RuntimeView { capacity: final(self)@.capacity, ..old(self)@ }),
            final(self)@.capacity is Some,
            reservation.staged_by(
                old(self)@.capacity->0,
                final(self)@.capacity->0,
                cost,
                result,
            ),
            result matches Ok(child) ==> final(self)@.outside(child),
    {
        let ghost v = self@;
        match &mut self.capacity {
            None => Err(SWReservationError::Closed),
            Some(pool) => {
                let ghost a = pool@;
                let result = reservation.stage(pool, cost);
                proof {
                    if result is Ok {
                        let child = result->Ok_0;
                        assert(serves(
                            a.banks,
                            reservation.bank_slot(),
                            reservation.pipeline_slot(),
                        ));
                        draws_carry(
                            a,
                            pool@,
                            0,
                            reservation.bank_slot(),
                            child.bank_slot(),
                            cost,
                            Kind::Ordinary,
                            0,
                        );
                        carries_handles(a, pool@);
                        assert forall|i: int|
                            0 <= i < v.charges.len() implies (
                        #[trigger] v.charges[i]).reservation.held_in(pool@)
                            && v.charges[i].reservation.bank_slot() != child.bank_slot() by {
                            assert(v.charges[i].reservation.held_in(a));
                        }
                        recharged(v, self@);
                    }
                }
                result
            },
        }
    }

    /// Ends a caller's reservation.
    pub fn retire(&mut self, reservation: SWReservation)
        requires
            old(self).wf(),
            old(self)@.capacity is Some,
            reservation.held_in(old(self)@.capacity->0),
            old(self)@.outside(reservation),
        ensures
            final(self).wf(),
            final(self)@ == (RuntimeView {
                capacity: Some(old(self)@.capacity->0.without_bank(reservation.bank_slot())),
                ..old(self)@
            }),
    {
        let ghost v = self@;
        let ghost slot = reservation.bank_slot();
        proof {
            assert forall|i: int|
                0 <= i < v.charges.len() implies (#[trigger] v.charges[i]).reservation.held_in(
                v.capacity->0.without_bank(slot),
            ) by {
                assert(v.charges[i].reservation.held_in(v.capacity->0));
                retirement_keeps_others(v.capacity->0, reservation, v.charges[i].reservation);
            }
        }
        if let Some(pool) = &mut self.capacity {
            reservation.retire(pool);
            proof {
                recharged(v, self@);
            }
        }
    }

    /// Ends a retained-byte lease.
    pub fn release_bytes(&mut self, lease: SWByteLease)
        requires
            old(self).wf(),
            old(self)@.capacity is Some,
            lease.held_in(old(self)@.capacity->0),
        ensures
            final(self).wf(),
            final(self)@ == (RuntimeView {
                capacity: Some(old(self)@.capacity->0.without_lease(lease.lease_slot())),
                ..old(self)@
            }),
    {
        let ghost v = self@;
        proof {
            reservations_stay(
                v.capacity->0,
                0,
                lease.lease_slot(),
                SWCost::zero(),
            );
            assert forall|i: int|
                0 <= i < v.charges.len() implies (#[trigger] v.charges[i]).reservation.held_in(
                v.capacity->0.without_lease(lease.lease_slot()),
            ) by {
                assert(v.charges[i].reservation.held_in(v.capacity->0));
            }
        }
        if let Some(pool) = &mut self.capacity {
            lease.release(pool);
            proof {
                recharged(v, self@);
            }
        }
    }

    /// Grows a caller's reservation out of the pool.
    pub fn try_grow(&mut self, reservation: &mut SWReservation, additional: SWCost) -> (result: Result<
        (),
        SWReservationError,
    >)
        requires
            old(self).wf(),
            old(self)@.capacity is Some,
            old(reservation).held_in(old(self)@.capacity->0),
        ensures
            final(self).wf(),
            *final(reservation) == *old(reservation),
            final(self)@ == (match result {
                Ok(()) => RuntimeView {
                    capacity: Some(
                        old(self)@.capacity->0.grown(
                            old(reservation).pipeline_slot(),
                            old(reservation).bank_slot(),
                            additional,
                        ),
                    ),
                    ..old(self)@
                },
                Err(_) => old(self)@,
            }),
            old(self)@.capacity->0.grow_error(old(reservation).pipeline_slot(), additional) == (
            match result {
                Ok(()) => None,
                Err(error) => Some(error),
            }),
    {
        let ghost v = self@;
        match &mut self.capacity {
            None => Err(SWReservationError::Closed),
            Some(pool) => {
                let ghost a = pool@;
                let ghost slot = reservation.bank_slot();
                proof {
                    assert(serves(
                        a.banks,
                        slot,
                        reservation.pipeline_slot(),
                    ));
                    reservations_stay(a, slot, 0, additional);
                }
                let result = reservation.try_grow(pool, additional);
                proof {
                    if result is Ok {
                        carries_handles(a, pool@);
                        assert forall|i: int|
                            0 <= i < v.charges.len() implies (
                        #[trigger] v.charges[i]).reservation.held_in(pool@) by {
                            assert(v.charges[i].reservation.held_in(a));
                        }
                        recharged(v, self@);
                    }
                }
                result
            },
        }
    }

    /// Detaches result bytes from a caller's reservation.
    pub fn retain_bytes(&mut self, reservation: &SWReservation, bytes: usize) -> (result: Result<
        SWByteLease,
        SWReservationError,
    >)
        requires
            old(self).wf(),
            old(self)@.capacity is Some,
            reservation.held_in(old(self)@.capacity->0),
        ensures
            final(self).wf(),
            final(self)@ == (RuntimeView { capacity: final(self)@.capacity, ..old(self)@ }),
            final(self)@.capacity is Some,
            match result {
                Ok(lease) => {
                    let before = old(self)@.capacity->0;
                    &&& bytes <= before.banks[reservation.bank_slot()]->0.balance.bytes
                    &&& lease.byte_count() == bytes
                    &&& lease.held_in(final(self)@.capacity->0)
                    &&& retained(
                        before,
                        final(self)@.capacity->0,
                        reservation.bank_slot(),
                        lease.lease_slot(),
                        bytes,
                    )
                },
                Err(error) => {
                    let before = old(self)@.capacity->0;
                    &&& bytes > before.banks[reservation.bank_slot()]->0.balance.bytes
                    &&& error == SWReservationError::InsufficientCredits
                    &&& final(self)@ == old(self)@
                },
            },
    {
        let ghost v = self@;
        match &mut self.capacity {
            None => Err(SWReservationError::InsufficientCredits),
            Some(pool) => {
                let ghost a = pool@;
                let result = reservation.retain_bytes(pool, bytes);
                proof {
                    if result is Ok {
                        let lease = result->Ok_0;
                        assert(serves(
                            a.banks,
                            reservation.bank_slot(),
                            reservation.pipeline_slot(),
                        ));
                        draws_carry(
                            a,
                            pool@,
                            0,
                            reservation.bank_slot(),
                            lease.lease_slot(),
                            SWCost::zero(),
                            Kind::Ordinary,
                            bytes,
                        );
                        carries_handles(a, pool@);
                        assert forall|i: int|
                            0 <= i < v.charges.len() implies (
                        #[trigger] v.charges[i]).reservation.held_in(pool@) by {
                            assert(v.charges[i].reservation.held_in(a));
                        }
                        recharged(v, self@);
                    }
                }
                result
            },
        }
    }
}

impl SWRuntime {
    /// A runtime whose workers have started. Owned work exists only with owned
    /// limits, and a capacity policy only with owned work.
    pub fn new(
        control: RuntimeControl,
        owned: Option<OwnedScheduler>,
        capacity: Option<SWReservationPool>,
    ) -> (runtime: Self)
        requires
            control.wf(),
            control@.external == 0,
            owned matches Some(owned) ==> owned@.wf() && owned@.records.len() == 0
                && owned@.external.len() == 0,
            books_wf(books(capacity), control@.id),
            capacity is Some ==> owned is Some,
        ensures
            runtime.wf(),
            runtime@ == (RuntimeView {
                control: control@,
                owned: match owned {
                    Some(owned) => Some(owned@),
                    None => None,
                },
                capacity: books(capacity),
                charges: Seq::empty(),
            }),
    {
        let runtime = SWRuntime { control, owned, capacity, charges: Vec::new() };
        proof {
            assert(runtime@.charges =~= Seq::empty());
            if let Some(owned) = runtime@.owned {
                assert forall|id: u64| !#[trigger] live_work(owned, id) by {
                    if present(owned.records, id) {
                        assert(record_at(owned.records, at(owned.records, id), id));
                    }
                    if external_present(owned.external, id) {
                        let i = choose|i: int| #[trigger] external_at(owned.external, i, id);
                    }
                }
            }
        }
        runtime
    }

    pub fn identity(&self) -> (id: u64)
        ensures
            id == self@.control.id,
    {
        self.control.identity()
    }

    pub fn state(&self) -> (state: SWRuntimeState)
        ensures
            state == self@.control.phase,
    {
        self.control.phase()
    }

    /// Takes the progress notifications that are owed.
    pub fn take_wake(&mut self) -> (owed: u64)
        requires
            old(self).wf(),
        ensures
            final(self).wf(),
            owed == (match old(self)@.capacity {
                Some(pool) => owing(old(self)@.control.wake, pool.wake as int),
                None => old(self)@.control.wake,
            }),
            final(self)@ == (RuntimeView {
                control: ControlView { wake: 0, ..old(self)@.control },
                capacity: match old(self)@.capacity {
                    Some(pool) => Some(Accounts { wake: 0, ..pool }),
                    None => None,
                },
                ..old(self)@
            }),
    {
        let ghost v = self@;
        let mut owed: u64 = self.control.take_wake();
        let ghost m = self@;
        if let Some(pool) = &mut self.capacity {
            owed = owe(owed, pool.take_wake());
            proof {
                assert forall|i: int|
                    0 <= i < v.charges.len() implies (
                #[trigger] v.charges[i]).reservation.held_in(pool@) by {
                    assert(v.charges[i].reservation.held_in(v.capacity->0));
                }
                recharged(m, self@);
            }
        }
        owed
    }

    /// Closes root admission. Reports whether every work set is to be sealed.
    pub fn begin_shutdown(&mut self) -> (seal: bool)
        requires
            old(self).wf(),
        ensures
            final(self).wf(),
            seal == (old(self)@.control.phase == SWRuntimeState::Running),
            final(self)@ == (RuntimeView {
                control: old(self)@.control.closing(),
                ..old(self)@
            }),
    {
        self.control.begin_shutdown()
    }

    /// One attempt to join. Joining closes capacity admission; the workers are
    /// joined outside, and then the stop is recorded. `demand_idle` says that
    /// no demand update or provider callback is pending.
    pub fn try_shutdown(
        &mut self,
        participating: bool,
        sets: &Vec<SWWorkSetProgress>,
        demand_idle: bool,
    ) -> (result: Result<ShutdownStep, SWShutdownError>)
        requires
            old(self).wf(),
        ensures
            final(self).wf(),
            final(self)@.owned == old(self)@.owned,
            final(self)@.charges == old(self)@.charges,
            if participating {
                result == Err::<ShutdownStep, SWShutdownError>(SWShutdownError::ExecutionContext)
                    && final(self)@ == old(self)@
            } else {
                match old(self)@.control.phase {
                    SWRuntimeState::Stopped => result == Ok::<ShutdownStep, SWShutdownError>(
                        ShutdownStep::Stopped,
                    ) && final(self)@ == old(self)@,
                    SWRuntimeState::Abandoned => result == Ok::<ShutdownStep, SWShutdownError>(
                        ShutdownStep::Abandoned,
                    ) && final(self)@ == old(self)@,
                    _ => {
                        let closed = old(self)@.control.closing();
                        &&& final(self)@.control == closed
                        &&& if closed.quiescent(sets@) && old(self)@.idle(demand_idle) {
                            &&& result == Ok::<ShutdownStep, SWShutdownError>(ShutdownStep::Join)
                            &&& final(self)@.capacity == closed_books(old(self)@.capacity)
                        } else {
                            &&& result == Ok::<ShutdownStep, SWShutdownError>(
                                ShutdownStep::Service,
                            )
                            &&& final(self)@.capacity == old(self)@.capacity
                        }
                    },
                }
            },
    {
        let ghost v = self@;
        let idle = match &self.owned {
            Some(owned) => owned.quiescent() && demand_idle,
            None => true,
        };
        let result = self.control.try_shutdown(participating, sets, idle);
        if let Ok(ShutdownStep::Join) = result {
            let ghost m = self@;
            if let Some(pool) = &mut self.capacity {
                pool.close();
                proof {
                    assert forall|i: int|
                        0 <= i < v.charges.len() implies (
                    #[trigger] v.charges[i]).reservation.held_in(pool@) by {
                        assert(v.charges[i].reservation.held_in(v.capacity->0));
                    }
                    recharged(m, self@);
                }
            }
        }
        result
    }

    /// Records that the workers were joined.
    pub fn stop(&mut self)
        requires
            old(self).wf(),
            old(self)@.control.phase == SWRuntimeState::Closing,
        ensures
            final(self).wf(),
            final(self)@ == (RuntimeView {
                control: (ControlView {
                    phase: SWRuntimeState::Stopped,
                    ..old(self)@.control
                }).woken(),
                ..old(self)@
            }),
    {
        self.control.stop();
    }

    /// Begins a blocking shutdown: refused for participating callers, and for
    /// a running runtime that still needs host service. True means that
    /// nothing is left to join.
    pub fn shutdown(&mut self, participating: bool, sets: &Vec<SWWorkSetProgress>) -> (result: Result<
        bool,
        SWShutdownError,
    >)
        requires
            old(self).wf(),
        ensures
            final(self).wf(),
            final(self)@ == (RuntimeView { control: final(self)@.control, ..old(self)@ }),
            follows(old(self)@.control.phase, final(self)@.control.phase),
            if participating {
                result == Err::<bool, SWShutdownError>(SWShutdownError::ExecutionContext) && final(self)@ == old(self)@
            } else {
                match old(self)@.control.phase {
                    SWRuntimeState::Stopped | SWRuntimeState::Abandoned => result == Ok::<
                        bool,
                        SWShutdownError,
                    >(true) && final(self)@ == old(self)@,
                    SWRuntimeState::Closing => result == Ok::<bool, SWShutdownError>(false)
                        && final(self)@ == old(self)@,
                    SWRuntimeState::Running => match old(self)@.control.blocker(sets@) {
                        Some(error) => result == Err::<bool, SWShutdownError>(error)
                            && final(self)@ == old(self)@,
                        None => result == Ok::<bool, SWShutdownError>(false)
                            && final(self)@.control == old(self)@.control.closing(),
                    },
                }
            },
    {
        self.control.shutdown(participating, sets)
    }

    /// Why a blocking shutdown cannot go on by waiting, if it cannot.
    pub fn wait_blocker(&self, sets: &Vec<SWWorkSetProgress>, control_pending: bool) -> (blocker:
        Option<SWShutdownError>)
        ensures
            blocker == (if self@.control.blocker(sets@) is Some {
                self@.control.blocker(sets@)
            } else if control_pending {
                Some(SWShutdownError::PendingControl)
            } else {
                None
            }),
    {
        self.control.wait_blocker(sets, control_pending)
    }

    pub fn external_progress(&self) -> (progress: SWExternalProgress)
        ensures
            progress.logical == self@.control.external,
            progress.prepared == total(
                self@.control.physical.entries,
                in_state(PhysicalState::Prepared),
            ),
            progress.active == total(
                self@.control.physical.entries,
                in_state(PhysicalState::Active),
            ),
            progress.orphaned == total(
                self@.control.physical.entries,
                in_state(PhysicalState::Orphaned),
            ),
    {
        self.control.external_progress()
    }

    /// A passive snapshot of CPU, owner, work-set and physical blockers. What
    /// owners, work sets and demand report is sampled by the caller, and so is
    /// the wake generation, before everything else.
    pub fn progress(
        &self,
        owner: SWOwnerProgress,
        work_sets: SWWorkSetsProgress,
        demand_pending: bool,
        provider_callbacks: usize,
        wake_generation: u64,
    ) -> (progress: SWProgress)
        requires
            self.wf(),
        ensures
            progress.state == self@.control.phase,
            progress.owner == owner,
            progress.work_sets == work_sets,
            progress.active_leases == self@.control.active,
            progress.wake_generation == wake_generation,
            progress.external.logical == self@.control.external,
            progress.external.prepared == total(
                self@.control.physical.entries,
                in_state(PhysicalState::Prepared),
            ),
            progress.external.active == total(
                self@.control.physical.entries,
                in_state(PhysicalState::Active),
            ),
            progress.external.orphaned == total(
                self@.control.physical.entries,
                in_state(PhysicalState::Orphaned),
            ),
            progress.capacity == (match self@.capacity {
                Some(pool) => Some(
                    SWCapacityUsage {
                        ordinary: pool.usage.ordinary,
                        required: pool.usage.required,
                        required_pipelines: pool.usage.pipelines,
                    },
                ),
                None => None,
            }),
            match self@.owned {
                Some(owned) => owned.shows(
                    progress.scheduler,
                    demand_pending,
                    provider_callbacks,
                ),
                None => progress.scheduler.idle(),
            },
    {
        let scheduler = match &self.owned {
            Some(owned) => owned.progress(demand_pending, provider_callbacks),
            None => SWSchedulerProgress::default(),
        };
        SWProgress {
            state: self.state(),
            scheduler,
            capacity: self.capacity_usage(),
            owner,
            work_sets,
            external: self.external_progress(),
            active_leases: self.control.active_leases(),
            wake_generation,
        }
    }
}

/// A capacity policy that refuses every later charge.
pub open spec fn closed_books(books: Option<Accounts>) -> Option<Accounts> {
    match books {
        Some(pool) => Some(
            Accounts {
                usage: Usage { closed: true, ..pool.usage },
                wake: owing(pool.wake, 1),
                ..pool
            },
        ),
        None => None,
    }
}

impl RuntimeView {
    /// No accepted work is left in the scheduler.
    pub open spec fn idle(self, demand_idle: bool) -> bool {
        self.owned matches Some(owned) ==> {
            &&& owned.records.len() == 0
            &&& owned.external.len() == 0
            &&& forall|c: int| 0 <= c < 3 ==> #[trigger] owned.lanes[c].handed_off == 0
            &&& demand_idle
        }
    }
}

/// Nothing happened but notifications: nothing is accepted, charged or ended, and
/// no wave has a member more or less.
pub open spec fn only_notified(before: RuntimeView, after: RuntimeView) -> bool {
    &&& after.control == (ControlView { wake: after.control.wake, ..before.control })
    &&& after.charges == before.charges
    &&& match (before.capacity, after.capacity) {
        (Some(a), Some(b)) => b == (Accounts { wake: b.wake, ..a }),
        (None, None) => true,
        _ => false,
    }
    &&& match (before.owned, after.owned) {
        (Some(a), Some(b)) => {
            &&& b == (SchedulerView { groups: b.groups, ..a })
            &&& b.groups.len() == a.groups.len()
            &&& forall|g: int|
                0 <= g < a.groups.len() ==> #[trigger] b.groups[g] == (GroupInner {
                    generation: b.groups[g].generation,
                    ..a.groups[g]
                })
        },
        (None, None) => true,
        _ => false,
    }
}

proof fn touched_only_notifies(v: RuntimeView, admission: int, draws: int, wave: Option<u64>)
    requires
        wave matches Some(id) ==> v.has_group(id),
    ensures
        only_notified(v, v.touched(admission, draws, wave)),
{
    if let Some(id) = wave {
        let groups = v.owned->0.groups;
        assert(group_at(groups, group_slot(groups, id), id));
    }
}

/// A refusal accepts nothing: whatever was asked for, a job, a stage, a
/// provider's result, a physical access or a wave, the runtime that refused it
/// has only notified.
pub proof fn refusals_only_notify(
    v: RuntimeView,
    request: SubmitRequest,
    external: ExternalRequest,
    lease: WorkLease,
    reservation: Option<&SWReservation>,
    need: Need,
    cost: SWCost,
)
    ensures
        only_notified(v, v.after_refused_submit(request, lease)),
        only_notified(v, v.after_refused_stage(request, lease, reservation, need)),
        only_notified(v, v.after_refused_external(external, lease, reservation)),
        only_notified(v, v.after_refused_access(cost, lease, reservation)),
        only_notified(v, v.after_refused_group(lease.accounted(), request.context)),
{
    let plain = routed(request, v.control.id, false);
    let staged = routed(request, v.control.id, reservation is Some);
    if v.owned is Some {
        turned_away_only_notifies(v, plain, None, plain_need(request));
        turned_away_only_notifies(v, staged, reservation, need);
    }
    touched_only_notifies(v, 2, 0, None);
    touched_only_notifies(v, 0, draw_wakes(reservation, need.retained_bytes, false), None);
    touched_only_notifies(v, 0, draw_wakes(reservation, cost.bytes, false), None);
    let bytes = external.need().retained_bytes;
    touched_only_notifies(v, 2, draw_wakes(reservation, bytes, true), None);
    touched_only_notifies(v, 2, draw_wakes(reservation, bytes, false), None);
}

proof fn turned_away_only_notifies(
    v: RuntimeView,
    request: SubmitRequest,
    reservation: Option<&SWReservation>,
    need: Need,
)
    requires
        v.owned is Some,
    ensures
        only_notified(v, v.turned_away(request, reservation, need)),
{
    let owned = v.owned->0;
    let wave = if owned.joins(request) {
        Some(request.group->0.id)
    } else {
        None
    };
    touched_only_notifies(
        v,
        2,
        draw_wakes(reservation, need.retained_bytes, need.delivery && owned.commits(request)),
        wave,
    );
}

/// When the last accepted record has ended, nothing of it is charged any more:
/// the pool holds only what callers hold.
pub proof fn ended_work_holds_nothing(v: RuntimeView)
    requires
        v.wf(),
        v.owned is Some,
        v.owned->0.records.len() == 0,
        v.owned->0.external.len() == 0,
    ensures
        v.charges.len() == 0,
{
    if v.charges.len() > 0 {
        let id = v.charges[0].id;
        assert(live_work(v.owned->0, id));
        let owned = v.owned->0;
        if present(owned.records, id) {
            assert(record_at(owned.records, at(owned.records, id), id));
        } else {
            let i = choose|i: int| #[trigger] external_at(owned.external, i, id);
            assert(external_at(owned.external, i, id));
        }
    }
}

/// Joining loses nothing: a runtime that is joined has no accepted job, no
/// provider-owned result, no physical access and no charge of its own left.
pub proof fn join_loses_nothing(
    v: RuntimeView,
    sets: Seq<SWWorkSetProgress>,
    demand_idle: bool,
)
    requires
        v.wf(),
        v.control.quiescent(sets),
        v.idle(demand_idle),
    ensures
        v.owned matches Some(owned) ==> owned.records.len() == 0 && owned.external.len() == 0,
        v.control.physical.entries.len() == 0,
        v.charges.len() == 0,
{
    if v.owned is Some {
        ended_work_holds_nothing(v);
    }
}

impl RuntimeView {
    /// Why a new wave is refused, if it is.
    pub open spec fn group_error(self, accounted: bool, context: Option<Context>) -> Option<
        SWSpawnError,
    > {
        if self.owned_error() is Some {
            self.owned_error()
        } else if !self.control.admits(accounted, context) || self.owned->0.abandoned {
            Some(SWSpawnError::Closed)
        } else {
            None
        }
    }

    /// The runtime after an admission that ended again.
    pub open spec fn visited(self) -> RuntimeView {
        self.touched(2, 0, None)
    }

    /// The runtime after it refused a wave.
    pub open spec fn after_refused_group(self, accounted: bool, context: Option<Context>) -> RuntimeView {
        if self.owned_error() is None && self.control.admits(accounted, context) {
            self.visited()
        } else {
            self
        }
    }

    /// A wave that can still be reached.
    pub open spec fn has_group(self, id: u64) -> bool {
        self.owned is Some && group_present(self.owned->0.groups, id)
    }

    pub open spec fn get_group(self, id: u64) -> GroupInner {
        self.owned->0.groups[group_slot(self.owned->0.groups, id)]
    }

    /// The runtime with another state of its owned work.
    pub open spec fn with_owned(self, owned: SchedulerView) -> RuntimeView {
        RuntimeView { owned: Some(owned), ..self }
    }
}

impl SWRuntime {
    /// Starts an open wave with one public handle.
    pub fn group(&mut self, class: SWExecutionClass, accounted: bool, context: Option<Context>) -> (
    result: Result<u64, SWSpawnError>)
        requires
            old(self).wf(),
            old(self)@.owned matches Some(owned) ==> owned.next_group < u64::MAX,
        ensures
            final(self).wf(),
            match result {
                Ok(id) => {
                    &&& old(self)@.group_error(accounted, context) is None
                    &&& id == old(self)@.owned->0.next_group
                    &&& final(self)@ == old(self)@.visited().with_owned(
                        old(self)@.owned->0.with_new_group(class),
                    )
                },
                Err(error) => {
                    &&& old(self)@.group_error(accounted, context) == Some(error)
                    &&& final(self)@ == old(self)@.after_refused_group(accounted, context)
                },
            },
    {
        match self.check_owned() {
            Some(error) => {
                return Err(error);
            },
            None => {},
        }
        if !self.control.would_admit(accounted, context) {
            return Err(SWSpawnError::Closed);
        }
        self.touch(2, 0, None);
        let ghost v = self@;
        match &mut self.owned {
            Some(owned) => {
                let result = owned.group(class);
                proof {
                    rescheduled(v, self@);
                }
                result
            },
            None => Err(SWSpawnError::Closed),
        }
    }

    /// Starts the next wave of a reusable owner in place of a settled one.
    pub fn renew_group(&mut self, id: u64, accounted: bool, context: Option<Context>) -> (result:
        Result<u64, SWSpawnError>)
        requires
            old(self).wf(),
            old(self)@.owned matches Some(owned) ==> owned.next_group < u64::MAX,
            old(self)@.owned is Some ==> old(self)@.has_group(id) && old(self)@.get_group(
                id,
            ).status is Some && old(self)@.get_group(id).public_handles > 0,
        ensures
            final(self).wf(),
            match result {
                Ok(next) => {
                    let owned = old(self)@.owned->0;
                    &&& old(self)@.group_error(accounted, context) is None
                    &&& next == owned.next_group
                    &&& final(self)@ == old(self)@.visited().with_owned(
                        owned.with_new_group(old(self)@.get_group(id).class).group_released(
                            group_slot(owned.groups, id),
                        ),
                    )
                },
                Err(error) => {
                    &&& old(self)@.group_error(accounted, context) == Some(error)
                    &&& final(self)@ == old(self)@.after_refused_group(accounted, context)
                },
            },
    {
        match self.check_owned() {
            Some(error) => {
                return Err(error);
            },
            None => {},
        }
        if !self.control.would_admit(accounted, context) {
            return Err(SWSpawnError::Closed);
        }
        self.touch(2, 0, None);
        let ghost v = self@;
        match &mut self.owned {
            Some(owned) => {
                let result = owned.renew_group(id);
                proof {
                    rescheduled(v, self@);
                }
                result
            },
            None => Err(SWSpawnError::Closed),
        }
    }

    /// A wave, if it is still reachable.
    pub fn group_state(&self, id: u64) -> (group: Option<GroupInner>)
        requires
            self.wf(),
        ensures
            group == (if self@.has_group(id) {
                Some(self@.get_group(id))
            } else {
                None
            }),
    {
        match &self.owned {
            Some(owned) => owned.group_state(id),
            None => None,
        }
    }

    /// Counts another public handle of a wave.
    pub fn retain_group(&mut self, id: u64) -> (retained: bool)
        requires
            old(self).wf(),
        ensures
            final(self).wf(),
            retained == (old(self)@.has_group(id) && old(self)@.get_group(id).public_handles
                < usize::MAX),
            final(self)@ == (if retained {
                old(self)@.with_owned(
                    old(self)@.owned->0.with_group(
                        group_slot(old(self)@.owned->0.groups, id),
                        GroupInner {
                            public_handles: (old(self)@.get_group(id).public_handles
                                + 1) as usize,
                            ..old(self)@.get_group(id)
                        },
                    ),
                )
            } else {
                old(self)@
            }),
    {
        let ghost v = self@;
        match &mut self.owned {
            Some(owned) => {
                let retained = owned.retain_group(id);
                proof {
                    rescheduled(v, self@);
                }
                retained
            },
            None => false,
        }
    }

    /// Ends a public handle of a wave, and reports whether a sealed wave lost
    /// its last one.
    pub fn release_group(&mut self, id: u64) -> (retired: bool)
        requires
            old(self).wf(),
        ensures
            final(self).wf(),
            if old(self)@.has_group(id) && old(self)@.get_group(id).public_handles > 0 {
                &&& retired == (old(self)@.get_group(id).public_handles == 1 && old(self)@.get_group(id).sealed)
                &&& final(self)@ == old(self)@.with_owned(
                    old(self)@.owned->0.group_released(
                        group_slot(old(self)@.owned->0.groups, id),
                    ),
                )
            } else {
                !retired && final(self)@ == old(self)@
            },
    {
        let ghost v = self@;
        match &mut self.owned {
            Some(owned) => {
                let retired = owned.release_group(id);
                proof {
                    rescheduled(v, self@);
                }
                retired
            },
            None => false,
        }
    }

    /// Closes the membership of a wave. Hands back the status to publish where
    /// nobody is left in it.
    pub fn seal_group(&mut self, id: u64) -> (terminal: Option<SWTaskStatus>)
        requires
            old(self).wf(),
        ensures
            final(self).wf(),
            if old(self)@.has_group(id) {
                let sealed = old(self)@.get_group(id).closed_membership();
                &&& terminal == sealed.terminal_status()
                &&& final(self)@ == old(self)@.with_owned(
                    old(self)@.owned->0.with_group(
                        group_slot(old(self)@.owned->0.groups, id),
                        sealed.handed_out(),
                    ),
                )
            } else {
                terminal is None && final(self)@ == old(self)@
            },
    {
        let ghost v = self@;
        match &mut self.owned {
            Some(owned) => {
                let terminal = owned.seal_group(id);
                proof {
                    rescheduled(v, self@);
                }
                terminal
            },
            None => None,
        }
    }

    /// Makes the terminal status of a settled wave visible.
    pub(crate) fn publish_group(&mut self, id: u64) -> (published: bool)
        requires
            old(self).wf(),
        ensures
            final(self).wf(),
            published == (old(self)@.has_group(id) && old(self)@.get_group(id).publishing),
            final(self)@ == (if published {
                old(self)@.with_owned(
                    old(self)@.owned->0.with_group(
                        group_slot(old(self)@.owned->0.groups, id),
                        GroupInner {
                            status: Some(old(self)@.get_group(id).verdict()),
                            ..old(self)@.get_group(id)
                        }.notified(),
                    ),
                )
            } else {
                old(self)@
            }),
    {
        let ghost v = self@;
        match &mut self.owned {
            Some(owned) => {
                let published = owned.publish_group(id);
                proof {
                    rescheduled(v, self@);
                }
                published
            },
            None => false,
        }
    }

    /// Claims the settlement of a provider-owned result.
    pub fn claim_external(&mut self, id: u64, abandonment: bool) -> (claimed: bool)
        requires
            old(self).wf(),
        ensures
            final(self).wf(),
            claimed == (old(self)@.owned is Some && old(self)@.owned->0.external_claimable(
                id,
                abandonment,
            )),
            final(self)@ == (if claimed {
                old(self)@.with_owned(old(self)@.owned->0.external_claimed(id))
            } else {
                old(self)@
            }),
    {
        let ghost v = self@;
        match &mut self.owned {
            Some(owned) => {
                let claimed = owned.claim_external(id, abandonment);
                proof {
                    if claimed {
                        let s = v.owned->0;
                        assert(external_at(s.external, s.external_slot(id), id));
                    }
                    rescheduled(v, self@);
                }
                claimed
            },
            None => false,
        }
    }

    /// Changes the urgency of live resource work.
    pub fn update_demand(&mut self, id: u64, selection: Selection) -> (updated: bool)
        requires
            old(self).wf(),
        ensures
            final(self).wf(),
            updated == (old(self)@.owned is Some && old(self)@.owned->0.demanded(id)),
            final(self)@ == (if updated {
                old(self)@.with_owned(old(self)@.owned->0.redemanded(id, selection))
            } else {
                old(self)@
            }),
    {
        let ghost v = self@;
        match &mut self.owned {
            Some(owned) => {
                let updated = owned.update_demand(id, selection);
                proof {
                    if updated {
                        let s = v.owned->0;
                        assert(record_at(s.records, at(s.records, id), id));
                    }
                    rescheduled(v, self@);
                }
                updated
            },
            None => false,
        }
    }

    /// Commits a prepared access against closure and set cancellation.
    pub fn activate_physical(&mut self, id: u64, refused: Option<SWSpawnError>) -> (result: Result<
        (),
        SWSpawnError,
    >)
        requires
            old(self).wf(),
            old(self)@.control.physical.has(id),
            old(self)@.control.physical.get(id).state == PhysicalState::Prepared,
        ensures
            final(self).wf(),
            match result {
                Ok(()) => {
                    &&& old(self)@.control.executing() && refused is None
                    &&& final(self)@ == (RuntimeView {
                        control: (ControlView {
                            physical: old(self)@.control.physical.restated(
                                id,
                                PhysicalState::Active,
                            ),
                            ..old(self)@.control
                        }).woken(),
                        ..old(self)@
                    })
                },
                Err(error) => {
                    &&& if !old(self)@.control.executing() {
                        error == SWSpawnError::Closed
                    } else {
                        refused == Some(error)
                    }
                    &&& final(self)@ == old(self)@
                },
            },
    {
        self.control.activate_physical(id, refused)
    }

    /// Records an access whose release authority was lost. Its storage, its
    /// bytes and its place stay charged.
    pub fn orphan_physical(&mut self, id: u64)
        requires
            old(self).wf(),
            old(self)@.control.physical.has(id),
        ensures
            final(self).wf(),
            final(self)@ == (RuntimeView {
                control: (ControlView {
                    physical: old(self)@.control.physical.restated(id, PhysicalState::Orphaned),
                    ..old(self)@.control
                }).woken(),
                ..old(self)@
            }),
    {
        self.control.orphan_physical(id);
    }

    /// Ends a physical access after its release: its capacity returns, then its
    /// place. Its bytes follow the resource.
    pub fn end_physical(&mut self, id: u64, charge: Option<SWReservation>)
        requires
            old(self).wf(),
            old(self)@.control.physical.has(id),
            charge matches Some(charge) ==> old(self)@.capacity is Some && charge.held_in(
                old(self)@.capacity->0,
            ) && old(self)@.outside(charge),
        ensures
            final(self).wf(),
            final(self)@ == (RuntimeView {
                control: (ControlView {
                    physical: old(self)@.control.physical.without(id),
                    ..old(self)@.control
                }).woken(),
                capacity: match charge {
                    Some(charge) => Some(
                        old(self)@.capacity->0.without_bank(charge.bank_slot()),
                    ),
                    None => old(self)@.capacity,
                },
                ..old(self)@
            }),
    {
        if let Some(charge) = charge {
            self.retire(charge);
        }
        self.control.remove_physical(id);
    }

    /// Registers a thread-bound owner.
    pub fn register_owner(&mut self, participating: bool) -> (result: Result<u64, SWExecutionError>)
        requires
            old(self).wf(),
            old(self)@.control.next_owner < u64::MAX,
        ensures
            final(self).wf(),
            match result {
                Ok(id) => {
                    &&& !participating && old(self)@.control.phase == SWRuntimeState::Running
                    &&& id == old(self)@.control.next_owner
                    &&& final(self)@ == (RuntimeView {
                        control: (ControlView {
                            owners: old(self)@.control.owners.push(id),
                            next_owner: id + 1,
                            ..old(self)@.control
                        }).woken(),
                        ..old(self)@
                    })
                },
                Err(error) => {
                    &&& if participating {
                        error == SWExecutionError::InvalidContext
                    } else {
                        error == SWExecutionError::Closed && old(self)@.control.phase
                            != SWRuntimeState::Running
                    }
                    &&& final(self)@ == old(self)@
                },
            },
    {
        self.control.register_owner(participating)
    }

    /// Ends an owner's registration.
    pub fn unregister_owner(&mut self, id: u64)
        requires
            old(self).wf(),
        ensures
            final(self).wf(),
            forall|other: u64| #[trigger]
                final(self)@.control.owners.contains(other) <==> old(self)@.control.owners.contains(other) && other != id,
            final(self)@ == (RuntimeView {
                control: (ControlView {
                    owners: final(self)@.control.owners,
                    ..old(self)@.control
                }).woken(),
                ..old(self)@
            }),
    {
        self.control.unregister_owner(id);
    }

    /// Admits an owner root before closure, for the time of one registration.
    pub fn admit_owner_root(&mut self) -> (result: Result<(), SWExecutionError>)
        requires
            old(self).wf(),
            old(self)@.control.active < usize::MAX,
        ensures
            final(self).wf(),
            match result {
                Ok(()) => {
                    &&& old(self)@.control.phase == SWRuntimeState::Running
                    &&& final(self)@ == (RuntimeView {
                        control: (ControlView {
                            active: old(self)@.control.active + 1,
                            ..old(self)@.control
                        }).woken(),
                        ..old(self)@
                    })
                },
                Err(error) => {
                    &&& old(self)@.control.phase != SWRuntimeState::Running
                    &&& error == SWExecutionError::Closed
                    &&& final(self)@ == old(self)@
                },
            },
    {
        self.control.admit_owner_root()
    }

    /// Whether a work set can be created.
    pub fn work_set(&mut self) -> (result: Result<(), SWSpawnError>)
        requires
            old(self).wf(),
        ensures
            final(self).wf(),
            match result {
                Ok(()) => old(self)@.control.phase == SWRuntimeState::Running && final(self)@ == (
                RuntimeView { control: old(self)@.control.woken(), ..old(self)@ }),
                Err(error) => {
                    &&& old(self)@.control.phase != SWRuntimeState::Running
                    &&& error == SWSpawnError::Closed
                    &&& final(self)@ == old(self)@
                },
            },
    {
        self.control.work_set()
    }
}

/// What one owner delivery needs.
pub open spec fn delivery_need() -> Need {
    Need { cost: SWCost::one_delivery(), retained_bytes: 0, delivery: false }
}

impl SWRuntime {
    /// Why the capacity of one owner delivery would be refused now, if it would
    /// be.
    pub fn check_delivery(&self, reservation: Option<&SWReservation>) -> (error: Option<
        SWSpawnError,
    >)
        requires
            self.wf(),
            reservation_known(self@.capacity, self@.control.id, reservation),
        ensures
            error == draw_error(
                self@.capacity,
                self@.control.id,
                reservation,
                SWCost::one_delivery(),
            ),
    {
        check_draw(
            &self.capacity,
            self.control.identity(),
            reservation,
            SWCost::new(0, 0, 1, 0),
        )
    }

    /// Whether a capacity policy is enabled.
    pub fn has_capacity(&self) -> (enabled: bool)
        ensures
            enabled == (self@.capacity is Some),
    {
        self.capacity.is_some()
    }

    /// Counts what drawing and giving back the capacity of one delivery notifies.
    pub fn give_delivery_back(&mut self, reservation: Option<&SWReservation>)
        requires
            old(self).wf(),
        ensures
            final(self).wf(),
            final(self)@ == old(self)@.touched(0, draw_wakes(reservation, 0, false), None),
    {
        let draws: u64 = count_draw_wakes(reservation, 0, false);
        self.touch(0, draws, None);
    }

    /// Charges one owner delivery, where a capacity policy is enabled.
    pub fn charge_delivery(&mut self, reservation: Option<&SWReservation>) -> (charge: Option<
        SWReservation,
    >)
        requires
            old(self).wf(),
            reservation_known(old(self)@.capacity, old(self)@.control.id, reservation),
            draw_error(
                old(self)@.capacity,
                old(self)@.control.id,
                reservation,
                SWCost::one_delivery(),
            ) is None,
        ensures
            final(self).wf(),
            final(self)@ == (RuntimeView { capacity: final(self)@.capacity, ..old(self)@ }),
            supplied(
                old(self)@.capacity,
                final(self)@.capacity,
                reservation,
                delivery_need(),
                (Supplied { charge, bytes: None, ticket: None }),
            ),
            charge matches Some(charge) ==> final(self)@.capacity is Some && charge.held_in(
                final(self)@.capacity->0,
            ) && final(self)@.outside(charge),
    {
        let ghost v = self@;
        let need = Need {
            cost: SWCost::new(0, 0, 1, 0),
            retained_bytes: 0,
            delivery: false,
        };
        let runtime: u64 = self.control.identity();
        let supply = supply(&mut self.capacity, runtime, reservation, need);
        let Supplied { charge, bytes, ticket } = supply;
        proof {
            let w = self@;
            assert(bytes is None && ticket is None);
            if v.capacity is Some {
                carries_handles(v.capacity->0, w.capacity->0);
                assert forall|i: int|
                    0 <= i < v.charges.len() implies (
                #[trigger] v.charges[i]).reservation.held_in(w.capacity->0)
                    && v.charges[i].reservation.bank_slot() != charge->0.bank_slot() by {
                    assert(v.charges[i].reservation.held_in(v.capacity->0));
                }
                recharged(v, w);
            }
        }
        charge
    }
}

impl SWRuntime {
    /// Whether consumers may still register interest in producers here.
    pub fn takes_demand(&self) -> (takes: bool)
        ensures
            takes == (self@.owned is Some && !self@.owned->0.abandoned),
    {
        match &self.owned {
            Some(owned) => !owned.is_abandoned(),
            None => false,
        }
    }

    /// Applies the propagated urgency of a bounded number of resource records,
    /// without running user jobs.
    pub fn service_demand(&mut self, changes: &Vec<DemandChange>)
        requires
            old(self).wf(),
        ensures
            final(self).wf(),
            final(self)@ == old(self)@.all_redemanded(changes@),
    {
        let mut index: usize = 0;
        proof {
            assert(changes@.take(0) =~= Seq::empty());
        }
        while index < changes.len()
            invariant
                self.wf(),
                index <= changes@.len(),
                self@ == old(self)@.all_redemanded(changes@.take(index as int)),
            decreases changes@.len() - index,
        {
            proof {
                let next = changes@.take(index + 1);
                assert(next.drop_last() =~= changes@.take(index as int));
            }
            let change = changes[index];
            let _ = self.update_demand(change.id, change.selection);
            index += 1;
        }
        proof {
            assert(changes@.take(index as int) =~= changes@);
        }
    }
}

/// The urgency that a record has now.
#[derive(Clone, Copy, Debug, PartialEq, Eq, Structural)]
pub struct DemandChange {
    pub id: u64,
    pub selection: Selection,
}

impl RuntimeView {
    /// A live resource record has another urgency; other records have none.
    pub open spec fn with_demand(self, change: DemandChange) -> RuntimeView {
        if self.owned is Some && self.owned->0.demanded(change.id) {
            self.with_owned(self.owned->0.redemanded(change.id, change.selection))
        } else {
            self
        }
    }

    pub open spec fn all_redemanded(self, changes: Seq<DemandChange>) -> RuntimeView
        decreases changes.len(),
    {
        if changes.len() == 0 {
            self
        } else {
            self.all_redemanded(changes.drop_last()).with_demand(changes.last())
        }
    }
}

impl RuntimeView {
    /// Places that owner routes keep for required pipelines.
    pub open spec fn protected_deliveries(self) -> usize {
        match self.capacity {
            Some(books) => books.limits.required_allowance.deliveries,
            None => 0,
        }
    }
}

impl SWRuntime {
    pub fn protected_delivery_capacity(&self) -> (capacity: usize)
        ensures
            capacity == self@.protected_deliveries(),
    {
        match &self.capacity {
            Some(pool) => pool.required_delivery_capacity(),
            None => 0,
        }
    }
}

impl SWRuntime {
    /// Whether one more record can be named.
    pub fn names_records(&self) -> (room: bool)
        ensures
            room == (self@.owned matches Some(owned) ==> owned.next_id < u64::MAX),
    {
        match &self.owned {
            Some(owned) => owned.names_records(),
            None => true,
        }
    }

    /// Whether one more wave can be named.
    pub fn names_groups(&self) -> (room: bool)
        ensures
            room == (self@.owned matches Some(owned) ==> owned.next_group < u64::MAX),
    {
        match &self.owned {
            Some(owned) => owned.names_groups(),
            None => true,
        }
    }

    /// Whether one more physical access can be named.
    pub fn names_accesses(&self) -> (room: bool)
        ensures
            room == (self@.control.physical.next_id < u64::MAX),
    {
        self.control.names_accesses()
    }

    /// Whether one more lease can be counted.
    pub fn counts_leases(&self) -> (room: bool)
        requires
            self.wf(),
        ensures
            room == (self@.control.active < usize::MAX),
    {
        self.control.active_leases() < usize::MAX
    }
}

} // verus!
