//! What a runtime admits, and what admitted work is charged.
use crate::admission::DeliveryClaim;
use crate::admission::SWDiscoveryError;
use crate::admission::SWSpawnError;
use crate::context::Context;
use crate::cost::SWCost;
use crate::cost::SWReservationError;
use crate::jobs::at;
use crate::jobs::found;
use crate::jobs::position;
use crate::jobs::position_is;
use crate::jobs::Record;
use crate::jobs::record_at;
use crate::jobs::SchedulerView;
use crate::lifecycle::all_drained;
use crate::lifecycle::open_sets;
use crate::lifecycle::owner_sum;
use crate::lifecycle::owner_sum_fits;
use crate::lifecycle::SWWorkSetProgress;
use crate::progress::SWOwnerProgress;
use crate::progress::SWRuntimeState;
use crate::queue::holds;
use crate::queue::QueueEntry;
use crate::queue::Selection;
use crate::reservation::Accounts;
use crate::reservation::claim_error;
use crate::reservation::Kind;
use crate::reservation::reserved;
use crate::reservation::SWReservation;
use crate::runtime::charge_at;
use crate::runtime::charge_slot;
use crate::runtime::closed_books;
use crate::runtime::committed;
use crate::runtime::declared_need;
use crate::runtime::DemandChange;
use crate::runtime::external_committed;
use crate::runtime::ExternalAccepted;
use crate::runtime::ExternalRequest;
use crate::runtime::handoff_returned;
use crate::runtime::OwnedAccepted;
use crate::runtime::physical_need;
use crate::runtime::pipeline_reserved;
use crate::runtime::plain_need;
use crate::runtime::RuntimeView;
use crate::runtime::uncharged;
use crate::runtime::WorkLease;
use crate::steps::SubmitRequest;
use crate::sums::total;
use crate::sums::total_is_filtered;
use crate::supply::draw_error;
use crate::supply::Need;
use vstd::prelude::*;

verus! {

/// A lease of a work set that was refused, or asked of two sets, refuses the
/// work. Work without a set, or with a granted lease, goes on.
pub proof fn leases_refuse_work(lease: WorkLease)
    ensures
        lease.error() is None <==> lease == WorkLease::Unset || lease == WorkLease::Granted,
        lease.accounted() <==> lease == WorkLease::Granted,
        lease.error() == Some(SWSpawnError::InvalidContext) <==> lease == WorkLease::Ambiguous,
        lease.error() == Some(SWSpawnError::Full) <==> lease == WorkLease::Refused(
            SWDiscoveryError::Full,
        ),
        lease.error() == Some(SWSpawnError::Closed) <==> lease == WorkLease::Refused(
            SWDiscoveryError::Closed,
        ) || lease == WorkLease::Refused(SWDiscoveryError::Cancelled),
{
}

/// A job is admitted exactly if owned work is configured, its work set grants a
/// lease, the runtime admits it, the policy has room for one record, its
/// prerequisites and a delivery that nobody has charged yet, and the scheduler
/// takes it as work of this runtime.
pub proof fn jobs_are_admitted(v: RuntimeView, request: SubmitRequest, lease: WorkLease)
    ensures
        ({
            let error = v.submit_error(request, lease);
            let leased = lease == WorkLease::Unset || lease == WorkLease::Granted;
            let admits = v.control.phase == SWRuntimeState::Running || v.control.phase
                == SWRuntimeState::Closing && (lease == WorkLease::Granted || request.context is Some
                && request.context->0.runtime == v.control.id);
            let cost = SWCost {
                records: 1,
                edges: request.prerequisites,
                deliveries: if request.delivery is Some && !request.delivery->0.accounted {
                    1
                } else {
                    0
                },
                bytes: 0,
            };
            let draw = draw_error(v.capacity, v.control.id, None, cost);
            let work = SubmitRequest { runtime: v.control.id, reserved: false, ..request };
            &&& error is None <==> v.owned is Some && leased && admits && draw is None
                && v.owned->0.submit_error(work) is None
            &&& error == Some(SWSpawnError::Disabled) && v.owned is None ==> v.control.phase
                == SWRuntimeState::Running
            &&& v.owned is None && v.control.phase == SWRuntimeState::Running ==> error == Some(
                SWSpawnError::Disabled,
            )
            &&& v.owned is None && v.control.phase != SWRuntimeState::Running ==> error == Some(
                SWSpawnError::Closed,
            )
            &&& v.owned is Some && !leased ==> error == lease.error()
            &&& v.owned is Some && leased && !admits ==> error == Some(SWSpawnError::Closed)
            &&& v.owned is Some && leased && admits && draw is Some ==> error == draw
            &&& v.owned is Some && leased && admits && draw is None ==> error
                == v.owned->0.submit_error(work)
        }),
{
}

/// A stage is admitted like a job, but pays its declared cost, which must cover
/// what its result retains, from its pipeline where it has one; it may then wait
/// beyond the window.
pub proof fn stages_are_admitted(
    v: RuntimeView,
    request: SubmitRequest,
    lease: WorkLease,
    reservation: Option<&SWReservation>,
    need: Need,
)
    ensures
        ({
            let error = v.stage_error(request, lease, reservation, need);
            let leased = lease == WorkLease::Unset || lease == WorkLease::Granted;
            let admits = v.control.phase == SWRuntimeState::Running || v.control.phase
                == SWRuntimeState::Closing && (lease == WorkLease::Granted || request.context is Some
                && request.context->0.runtime == v.control.id);
            let covered = need.retained_bytes <= need.cost.bytes;
            let draw = draw_error(v.capacity, v.control.id, reservation, need.cost);
            let work = SubmitRequest {
                runtime: v.control.id,
                reserved: reservation is Some,
                ..request
            };
            &&& error is None <==> v.owned is Some && leased && covered && draw is None && admits
                && v.owned->0.submit_error(work) is None
            &&& v.owned is None ==> error == Some(
                if v.control.phase == SWRuntimeState::Running {
                    SWSpawnError::Disabled
                } else {
                    SWSpawnError::Closed
                },
            )
            &&& v.owned is Some && !leased ==> error == lease.error()
            &&& v.owned is Some && leased && !covered ==> error == Some(SWSpawnError::TooLarge)
            &&& v.owned is Some && leased && covered && draw is Some ==> error == draw
            &&& v.owned is Some && leased && covered && draw is None && !admits ==> error == Some(
                SWSpawnError::Closed,
            )
            &&& v.owned is Some && leased && covered && draw is None && admits ==> error
                == v.owned->0.submit_error(work)
        }),
{
}

/// A provider-owned result is admitted exactly if owned work is configured, the
/// runtime admits it, its work set grants a lease, its declared cost covers what
/// it retains and can be paid, and the scheduler takes it.
pub proof fn results_are_admitted(
    v: RuntimeView,
    request: ExternalRequest,
    lease: WorkLease,
    reservation: Option<&SWReservation>,
)
    ensures
        ({
            let error = v.external_error(request, lease, reservation);
            let leased = lease == WorkLease::Unset || lease == WorkLease::Granted;
            let admits = v.control.phase == SWRuntimeState::Running || v.control.phase
                == SWRuntimeState::Closing && (lease == WorkLease::Granted || request.context is Some
                && request.context->0.runtime == v.control.id);
            let covered = request.retained_bytes <= request.cost.bytes;
            let cost = declared_need(
                request.cost,
                request.retained_bytes,
                0,
                request.delivery,
            ).cost;
            let draw = draw_error(v.capacity, v.control.id, reservation, cost);
            let taken = v.owned->0.external_error(
                v.control.id,
                request.priority,
                request.provider_demand,
                request.delivery,
            );
            &&& error is None <==> v.owned is Some && admits && leased && covered && draw is None
                && taken is None
            &&& v.owned is None ==> error == Some(
                if v.control.phase == SWRuntimeState::Running {
                    SWSpawnError::Disabled
                } else {
                    SWSpawnError::Closed
                },
            )
            &&& v.owned is Some && !admits ==> error == Some(SWSpawnError::Closed)
            &&& v.owned is Some && admits && !leased ==> error == lease.error()
            &&& v.owned is Some && admits && leased && !covered ==> error == Some(
                SWSpawnError::TooLarge,
            )
            &&& v.owned is Some && admits && leased && covered && draw is Some ==> error == draw
            &&& v.owned is Some && admits && leased && covered && draw is None ==> error == taken
        }),
{
}

/// A physical access is prepared exactly if its cost names no edge and no
/// delivery, its work set grants a lease, its bytes and its record can be paid,
/// the runtime admits it and a place of its kind is free: those of required
/// pipelines are apart.
pub proof fn accesses_are_admitted(
    v: RuntimeView,
    cost: SWCost,
    lease: WorkLease,
    reservation: Option<&SWReservation>,
    context: Option<Context>,
)
    ensures
        ({
            let error = v.prepare_error(cost, lease, reservation, context);
            let sound = lease != WorkLease::Ambiguous && cost.edges == 0 && cost.deliveries == 0;
            let admits = v.control.phase == SWRuntimeState::Running || v.control.phase
                == SWRuntimeState::Closing && (lease == WorkLease::Granted || context is Some
                && context->0.runtime == v.control.id);
            let charge = SWCost {
                records: if cost.records >= 1 {
                    cost.records
                } else {
                    1
                },
                edges: 0,
                deliveries: 0,
                bytes: cost.bytes,
            };
            let draw = draw_error(v.capacity, v.control.id, reservation, charge);
            let place = v.control.physical.reserve_error(
                reservation is Some && reservation->0.drawn_kind() == Kind::Required,
            );
            &&& error is None <==> sound && !(lease is Refused) && draw is None && admits && place
                is None
            &&& !sound ==> error == Some(SWSpawnError::InvalidContext)
            &&& sound && lease is Refused ==> error == Some(SWSpawnError::Closed)
            &&& sound && !(lease is Refused) && draw is Some ==> error == draw
            &&& sound && !(lease is Refused) && draw is None && !admits ==> error == Some(
                SWSpawnError::Closed,
            )
            &&& sound && !(lease is Refused) && draw is None && admits ==> error == place
        }),
{
}

/// What work is charged: at least one record, the prerequisites that it names,
/// and one delivery that was promised and not charged before. What the caller
/// declares beyond that is charged as declared.
pub proof fn charges_cover_what_is_used(
    request: SubmitRequest,
    cost: SWCost,
    retained: usize,
    edges: usize,
    delivery: Option<DeliveryClaim>,
)
    ensures
        ({
            let need = plain_need(request);
            &&& need.cost.records == 1 && need.cost.edges == request.prerequisites
                && need.cost.bytes == 0 && need.retained_bytes == 0
            &&& need.delivery <==> request.delivery is Some && !request.delivery->0.accounted
            &&& need.cost.deliveries == 1 <==> need.delivery
            &&& need.cost.deliveries <= 1
        }),
        ({
            let need = declared_need(cost, retained, edges, delivery);
            let promised = delivery is Some;
            let charged = delivery is Some && delivery->0.accounted;
            &&& need.cost.records >= 1 && need.cost.records >= cost.records && (need.cost.records
                == 1 || need.cost.records == cost.records)
            &&& need.cost.edges >= edges && need.cost.edges >= cost.edges && (need.cost.edges
                == edges || need.cost.edges == cost.edges)
            &&& need.cost.bytes == cost.bytes && need.retained_bytes == retained
            &&& need.delivery <==> promised && !charged
            &&& !promised ==> need.cost.deliveries == cost.deliveries
            &&& promised && !charged && cost.deliveries > 0 ==> need.cost.deliveries
                == cost.deliveries
            &&& promised && !charged && cost.deliveries == 0 ==> need.cost.deliveries == 1
            &&& charged && cost.deliveries > 0 ==> need.cost.deliveries + 1 == cost.deliveries
            &&& charged && cost.deliveries == 0 ==> need.cost.deliveries == 0
        }),
        ({
            let need = physical_need(cost);
            &&& need.cost.records >= 1 && (need.cost.records == 1 || need.cost.records
                == cost.records) && need.cost.records >= cost.records
            &&& need.cost.edges == 0 && need.cost.deliveries == 0 && !need.delivery
            &&& need.cost.bytes == cost.bytes && need.retained_bytes == cost.bytes
        }),
{
}

/// A pipeline is reserved in a running runtime that has a policy, where that
/// policy grants it; anywhere else reservations are closed.
pub proof fn pipelines_need_a_running_policy(v: RuntimeView, cost: SWCost, kind: Kind)
    ensures
        ({
            let error = v.reserve_error(cost, kind);
            let serves = v.control.phase == SWRuntimeState::Running && v.capacity is Some;
            &&& !serves ==> error == Some(SWReservationError::Closed)
            &&& serves ==> error == claim_error(
                v.capacity->0.limits,
                v.capacity->0.usage,
                cost,
                kind,
                true,
            )
        }),
{
}

/// A wave is opened exactly where work could be admitted.
pub proof fn waves_open_where_work_is_admitted(
    v: RuntimeView,
    accounted: bool,
    context: Option<Context>,
)
    ensures
        ({
            let error = v.group_error(accounted, context);
            let admits = v.control.phase == SWRuntimeState::Running || v.control.phase
                == SWRuntimeState::Closing && (accounted || context is Some && context->0.runtime
                == v.control.id);
            &&& error is None <==> v.owned is Some && admits && !v.owned->0.abandoned
            &&& error == Some(SWSpawnError::Disabled) <==> v.owned is None && v.control.phase
                == SWRuntimeState::Running
            &&& error is Some && error != Some(SWSpawnError::Disabled) ==> error == Some(
                SWSpawnError::Closed,
            )
        }),
{
}

/// A runtime is idle exactly if it accepts no owned work, or holds no job and no
/// provider-owned result, no wrapper is with the backend, and no demand update
/// is pending.
pub proof fn idle_runtimes_hold_nothing(v: RuntimeView, demand_idle: bool)
    requires
        v.owned matches Some(owned) ==> owned.lanes.len() == 3,
    ensures
        v.idle(demand_idle) <==> (v.owned is None || v.owned->0.records.len() == 0
            && v.owned->0.external.len() == 0 && v.owned->0.lanes[0].handed_off == 0
            && v.owned->0.lanes[1].handed_off == 0 && v.owned->0.lanes[2].handed_off == 0
            && demand_idle),
{
}

/// What an accepted job changes: one more invocation is active and one more
/// record is there, with the identity that was handed out. It runs on its caller
/// only where the window was full.
pub proof fn accepted_jobs_are_counted(
    before: RuntimeView,
    after: RuntimeView,
    request: SubmitRequest,
    reservation: Option<&SWReservation>,
    need: Need,
    accepted: OwnedAccepted,
)
    requires
        before.wf(),
        before.owned is Some,
        before.owned->0.next_id < u64::MAX,
        committed(before, after, request, reservation, need, accepted),
    ensures
        after.control.active == before.control.active + 1,
        after.control.external == before.control.external,
        after.control.phase == before.control.phase,
        after.control.owners == before.control.owners,
        after.control.physical == before.control.physical,
        before.control.wake < u64::MAX ==> after.control.wake == before.control.wake + 1,
        after.owned is Some,
        after.owned->0.records.len() == before.owned->0.records.len() + 1,
        after.owned->0.records.last().id == accepted.id,
        accepted.inline ==> before.owned->0.lanes[request.class.slot()].runnable
            >= before.owned->0.limits.runnable@[request.class.slot()],
        before.capacity is Some ==> after.charges.len() == before.charges.len() + 1
            && after.charges.last().id == accepted.id && forall|i: int|
            0 <= i < before.charges.len() ==> (#[trigger] after.charges[i]) == before.charges[i],
        before.capacity is None ==> after.capacity is None && after.charges == before.charges
            && accepted.bytes is None && accepted.ticket is None,
{
    if before.capacity is Some {
        assert forall|i: int| 0 <= i < before.charges.len() implies (#[trigger] after.charges[i])
            == before.charges[i] by {
            assert(after.charges.drop_last()[i] == before.charges[i]);
        }
    }
}

/// What an accepted provider-owned result changes: one more is counted, and its
/// settlement is open.
pub proof fn accepted_results_are_counted(
    before: RuntimeView,
    after: RuntimeView,
    request: ExternalRequest,
    reservation: Option<&SWReservation>,
    accepted: ExternalAccepted,
)
    requires
        before.wf(),
        before.owned is Some,
        before.owned->0.next_id < u64::MAX,
        external_committed(before, after, request, reservation, accepted),
    ensures
        after.control.external == before.control.external + 1,
        after.control.active == before.control.active,
        after.control.phase == before.control.phase,
        after.control.owners == before.control.owners,
        after.control.physical == before.control.physical,
        after.owned is Some,
        after.owned->0.records == before.owned->0.records,
        after.owned->0.external.len() == before.owned->0.external.len() + 1,
        after.owned->0.external.last().id == accepted.id,
        !after.owned->0.external.last().settling,
        before.capacity is Some ==> after.charges.len() == before.charges.len() + 1
            && after.charges.last().id == accepted.id,
        before.capacity is None ==> after.capacity is None && after.charges == before.charges,
{
}

/// Closing a policy refuses new charges and touches none that it holds.
pub proof fn closed_policies_keep_their_charges(a: Accounts)
    ensures
        ({
            let b = closed_books(Some(a))->0;
            &&& closed_books(Some(a)) is Some && closed_books(None) is None
            &&& b.usage.closed
            &&& b.usage.ordinary == a.usage.ordinary && b.usage.required == a.usage.required
            &&& b.pipelines == a.pipelines && b.banks == a.banks && b.leases == a.leases
            &&& b.limits == a.limits && b.identity == a.identity
            &&& a.wake < u64::MAX ==> b.wake == a.wake + 1
        }),
{
}

/// A wrapper that comes back from the backend frees one place of its class, and
/// nothing else.
pub proof fn returned_wrappers_free_a_place(v: SchedulerView, c: int, d: int)
    requires
        v.wf(),
        0 <= c < 3,
        0 <= d < 3,
    ensures
        ({
            let w = handoff_returned(v, c);
            &&& w.lanes[c].handed_off + 1 == v.lanes[c].handed_off
            &&& d != c ==> w.lanes[d] == v.lanes[d]
            &&& w.lanes[c].ready == v.lanes[c].ready && w.lanes[c].deferred
                == v.lanes[c].deferred && w.lanes[c].runnable == v.lanes[c].runnable
            &&& w.records == v.records && w.external == v.external && w.groups == v.groups
        }),
{
}

/// A change of demand gives the job that it names its new urgency, in its record
/// and in its place of the queue, and changes neither other jobs nor what is not
/// resource work.
pub proof fn demand_changes_one_job(v: SchedulerView, i: int, selection: Selection, k: int)
    requires
        v.wf(),
        0 <= i < v.records.len(),
    ensures
        ({
            let r = v.records[i];
            let w = v.redemanded(r.id, selection);
            let c = r.class.slot();
            &&& v.demanded(r.id) <==> r.demand is Some
            &&& w.records == v.records.update(i, Record { demand: Some(selection), ..r })
            &&& 0 <= k < v.lanes[c].ready.len() ==> w.lanes[c].ready.len()
                == v.lanes[c].ready.len() && w.lanes[c].ready[k] == (QueueEntry {
                id: v.lanes[c].ready[k].id,
                demand: if v.lanes[c].ready[k].id == r.id {
                    Some(selection)
                } else {
                    v.lanes[c].ready[k].demand
                },
            })
            &&& 0 <= k < v.lanes[c].deferred.len() ==> w.lanes[c].deferred.len()
                == v.lanes[c].deferred.len() && w.lanes[c].deferred[k] == (QueueEntry {
                id: v.lanes[c].deferred[k].id,
                demand: if v.lanes[c].deferred[k].id == r.id {
                    Some(selection)
                } else {
                    v.lanes[c].deferred[k].demand
                },
            })
            &&& w.lanes[c].runnable == v.lanes[c].runnable && w.lanes[c].handed_off
                == v.lanes[c].handed_off
        }),
{
    let r = v.records[i];
    let c = r.class.slot();
    assert(record_at(v.records, i, r.id));
    found(v.records, i, r.id);
    assert(v.lane_ok(c));
    let lane = v.lanes[c];
    if holds(lane.ready, r.id) {
        let p = position(lane.ready, r.id);
        assert(0 <= p < lane.ready.len() && lane.ready[p].id == r.id);
        if 0 <= k < lane.ready.len() && lane.ready[k].id == r.id {
            position_is(lane.ready, k);
        }
    }
    if holds(lane.deferred, r.id) {
        let p = position(lane.deferred, r.id);
        assert(0 <= p < lane.deferred.len() && lane.deferred[p].id == r.id);
        if 0 <= k < lane.deferred.len() && lane.deferred[k].id == r.id {
            position_is(lane.deferred, k);
        }
    }
}

/// The snapshot of all routes counts what each counts.
pub proof fn routes_add_up(snapshots: Seq<SWOwnerProgress>)
    requires
        owner_sum_fits(snapshots),
    ensures
        ({
            let sum = owner_sum(snapshots);
            &&& sum.routes == total(snapshots, |p: SWOwnerProgress| p.routes as int)
            &&& sum.waiting == total(snapshots, |p: SWOwnerProgress| p.waiting as int)
            &&& sum.ready == total(snapshots, |p: SWOwnerProgress| p.ready as int)
            &&& sum.claimed == total(snapshots, |p: SWOwnerProgress| p.claimed as int)
            &&& sum.cleanup == total(snapshots, |p: SWOwnerProgress| p.cleanup as int)
        }),
    decreases snapshots.len(),
{
    if snapshots.len() > 0 {
        let n = snapshots.len() - 1;
        let rest = snapshots.drop_last();
        assert(snapshots.take(n as int) =~= rest);
        assert(owner_sum(snapshots.take(n as int)).can_add(snapshots[n as int]));
        assert forall|k: int| 0 <= k < rest.len() implies owner_sum(
            #[trigger] rest.take(k),
        ).can_add(rest[k]) by {
            assert(rest.take(k) =~= snapshots.take(k));
            assert(owner_sum(snapshots.take(k)).can_add(snapshots[k]));
        }
        routes_add_up(rest);
    }
}

/// A work set counts as open until it is sealed.
pub proof fn unsealed_sets_are_open(sets: Seq<SWWorkSetProgress>)
    ensures
        total(sets, open_sets()) == sets.filter(|set: SWWorkSetProgress| !set.sealed).len(),
        (forall|i: int| 0 <= i < sets.len() ==> (#[trigger] sets[i]).drained)
            <==> all_drained(sets),
{
    total_is_filtered(sets, open_sets(), |set: SWWorkSetProgress| !set.sealed);
}

/// What a refusal of a job leaves behind: nothing where the runtime does not
/// admit it, two notifications once it was let in, and those of the draw that it
/// undoes.
pub proof fn refused_jobs_only_notify(v: RuntimeView, request: SubmitRequest, lease: WorkLease)
    requires
        v.control.wake < u64::MAX - 2,
        v.capacity matches Some(books) ==> books.wake < u64::MAX - 5,
    ensures
        ({
            let w = v.after_refused_submit(request, lease);
            let leased = lease == WorkLease::Unset || lease == WorkLease::Granted;
            let admits = v.control.phase == SWRuntimeState::Running || v.control.phase
                == SWRuntimeState::Closing && (lease == WorkLease::Granted || request.context is Some
                && request.context->0.runtime == v.control.id);
            let inside = v.owned is Some && leased && admits;
            let draw = draw_error(v.capacity, v.control.id, None, plain_need(request).cost);
            &&& !inside ==> w == v
            &&& inside ==> w.control.wake == v.control.wake + 2
            &&& inside && draw is Some ==> w.capacity == v.capacity && w.owned == v.owned
            &&& inside && draw is None && v.capacity is Some ==> {
                &&& w.capacity is Some && w.capacity->0.usage == v.capacity->0.usage
                &&& w.capacity->0.wake == v.capacity->0.wake + 3 || w.capacity->0.wake
                    == v.capacity->0.wake + 4
                &&& !(request.delivery is Some && !request.delivery->0.accounted)
                    ==> w.capacity->0.wake == v.capacity->0.wake + 3
            }
            &&& w.charges == v.charges
        }),
{
}

/// A stage or a provider-owned result that is refused leaves as little behind.
/// A stage draws before the runtime lets it in, a result after that.
pub proof fn refused_stages_only_notify(
    v: RuntimeView,
    request: SubmitRequest,
    external: ExternalRequest,
    lease: WorkLease,
    reservation: Option<&SWReservation>,
    need: Need,
)
    requires
        v.control.wake < u64::MAX - 2,
        v.capacity matches Some(books) ==> books.wake < u64::MAX - 5,
    ensures
        ({
            let w = v.after_refused_stage(request, lease, reservation, need);
            let leased = lease == WorkLease::Unset || lease == WorkLease::Granted;
            let admits = v.control.phase == SWRuntimeState::Running || v.control.phase
                == SWRuntimeState::Closing && (lease == WorkLease::Granted || request.context is Some
                && request.context->0.runtime == v.control.id);
            let draw = draw_error(v.capacity, v.control.id, reservation, need.cost);
            let drawn = v.owned is Some && leased && need.retained_bytes <= need.cost.bytes && draw
                is None;
            &&& !drawn ==> w == v
            &&& drawn && admits ==> w.control.wake == v.control.wake + 2
            &&& drawn && !admits ==> w.control.wake == v.control.wake && w.owned == v.owned
            &&& drawn && v.capacity is Some ==> w.capacity is Some && w.capacity->0.usage
                == v.capacity->0.usage && w.capacity->0.wake > v.capacity->0.wake
            &&& w.charges == v.charges
        }),
        ({
            let w = v.after_refused_external(external, lease, reservation);
            let admits = v.control.phase == SWRuntimeState::Running || v.control.phase
                == SWRuntimeState::Closing && (lease == WorkLease::Granted || external.context
                is Some && external.context->0.runtime == v.control.id);
            let inside = v.owned is Some && admits;
            &&& !inside ==> w == v
            &&& inside ==> w.control.wake == v.control.wake + 2 && w.owned == v.owned
            &&& w.charges == v.charges
        }),
{
}

/// A record that ends gives its charge back, and no other.
pub proof fn ended_work_is_uncharged(before: RuntimeView, after: RuntimeView, k: int)
    requires
        before.wf(),
        0 <= k < before.charges.len(),
        uncharged(before, after, before.charges[k].id),
    ensures
        before.capacity is Some,
        after.charges == before.charges.remove(k),
        after.capacity == Some(
            before.capacity->0.without_bank(before.charges[k].reservation.bank_slot()),
        ),
{
    let id = before.charges[k].id;
    assert(charge_at(before.charges, k, id));
    let j = charge_slot(before.charges, id);
    assert(charge_at(before.charges, j, id));
    if j != k {
        assert(before.charges[j].id != before.charges[k].id);
    }
}

/// Changes of demand are applied one after the other, each to the job that it
/// names; one that names no resource work of this runtime changes nothing.
pub proof fn demand_changes_follow_each_other(
    v: RuntimeView,
    changes: Seq<DemandChange>,
    change: DemandChange,
)
    ensures
        v.all_redemanded(changes.push(change)) == v.all_redemanded(changes).with_demand(change),
        v.all_redemanded(Seq::<DemandChange>::empty()) == v,
        v.owned is None || !v.owned->0.has(change.id) || v.owned->0.get(change.id).demand is None
            ==> v.with_demand(change) == v,
        v.owned matches Some(owned) ==> (owned.has(change.id) && owned.get(change.id).demand is Some
            ==> v.with_demand(change).owned == Some(
            owned.redemanded(change.id, change.selection),
        )),
        v.with_demand(change).control == v.control && v.with_demand(change).charges == v.charges
            && v.with_demand(change).capacity == v.capacity,
{
    assert(changes.push(change).drop_last() =~= changes);
}

/// A pipeline that a runtime reserves is charged in its books, and a refused one
/// changes nothing.
pub proof fn reserved_pipelines_are_kept(
    before: RuntimeView,
    after: RuntimeView,
    cost: SWCost,
    kind: Kind,
    result: Result<SWReservation, SWReservationError>,
)
    requires
        pipeline_reserved(before, after, cost, kind, result),
    ensures
        result is Ok <==> before.control.phase == SWRuntimeState::Running && before.capacity is Some
            && claim_error(
            before.capacity->0.limits,
            before.capacity->0.usage,
            cost,
            kind,
            true,
        ) is None,
        result is Err ==> after == before,
        after.control == before.control && after.owned == before.owned && after.charges
            == before.charges,
        result matches Ok(window) ==> after.capacity is Some && reserved(
            before.capacity->0,
            after.capacity->0,
            cost,
            kind,
            result,
        ),
{
}

} // verus!
