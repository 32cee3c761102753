//! Which jobs are admitted, handed out and claimed, and in which order.
use crate::admission::DeliveryClaim;
use crate::admission::SWCallerEligibility;
use crate::admission::SWSpawnError;
use crate::admission::TicketCommitError;
use crate::config::SWExecutionClass;
use crate::group::GroupInner;
use crate::guarantees::promoted_get;
use crate::guarantees::same_place;
use crate::jobs::at;
use crate::jobs::edges_of;
use crate::jobs::external_at;
use crate::jobs::ExternalRecord;
use crate::jobs::found;
use crate::jobs::group_at;
use crate::jobs::group_found;
use crate::jobs::group_present;
use crate::jobs::group_slot;
use crate::jobs::listed;
use crate::jobs::member_of;
use crate::jobs::promoted_wf;
use crate::jobs::Record;
use crate::jobs::record_at;
use crate::jobs::SchedulerView;
use crate::jobs::Stage;
use crate::jobs::wakes;
use crate::progress::SWSchedulerProgress;
use crate::queue::holds;
use crate::queue::leading_at;
use crate::queue::ordinary_at;
use crate::queue::pick;
use crate::queue::pick_valid;
use crate::queue::picks;
use crate::queue::QueueEntry;
use crate::queue::refill_conserves;
use crate::queue::refill_is_urgent;
use crate::queue::Selection;
use crate::queue::SWPriority;
use crate::steps::dispatched_wf;
use crate::steps::external_found;
use crate::steps::in_stage;
use crate::steps::oldest_helpable;
use crate::steps::queue_stage;
use crate::steps::runnable_bounded;
use crate::steps::SubmitRequest;
use crate::steps::unclaimed_ids;
use crate::steps::unsettled_ids;
use crate::sums::total;
use crate::sums::total_at_most;
use crate::sums::total_bounds;
use crate::sums::total_is_filtered;
use crate::task::SWTaskStatus;
use vstd::prelude::*;

verus! {

/// The first of these two demands on a resource goes first: an active one before
/// one that is not, then the lower rank, then the lower tie.
pub open spec fn goes_first(a: Selection, b: Selection) -> bool {
    ||| a.active && !b.active
    ||| a.active == b.active && a.priority.rank < b.priority.rank
    ||| a.active == b.active && a.priority.rank == b.priority.rank && a.tie < b.tie
}

/// Urgency orders demands: one of two different ones goes first, and whatever is
/// behind one is behind those before it.
pub proof fn urgency_orders_demands(a: Selection, b: Selection, c: Selection)
    ensures
        a.precedes(b) <==> goes_first(a, b),
        !(a.precedes(b) && b.precedes(a)),
        a.precedes(b) && b.precedes(c) ==> a.precedes(c),
        !a.precedes(b) && !b.precedes(a) <==> a.active == b.active && a.priority.rank
            == b.priority.rank && a.tie == b.tie,
        a.active && !b.active ==> a.precedes(b),
        a.active == b.active && a.priority.rank < b.priority.rank ==> a.precedes(b),
{
}

/// What leaves a queue next: an ordinary entry only if no ordinary entry is
/// ahead of it, a resource entry only if none is more urgent and none as urgent
/// is ahead of it. Of the two candidates the older job leaves.
pub proof fn the_queue_serves_both_kinds(q: Seq<QueueEntry>, j: int)
    requires
        0 <= j < q.len(),
    ensures
        ({
            let p = pick(q);
            let e = q[p];
            let x = q[j];
            &&& 0 <= p < q.len()
            &&& e.demand is None && x.demand is None ==> p <= j
            &&& e.demand is Some && x.demand is Some ==> !goes_first(x.demand->0, e.demand->0)
            &&& e.demand is Some && x.demand is Some && j < p ==> goes_first(
                e.demand->0,
                x.demand->0,
            )
            &&& e.demand is Some && x.demand is None && (forall|k: int|
                0 <= k < j ==> (#[trigger] q[k]).demand is Some) ==> e.id <= x.id
            &&& e.demand is None && x.demand is Some && (forall|k: int|
                0 <= k < q.len() && (#[trigger] q[k]).demand is Some ==> !goes_first(
                    q[k].demand->0,
                    x.demand->0,
                ) && (k < j ==> goes_first(x.demand->0, q[k].demand->0))) ==> e.id < x.id
        }),
{
    pick_valid(q);
    let p = pick(q);
    assert(picks(q, p));
    if q[j].demand is None && (forall|k: int| 0 <= k < j ==> (#[trigger] q[k]).demand is Some) {
        assert(ordinary_at(q, j));
    }
    if q[j].demand is Some && (forall|k: int|
        0 <= k < q.len() && (#[trigger] q[k]).demand is Some ==> !goes_first(
            q[k].demand->0,
            q[j].demand->0,
        ) && (k < j ==> goes_first(q[j].demand->0, q[k].demand->0))) {
        assert(leading_at(q, j));
    }
}

/// A job is admitted exactly where nothing stands against it, and otherwise
/// refused for the first reason that does: the runtime is shut down; its band is
/// not configured; it has more prerequisites than could ever be recorded; no
/// record or edge is free; its wave is not open here; its caller would have to
/// run it inside other work; the window is full and it may neither wait nor run
/// on its caller; its promised delivery does not stand.
pub proof fn jobs_are_admitted_by_room(v: SchedulerView, request: SubmitRequest)
    requires
        v.wf(),
    ensures
        ({
            let c = request.class.slot();
            let named = request.demand is None || exists|b: int|
                0 <= b < v.bands.len() && #[trigger] v.bands[b] == request.demand->0.priority;
            let small = request.prerequisites <= v.limits.edges;
            let free = v.records.len() + v.external.len() < v.limits.records && v.edges
                + request.prerequisites <= v.limits.edges;
            let open = request.group is None || (request.group->0.runtime == request.runtime
                && request.group->0.class == request.class && exists|g: int|
                0 <= g < v.groups.len() && (#[trigger] v.groups[g]).id == request.group->0.id
                    && !v.groups[g].sealed && v.groups[g].class == request.class);
            let full = request.prerequisites == 0 && v.lanes[c].runnable
                >= v.limits.runnable@[c];
            let helped = request.allow_inline && request.options.eligibility
                == SWCallerEligibility::CallerEligible;
            let alien = request.context is Some && !(request.context->0.runtime == request.runtime
                && request.context->0.class == request.class);
            let promised = request.delivery is None || (request.delivery->0.runtime
                == request.runtime && request.delivery->0.refusal is None);
            let error = v.submit_error(request);
            &&& error is None <==> !v.abandoned && named && small && free && open && !(full
                && helped && alien) && (full && !helped ==> request.reserved) && promised
            &&& v.abandoned ==> error == Some(SWSpawnError::Closed)
            &&& error == Some(SWSpawnError::InvalidPriority) <==> !v.abandoned && !named
            &&& error == Some(SWSpawnError::TooLarge) <==> !v.abandoned && named && !small
            &&& error == Some(SWSpawnError::Full) <==> !v.abandoned && named && small && (!free
                || open && full && !helped && !request.reserved)
            &&& error == Some(SWSpawnError::InvalidGroup) <==> !v.abandoned && named && small
                && free && !open
            &&& error == Some(SWSpawnError::InvalidContext) <==> !v.abandoned && named && small
                && free && open && full && helped && alien
            &&& error == Some(SWSpawnError::InvalidDelivery) <==> !v.abandoned && named && small
                && free && open && !(full && helped && alien) && (full && !helped
                ==> request.reserved) && request.delivery is Some && (
            request.delivery->0.runtime != request.runtime || request.delivery->0.refusal == Some(
                TicketCommitError::AlreadyCommitted,
            ))
        }),
{
    if let Some(key) = request.group {
        if group_present(v.groups, key.id) {
            let s = group_slot(v.groups, key.id);
            assert(group_at(v.groups, s, key.id));
            assert(v.groups[s].id == key.id);
        }
        assert forall|g: int|
            0 <= g < v.groups.len() && (#[trigger] v.groups[g]).id == key.id implies group_present(
            v.groups,
            key.id,
        ) && group_slot(v.groups, key.id) == g by {
            assert(group_at(v.groups, g, key.id));
            group_found(v.groups, g, key.id);
        }
    }
    if let Some(demand) = request.demand {
        if v.bands.contains(demand.priority) {
            let b = choose|b: int| 0 <= b < v.bands.len() && v.bands[b] == demand.priority;
            assert(v.bands[b] == demand.priority);
        }
    }
}

/// A job runs on its caller exactly if the window is full, it waits for nothing,
/// and both the call and the job allow it.
pub proof fn callers_run_what_does_not_fit(v: SchedulerView, request: SubmitRequest)
    ensures
        v.inline(request) <==> {
            &&& request.prerequisites == 0
            &&& v.lanes[request.class.slot()].runnable
                >= v.limits.runnable@[request.class.slot()]
            &&& request.allow_inline
            &&& request.options.eligibility == SWCallerEligibility::CallerEligible
        },
{
}

/// What admission records of a job: its own identity, class, wave, policy and
/// urgency, all its prerequisites pending and none failed. Room in the window is
/// taken by what is ready. All other jobs stay as they were.
pub proof fn admission_records_the_job(v: SchedulerView, request: SubmitRequest)
    requires
        v.wf(),
        v.submit_error(request) is None,
        v.next_id < u64::MAX,
    ensures
        ({
            let w = v.submitted(request);
            let n = v.records.len() as int;
            let r = w.records[n];
            let c = request.class.slot();
            let full = v.lanes[c].runnable >= v.limits.runnable@[c];
            let entry = QueueEntry { id: v.next_id as u64, demand: request.demand };
            &&& w.records.len() == n + 1
            &&& forall|i: int| 0 <= i < n ==> (#[trigger] w.records[i]) == v.records[i]
            &&& r.id == v.next_id && w.next_id == v.next_id + 1
            &&& r.class == request.class && r.policy == request.policy
            &&& r.demand == request.demand && r.eligibility == request.options.eligibility
            &&& r.group is Some <==> request.group is Some
            &&& r.group is Some ==> r.group->0 == request.group->0.id
            &&& r.pending == request.prerequisites && r.edges == request.prerequisites
            &&& !r.failed && r.parked is None && r.outcome is None
            &&& r.attaching <==> request.prerequisites > 0
            &&& w.edges == v.edges + request.prerequisites
            &&& r.stage == Stage::Waiting <==> request.prerequisites > 0
            &&& r.stage == Stage::Ready <==> request.prerequisites == 0 && (!full
                || v.inline(request))
            &&& r.stage == Stage::Ready ==> w.lanes[c].ready == v.lanes[c].ready.push(entry)
                && w.lanes[c].runnable == v.lanes[c].runnable + 1 && w.lanes[c].deferred
                == v.lanes[c].deferred
            &&& r.stage == Stage::DeferredReady ==> w.lanes[c].deferred
                == v.lanes[c].deferred.push(entry) && w.lanes[c].ready == v.lanes[c].ready
                && w.lanes[c].runnable == v.lanes[c].runnable
            &&& r.stage == Stage::Waiting ==> w.lanes[c] == v.lanes[c]
            &&& r.stage == Stage::Waiting || r.stage == Stage::Ready || r.stage
                == Stage::DeferredReady
            &&& w.external == v.external && w.abandoned == v.abandoned
        }),
{
    assert(v.lanes.len() == 3);
}

/// Which jobs can be claimed, and which suppressed: a ready or handed-out one is
/// claimed by a worker, and by a caller if it allows that; any job that was
/// neither claimed nor suppressed can be suppressed, for the reason given unless
/// everything was abandoned.
pub proof fn claims_and_suppressions_by_stage(
    v: SchedulerView,
    i: int,
    caller: bool,
    status: SWTaskStatus,
)
    requires
        v.wf(),
        0 <= i < v.records.len(),
    ensures
        ({
            let r = v.records[i];
            let s = v.suppression(r.id, status);
            &&& v.claimable(r.id, caller) <==> !v.abandoned && (r.stage == Stage::Ready || r.stage
                == Stage::Handed) && (caller ==> r.eligibility
                == SWCallerEligibility::CallerEligible)
            &&& s is Some <==> r.stage != Stage::Running && r.stage != Stage::Finalizing
            &&& s is Some && !v.abandoned ==> s == Some(status)
            &&& s is Some && v.abandoned ==> s == Some(SWTaskStatus::Abandoned)
        }),
{
    let r = v.records[i];
    assert(record_at(v.records, i, r.id));
    found(v.records, i, r.id);
}

/// What a claim or a suppression changes: the job itself runs, or is to be
/// cleaned up. Another job is at most moved between the ready and the deferred
/// ones; in everything else it stays as it was.
pub proof fn claims_take_one_job(v: SchedulerView, i: int, j: int, run: bool)
    requires
        v.wf(),
        0 <= i < v.records.len(),
        0 <= j < v.records.len(),
        run ==> v.claimable(v.records[i].id, false),
        !run ==> v.suppression(v.records[i].id, SWTaskStatus::Cancelled) is Some,
    ensures
        ({
            let id = v.records[i].id;
            let w = if run {
                v.claimed(id)
            } else {
                v.suppressed(id)
            };
            &&& w.records.len() == v.records.len()
            &&& w.records[i] == (Record {
                stage: if run {
                    Stage::Running
                } else {
                    Stage::Finalizing
                },
                ..v.records[i]
            })
            &&& j != i ==> w.records[j] == (Record { stage: w.records[j].stage, ..v.records[j] })
            &&& j != i && v.records[j].stage != Stage::Ready && v.records[j].stage
                != Stage::DeferredReady ==> w.records[j] == v.records[j]
            &&& j != i && (v.records[j].stage == Stage::Ready || v.records[j].stage
                == Stage::DeferredReady) ==> w.records[j].stage == Stage::Ready
                || w.records[j].stage == Stage::DeferredReady
            &&& w.external == v.external && w.edges == v.edges && w.next_id == v.next_id
        }),
{
    let id = v.records[i].id;
    assert(record_at(v.records, i, id));
    found(v.records, i, id);
}

/// When a job is handed to the backend: the class has work that may run, and
/// fewer are handed out than allowed. Room that handed-out jobs leave in the
/// window is filled with deferred ones first.
pub proof fn ready_jobs_are_handed_out(v: SchedulerView, class: SWExecutionClass)
    requires
        v.wf(),
    ensures
        ({
            let c = class.slot();
            let lane = v.lanes[c];
            let started = lane.runnable - lane.ready.len();
            let work = if lane.deferred.len() == 0 {
                lane.ready.len() > 0
            } else {
                started < v.limits.runnable@[c]
            };
            v.handoff(c) is Some <==> !v.abandoned && lane.handed_off < v.limits.handoff@[c]
                && work
        }),
{
    let c = class.slot();
    let lane = v.lanes[c];
    let limit = v.limits.runnable@[c] as int;
    assert(v.lane_ok(c));
    refill_conserves(lane, limit);
    let next = lane.refilled(limit);
    if lane.deferred.len() > 0 && lane.runnable - lane.ready.len() >= limit {
        assert(next == lane.merged());
    }
}

/// Which job is handed out, and what that changes: it is one of the class that
/// was ready or deferred, it is handed out now, and one more is. If it is
/// resource work then no resource work of the class that is not handed out is
/// more urgent.
pub proof fn urgent_jobs_are_handed_out_first(
    v: SchedulerView,
    class: SWExecutionClass,
    e: QueueEntry,
)
    requires
        v.wf(),
        v.handoff(class.slot()) is Some,
        v.lanes[class.slot()].ready.contains(e) || v.lanes[class.slot()].deferred.contains(e),
    ensures
        ({
            let c = class.slot();
            let id = v.handoff(c)->0;
            let w = v.dispatched(c);
            &&& v.has(id) && v.get(id).class == class
            &&& v.get(id).stage == Stage::Ready || v.get(id).stage == Stage::DeferredReady
            &&& w.has(id) && w.get(id) == (Record { stage: Stage::Handed, ..v.get(id) })
            &&& w.lanes[c].handed_off == v.lanes[c].handed_off + 1
            &&& w.lanes[c].ready.len() + w.lanes[c].deferred.len() + 1 == v.lanes[c].ready.len()
                + v.lanes[c].deferred.len()
            &&& v.get(id).demand is Some && e.demand is Some ==> !goes_first(
                e.demand->0,
                v.get(id).demand->0,
            )
        }),
{
    let c = class.slot();
    let lane = v.lanes[c];
    let limit = v.limits.runnable@[c] as int;
    let p = v.promoted(c);
    let next = p.lanes[c];
    let id = v.handoff(c)->0;
    let k = pick(next.ready);
    assert(v.lane_ok(c));
    refill_conserves(lane, limit);
    promoted_wf(v, c);
    dispatched_wf(v, c);
    promoted_get(v, c, id);
    pick_valid(next.ready);
    assert(p.lane_ok(c));
    assert(listed(p.records, next.ready[k], c, Stage::Ready));
    let i = at(p.records, id);
    assert(record_at(p.records, i, id));
    same_place(p, v.dispatched(c), id);
    same_place(v, p, id);
    assert(lane.lists(e));
    assert(next.lists(e));
    if v.get(id).demand is Some && e.demand is Some {
        assert(leading_at(next.ready, k));
        if next.ready.contains(e) {
            let x = choose|x: int| 0 <= x < next.ready.len() && next.ready[x] == e;
            assert(next.ready[x].demand is Some);
        } else {
            let x = choose|x: int| 0 <= x < next.deferred.len() && next.deferred[x] == e;
            if lane.deferred.len() > 0 {
                refill_is_urgent(lane, limit);
                assert(next.ready[k].demand is Some && next.deferred[x].demand is Some);
            } else {
                assert(next == lane);
            }
        }
    }
}

/// A caller that helps a wave is given its oldest member that may run and that
/// callers may execute.
pub proof fn helpers_take_the_oldest(v: SchedulerView, group: u64, i: int)
    requires
        v.wf(),
        0 <= i < v.records.len(),
    ensures
        oldest_helpable(v.records, group, v.records[i].id) <==> {
            &&& v.records[i].group == Some(group)
            &&& v.records[i].stage == Stage::Ready || v.records[i].stage == Stage::Handed
            &&& v.records[i].eligibility == SWCallerEligibility::CallerEligible
            &&& forall|j: int|
                0 <= j < i ==> !((#[trigger] v.records[j]).group == Some(group) && (
                v.records[j].stage == Stage::Ready || v.records[j].stage == Stage::Handed)
                    && v.records[j].eligibility == SWCallerEligibility::CallerEligible)
        },
{
    let id = v.records[i].id;
    assert(record_at(v.records, i, id));
    found(v.records, i, id);
    assert forall|j: int| 0 <= j < i implies (#[trigger] v.records[j]).id < id by {}
    assert forall|j: int| i < j < v.records.len() implies id < (#[trigger] v.records[j]).id by {}
}

/// After abandonment nothing waits: every job that was neither running nor to be
/// cleaned up is to be cleaned up, the others stay, the queues are empty, and
/// every provider-owned result is settling.
pub proof fn abandonment_gives_everything_up(v: SchedulerView)
    requires
        v.wf(),
    ensures
        ({
            let w = v.abandoned_all().external_abandoned();
            &&& w.abandoned && w.records.len() == v.records.len()
            &&& forall|i: int|
                0 <= i < v.records.len() ==> (#[trigger] w.records[i]) == (Record {
                    stage: if v.records[i].stage == Stage::Running {
                        Stage::Running
                    } else {
                        Stage::Finalizing
                    },
                    ..v.records[i]
                })
            &&& w.external.len() == v.external.len()
            &&& forall|i: int|
                0 <= i < v.external.len() ==> (#[trigger] w.external[i]).id == v.external[i].id
                    && w.external[i].settling
            &&& w.lanes.len() == 3
            &&& forall|c: int|
                0 <= c < 3 ==> (#[trigger] w.lanes[c]).ready.len() == 0
                    && w.lanes[c].deferred.len() == 0 && w.lanes[c].runnable == 0
                    && w.lanes[c].handed_off == v.lanes[c].handed_off
            &&& w.groups == v.groups && w.edges == v.edges && w.next_id == v.next_id
        }),
        unclaimed_ids(v.records) == v.records.filter(
            |r: Record| r.stage != Stage::Running && r.stage != Stage::Finalizing,
        ).map_values(|r: Record| r.id),
        unsettled_ids(v.external) == v.external.filter(
            |e: ExternalRecord| !e.settling,
        ).map_values(|e: ExternalRecord| e.id),
{
    unclaimed_listed(v.records);
    unsettled_listed(v.external);
}

proof fn unclaimed_listed(records: Seq<Record>)
    ensures
        unclaimed_ids(records) == records.filter(
            |r: Record| r.stage != Stage::Running && r.stage != Stage::Finalizing,
        ).map_values(|r: Record| r.id),
    decreases records.len(),
{
    reveal(Seq::filter);
    let p = |r: Record| r.stage != Stage::Running && r.stage != Stage::Finalizing;
    let f = |r: Record| r.id;
    if records.len() > 0 {
        unclaimed_listed(records.drop_last());
        let rest = records.drop_last().filter(p);
        assert(rest.push(records.last()).map_values(f) =~= rest.map_values(f).push(
            records.last().id,
        ));
    }
    assert(unclaimed_ids(records) =~= records.filter(p).map_values(f));
}

proof fn unsettled_listed(external: Seq<ExternalRecord>)
    ensures
        unsettled_ids(external) == external.filter(
            |e: ExternalRecord| !e.settling,
        ).map_values(|e: ExternalRecord| e.id),
    decreases external.len(),
{
    reveal(Seq::filter);
    let p = |e: ExternalRecord| !e.settling;
    let f = |e: ExternalRecord| e.id;
    if external.len() > 0 {
        unsettled_listed(external.drop_last());
        let rest = external.drop_last().filter(p);
        assert(rest.push(external.last()).map_values(f) =~= rest.map_values(f).push(
            external.last().id,
        ));
    }
    assert(unsettled_ids(external) =~= external.filter(p).map_values(f));
}

/// A record that is settled for good is gone, and no other is. Its edges are
/// free, and its wave counts one member less.
pub proof fn settled_jobs_leave(v: SchedulerView, i: int)
    requires
        v.wf(),
        0 <= i < v.records.len(),
    ensures
        ({
            let r = v.records[i];
            let w = v.finalized(r.id);
            &&& v.removable(r.id) <==> r.outcome is Some
            &&& w.records == v.records.remove(i)
            &&& w.edges + r.edges == v.edges
            &&& r.group is None ==> w.groups == v.groups
            &&& w.lanes == v.lanes && w.external == v.external && w.next_id == v.next_id
        }),
{
    let r = v.records[i];
    assert(record_at(v.records, i, r.id));
    found(v.records, i, r.id);
}

/// Why a provider-owned result is refused: the runtime is shut down; its band,
/// or any band where its provider ranks it, is not configured; no record is
/// free; or its promised delivery does not stand.
pub proof fn results_are_admitted_by_room(
    v: SchedulerView,
    runtime: u64,
    priority: Option<SWPriority>,
    ranked: bool,
    delivery: Option<DeliveryClaim>,
)
    ensures
        ({
            let error = v.external_error(runtime, priority, ranked, delivery);
            let named = (priority is None || exists|b: int|
                0 <= b < v.bands.len() && #[trigger] v.bands[b] == priority->0) && (ranked
                ==> v.bands.len() > 0);
            let free = v.records.len() + v.external.len() < v.limits.records;
            let promised = delivery is None || (delivery->0.runtime == runtime
                && delivery->0.refusal is None);
            &&& error is None <==> !v.abandoned && named && free && promised
            &&& v.abandoned ==> error == Some(SWSpawnError::Closed)
            &&& error == Some(SWSpawnError::InvalidPriority) <==> !v.abandoned && !named
            &&& error == Some(SWSpawnError::Full) <==> !v.abandoned && named && !free
            &&& error == Some(SWSpawnError::InvalidDelivery) <==> !v.abandoned && named && free
                && delivery is Some && (delivery->0.runtime != runtime || delivery->0.refusal
                == Some(TicketCommitError::AlreadyCommitted))
            &&& error == Some(SWSpawnError::Closed) ==> v.abandoned || delivery is Some
                && delivery->0.refusal == Some(TicketCommitError::Closed)
        }),
{
    if let Some(band) = priority {
        if v.bands.contains(band) {
            let b = choose|b: int| 0 <= b < v.bands.len() && v.bands[b] == band;
            assert(v.bands[b] == band);
        }
    }
}

/// The settlement of a provider-owned result is claimed once: by its provider
/// until everything is abandoned, by abandonment after that. Others are not
/// touched.
pub proof fn results_are_settled_once(v: SchedulerView, i: int, abandonment: bool)
    requires
        v.wf(),
        0 <= i < v.external.len(),
    ensures
        ({
            let e = v.external[i];
            let w = v.external_claimed(e.id);
            &&& v.external_claimable(e.id, abandonment) <==> !e.settling && (v.abandoned
                ==> abandonment)
            &&& w.external == v.external.update(i, ExternalRecord { id: e.id, settling: true })
            &&& w == (SchedulerView { external: w.external, ..v })
            &&& !w.external_claimable(e.id, true) && !w.external_claimable(e.id, false)
            &&& v.without_external(e.id).external == v.external.remove(i)
            &&& v.without_external(e.id) == (SchedulerView {
                external: v.external.remove(i),
                ..v
            })
        }),
        ({
            let w = v.with_external();
            &&& w.external == v.external.push(
                ExternalRecord { id: v.next_id as u64, settling: false },
            )
            &&& w.next_id == v.next_id + 1
            &&& w == (SchedulerView { external: w.external, next_id: w.next_id, ..v })
        }),
{
    let e = v.external[i];
    assert(external_at(v.external, i, e.id));
    external_found(v, i, e.id);
    let w = v.external_claimed(e.id);
    assert(external_at(w.external, i, e.id));
    let k = w.external_slot(e.id);
    assert(external_at(w.external, k, e.id));
    assert(external_at(v.external, k, e.id));
    external_found(v, k, e.id);
}

/// A snapshot counts the jobs of every stage, and says what is full.
pub proof fn snapshots_count_every_job_once(
    v: SchedulerView,
    progress: SWSchedulerProgress,
    pending: bool,
    callbacks: usize,
)
    requires
        v.shows(progress, pending, callbacks),
    ensures
        progress.waiting == v.records.filter(|r: Record| r.stage == Stage::Waiting).len(),
        progress.deferred == v.records.filter(|r: Record| r.stage == Stage::DeferredReady).len(),
        progress.ready == v.records.filter(|r: Record| r.stage == Stage::Ready).len(),
        progress.handed == v.records.filter(|r: Record| r.stage == Stage::Handed).len(),
        progress.running == v.records.filter(|r: Record| r.stage == Stage::Running).len(),
        progress.finalizing == v.records.filter(|r: Record| r.stage == Stage::Finalizing).len(),
        progress.demand_pending == pending,
        progress.provider_callbacks == callbacks,
        progress.records_full <==> v.records.len() + v.external.len() >= v.limits.records,
        progress.edges_full <==> v.edges >= v.limits.edges,
        forall|c: int|
            0 <= c < 3 ==> {
                &&& (#[trigger] progress.runnable_full@[c]) <==> v.lanes[c].runnable
                    >= v.limits.runnable@[c]
                &&& progress.handoff_full@[c] <==> v.lanes[c].handed_off
                    >= v.limits.handoff@[c]
                &&& progress.handoff_wrappers@[c] == v.lanes[c].handed_off
            },
{
    total_is_filtered(
        v.records,
        in_stage(Stage::Waiting),
        |r: Record| r.stage == Stage::Waiting,
    );
    total_is_filtered(
        v.records,
        in_stage(Stage::DeferredReady),
        |r: Record| r.stage == Stage::DeferredReady,
    );
    total_is_filtered(v.records, in_stage(Stage::Ready), |r: Record| r.stage == Stage::Ready);
    total_is_filtered(v.records, in_stage(Stage::Handed), |r: Record| r.stage == Stage::Handed);
    total_is_filtered(v.records, in_stage(Stage::Running), |r: Record| r.stage == Stage::Running);
    total_is_filtered(
        v.records,
        in_stage(Stage::Finalizing),
        |r: Record| r.stage == Stage::Finalizing,
    );
}

/// Every class has its own queues and limits: Low the first, Mid the second and
/// High the third.
pub proof fn classes_have_their_own_lane(class: SWExecutionClass)
    ensures
        class == SWExecutionClass::Low <==> class.slot() == 0,
        class == SWExecutionClass::Mid <==> class.slot() == 1,
        class == SWExecutionClass::High <==> class.slot() == 2,
        SWExecutionClass::at(class.slot()) == class,
{
}

/// A new wave is open and empty, and has one handle; a wave that nobody can
/// reach and that nothing belongs to is forgotten.
pub proof fn waves_live_while_reached(v: SchedulerView, class: SWExecutionClass, g: int)
    requires
        v.wf(),
        0 <= g < v.groups.len(),
        v.groups[g].public_handles > 0,
    ensures
        ({
            let w = v.with_new_group(class);
            let n = v.groups.len() as int;
            let x = w.groups[n];
            &&& w.groups.len() == n + 1 && forall|k: int|
                0 <= k < n ==> (#[trigger] w.groups[k]) == v.groups[k]
            &&& x.id == v.next_group && w.next_group == v.next_group + 1
            &&& x.class == class && !x.sealed && x.pending == 0 && !x.failed && x.status is None
                && x.public_handles == 1 && !x.publishing
        }),
        ({
            let x = v.groups[g];
            let w = v.group_released(g);
            &&& x.public_handles == 1 && x.pending == 0 <==> w.groups.len() < v.groups.len()
            &&& x.public_handles == 1 && x.pending == 0 ==> w.groups == v.groups.remove(g)
            &&& x.public_handles > 1 || x.pending > 0 ==> w.groups == v.groups.update(
                g,
                GroupInner { public_handles: (x.public_handles - 1) as usize, ..x },
            )
        }),
{
    let x = v.groups[g];
    let group = GroupInner { public_handles: (x.public_handles - 1) as usize, ..x };
    assert(v.groups.update(g, group).remove(g) =~= v.groups.remove(g));
}

/// A wave says how it ended exactly when it is sealed and its last member has
/// left, and not again: it succeeded unless some member did not.
pub proof fn waves_end_with_their_last_member(group: GroupInner, status: SWTaskStatus)
    requires
        group.pending > 0,
        group.pending < usize::MAX,
    ensures
        group.terminal_status() is None,
        ({
            let g = group.left(Some(status));
            &&& g.pending + 1 == group.pending
            &&& g.failed <==> group.failed || status != SWTaskStatus::Succeeded
            &&& g.sealed == group.sealed && g.status == group.status && g.publishing
                == group.publishing && g.public_handles == group.public_handles
            &&& g.terminal_status() is Some <==> group.sealed && group.pending == 1
                && !group.publishing
            &&& g.terminal_status() is Some ==> (g.terminal_status() == Some(
                SWTaskStatus::Succeeded,
            ) <==> !group.failed && status == SWTaskStatus::Succeeded)
            &&& g.terminal_status() is Some && g.terminal_status() != Some(SWTaskStatus::Succeeded)
                ==> g.terminal_status() == Some(SWTaskStatus::PrerequisiteFailed)
            &&& g.handed_out().terminal_status() is None
        }),
        ({
            let g = group.left(None);
            &&& g.pending + 1 == group.pending && g.failed == group.failed
        }),
        ({
            let g = group.joined();
            &&& g.pending == group.pending + 1 && g.failed == group.failed && g.sealed
                == group.sealed
        }),
        group.closed_membership().sealed,
        group.closed_membership().pending == group.pending,
        group.closed_membership().generation != group.generation,
{
}

/// What the end of a member does to its wave: one member less, failed if the
/// member did not succeed, and forgotten if it was the last thing that kept the
/// wave. The wave ends with it exactly if it is sealed and this was its last
/// member.
pub proof fn members_leave_their_wave(v: SchedulerView, i: int, g: int)
    requires
        v.wf(),
        0 <= i < v.records.len(),
        0 <= g < v.groups.len(),
        v.records[i].group == Some(v.groups[g].id),
        v.records[i].outcome is Some,
    ensures
        ({
            let r = v.records[i];
            let x = v.groups[g];
            let w = v.finalized(r.id);
            let ends = v.settles_group(r.id);
            let failed = x.failed || r.outcome != Some(SWTaskStatus::Succeeded);
            &&& x.pending > 0
            &&& x.pending == 1 && x.public_handles == 0 ==> w.groups == v.groups.remove(g)
            &&& !(x.pending == 1 && x.public_handles == 0) ==> {
                let y = w.groups[g];
                &&& w.groups.len() == v.groups.len()
                &&& y.id == x.id && y.pending + 1 == x.pending && y.failed == failed
                &&& y.sealed == x.sealed && y.status == x.status && y.public_handles
                    == x.public_handles && y.generation != x.generation
                &&& forall|k: int|
                    0 <= k < v.groups.len() && k != g ==> (#[trigger] w.groups[k]) == v.groups[k]
            }
            &&& ends is Some <==> x.sealed && x.pending == 1 && !x.publishing
            &&& ends matches Some(end) ==> {
                &&& end.0 == x.id
                &&& end.1 == (if failed {
                    SWTaskStatus::PrerequisiteFailed
                } else {
                    SWTaskStatus::Succeeded
                })
            }
        }),
{
    let r = v.records[i];
    let x = v.groups[g];
    assert(record_at(v.records, i, r.id));
    found(v.records, i, r.id);
    assert(group_at(v.groups, g, x.id));
    group_found(v.groups, g, x.id);
    assert(v.group_ok(g));
    let f = member_of(x.id);
    total_bounds(v.records, f);
    assert(f(v.records[i]) == 1);
    let y = v.group_after(r).handed_out();
    assert(v.groups.update(g, y).remove(g) =~= v.groups.remove(g));
}

/// Whoever helps a wave hears of it when a deferred member becomes ready.
pub proof fn helpers_hear_of_ready_members(v: SchedulerView, c: int, i: int, g: int)
    requires
        v.wf(),
        0 <= c < 3,
        0 <= i < v.records.len(),
        0 <= g < v.groups.len(),
        v.records[i].group == Some(v.groups[g].id),
        v.records[i].stage == Stage::DeferredReady,
        v.promoted(c).records[i].stage == Stage::Ready,
    ensures
        v.promoted(c).groups[g].generation != v.groups[g].generation,
{
    let r = v.records[i];
    let p = v.promoted(c);
    let lane = v.lanes[c];
    let next = p.lanes[c];
    assert(record_at(v.records, i, r.id));
    found(v.records, i, r.id);
    promoted_wf(v, c);
    runnable_bounded(p, c);
    assert(r.class.slot() == c);
    assert(v.lane_ok(c));
    queue_stage(v, i);
    assert(holds(lane.deferred, r.id));
    assert(lane.deferred.len() > 0);
    let entries = v.promotions(c);
    assert(entries =~= next.ready);
    assert(holds(next.ready, r.id));
    let k = choose|k: int| 0 <= k < next.ready.len() && (#[trigger] next.ready[k]).id == r.id;
    let f = wakes(v.records, v.groups[g].id);
    assert(f(entries[k]) == 1);
    total_bounds(entries, f);
    total_at_most(entries, f);
    let t = total(entries, f);
    assert(1 <= t <= v.records.len());
    assert(v.records.len() <= v.limits.records);
    let old = v.groups[g].generation as int;
    assert((old + t) % 0x1_0000_0000_0000_0000 != old);
}

/// A refused submission was in its wave for a moment exactly if nothing before
/// the wave stood against it, and the wave was open to it. Helpers of that wave
/// then look twice, and no other wave is touched.
pub proof fn refused_members_are_noticed(v: SchedulerView, request: SubmitRequest, g: int)
    requires
        v.wf(),
        0 <= g < v.groups.len(),
        request.group is Some,
        request.group->0.id == v.groups[g].id,
        v.groups[g].generation < u64::MAX - 1,
    ensures
        v.joins(request) <==> {
            &&& !v.abandoned
            &&& request.demand is None || exists|b: int|
                0 <= b < v.bands.len() && #[trigger] v.bands[b] == request.demand->0.priority
            &&& v.records.len() + v.external.len() < v.limits.records
            &&& v.edges + request.prerequisites <= v.limits.edges
            &&& request.group->0.runtime == request.runtime && request.group->0.class
                == request.class
            &&& v.groups[g].class == request.class && !v.groups[g].sealed
        },
        ({
            let w = v.revisited(v.groups[g].id);
            &&& w.groups == v.groups.update(
                g,
                GroupInner { generation: (v.groups[g].generation + 2) as u64, ..v.groups[g] },
            )
            &&& w.records == v.records && w.lanes == v.lanes && w.next_id == v.next_id
        }),
        v.commits(request) <==> v.submit_error(
            (SubmitRequest { delivery: None, ..request }),
        ) is None,
        v.submit_error(request) is None ==> v.joins(request) && v.commits(request),
{
    let id = v.groups[g].id;
    assert(group_at(v.groups, g, id));
    group_found(v.groups, g, id);
    if let Some(demand) = request.demand {
        if v.bands.contains(demand.priority) {
            let b = choose|b: int| 0 <= b < v.bands.len() && v.bands[b] == demand.priority;
            assert(v.bands[b] == demand.priority);
        }
    }
    assert(v.edges >= 0) by {
        let f = edges_of();
        total_bounds(v.records, f);
    }
}

} // verus!
