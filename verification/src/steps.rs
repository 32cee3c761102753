//! The transitions of accepted work, and that each keeps the state consistent.
use crate::admission::DeliveryClaim;
use crate::admission::SWCallerEligibility;
use crate::admission::SWDependencyPolicy;
use crate::admission::SWSpawnError;
use crate::admission::SWSpawnOptions;
use crate::config::SWExecutionClass;
use crate::context::Context;
use crate::context::within_lane;
use crate::group::GroupInner;
use crate::group::GroupKey;
use crate::jobs::at;
use crate::jobs::edges_of;
use crate::jobs::entry_of;
use crate::jobs::external_at;
use crate::jobs::external_present;
use crate::jobs::ExternalRecord;
use crate::jobs::found;
use crate::jobs::group_at;
use crate::jobs::group_found;
use crate::jobs::group_present;
use crate::jobs::group_slot;
use crate::jobs::listed;
use crate::jobs::member_of;
use crate::jobs::one_step;
use crate::jobs::one_step_wf;
use crate::jobs::position;
use crate::jobs::present;
use crate::jobs::promoted_wf;
use crate::jobs::Record;
use crate::jobs::record_at;
use crate::jobs::record_ok;
use crate::jobs::same_groups;
use crate::jobs::SchedulerView;
use crate::jobs::Stage;
use crate::jobs::staged_in;
use crate::jobs::unclaimed;
use crate::jobs::unqueue;
use crate::jobs::unqueued;
use crate::progress::SWSchedulerProgress;
use crate::queue::addition;
use crate::queue::distinct;
use crate::queue::holds;
use crate::queue::LaneView;
use crate::queue::pick;
use crate::queue::pick_valid;
use crate::queue::QueueEntry;
use crate::queue::removal;
use crate::queue::Selection;
use crate::queue::SWPriority;
use crate::sums::total;
use crate::sums::total_at_most;
use crate::sums::total_bounds;
use crate::sums::total_pointwise;
use crate::sums::total_push;
use crate::sums::total_remove;
use crate::sums::total_update;
use crate::sums::total_zero;
use crate::task::SWTaskStatus;
use vstd::prelude::*;

verus! {

/// What a prerequisite's report leads to.
#[derive(Clone, Copy, Debug, PartialEq, Eq, Structural)]
pub enum Activated {
    /// The record has gone or no longer waits.
    Ignored,
    /// Other prerequisites are still unresolved.
    Pending,
    /// A prerequisite failed; the job will not run.
    Suppressed,
    /// The job became ready.
    Ready,
    /// The job became ready beyond the runnable window.
    Deferred,
}

impl SchedulerView {
    /// The class position of a record.
    pub open spec fn class_of(self, id: u64) -> int {
        self.get(id).class.slot()
    }

    /// A record that has left its queue for another stage.
    pub open spec fn withdrawn(self, id: u64, stage: Stage) -> SchedulerView {
        let r = self.get(id);
        let c = r.class.slot();
        let lane = self.lanes[c];
        let freed: int = if r.stage == Stage::Ready || r.stage == Stage::Handed {
            1
        } else {
            0
        };
        self.with(at(self.records, id), Record { stage, ..r }).with_lane(
            c,
            LaneView {
                ready: unqueued(lane.ready, id),
                deferred: unqueued(lane.deferred, id),
                runnable: lane.runnable - freed,
                ..lane
            },
        )
    }

    /// A job that will not run. Where it occupied the runnable window, the
    /// window is refilled.
    pub open spec fn suppressed(self, id: u64) -> SchedulerView {
        let stage = self.get(id).stage;
        let next = self.withdrawn(id, Stage::Finalizing);
        if stage == Stage::Ready || stage == Stage::Handed {
            next.promoted(self.class_of(id))
        } else {
            next
        }
    }

    /// The status with which a job is suppressed, if it can be: a claimed job
    /// is never suppressed, and abandonment overrides the reason.
    pub open spec fn suppression(self, id: u64, status: SWTaskStatus) -> Option<SWTaskStatus> {
        if self.has(id) && unclaimed(self.get(id).stage) {
            Some(
                if self.abandoned {
                    SWTaskStatus::Abandoned
                } else {
                    status
                },
            )
        } else {
            None
        }
    }

    /// A worker, or with `caller` a participating caller, may claim this job.
    pub open spec fn claimable(self, id: u64, caller: bool) -> bool {
        &&& !self.abandoned
        &&& self.has(id)
        &&& self.get(id).stage == Stage::Ready || self.get(id).stage == Stage::Handed
        &&& caller ==> self.get(id).eligibility == SWCallerEligibility::CallerEligible
    }

    /// A job claimed for execution; the runnable window is refilled.
    pub open spec fn claimed(self, id: u64) -> SchedulerView {
        self.withdrawn(id, Stage::Running).promoted(self.class_of(id))
    }

    /// What a prerequisite's report leads to.
    pub open spec fn activation(self, id: u64, status: SWTaskStatus) -> Activated {
        let r = self.get(id);
        let c = r.class.slot();
        if !self.has(id) || r.stage != Stage::Waiting {
            Activated::Ignored
        } else if r.pending > 1 {
            Activated::Pending
        } else if (r.failed || status != SWTaskStatus::Succeeded) && r.policy
            == SWDependencyPolicy::SuccessOnly {
            Activated::Suppressed
        } else if self.lanes[c].runnable < self.limits.runnable@[c] {
            Activated::Ready
        } else {
            Activated::Deferred
        }
    }

    /// The state after a prerequisite's report.
    pub open spec fn activated(self, id: u64, status: SWTaskStatus) -> SchedulerView {
        let i = at(self.records, id);
        let c = self.class_of(id);
        let lane = self.lanes[c];
        let r = Record {
            pending: (self.get(id).pending - 1) as usize,
            failed: self.get(id).failed || status != SWTaskStatus::Succeeded,
            ..self.get(id)
        };
        match self.activation(id, status) {
            Activated::Ignored => self,
            Activated::Pending => self.with(i, r),
            Activated::Suppressed => self.with(i, Record { stage: Stage::Finalizing, ..r }),
            Activated::Ready => SchedulerView {
                groups: match r.group {
                    Some(group) => {
                        let g = group_slot(self.groups, group);
                        self.groups.update(g, self.groups[g].notified())
                    },
                    None => self.groups,
                },
                ..self.with(i, Record { stage: Stage::Ready, ..r }).with_lane(
                    c,
                    LaneView {
                        ready: lane.ready.push(entry_of(r)),
                        runnable: lane.runnable + 1,
                        ..lane
                    },
                )
            },
            Activated::Deferred => self.with(
                i,
                Record { stage: Stage::DeferredReady, ..r },
            ).with_lane(c, LaneView { deferred: lane.deferred.push(entry_of(r)), ..lane }),
        }
    }

    /// A record with other bookkeeping, in the same place of every queue.
    pub open spec fn noted(self, id: u64, r: Record) -> SchedulerView {
        self.with(at(self.records, id), r)
    }

    /// The next job of a class that may be handed to the backend: none while
    /// the handoff allowance is used up or nothing is ready.
    pub open spec fn handoff(self, c: int) -> Option<u64> {
        let lane = self.promoted(c).lanes[c];
        if self.abandoned || lane.handed_off >= self.limits.handoff@[c] || lane.ready.len() == 0 {
            None
        } else {
            Some(lane.ready[pick(lane.ready)].id)
        }
    }

    /// The state after one look for work to hand out.
    pub open spec fn dispatched(self, c: int) -> SchedulerView {
        let next = self.promoted(c);
        let lane = next.lanes[c];
        if self.abandoned {
            self
        } else {
            match self.handoff(c) {
                None => next,
                Some(id) => next.with(
                    at(next.records, id),
                    Record { stage: Stage::Handed, ..next.get(id) },
                ).with_lane(
                    c,
                    LaneView {
                        ready: lane.ready.remove(pick(lane.ready)),
                        handed_off: lane.handed_off + 1,
                        ..lane
                    },
                ),
            }
        }
    }
}

/// A record is in a queue exactly as its stage says.
pub proof fn queue_stage(v: SchedulerView, i: int)
    requires
        v.wf(),
        0 <= i < v.records.len(),
    ensures
        ({
            let r = v.records[i];
            let lane = v.lanes[r.class.slot()];
            &&& lane.unique()
            &&& holds(lane.ready, r.id) <==> r.stage == Stage::Ready
            &&& holds(lane.deferred, r.id) <==> r.stage == Stage::DeferredReady
            &&& r.stage == Stage::Ready || r.stage == Stage::Handed ==> lane.runnable > 0
            &&& lane.runnable >= lane.ready.len()
            &&& v.has(r.id)
            &&& at(v.records, r.id) == i
        }),
{
    let r = v.records[i];
    let c = r.class.slot();
    let lane = v.lanes[c];
    assert(v.lane_ok(c));
    assert(record_at(v.records, i, r.id));
    found(v.records, i, r.id);
    if holds(lane.ready, r.id) {
        let k = choose|k: int| 0 <= k < lane.ready.len() && (#[trigger] lane.ready[k]).id == r.id;
        assert(listed(v.records, lane.ready[k], c, Stage::Ready));
    }
    if holds(lane.deferred, r.id) {
        let k = choose|k: int|
            0 <= k < lane.deferred.len() && (#[trigger] lane.deferred[k]).id == r.id;
        assert(listed(v.records, lane.deferred[k], c, Stage::DeferredReady));
    }
    total_bounds(v.records, staged_in(c, Stage::Handed));
    assert(staged_in(c, Stage::Handed)(v.records[i]) <= total(
        v.records,
        staged_in(c, Stage::Handed),
    ));
}

pub proof fn withdrawn_wf(v: SchedulerView, id: u64, stage: Stage)
    requires
        v.wf(),
        v.has(id),
        unclaimed(v.get(id).stage),
        stage == Stage::Finalizing || (stage == Stage::Running && !v.abandoned && (v.get(id).stage
            == Stage::Ready || v.get(id).stage == Stage::Handed)),
    ensures
        v.withdrawn(id, stage).wf(),
{
    let i = at(v.records, id);
    assert(record_at(v.records, i, id));
    let w = v.withdrawn(id, stage);
    let r = v.records[i];
    let c = r.class.slot();
    queue_stage(v, i);
    let lane = v.lanes[c];
    let new_lane = w.lanes[c];
    assert(v.lane_ok(c));
    if holds(lane.ready, id) {
        unqueue(lane.ready, id);
    }
    if holds(lane.deferred, id) {
        unqueue(lane.deferred, id);
    }
    assert forall|k: int| 0 <= k < new_lane.ready.len() implies lane.ready.contains(
        #[trigger] new_lane.ready[k],
    ) by {}
    assert forall|k: int| 0 <= k < new_lane.deferred.len() implies lane.deferred.contains(
        #[trigger] new_lane.deferred[k],
    ) by {}
    assert forall|k: int| 0 <= k < new_lane.ready.len() implies (
    #[trigger] new_lane.ready[k]).id != id by {
        assert(holds(new_lane.ready, new_lane.ready[k].id));
    }
    assert forall|k: int| 0 <= k < new_lane.deferred.len() implies (
    #[trigger] new_lane.deferred[k]).id != id by {
        assert(holds(new_lane.deferred, new_lane.deferred[k].id));
    }
    assert(record_ok(r, v.abandoned));
    assert(one_step(v, w, i));
    one_step_wf(v, w, i);
}

pub proof fn activated_wf(v: SchedulerView, id: u64, status: SWTaskStatus)
    requires
        v.wf(),
    ensures
        v.activated(id, status).wf(),
{
    let w = v.activated(id, status);
    if v.activation(id, status) != Activated::Ignored {
        let i = at(v.records, id);
        assert(record_at(v.records, i, id));
        let r = v.records[i];
        let c = r.class.slot();
        let lane = v.lanes[c];
        let new_lane = w.lanes[c];
        queue_stage(v, i);
        assert(v.lane_ok(c));
        assert(record_ok(r, v.abandoned));
        let e = entry_of(r);
        addition(lane.ready, e);
        addition(lane.deferred, e);
        if let Some(group) = r.group {
            let g = group_slot(v.groups, group);
            assert(group_at(v.groups, g, group));
        }
        assert forall|k: int| 0 <= k < new_lane.ready.len() implies #[trigger] new_lane.ready[k]
            == e || (lane.ready.contains(new_lane.ready[k]) && new_lane.ready[k].id != id) by {
            if k < lane.ready.len() {
                assert(lane.ready[k] == new_lane.ready[k]);
                assert(holds(lane.ready, lane.ready[k].id));
            }
        }
        assert forall|k: int|
            0 <= k < new_lane.deferred.len() implies #[trigger] new_lane.deferred[k] == e || (
        lane.deferred.contains(new_lane.deferred[k]) && new_lane.deferred[k].id != id) by {
            if k < lane.deferred.len() {
                assert(lane.deferred[k] == new_lane.deferred[k]);
                assert(holds(lane.deferred, lane.deferred[k].id));
            }
        }
        assert(w.lanes =~= v.lanes.update(c, new_lane));
        assert(same_groups(v.groups, w.groups));
        assert(one_step(v, w, i));
        one_step_wf(v, w, i);
    }
}

/// Bookkeeping that leaves the record's place in every queue.
pub proof fn noted_wf(v: SchedulerView, id: u64, r: Record)
    requires
        v.wf(),
        v.has(id),
        record_ok(r, v.abandoned),
        r.id == id,
        r.class == v.get(id).class,
        r.group == v.get(id).group,
        r.edges == v.get(id).edges,
        r.demand == v.get(id).demand,
        r.stage == v.get(id).stage || (r.stage == Stage::Finalizing && v.get(id).stage
            == Stage::Running),
    ensures
        v.noted(id, r).wf(),
{
    let w = v.noted(id, r);
    let i = at(v.records, id);
    assert(record_at(v.records, i, id));
    let c = r.class.slot();
    let lane = v.lanes[c];
    queue_stage(v, i);
    assert(v.lane_ok(c));
    assert(w.lanes =~= v.lanes.update(c, lane));
    assert forall|k: int| 0 <= k < lane.ready.len() implies lane.ready.contains(
        #[trigger] lane.ready[k],
    ) && (lane.ready[k].id == id ==> lane.ready[k] == entry_of(r)) by {
        assert(listed(v.records, lane.ready[k], c, Stage::Ready));
    }
    assert forall|k: int| 0 <= k < lane.deferred.len() implies lane.deferred.contains(
        #[trigger] lane.deferred[k],
    ) && (lane.deferred[k].id == id ==> lane.deferred[k] == entry_of(r)) by {
        assert(listed(v.records, lane.deferred[k], c, Stage::DeferredReady));
    }
    assert(one_step(v, w, i));
    one_step_wf(v, w, i);
}

pub proof fn dispatched_wf(v: SchedulerView, c: int)
    requires
        v.wf(),
        0 <= c < 3,
    ensures
        v.dispatched(c).wf(),
        v.handoff(c) matches Some(id) ==> v.promoted(c).has(id) && v.promoted(c).get(id).stage
            == Stage::Ready && v.promoted(c).class_of(id) == c,
{
    promoted_wf(v, c);
    let p = v.promoted(c);
    let w = v.dispatched(c);
    let lane = p.lanes[c];
    if let Some(id) = v.handoff(c) {
        pick_valid(lane.ready);
        let k = pick(lane.ready);
        assert(p.lane_ok(c));
        assert(listed(p.records, lane.ready[k], c, Stage::Ready));
        let i = at(p.records, id);
        assert(record_at(p.records, i, id));
        queue_stage(p, i);
        removal(lane.ready, k);
        let new_lane = w.lanes[c];
        assert forall|x: int| 0 <= x < new_lane.ready.len() implies lane.ready.contains(
            #[trigger] new_lane.ready[x],
        ) && new_lane.ready[x].id != id by {
            assert(new_lane.ready[x] == lane.ready[if x < k {
                x
            } else {
                x + 1
            }]);
            assert(holds(new_lane.ready, new_lane.ready[x].id));
        }
        assert forall|x: int| 0 <= x < new_lane.deferred.len() implies lane.deferred.contains(
            #[trigger] new_lane.deferred[x],
        ) && new_lane.deferred[x].id != id by {
            assert(holds(lane.deferred, lane.deferred[x].id));
        }
        assert(record_ok(p.records[i], p.abandoned));
        assert(one_step(p, w, i));
        one_step_wf(p, w, i);
    }
}

/// What is asked of admission for one owned job.
#[derive(Clone, Copy, Debug, PartialEq, Eq, Structural)]
pub struct SubmitRequest {
    pub runtime: u64,
    pub class: SWExecutionClass,
    pub group: Option<GroupKey>,
    pub options: SWSpawnOptions,
    /// Number of prerequisites.
    pub prerequisites: usize,
    pub policy: SWDependencyPolicy,
    /// The caller may execute the job itself on runnable saturation.
    pub allow_inline: bool,
    /// What the caller currently takes part in.
    pub context: Option<Context>,
    /// Urgency, where this is resource work.
    pub demand: Option<Selection>,
    /// The job draws on a pipeline reservation and may wait beyond the window.
    pub reserved: bool,
    pub delivery: Option<DeliveryClaim>,
}

impl SchedulerView {
    /// A job without prerequisites finds the runnable window full.
    pub open spec fn saturated(self, request: SubmitRequest) -> bool {
        let c = request.class.slot();
        request.prerequisites == 0 && self.lanes[c].runnable >= self.limits.runnable@[c]
    }

    /// The caller executes the job itself.
    pub open spec fn inline(self, request: SubmitRequest) -> bool {
        &&& self.saturated(request)
        &&& request.allow_inline
        &&& request.options.eligibility == SWCallerEligibility::CallerEligible
    }

    /// The group exists here, is open, and belongs to the lane.
    pub open spec fn joinable(self, request: SubmitRequest) -> bool {
        request.group matches Some(group) ==> {
            &&& group.runtime == request.runtime
            &&& group.class == request.class
            &&& group_present(self.groups, group.id)
            &&& self.groups[group_slot(self.groups, group.id)].class == request.class
            &&& !self.groups[group_slot(self.groups, group.id)].sealed
        }
    }

    /// Why a job is refused, if it is.
    pub open spec fn submit_error(self, request: SubmitRequest) -> Option<SWSpawnError> {
        if self.abandoned {
            Some(SWSpawnError::Closed)
        } else if request.demand is Some && !self.bands.contains(request.demand->0.priority) {
            Some(SWSpawnError::InvalidPriority)
        } else if request.prerequisites > self.limits.edges {
            Some(SWSpawnError::TooLarge)
        } else if self.records.len() + self.external.len() >= self.limits.records || self.edges
            + request.prerequisites > self.limits.edges {
            Some(SWSpawnError::Full)
        } else if !self.joinable(request) {
            Some(SWSpawnError::InvalidGroup)
        } else if self.inline(request) && request.context is Some && !within_lane(
            request.context,
            request.runtime,
            request.class,
        ) {
            Some(SWSpawnError::InvalidContext)
        } else if self.saturated(request) && !self.inline(request) && !request.reserved {
            Some(SWSpawnError::Full)
        } else if request.delivery is Some {
            request.delivery->0.error(request.runtime)
        } else {
            None
        }
    }

    /// A submission gets as far as its wave, and joins it.
    pub open spec fn joins(self, request: SubmitRequest) -> bool {
        &&& request.group is Some
        &&& !self.abandoned
        &&& request.demand is Some ==> self.bands.contains(request.demand->0.priority)
        &&& request.prerequisites <= self.limits.edges
        &&& self.records.len() + self.external.len() < self.limits.records
        &&& self.edges + request.prerequisites <= self.limits.edges
        &&& self.joinable(request)
    }

    /// Everything but its promised delivery lets a job in.
    pub open spec fn commits(self, request: SubmitRequest) -> bool {
        self.submit_error(SubmitRequest { delivery: None, ..request }) is None
    }

    /// A wave that was joined and left again looks for work.
    pub open spec fn revisited(self, id: u64) -> SchedulerView {
        let g = group_slot(self.groups, id);
        self.with_group(g, self.groups[g].notified().notified())
    }

    /// Where an accepted job starts.
    pub open spec fn first_stage(self, request: SubmitRequest) -> Stage {
        if request.prerequisites > 0 {
            Stage::Waiting
        } else if self.saturated(request) && !self.inline(request) {
            Stage::DeferredReady
        } else {
            Stage::Ready
        }
    }

    /// The record of an accepted job.
    pub open spec fn new_record(self, request: SubmitRequest) -> Record {
        Record {
            id: self.next_id as u64,
            class: request.class,
            group: match request.group {
                Some(group) => Some(group.id),
                None => None,
            },
            pending: request.prerequisites,
            failed: false,
            policy: request.policy,
            stage: self.first_stage(request),
            eligibility: request.options.eligibility,
            edges: request.prerequisites,
            attaching: request.prerequisites > 0,
            parked: None,
            outcome: None,
            demand: request.demand,
        }
    }

    /// The state after a job has been accepted.
    pub open spec fn submitted(self, request: SubmitRequest) -> SchedulerView {
        let r = self.new_record(request);
        let c = request.class.slot();
        let lane = self.lanes[c];
        SchedulerView {
            records: self.records.push(r),
            next_id: self.next_id + 1,
            edges: self.edges + request.prerequisites,
            groups: match request.group {
                Some(group) => {
                    let g = group_slot(self.groups, group.id);
                    self.groups.update(g, self.groups[g].joined())
                },
                None => self.groups,
            },
            lanes: self.lanes.update(
                c,
                match r.stage {
                    Stage::Ready => LaneView {
                        ready: lane.ready.push(entry_of(r)),
                        runnable: lane.runnable + 1,
                        ..lane
                    },
                    Stage::DeferredReady => LaneView {
                        deferred: lane.deferred.push(entry_of(r)),
                        ..lane
                    },
                    _ => lane,
                },
            ),
            ..self
        }
    }

    /// The group of a record, after the record has settled.
    pub open spec fn group_after(self, r: Record) -> GroupInner {
        self.groups[group_slot(self.groups, r.group->0)].left(r.outcome)
    }

    /// Groups without one that nobody can reach any more.
    pub open spec fn swept(groups: Seq<GroupInner>, g: int) -> Seq<GroupInner> {
        if groups[g].pending == 0 && groups[g].public_handles == 0 {
            groups.remove(g)
        } else {
            groups
        }
    }

    /// A record whose publication is done.
    pub open spec fn removable(self, id: u64) -> bool {
        self.has(id) && self.get(id).outcome is Some
    }

    /// The state after a record has settled for good: its edges and its group
    /// membership end.
    pub open spec fn finalized(self, id: u64) -> SchedulerView {
        let r = self.get(id);
        SchedulerView {
            records: self.records.remove(at(self.records, id)),
            edges: self.edges - r.edges,
            groups: match r.group {
                Some(group) => {
                    let g = group_slot(self.groups, group);
                    Self::swept(self.groups.update(g, self.group_after(r).handed_out()), g)
                },
                None => self.groups,
            },
            ..self
        }
    }

    /// The group that settles with this record, and its terminal status.
    pub open spec fn settles_group(self, id: u64) -> Option<(u64, SWTaskStatus)> {
        let r = self.get(id);
        match r.group {
            Some(group) => match self.group_after(r).terminal_status() {
                Some(status) => Some((group, status)),
                None => None,
            },
            None => None,
        }
    }

    /// The state after everything unclaimed has been given up.
    pub open spec fn abandoned_all(self) -> SchedulerView {
        SchedulerView {
            records: self.records.map_values(
                |r: Record|
                    if unclaimed(r.stage) {
                        Record { stage: Stage::Finalizing, ..r }
                    } else {
                        r
                    },
            ),
            lanes: self.lanes.map_values(
                |lane: LaneView|
                    LaneView {
                        ready: Seq::empty(),
                        deferred: Seq::empty(),
                        runnable: 0,
                        ..lane
                    },
            ),
            abandoned: true,
            ..self
        }
    }
}

/// Old records keep their place when one is added.
proof fn push_keeps(records: Seq<Record>, r: Record)
    requires
        forall|i: int, j: int|
            0 <= i < j < records.len() ==> (#[trigger] records[i]).id < (#[trigger] records[j]).id,
        forall|i: int| 0 <= i < records.len() ==> (#[trigger] records[i]).id < r.id,
    ensures
        forall|id: u64| #[trigger]
            present(records, id) ==> {
                &&& present(records.push(r), id)
                &&& at(records.push(r), id) == at(records, id)
                &&& records.push(r)[at(records, id)] == records[at(records, id)]
            },
        present(records.push(r), r.id),
        at(records.push(r), r.id) == records.len(),
        !present(records, r.id),
{
    let next = records.push(r);
    assert forall|i: int, j: int| 0 <= i < j < next.len() implies (#[trigger] next[i]).id < (
    #[trigger] next[j]).id by {
        if j < records.len() {
            assert(records[i].id < records[j].id);
        } else {
            assert(records[i].id < r.id);
        }
    }
    assert forall|id: u64| #[trigger] present(records, id) implies {
        &&& present(next, id)
        &&& at(next, id) == at(records, id)
        &&& next[at(records, id)] == records[at(records, id)]
    } by {
        let i = at(records, id);
        assert(record_at(records, i, id));
        assert(record_at(next, i, id));
        found(next, i, id);
    }
    assert(record_at(next, records.len() as int, r.id));
    found(next, records.len() as int, r.id);
    if present(records, r.id) {
        let i = at(records, r.id);
        assert(record_at(records, i, r.id));
        assert(records[i].id < r.id);
    }
}

/// A record that is not there is in no queue.
pub proof fn absent_unqueued(v: SchedulerView, c: int, id: u64)
    requires
        v.queued(),
        0 <= c < 3,
        !present(v.records, id),
    ensures
        !holds(v.lanes[c].ready, id),
        !holds(v.lanes[c].deferred, id),
{
    let lane = v.lanes[c];
    assert(v.lane_ok(c));
    if holds(lane.ready, id) {
        let k = choose|k: int| 0 <= k < lane.ready.len() && (#[trigger] lane.ready[k]).id == id;
        assert(listed(v.records, lane.ready[k], c, Stage::Ready));
    }
    if holds(lane.deferred, id) {
        let k = choose|k: int|
            0 <= k < lane.deferred.len() && (#[trigger] lane.deferred[k]).id == id;
        assert(listed(v.records, lane.deferred[k], c, Stage::DeferredReady));
    }
}

/// A group has at most as many members as there are records.
pub proof fn members_bounded(v: SchedulerView, g: int)
    requires
        v.wf(),
        0 <= g < v.groups.len(),
    ensures
        v.groups[g].pending <= v.records.len(),
{
    assert(v.group_ok(g));
    total_at_most(v.records, member_of(v.groups[g].id));
}

#[verifier::rlimit(40)]
pub proof fn submitted_wf(v: SchedulerView, request: SubmitRequest)
    requires
        v.wf(),
        v.submit_error(request) is None,
        v.next_id < u64::MAX,
    ensures
        v.submitted(request).wf(),
{
    let w = v.submitted(request);
    let r = v.new_record(request);
    let c = request.class.slot();
    push_keeps(v.records, r);
    assert(w.indexed()) by {
        assert forall|x: int, y: int| 0 <= x < y < w.records.len() implies (
        #[trigger] w.records[x]).id < (#[trigger] w.records[y]).id by {
            if y < v.records.len() {
                assert(v.records[x].id < v.records[y].id);
            } else {
                assert(v.records[x].id < v.next_id);
            }
        }
        assert forall|x: int| 0 <= x < w.records.len() implies (#[trigger] w.records[x]).id
            < w.next_id by {
            if x < v.records.len() {
                assert(v.records[x].id < v.next_id);
            }
        }
        assert forall|x: int, y: int|
            0 <= x < w.records.len() && 0 <= y < w.external.len() implies (
        #[trigger] w.records[x]).id != (#[trigger] w.external[y]).id by {
            if x < v.records.len() {
                assert(v.records[x].id != v.external[y].id);
            } else {
                assert(v.external[y].id < v.next_id);
            }
        }
        assert forall|x: int, y: int| 0 <= x < y < w.groups.len() implies (
        #[trigger] w.groups[x]).id < (#[trigger] w.groups[y]).id by {
            assert(v.groups[x].id < v.groups[y].id);
        }
        assert forall|x: int| 0 <= x < w.groups.len() implies (#[trigger] w.groups[x]).id
            < w.next_group by {
            assert(v.groups[x].id < v.next_group);
        }
    }
    total_push(v.records, r, edges_of());
    assert forall|d: int| 0 <= d < 3 implies #[trigger] w.lane_ok(d) by {
        assert(v.lane_ok(d));
        total_push(v.records, r, staged_in(d, Stage::Handed));
        let lane = v.lanes[d];
        let new_lane = w.lanes[d];
        absent_unqueued(v, d, r.id);
        addition(lane.ready, entry_of(r));
        addition(lane.deferred, entry_of(r));
        assert forall|k: int| 0 <= k < new_lane.ready.len() implies listed(
            w.records,
            #[trigger] new_lane.ready[k],
            d,
            Stage::Ready,
        ) by {
            if k < lane.ready.len() {
                assert(listed(v.records, lane.ready[k], d, Stage::Ready));
                assert(at(w.records, lane.ready[k].id) == at(v.records, lane.ready[k].id));
            }
        }
        assert forall|k: int| 0 <= k < new_lane.deferred.len() implies listed(
            w.records,
            #[trigger] new_lane.deferred[k],
            d,
            Stage::DeferredReady,
        ) by {
            if k < lane.deferred.len() {
                assert(listed(v.records, lane.deferred[k], d, Stage::DeferredReady));
                assert(at(w.records, lane.deferred[k].id) == at(v.records, lane.deferred[k].id));
            }
        }
        assert forall|x: int|
            0 <= x < w.records.len() && (#[trigger] w.records[x]).class.slot() == d implies {
            &&& w.records[x].stage == Stage::Ready ==> holds(new_lane.ready, w.records[x].id)
            &&& w.records[x].stage == Stage::DeferredReady ==> holds(
                new_lane.deferred,
                w.records[x].id,
            )
        } by {
            if x < v.records.len() {
                assert(w.records[x] == v.records[x]);
            }
        }
    }
    assert forall|g: int| 0 <= g < w.groups.len() implies #[trigger] w.group_ok(g) by {
        assert(v.group_ok(g));
        members_bounded(v, g);
        total_push(v.records, r, member_of(w.groups[g].id));
        if let Some(group) = request.group {
            let slot = group_slot(v.groups, group.id);
            assert(group_at(v.groups, slot, group.id));
            if g < slot {
                assert(v.groups[g].id < v.groups[slot].id);
            } else if slot < g {
                assert(v.groups[slot].id < v.groups[g].id);
            }
        }
    }
    assert forall|x: int| 0 <= x < w.records.len() implies ((
    #[trigger] w.records[x]).group matches Some(group) ==> group_present(w.groups, group)
        && w.groups[group_slot(w.groups, group)].class == w.records[x].class) by {
        if let Some(group) = w.records[x].group {
            if x < v.records.len() {
                assert(v.records[x].group == Some(group));
            }
            let g = group_slot(v.groups, group);
            assert(group_at(v.groups, g, group));
            assert(group_at(w.groups, g, group));
            group_found(w.groups, g, group);
        }
    }
    assert forall|x: int| 0 <= x < w.records.len() implies record_ok(
        #[trigger] w.records[x],
        w.abandoned,
    ) by {
        if x < v.records.len() {
            assert(record_ok(v.records[x], v.abandoned));
        }
    }
}

/// The other records keep their contents when one leaves.
proof fn remove_keeps(records: Seq<Record>, i: int)
    requires
        forall|i: int, j: int|
            0 <= i < j < records.len() ==> (#[trigger] records[i]).id < (#[trigger] records[j]).id,
        0 <= i < records.len(),
    ensures
        forall|id: u64| #[trigger]
            present(records.remove(i), id) <==> present(records, id) && id != records[i].id,
        forall|id: u64|
            present(records.remove(i), id) ==> records.remove(i)[#[trigger] at(
                records.remove(i),
                id,
            )] == records[at(records, id)],
        forall|x: int, y: int|
            0 <= x < y < records.remove(i).len() ==> (#[trigger] records.remove(i)[x]).id < (
            #[trigger] records.remove(i)[y]).id,
{
    let next = records.remove(i);
    assert forall|x: int, y: int| 0 <= x < y < next.len() implies (#[trigger] next[x]).id < (
    #[trigger] next[y]).id by {
        let a = if x < i {
            x
        } else {
            x + 1
        };
        let b = if y < i {
            y
        } else {
            y + 1
        };
        assert(records[a].id < records[b].id);
    }
    assert forall|id: u64| #[trigger]
        present(next, id) <==> present(records, id) && id != records[i].id by {
        if present(next, id) {
            let x = at(next, id);
            assert(record_at(next, x, id));
            let a = if x < i {
                x
            } else {
                x + 1
            };
            assert(record_at(records, a, id));
            if a < i {
                assert(records[a].id < records[i].id);
            } else {
                assert(records[i].id < records[a].id);
            }
        }
        if present(records, id) && id != records[i].id {
            let a = at(records, id);
            assert(record_at(records, a, id));
            let x = if a < i {
                a
            } else {
                a - 1
            };
            assert(record_at(next, x, id));
        }
    }
    assert forall|id: u64| present(next, id) implies next[#[trigger] at(next, id)] == records[at(
        records,
        id,
    )] by {
        let x = at(next, id);
        assert(record_at(next, x, id));
        let a = if x < i {
            x
        } else {
            x + 1
        };
        assert(record_at(records, a, id));
        found(records, a, id);
    }
}

#[verifier::rlimit(60)]
pub proof fn finalized_wf(v: SchedulerView, id: u64)
    requires
        v.wf(),
        v.removable(id),
    ensures
        v.finalized(id).wf(),
        v.get(id).group matches Some(group) ==> group_present(v.groups, group)
            && v.groups[group_slot(v.groups, group)].pending > 0,
        v.edges >= v.get(id).edges,
{
    let w = v.finalized(id);
    let i = at(v.records, id);
    assert(record_at(v.records, i, id));
    let r = v.records[i];
    assert(record_ok(r, v.abandoned));
    remove_keeps(v.records, i);
    total_remove(v.records, i, edges_of());
    total_bounds(w.records, edges_of());
    if let Some(group) = r.group {
        let g = group_slot(v.groups, group);
        assert(group_at(v.groups, g, group));
        assert(v.group_ok(g));
        total_bounds(v.records, member_of(group));
        assert(member_of(group)(v.records[i]) <= total(v.records, member_of(group)));
    }
    let changed = match r.group {
        Some(group) => v.groups.update(
            group_slot(v.groups, group),
            v.group_after(r).handed_out(),
        ),
        None => v.groups,
    };
    // The groups before unreachable ones are swept.
    let m = SchedulerView { groups: changed, ..w };
    assert forall|x: int, y: int| 0 <= x < y < changed.len() implies (#[trigger] changed[x]).id < (
    #[trigger] changed[y]).id by {
        assert(v.groups[x].id < v.groups[y].id);
    }
    assert forall|g: int| 0 <= g < changed.len() implies {
        &&& (#[trigger] changed[g]).wf()
        &&& changed[g].pending == total(w.records, member_of(changed[g].id))
    } by {
        assert(v.group_ok(g));
        total_remove(v.records, i, member_of(v.groups[g].id));
        if let Some(group) = r.group {
            let slot = group_slot(v.groups, group);
            if g < slot {
                assert(v.groups[g].id < v.groups[slot].id);
            } else if slot < g {
                assert(v.groups[slot].id < v.groups[g].id);
            }
        }
    }
    assert(w.indexed()) by {
        assert forall|x: int| 0 <= x < w.records.len() implies (#[trigger] w.records[x]).id
            < w.next_id by {
            assert(w.records[x] == v.records[if x < i {
                x
            } else {
                x + 1
            }]);
        }
        assert forall|x: int, y: int|
            0 <= x < w.records.len() && 0 <= y < w.external.len() implies (
        #[trigger] w.records[x]).id != (#[trigger] w.external[y]).id by {
            let a = if x < i {
                x
            } else {
                x + 1
            };
            assert(w.records[x] == v.records[a]);
            assert(v.records[a].id != v.external[y].id);
        }
        assert forall|x: int| 0 <= x < changed.len() implies (#[trigger] changed[x]).id
            < w.next_group by {
            assert(v.groups[x].id < v.next_group);
        }
        if let Some(group) = r.group {
            let slot = group_slot(v.groups, group);
            assert forall|x: int, y: int| 0 <= x < y < w.groups.len() implies (
            #[trigger] w.groups[x]).id < (#[trigger] w.groups[y]).id by {
                if w.groups != changed {
                    let a = if x < slot {
                        x
                    } else {
                        x + 1
                    };
                    let b = if y < slot {
                        y
                    } else {
                        y + 1
                    };
                    assert(w.groups[x] == changed[a]);
                    assert(w.groups[y] == changed[b]);
                }
            }
            assert forall|x: int| 0 <= x < w.groups.len() implies (#[trigger] w.groups[x]).id
                < w.next_group by {
                if w.groups != changed {
                    assert(w.groups[x] == changed[if x < slot {
                        x
                    } else {
                        x + 1
                    }]);
                }
            }
        }
    }
    assert forall|d: int| 0 <= d < 3 implies #[trigger] w.lane_ok(d) by {
        assert(v.lane_ok(d));
        total_remove(v.records, i, staged_in(d, Stage::Handed));
        let lane = v.lanes[d];
        assert forall|k: int| 0 <= k < lane.ready.len() implies listed(
            w.records,
            #[trigger] lane.ready[k],
            d,
            Stage::Ready,
        ) by {
            let e = lane.ready[k];
            assert(listed(v.records, e, d, Stage::Ready));
            if e.id == id {
                assert(v.records[at(v.records, e.id)].stage == Stage::Ready);
            }
            assert(present(w.records, e.id));
            assert(w.records[at(w.records, e.id)] == v.records[at(v.records, e.id)]);
        }
        assert forall|k: int| 0 <= k < lane.deferred.len() implies listed(
            w.records,
            #[trigger] lane.deferred[k],
            d,
            Stage::DeferredReady,
        ) by {
            let e = lane.deferred[k];
            assert(listed(v.records, e, d, Stage::DeferredReady));
            if e.id == id {
                assert(v.records[at(v.records, e.id)].stage == Stage::DeferredReady);
            }
            assert(present(w.records, e.id));
            assert(w.records[at(w.records, e.id)] == v.records[at(v.records, e.id)]);
        }
        assert forall|x: int|
            0 <= x < w.records.len() && (#[trigger] w.records[x]).class.slot() == d implies {
            &&& w.records[x].stage == Stage::Ready ==> holds(lane.ready, w.records[x].id)
            &&& w.records[x].stage == Stage::DeferredReady ==> holds(
                lane.deferred,
                w.records[x].id,
            )
        } by {
            assert(w.records[x] == v.records[if x < i {
                x
            } else {
                x + 1
            }]);
        }
    }
    assert forall|x: int| 0 <= x < w.records.len() implies record_ok(
        #[trigger] w.records[x],
        w.abandoned,
    ) by {
        assert(w.records[x] == v.records[if x < i {
            x
        } else {
            x + 1
        }]);
    }
    assert forall|g: int| 0 <= g < w.groups.len() implies #[trigger] w.group_ok(g) by {
        if w.groups == changed {
            assert(changed[g].wf());
            assert(v.group_ok(g));
        } else {
            let slot = group_slot(v.groups, r.group->0);
            let a = if g < slot {
                g
            } else {
                g + 1
            };
            assert(w.groups[g] == changed[a]);
            assert(changed[a].wf());
            assert(v.group_ok(a));
        }
    }
    assert forall|x: int| 0 <= x < w.records.len() implies ((
    #[trigger] w.records[x]).group matches Some(group) ==> group_present(w.groups, group)
        && w.groups[group_slot(w.groups, group)].class == w.records[x].class) by {
        let a = if x < i {
            x
        } else {
            x + 1
        };
        assert(w.records[x] == v.records[a]);
        if let Some(group) = w.records[x].group {
            let g = group_slot(v.groups, group);
            assert(v.records[a].group == Some(group));
            assert(group_at(v.groups, g, group));
            if w.groups == changed {
                assert(group_at(w.groups, g, group));
                group_found(w.groups, g, group);
            } else {
                let slot = group_slot(v.groups, r.group->0);
                if g == slot {
                    total_bounds(w.records, member_of(group));
                    assert(member_of(group)(w.records[x]) <= total(w.records, member_of(group)));
                    assert(changed[slot].pending == 0);
                }
                let h = if g < slot {
                    g
                } else {
                    g - 1
                };
                assert(w.groups[h] == changed[g]);
                assert(group_at(w.groups, h, group));
                group_found(w.groups, h, group);
            }
        }
    }
}

/// A queue in which one record has another urgency.
pub open spec fn reranked(q: Seq<QueueEntry>, e: QueueEntry) -> Seq<QueueEntry> {
    if holds(q, e.id) {
        q.update(position(q, e.id), e)
    } else {
        q
    }
}

impl SchedulerView {
    /// Live resource work, whose urgency can change.
    pub open spec fn demanded(self, id: u64) -> bool {
        self.has(id) && self.get(id).demand is Some
    }

    /// The state after the urgency of a record has changed.
    pub open spec fn redemanded(self, id: u64, selection: Selection) -> SchedulerView {
        let r = Record { demand: Some(selection), ..self.get(id) };
        let c = r.class.slot();
        let lane = self.lanes[c];
        self.with(at(self.records, id), r).with_lane(
            c,
            LaneView {
                ready: reranked(lane.ready, entry_of(r)),
                deferred: reranked(lane.deferred, entry_of(r)),
                ..lane
            },
        )
    }

    /// The state with another wave.
    pub open spec fn with_new_group(self, class: SWExecutionClass) -> SchedulerView {
        SchedulerView {
            groups: self.groups.push(GroupInner::fresh(self.next_group as u64, class)),
            next_group: self.next_group + 1,
            ..self
        }
    }

    /// One wave replaced.
    pub open spec fn with_group(self, g: int, group: GroupInner) -> SchedulerView {
        SchedulerView { groups: self.groups.update(g, group), ..self }
    }

    /// One public handle of a wave has gone.
    pub open spec fn group_released(self, g: int) -> SchedulerView {
        let group = GroupInner {
            public_handles: (self.groups[g].public_handles - 1) as usize,
            ..self.groups[g]
        };
        SchedulerView { groups: Self::swept(self.groups.update(g, group), g), ..self }
    }

    /// Why a provider-owned result is refused, if it is.
    pub open spec fn external_error(
        self,
        runtime: u64,
        priority: Option<SWPriority>,
        provider_demand: bool,
        delivery: Option<DeliveryClaim>,
    ) -> Option<SWSpawnError> {
        if self.abandoned {
            Some(SWSpawnError::Closed)
        } else if (priority is Some && !self.bands.contains(priority->0)) || (provider_demand
            && self.bands.len() == 0) {
            Some(SWSpawnError::InvalidPriority)
        } else if self.records.len() + self.external.len() >= self.limits.records {
            Some(SWSpawnError::Full)
        } else if delivery is Some {
            delivery->0.error(runtime)
        } else {
            None
        }
    }

    /// The state after a provider-owned result has been accepted.
    pub open spec fn with_external(self) -> SchedulerView {
        SchedulerView {
            external: self.external.push(
                ExternalRecord { id: self.next_id as u64, settling: false },
            ),
            next_id: self.next_id + 1,
            ..self
        }
    }

    pub open spec fn external_slot(self, id: u64) -> int {
        choose|i: int| #[trigger] external_at(self.external, i, id)
    }

    /// The settlement of a provider-owned result is still to be claimed. After
    /// abandonment only abandonment claims it.
    pub open spec fn external_claimable(self, id: u64, abandonment: bool) -> bool {
        &&& !self.abandoned || abandonment
        &&& external_present(self.external, id)
        &&& !self.external[self.external_slot(id)].settling
    }

    pub open spec fn external_claimed(self, id: u64) -> SchedulerView {
        let i = self.external_slot(id);
        SchedulerView {
            external: self.external.update(i, ExternalRecord { id, settling: true }),
            ..self
        }
    }

    pub open spec fn without_external(self, id: u64) -> SchedulerView {
        SchedulerView { external: self.external.remove(self.external_slot(id)), ..self }
    }

    /// Every unclaimed provider-owned result claimed for abandonment.
    pub open spec fn external_abandoned(self) -> SchedulerView {
        SchedulerView {
            external: self.external.map_values(
                |e: ExternalRecord| ExternalRecord { settling: true, ..e },
            ),
            ..self
        }
    }
}

/// A provider-owned result is where its identity says.
pub proof fn external_found(v: SchedulerView, i: int, id: u64)
    requires
        v.indexed(),
        external_at(v.external, i, id),
    ensures
        external_present(v.external, id),
        v.external_slot(id) == i,
{
    let k = v.external_slot(id);
    assert(external_at(v.external, k, id));
    if k < i {
        assert(v.external[k].id < v.external[i].id);
    } else if i < k {
        assert(v.external[i].id < v.external[k].id);
    }
}

pub proof fn redemanded_wf(v: SchedulerView, id: u64, selection: Selection)
    requires
        v.wf(),
        v.demanded(id),
    ensures
        v.redemanded(id, selection).wf(),
{
    let w = v.redemanded(id, selection);
    let i = at(v.records, id);
    assert(record_at(v.records, i, id));
    let r = w.records[i];
    let c = r.class.slot();
    let lane = v.lanes[c];
    let new_lane = w.lanes[c];
    queue_stage(v, i);
    assert(v.lane_ok(c));
    rerank(lane.ready, entry_of(r));
    rerank(lane.deferred, entry_of(r));
    assert(record_ok(v.records[i], v.abandoned));
    assert(one_step(v, w, i));
    one_step_wf(v, w, i);
}

proof fn rerank(q: Seq<QueueEntry>, e: QueueEntry)
    requires
        distinct(q),
    ensures
        distinct(reranked(q, e)),
        reranked(q, e).len() == q.len(),
        forall|id: u64| #[trigger] holds(reranked(q, e), id) <==> holds(q, id),
        forall|k: int|
            0 <= k < q.len() ==> if (#[trigger] reranked(q, e)[k]).id == e.id {
                reranked(q, e)[k] == e
            } else {
                q.contains(reranked(q, e)[k])
            },
{
    let r = reranked(q, e);
    if holds(q, e.id) {
        let p = position(q, e.id);
        assert forall|a: int, b: int| 0 <= a < b < r.len() implies (#[trigger] r[a]).id != (
        #[trigger] r[b]).id by {
            assert(q[a].id != q[b].id);
        }
        assert forall|id: u64| #[trigger] holds(r, id) <==> holds(q, id) by {
            if holds(r, id) {
                let k = choose|k: int| 0 <= k < r.len() && (#[trigger] r[k]).id == id;
                assert(q[k].id == id);
            }
            if holds(q, id) {
                let k = choose|k: int| 0 <= k < q.len() && (#[trigger] q[k]).id == id;
                assert(r[k].id == id);
            }
        }
        assert forall|k: int| 0 <= k < q.len() implies if (#[trigger] r[k]).id == e.id {
            r[k] == e
        } else {
            q.contains(r[k])
        } by {
            if k != p {
                assert(r[k] == q[k]);
                if k < p {
                    assert(q[k].id != q[p].id);
                } else {
                    assert(q[p].id != q[k].id);
                }
            }
        }
    } else {
        assert forall|k: int| 0 <= k < q.len() implies if (#[trigger] r[k]).id == e.id {
            r[k] == e
        } else {
            q.contains(r[k])
        } by {
            assert(q[k].id == r[k].id);
        }
    }
}

/// Records, queues and members are untouched by what happens to the waves
/// themselves.
pub proof fn groups_changed_wf(v: SchedulerView, w: SchedulerView)
    requires
        v.wf(),
        w == (SchedulerView { groups: w.groups, next_group: w.next_group, ..v }),
        1 <= w.next_group <= u64::MAX,
        forall|i: int, j: int|
            0 <= i < j < w.groups.len() ==> (#[trigger] w.groups[i]).id < (
            #[trigger] w.groups[j]).id,
        forall|i: int| 0 <= i < w.groups.len() ==> (#[trigger] w.groups[i]).id < w.next_group,
        forall|g: int| 0 <= g < w.groups.len() ==> #[trigger] w.group_ok(g),
        forall|g: int|
            0 <= g < v.groups.len() && (#[trigger] v.groups[g]).pending > 0 ==> exists|h: int|
                {
                    &&& #[trigger] group_at(w.groups, h, v.groups[g].id)
                    &&& w.groups[h].class == v.groups[g].class
                },
    ensures
        w.wf(),
{
    assert forall|d: int| 0 <= d < 3 implies #[trigger] w.lane_ok(d) by {
        assert(v.lane_ok(d));
    }
    assert forall|x: int| 0 <= x < w.records.len() implies ((
    #[trigger] w.records[x]).group matches Some(group) ==> group_present(w.groups, group)
        && w.groups[group_slot(w.groups, group)].class == w.records[x].class) by {
        if let Some(group) = w.records[x].group {
            assert(v.records[x].group == Some(group));
            let g = group_slot(v.groups, group);
            assert(group_at(v.groups, g, group));
            assert(v.group_ok(g));
            total_bounds(v.records, member_of(group));
            assert(member_of(group)(v.records[x]) <= total(v.records, member_of(group)));
            assert(v.groups[g].pending > 0);
            let h = choose|h: int|
                {
                    &&& #[trigger] group_at(w.groups, h, v.groups[g].id)
                    &&& w.groups[h].class == v.groups[g].class
                };
            group_found(w.groups, h, group);
        }
    }
}

pub proof fn with_new_group_wf(v: SchedulerView, class: SWExecutionClass)
    requires
        v.wf(),
        v.next_group < u64::MAX,
    ensures
        v.with_new_group(class).wf(),
{
    let w = v.with_new_group(class);
    assert forall|i: int, j: int| 0 <= i < j < w.groups.len() implies (#[trigger] w.groups[i]).id
        < (#[trigger] w.groups[j]).id by {
        if j < v.groups.len() {
            assert(v.groups[i].id < v.groups[j].id);
        } else {
            assert(v.groups[i].id < v.next_group);
        }
    }
    assert forall|i: int| 0 <= i < w.groups.len() implies (#[trigger] w.groups[i]).id
        < w.next_group by {
        if i < v.groups.len() {
            assert(v.groups[i].id < v.next_group);
        }
    }
    assert forall|g: int| 0 <= g < w.groups.len() implies #[trigger] w.group_ok(g) by {
        if g < v.groups.len() {
            assert(v.group_ok(g));
        } else {
            let id = v.next_group as u64;
            assert forall|x: int| 0 <= x < v.records.len() implies member_of(id)(
                #[trigger] v.records[x],
            ) == 0 by {
                if v.records[x].group == Some(id) {
                    let s = group_slot(v.groups, id);
                    assert(group_at(v.groups, s, id));
                    assert(v.groups[s].id < v.next_group);
                }
            }
            total_zero(v.records, member_of(id));
        }
    }
    assert forall|g: int|
        0 <= g < v.groups.len() && (#[trigger] v.groups[g]).pending > 0 implies exists|h: int|
        {
            &&& #[trigger] group_at(w.groups, h, v.groups[g].id)
            &&& w.groups[h].class == v.groups[g].class
        } by {
        assert(group_at(w.groups, g, v.groups[g].id));
    }
    groups_changed_wf(v, w);
}

/// A wave that changes without gaining or losing members.
pub proof fn with_group_wf(v: SchedulerView, g: int, group: GroupInner)
    requires
        v.wf(),
        0 <= g < v.groups.len(),
        group.wf(),
        group.id == v.groups[g].id,
        group.class == v.groups[g].class,
        group.pending == v.groups[g].pending,
        group.pending > 0 || group.public_handles > 0,
    ensures
        v.with_group(g, group).wf(),
{
    let w = v.with_group(g, group);
    assert forall|i: int, j: int| 0 <= i < j < w.groups.len() implies (#[trigger] w.groups[i]).id
        < (#[trigger] w.groups[j]).id by {
        assert(v.groups[i].id < v.groups[j].id);
    }
    assert forall|i: int| 0 <= i < w.groups.len() implies (#[trigger] w.groups[i]).id
        < w.next_group by {
        assert(v.groups[i].id < v.next_group);
    }
    assert forall|h: int| 0 <= h < w.groups.len() implies #[trigger] w.group_ok(h) by {
        assert(v.group_ok(h));
    }
    assert forall|h: int|
        0 <= h < v.groups.len() && (#[trigger] v.groups[h]).pending > 0 implies exists|k: int|
        {
            &&& #[trigger] group_at(w.groups, k, v.groups[h].id)
            &&& w.groups[k].class == v.groups[h].class
        } by {
        assert(group_at(w.groups, h, v.groups[h].id));
    }
    groups_changed_wf(v, w);
}

pub proof fn group_released_wf(v: SchedulerView, g: int)
    requires
        v.wf(),
        0 <= g < v.groups.len(),
        v.groups[g].public_handles > 0,
    ensures
        v.group_released(g).wf(),
{
    let w = v.group_released(g);
    let group = GroupInner {
        public_handles: (v.groups[g].public_handles - 1) as usize,
        ..v.groups[g]
    };
    assert(v.group_ok(g));
    if group.pending == 0 && group.public_handles == 0 {
        let changed = v.groups.update(g, group);
        assert forall|i: int| 0 <= i < w.groups.len() implies #[trigger] w.groups[i]
            == v.groups[if i < g {
            i
        } else {
            i + 1
        }] by {}
        assert forall|i: int, j: int| 0 <= i < j < w.groups.len() implies (
        #[trigger] w.groups[i]).id < (#[trigger] w.groups[j]).id by {
            let a = if i < g {
                i
            } else {
                i + 1
            };
            let b = if j < g {
                j
            } else {
                j + 1
            };
            assert(v.groups[a].id < v.groups[b].id);
        }
        assert forall|h: int| 0 <= h < w.groups.len() implies #[trigger] w.group_ok(h) by {
            assert(v.group_ok(if h < g {
                h
            } else {
                h + 1
            }));
        }
        assert forall|h: int|
            0 <= h < v.groups.len() && (#[trigger] v.groups[h]).pending > 0 implies exists|k: int|
            {
                &&& #[trigger] group_at(w.groups, k, v.groups[h].id)
                &&& w.groups[k].class == v.groups[h].class
            } by {
            let k = if h < g {
                h
            } else {
                h - 1
            };
            assert(w.groups[k] == v.groups[h]);
            assert(group_at(w.groups, k, v.groups[h].id));
        }
        groups_changed_wf(v, w);
    } else {
        assert(w == v.with_group(g, group));
        with_group_wf(v, g, group);
    }
}

/// Owned records are untouched by what happens to provider-owned results.
proof fn external_changed_wf(v: SchedulerView, w: SchedulerView)
    requires
        v.wf(),
        w == (SchedulerView { external: w.external, next_id: w.next_id, ..v }),
        v.next_id <= w.next_id <= u64::MAX,
        v.records.len() + w.external.len() <= v.limits.records,
        forall|i: int, j: int|
            0 <= i < j < w.external.len() ==> (#[trigger] w.external[i]).id < (
            #[trigger] w.external[j]).id,
        forall|i: int| 0 <= i < w.external.len() ==> (#[trigger] w.external[i]).id < w.next_id,
        forall|i: int, j: int|
            0 <= i < v.records.len() && 0 <= j < w.external.len() ==> (
            #[trigger] v.records[i]).id != (#[trigger] w.external[j]).id,
    ensures
        w.wf(),
{
    assert forall|i: int| 0 <= i < w.records.len() implies (#[trigger] w.records[i]).id
        < w.next_id by {
        assert(v.records[i].id < v.next_id);
    }
    assert forall|d: int| 0 <= d < 3 implies #[trigger] w.lane_ok(d) by {
        assert(v.lane_ok(d));
    }
    assert forall|g: int| 0 <= g < w.groups.len() implies #[trigger] w.group_ok(g) by {
        assert(v.group_ok(g));
    }
}

pub proof fn with_external_wf(v: SchedulerView)
    requires
        v.wf(),
        v.next_id < u64::MAX,
        v.records.len() + v.external.len() < v.limits.records,
    ensures
        v.with_external().wf(),
{
    let w = v.with_external();
    assert forall|i: int, j: int| 0 <= i < j < w.external.len() implies (
    #[trigger] w.external[i]).id < (#[trigger] w.external[j]).id by {
        if j < v.external.len() {
            assert(v.external[i].id < v.external[j].id);
        } else {
            assert(v.external[i].id < v.next_id);
        }
    }
    assert forall|i: int| 0 <= i < w.external.len() implies (#[trigger] w.external[i]).id
        < w.next_id by {
        if i < v.external.len() {
            assert(v.external[i].id < v.next_id);
        }
    }
    assert forall|i: int, j: int|
        0 <= i < v.records.len() && 0 <= j < w.external.len() implies (#[trigger] v.records[i]).id
        != (#[trigger] w.external[j]).id by {
        if j < v.external.len() {
            assert(v.records[i].id != v.external[j].id);
        } else {
            assert(v.records[i].id < v.next_id);
        }
    }
    external_changed_wf(v, w);
}

pub proof fn external_claimed_wf(v: SchedulerView, id: u64)
    requires
        v.wf(),
        external_present(v.external, id),
    ensures
        v.external_claimed(id).wf(),
{
    let i = v.external_slot(id);
    assert(external_at(v.external, i, id));
    let w = v.external_claimed(id);
    assert forall|x: int| 0 <= x < w.external.len() implies (#[trigger] w.external[x]).id
        == v.external[x].id by {}
    assert forall|x: int, y: int| 0 <= x < y < w.external.len() implies (
    #[trigger] w.external[x]).id < (#[trigger] w.external[y]).id by {
        assert(v.external[x].id < v.external[y].id);
    }
    assert forall|x: int, y: int|
        0 <= x < v.records.len() && 0 <= y < w.external.len() implies (#[trigger] v.records[x]).id
        != (#[trigger] w.external[y]).id by {
        assert(v.records[x].id != v.external[y].id);
    }
    external_changed_wf(v, w);
}

pub proof fn external_abandoned_wf(v: SchedulerView)
    requires
        v.wf(),
    ensures
        v.external_abandoned().wf(),
{
    let w = v.external_abandoned();
    assert forall|x: int, y: int| 0 <= x < y < w.external.len() implies (
    #[trigger] w.external[x]).id < (#[trigger] w.external[y]).id by {
        assert(v.external[x].id < v.external[y].id);
    }
    assert forall|x: int| 0 <= x < w.external.len() implies (#[trigger] w.external[x]).id
        < w.next_id by {
        assert(v.external[x].id < v.next_id);
    }
    assert forall|x: int, y: int|
        0 <= x < v.records.len() && 0 <= y < w.external.len() implies (#[trigger] v.records[x]).id
        != (#[trigger] w.external[y]).id by {
        assert(v.records[x].id != v.external[y].id);
    }
    external_changed_wf(v, w);
}

pub proof fn without_external_wf(v: SchedulerView, id: u64)
    requires
        v.wf(),
        external_present(v.external, id),
    ensures
        v.without_external(id).wf(),
{
    let i = v.external_slot(id);
    assert(external_at(v.external, i, id));
    let w = v.without_external(id);
    assert forall|x: int| 0 <= x < w.external.len() implies #[trigger] w.external[x]
        == v.external[if x < i {
        x
    } else {
        x + 1
    }] by {}
    assert forall|x: int, y: int| 0 <= x < y < w.external.len() implies (
    #[trigger] w.external[x]).id < (#[trigger] w.external[y]).id by {
        let a = if x < i {
            x
        } else {
            x + 1
        };
        let b = if y < i {
            y
        } else {
            y + 1
        };
        assert(v.external[a].id < v.external[b].id);
    }
    assert forall|x: int, y: int|
        0 <= x < v.records.len() && 0 <= y < w.external.len() implies (#[trigger] v.records[x]).id
        != (#[trigger] w.external[y]).id by {
        let b = if y < i {
            y
        } else {
            y + 1
        };
        assert(v.records[x].id != v.external[b].id);
    }
    external_changed_wf(v, w);
}

pub proof fn abandoned_all_wf(v: SchedulerView)
    requires
        v.wf(),
    ensures
        v.abandoned_all().wf(),
{
    let w = v.abandoned_all();
    assert forall|x: int| 0 <= x < w.records.len() implies {
        &&& (#[trigger] w.records[x]).id == v.records[x].id
        &&& w.records[x].group == v.records[x].group
        &&& w.records[x].class == v.records[x].class
        &&& w.records[x].edges == v.records[x].edges
        &&& record_ok(w.records[x], true)
    } by {
        assert(record_ok(v.records[x], v.abandoned));
    }
    assert(w.indexed()) by {
        assert forall|x: int, y: int| 0 <= x < y < w.records.len() implies (
        #[trigger] w.records[x]).id < (#[trigger] w.records[y]).id by {
            assert(v.records[x].id < v.records[y].id);
        }
        assert forall|x: int| 0 <= x < w.records.len() implies (#[trigger] w.records[x]).id
            < w.next_id by {
            assert(v.records[x].id < v.next_id);
        }
        assert forall|x: int, y: int|
            0 <= x < w.records.len() && 0 <= y < w.external.len() implies (
        #[trigger] w.records[x]).id != (#[trigger] w.external[y]).id by {
            assert(v.records[x].id != v.external[y].id);
        }
    }
    assert forall|x: int| 0 <= x < w.records.len() implies edges_of()(#[trigger] w.records[x])
        == edges_of()(v.records[x]) by {}
    total_pointwise(w.records, v.records, edges_of(), edges_of());
    assert forall|d: int| 0 <= d < 3 implies #[trigger] w.lane_ok(d) by {
        assert(v.lane_ok(d));
        let f = staged_in(d, Stage::Handed);
        assert forall|x: int| 0 <= x < w.records.len() implies f(#[trigger] w.records[x]) == 0 by {
            assert(record_ok(w.records[x], true));
        }
        total_zero(w.records, f);
        assert forall|x: int|
            0 <= x < w.records.len() && (#[trigger] w.records[x]).class.slot() == d implies {
            &&& w.records[x].stage == Stage::Ready ==> holds(w.lanes[d].ready, w.records[x].id)
            &&& w.records[x].stage == Stage::DeferredReady ==> holds(
                w.lanes[d].deferred,
                w.records[x].id,
            )
        } by {
            assert(record_ok(w.records[x], true));
        }
    }
    assert forall|g: int| 0 <= g < w.groups.len() implies #[trigger] w.group_ok(g) by {
        assert(v.group_ok(g));
        let f = member_of(v.groups[g].id);
        assert forall|x: int| 0 <= x < w.records.len() implies f(#[trigger] w.records[x]) == f(
            v.records[x],
        ) by {
            assert(w.records[x].group == v.records[x].group);
        }
        total_pointwise(w.records, v.records, f, f);
    }
    assert forall|x: int| 0 <= x < w.records.len() implies ((
    #[trigger] w.records[x]).group matches Some(group) ==> group_present(w.groups, group)
        && w.groups[group_slot(w.groups, group)].class == w.records[x].class) by {
        assert(w.records[x].group == v.records[x].group);
    }
}

/// A participating caller may execute this member of a group.
pub open spec fn helpable(r: Record, group: u64) -> bool {
    &&& r.group == Some(group)
    &&& r.stage == Stage::Ready || r.stage == Stage::Handed
    &&& r.eligibility == SWCallerEligibility::CallerEligible
}

/// The oldest member of a group that a caller may execute.
pub open spec fn oldest_helpable(records: Seq<Record>, group: u64, id: u64) -> bool {
    &&& present(records, id)
    &&& helpable(records[at(records, id)], group)
    &&& forall|j: int|
        0 <= j < records.len() && helpable(#[trigger] records[j], group) ==> id <= records[j].id
}

/// One for each record in this stage.
pub open spec fn in_stage(stage: Stage) -> spec_fn(Record) -> int {
    |r: Record|
        if r.stage == stage {
            1
        } else {
            0
        }
}

/// Records that abandonment has to settle, in admission order.
pub open spec fn unclaimed_ids(records: Seq<Record>) -> Seq<u64>
    decreases records.len(),
{
    if records.len() == 0 {
        Seq::empty()
    } else {
        let rest = unclaimed_ids(records.drop_last());
        if unclaimed(records.last().stage) {
            rest.push(records.last().id)
        } else {
            rest
        }
    }
}

/// Provider-owned results that abandonment has to settle, in admission order.
pub open spec fn unsettled_ids(external: Seq<ExternalRecord>) -> Seq<u64>
    decreases external.len(),
{
    if external.len() == 0 {
        Seq::empty()
    } else {
        let rest = unsettled_ids(external.drop_last());
        if !external.last().settling {
            rest.push(external.last().id)
        } else {
            rest
        }
    }
}

/// One for each record of which a queue holds an entry.
spec fn listed_in(q: Seq<QueueEntry>) -> spec_fn(Record) -> int {
    |r: Record|
        if holds(q, r.id) {
            1
        } else {
            0
        }
}

/// A queue of distinct live records is as long as there are such records.
proof fn listed_counted(records: Seq<Record>, q: Seq<QueueEntry>)
    requires
        forall|i: int, j: int|
            0 <= i < j < records.len() ==> (#[trigger] records[i]).id < (#[trigger] records[j]).id,
        distinct(q),
        forall|k: int| 0 <= k < q.len() ==> present(records, (#[trigger] q[k]).id),
    ensures
        total(records, listed_in(q)) == q.len(),
    decreases q.len(),
{
    if q.len() == 0 {
        total_zero(records, listed_in(q));
    } else {
        let rest = q.drop_last();
        let e = q.last();
        let last = q.len() - 1;
        assert forall|i: int, j: int| 0 <= i < j < rest.len() implies (#[trigger] rest[i]).id != (
        #[trigger] rest[j]).id by {
            assert(q[i].id != q[j].id);
        }
        assert forall|k: int| 0 <= k < rest.len() implies present(
            records,
            (#[trigger] rest[k]).id,
        ) by {
            assert(q[k] == rest[k]);
        }
        listed_counted(records, rest);
        assert(!holds(rest, e.id)) by {
            if holds(rest, e.id) {
                let k = choose|k: int| 0 <= k < rest.len() && (#[trigger] rest[k]).id == e.id;
                assert(q[k].id != q[last].id);
            }
        }
        assert(rest.push(e) =~= q);
        addition(rest, e);
        assert(present(records, q[last].id));
        let p = at(records, e.id);
        assert(record_at(records, p, e.id));
        // The two counts agree everywhere but at the last entry's record.
        let f = listed_in(q);
        let g = listed_in(rest);
        let mark = records.map_values(|r: Record| g(r) + (if r.id == e.id { 1int } else { 0int }));
        let same = |n: int| n;
        assert forall|i: int| 0 <= i < records.len() implies f(#[trigger] records[i]) == same(
            mark[i],
        ) by {
            assert(holds(q, records[i].id) <==> holds(rest, records[i].id) || records[i].id
                == e.id);
        }
        total_pointwise(records, mark, f, same);
        let plain = records.map_values(|r: Record| g(r));
        assert forall|i: int| 0 <= i < records.len() implies g(#[trigger] records[i]) == same(
            plain[i],
        ) by {}
        total_pointwise(records, plain, g, same);
        assert(mark =~= plain.update(p, plain[p] + 1)) by {
            assert forall|i: int| 0 <= i < records.len() implies mark[i] == plain.update(
                p,
                plain[p] + 1,
            )[i] by {
                if i < p {
                    assert(records[i].id < records[p].id);
                } else if p < i {
                    assert(records[p].id < records[i].id);
                }
            }
        }
        total_update(plain, p, plain[p] + 1, same);
    }
}

/// A class has at most as much runnable work as there are records.
pub proof fn runnable_bounded(v: SchedulerView, c: int)
    requires
        v.wf(),
        0 <= c < 3,
    ensures
        0 <= v.lanes[c].ready.len() <= v.lanes[c].runnable <= v.records.len(),
{
    let lane = v.lanes[c];
    assert(v.lane_ok(c));
    assert forall|k: int| 0 <= k < lane.ready.len() implies present(
        v.records,
        (#[trigger] lane.ready[k]).id,
    ) by {
        assert(listed(v.records, lane.ready[k], c, Stage::Ready));
    }
    listed_counted(v.records, lane.ready);
    let f = listed_in(lane.ready);
    let g = staged_in(c, Stage::Handed);
    let both = |r: Record| f(r) + g(r);
    total_sum(v.records, f, g);
    assert forall|i: int| 0 <= i < v.records.len() implies both(#[trigger] v.records[i]) <= 1 by {
        let r = v.records[i];
        if holds(lane.ready, r.id) && g(r) == 1 {
            queue_stage(v, i);
        }
    }
    total_at_most(v.records, both);
    total_bounds(v.records, g);
}

/// The sum of two measures.
proof fn total_sum<A>(s: Seq<A>, f: spec_fn(A) -> int, g: spec_fn(A) -> int)
    ensures
        total(s, |a: A| f(a) + g(a)) == total(s, f) + total(s, g),
    decreases s.len(),
{
    if s.len() > 0 {
        total_sum(s.drop_last(), f, g);
    }
}

impl SchedulerView {
    /// What a snapshot of owned work shows.
    pub open spec fn shows(
        self,
        progress: SWSchedulerProgress,
        demand_pending: bool,
        provider_callbacks: usize,
    ) -> bool {
        &&& progress.waiting == total(self.records, in_stage(Stage::Waiting))
        &&& progress.ready == total(self.records, in_stage(Stage::Ready))
        &&& progress.deferred == total(self.records, in_stage(Stage::DeferredReady))
        &&& progress.handed == total(self.records, in_stage(Stage::Handed))
        &&& progress.running == total(self.records, in_stage(Stage::Running))
        &&& progress.finalizing == total(self.records, in_stage(Stage::Finalizing))
        &&& forall|c: int|
            0 <= c < 3 ==> #[trigger] progress.handoff_wrappers@[c] == self.lanes[c].handed_off
        &&& progress.demand_pending == demand_pending
        &&& progress.provider_callbacks == provider_callbacks
        &&& progress.records_full == (self.records.len() + self.external.len()
            >= self.limits.records)
        &&& progress.edges_full == (self.edges >= self.limits.edges)
        &&& forall|c: int|
            0 <= c < 3 ==> #[trigger] progress.runnable_full@[c] == (self.lanes[c].runnable
                >= self.limits.runnable@[c])
        &&& forall|c: int|
            0 <= c < 3 ==> #[trigger] progress.handoff_full@[c] == (self.lanes[c].handed_off
                >= self.limits.handoff@[c])
    }
}

/// What a prerequisite's report does to the job that waits for it. Reports
/// accumulate: a failure is not forgotten when a later prerequisite succeeds,
/// and the last report decides. The job is ready or deferred then, unless it
/// asked for success and did not get it from all of them.
pub proof fn reports_accumulate(v: SchedulerView, id: u64, status: SWTaskStatus)
    requires
        v.wf(),
    ensures
        v.activated(id, status).records.len() == v.records.len(),
        forall|i: int|
            0 <= i < v.records.len() && (#[trigger] v.records[i]).id == id ==> {
                let r = v.records[i];
                let s = v.activated(id, status).records[i];
                let told = v.activation(id, status);
                let failed = r.failed || status != SWTaskStatus::Succeeded;
                let refused = failed && r.policy == SWDependencyPolicy::SuccessOnly;
                &&& told == Activated::Ignored <==> r.stage != Stage::Waiting
                &&& told == Activated::Pending <==> r.stage == Stage::Waiting && r.pending > 1
                &&& told == Activated::Suppressed <==> r.stage == Stage::Waiting && r.pending == 1
                    && refused
                &&& r.stage != Stage::Waiting ==> s == r
                &&& r.stage == Stage::Waiting ==> s.pending + 1 == r.pending && s.failed == failed
                &&& told == Activated::Pending ==> s.stage == Stage::Waiting
                &&& told == Activated::Suppressed ==> s.stage == Stage::Finalizing
                &&& told == Activated::Ready ==> s.stage == Stage::Ready
                &&& told == Activated::Deferred ==> s.stage == Stage::DeferredReady
            },
        forall|i: int|
            0 <= i < v.records.len() && (#[trigger] v.records[i]).id != id ==> v.activated(
                id,
                status,
            ).records[i] == v.records[i],
{
    if v.has(id) {
        assert(record_at(v.records, at(v.records, id), id));
    }
    assert forall|i: int| 0 <= i < v.records.len() && (#[trigger] v.records[i]).id == id implies v.has(
        id,
    ) && at(v.records, id) == i && record_ok(v.records[i], v.abandoned) by {
        assert(record_at(v.records, i, id));
        found(v.records, i, id);
    }
}

} // verus!
