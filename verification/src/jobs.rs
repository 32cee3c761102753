//! The model of accepted owned work: records, queues and waves, and what every
//! transition on them keeps.
use crate::admission::SWCallerEligibility;
use crate::admission::SWDependencyPolicy;
use crate::admission::SWOwnedLimits;
use crate::config::SWExecutionClass;
use crate::group::GroupInner;
use crate::queue::distinct;
use crate::queue::holds;
use crate::queue::refill_conserves;
use crate::queue::removal;
use crate::queue::LaneView;
use crate::queue::QueueEntry;
use crate::queue::Selection;
use crate::queue::SWPriority;
use crate::sums::total;
use crate::sums::total_pointwise;
use crate::sums::total_push;
use crate::sums::total_update;
use crate::task::SWTaskStatus;
use vstd::prelude::*;

verus! {

/// How far an accepted job has come.
#[derive(Clone, Copy, Debug, PartialEq, Eq, Structural)]
pub enum Stage {
    /// Prerequisites are unresolved.
    Waiting,
    /// Activated beyond the runnable window.
    DeferredReady,
    /// Activated, not yet handed to the backend.
    Ready,
    /// Offered to the backend, not yet claimed.
    Handed,
    /// Claimed for execution.
    Running,
    /// Executed or suppressed; cleanup and publication remain.
    Finalizing,
}

/// One accepted job.
#[derive(Clone, Copy, Debug, PartialEq, Eq, Structural)]
pub struct Record {
    pub id: u64,
    pub class: SWExecutionClass,
    pub group: Option<u64>,
    /// Prerequisites that have not reported.
    pub pending: usize,
    /// Some prerequisite did not succeed.
    pub failed: bool,
    pub policy: SWDependencyPolicy,
    pub stage: Stage,
    pub eligibility: SWCallerEligibility,
    /// Prerequisites charged to the edge limit.
    pub edges: usize,
    /// Prerequisites are still being attached.
    pub attaching: bool,
    /// A terminal status that waits for the attachment to end.
    pub parked: Option<SWTaskStatus>,
    /// The terminal status, once its publication has begun.
    pub outcome: Option<SWTaskStatus>,
    /// Urgency, where this is resource work.
    pub demand: Option<Selection>,
}

/// One accepted provider-owned result.
#[derive(Clone, Copy, Debug, PartialEq, Eq, Structural)]
pub struct ExternalRecord {
    pub id: u64,
    /// Its settlement has been claimed.
    pub settling: bool,
}

/// A job that has not been claimed or suppressed.
pub open spec fn unclaimed(stage: Stage) -> bool {
    stage != Stage::Running && stage != Stage::Finalizing
}

/// What holds of every record by itself. In particular only a job whose
/// prerequisites have all reported, and succeeded unless it is outcome-aware,
/// can be ready, handed out or running.
pub open spec fn record_ok(r: Record, abandoned: bool) -> bool {
    &&& r.pending <= r.edges
    &&& r.stage == Stage::Waiting ==> r.pending > 0
    &&& r.stage != Stage::Waiting && r.stage != Stage::Finalizing ==> {
        &&& r.pending == 0
        &&& r.failed ==> r.policy == SWDependencyPolicy::OutcomeAware
    }
    &&& r.parked is Some ==> r.attaching && r.stage == Stage::Finalizing && r.outcome is None
    &&& r.outcome is Some ==> r.stage == Stage::Finalizing
    &&& abandoned ==> !unclaimed(r.stage)
}

pub open spec fn record_at(records: Seq<Record>, i: int, id: u64) -> bool {
    0 <= i < records.len() && records[i].id == id
}

pub open spec fn present(records: Seq<Record>, id: u64) -> bool {
    exists|i: int| #[trigger] record_at(records, i, id)
}

/// Position of a record.
pub open spec fn at(records: Seq<Record>, id: u64) -> int {
    choose|i: int| #[trigger] record_at(records, i, id)
}

pub open spec fn external_at(external: Seq<ExternalRecord>, i: int, id: u64) -> bool {
    0 <= i < external.len() && external[i].id == id
}

pub open spec fn external_present(external: Seq<ExternalRecord>, id: u64) -> bool {
    exists|i: int| #[trigger] external_at(external, i, id)
}

pub open spec fn group_at(groups: Seq<GroupInner>, i: int, id: u64) -> bool {
    0 <= i < groups.len() && groups[i].id == id
}

pub open spec fn group_present(groups: Seq<GroupInner>, id: u64) -> bool {
    exists|i: int| #[trigger] group_at(groups, i, id)
}

/// Position of a group.
pub open spec fn group_slot(groups: Seq<GroupInner>, id: u64) -> int {
    choose|i: int| #[trigger] group_at(groups, i, id)
}

/// One for each record of this class in this stage.
pub open spec fn staged_in(class: int, stage: Stage) -> spec_fn(Record) -> int {
    |r: Record|
        if r.class.slot() == class && r.stage == stage {
            1
        } else {
            0
        }
}

pub open spec fn edges_of() -> spec_fn(Record) -> int {
    |r: Record| r.edges as int
}

/// One for each record that belongs to this group.
pub open spec fn member_of(group: u64) -> spec_fn(Record) -> int {
    |r: Record|
        if r.group == Some(group) {
            1
        } else {
            0
        }
}

/// A queue entry stands for a record of this class in this stage.
pub open spec fn listed(records: Seq<Record>, e: QueueEntry, class: int, stage: Stage) -> bool {
    let r = records[at(records, e.id)];
    &&& present(records, e.id)
    &&& r.class.slot() == class
    &&& r.stage == stage
    &&& r.demand == e.demand
}

/// The state of accepted work.
#[verifier::ext_equal]
pub struct SchedulerView {
    pub limits: SWOwnedLimits,
    /// Demand bands that resource work may name.
    pub bands: Seq<SWPriority>,
    /// In admission order.
    pub records: Seq<Record>,
    pub external: Seq<ExternalRecord>,
    /// In creation order.
    pub groups: Seq<GroupInner>,
    pub next_id: int,
    pub next_group: int,
    /// Prerequisites charged to live records.
    pub edges: int,
    /// Low, Mid, High.
    pub lanes: Seq<LaneView>,
    pub abandoned: bool,
}

impl SchedulerView {
    /// Identities rise with admission and are never reused.
    pub open spec fn indexed(self) -> bool {
        &&& 1 <= self.next_id <= u64::MAX
        &&& 1 <= self.next_group <= u64::MAX
        &&& forall|i: int, j: int|
            0 <= i < j < self.records.len() ==> (#[trigger] self.records[i]).id < (
            #[trigger] self.records[j]).id
        &&& forall|i: int|
            0 <= i < self.records.len() ==> (#[trigger] self.records[i]).id < self.next_id
        &&& forall|i: int, j: int|
            0 <= i < j < self.external.len() ==> (#[trigger] self.external[i]).id < (
            #[trigger] self.external[j]).id
        &&& forall|i: int|
            0 <= i < self.external.len() ==> (#[trigger] self.external[i]).id < self.next_id
        &&& forall|i: int, j: int|
            0 <= i < self.records.len() && 0 <= j < self.external.len() ==> (
            #[trigger] self.records[i]).id != (#[trigger] self.external[j]).id
        &&& forall|i: int, j: int|
            0 <= i < j < self.groups.len() ==> (#[trigger] self.groups[i]).id < (
            #[trigger] self.groups[j]).id
        &&& forall|i: int|
            0 <= i < self.groups.len() ==> (#[trigger] self.groups[i]).id < self.next_group
    }

    /// Live metadata stays within its limits, and edges are exactly charged.
    pub open spec fn bounded(self) -> bool {
        &&& self.records.len() + self.external.len() <= self.limits.records
        &&& self.edges == total(self.records, edges_of())
        &&& self.edges <= self.limits.edges
    }

    pub open spec fn lane_ok(self, c: int) -> bool {
        let lane = self.lanes[c];
        &&& lane.unique()
        &&& lane.runnable == lane.ready.len() + total(self.records, staged_in(c, Stage::Handed))
        &&& 0 <= lane.handed_off <= self.limits.handoff@[c]
        &&& forall|k: int|
            0 <= k < lane.ready.len() ==> listed(
                self.records,
                #[trigger] lane.ready[k],
                c,
                Stage::Ready,
            )
        &&& forall|k: int|
            0 <= k < lane.deferred.len() ==> listed(
                self.records,
                #[trigger] lane.deferred[k],
                c,
                Stage::DeferredReady,
            )
        &&& forall|i: int|
            0 <= i < self.records.len() && (#[trigger] self.records[i]).class.slot() == c ==> {
                &&& self.records[i].stage == Stage::Ready ==> holds(
                    lane.ready,
                    self.records[i].id,
                )
                &&& self.records[i].stage == Stage::DeferredReady ==> holds(
                    lane.deferred,
                    self.records[i].id,
                )
            }
    }

    /// The queues hold exactly the activated records, each once.
    pub open spec fn queued(self) -> bool {
        &&& self.lanes.len() == 3
        &&& forall|c: int| 0 <= c < 3 ==> #[trigger] self.lane_ok(c)
    }

    pub open spec fn group_ok(self, g: int) -> bool {
        let group = self.groups[g];
        &&& group.wf()
        &&& group.pending == total(self.records, member_of(group.id))
        &&& group.pending > 0 || group.public_handles > 0
    }

    /// Every wave counts exactly its live members.
    pub open spec fn grouped(self) -> bool {
        &&& forall|g: int| 0 <= g < self.groups.len() ==> #[trigger] self.group_ok(g)
        &&& forall|i: int|
            0 <= i < self.records.len() ==> ((#[trigger] self.records[i]).group matches Some(group)
                ==> group_present(self.groups, group) && self.groups[group_slot(
                self.groups,
                group,
            )].class == self.records[i].class)
    }

    pub open spec fn sound(self) -> bool {
        forall|i: int|
            0 <= i < self.records.len() ==> record_ok(#[trigger] self.records[i], self.abandoned)
    }

    pub open spec fn wf(self) -> bool {
        &&& self.indexed()
        &&& self.bounded()
        &&& self.queued()
        &&& self.grouped()
        &&& self.sound()
    }

    pub open spec fn has(self, id: u64) -> bool {
        present(self.records, id)
    }

    pub open spec fn get(self, id: u64) -> Record {
        self.records[at(self.records, id)]
    }

    /// One record replaced.
    pub open spec fn with(self, i: int, r: Record) -> SchedulerView {
        SchedulerView { records: self.records.update(i, r), ..self }
    }

    pub open spec fn with_lane(self, c: int, lane: LaneView) -> SchedulerView {
        SchedulerView { lanes: self.lanes.update(c, lane), ..self }
    }
}

/// A record is where its identity says.
pub proof fn found(records: Seq<Record>, i: int, id: u64)
    requires
        record_at(records, i, id),
        forall|i: int, j: int|
            0 <= i < j < records.len() ==> (#[trigger] records[i]).id < (#[trigger] records[j]).id,
    ensures
        present(records, id),
        at(records, id) == i,
{
    let k = at(records, id);
    assert(record_at(records, k, id));
    if k < i {
        assert(records[k].id < records[i].id);
    } else if i < k {
        assert(records[i].id < records[k].id);
    }
}

pub proof fn group_found(groups: Seq<GroupInner>, i: int, id: u64)
    requires
        group_at(groups, i, id),
        forall|i: int, j: int|
            0 <= i < j < groups.len() ==> (#[trigger] groups[i]).id < (#[trigger] groups[j]).id,
    ensures
        group_present(groups, id),
        group_slot(groups, id) == i,
{
    let k = group_slot(groups, id);
    assert(group_at(groups, k, id));
    if k < i {
        assert(groups[k].id < groups[i].id);
    } else if i < k {
        assert(groups[i].id < groups[k].id);
    }
}

/// A queue without one record.
pub open spec fn unqueued(q: Seq<QueueEntry>, id: u64) -> Seq<QueueEntry> {
    if holds(q, id) {
        q.remove(position(q, id))
    } else {
        q
    }
}

pub open spec fn position(q: Seq<QueueEntry>, id: u64) -> int {
    choose|i: int| 0 <= i < q.len() && (#[trigger] q[i]).id == id
}

/// A record's queue entry.
pub open spec fn entry_of(r: Record) -> QueueEntry {
    QueueEntry { id: r.id, demand: r.demand }
}

/// The same record with what the queues and counts depend on unchanged.
pub open spec fn same_identity(a: Record, b: Record) -> bool {
    a.id == b.id && a.class == b.class && a.group == b.group && a.edges == b.edges
}

/// Two tables of groups that differ in wake-up generations alone.
pub open spec fn same_groups(a: Seq<GroupInner>, b: Seq<GroupInner>) -> bool {
    &&& a.len() == b.len()
    &&& forall|g: int|
        0 <= g < a.len() ==> #[trigger] b[g] == (GroupInner {
            generation: b[g].generation,
            ..a[g]
        })
}

spec fn sorted(records: Seq<Record>) -> bool {
    forall|i: int, j: int|
        0 <= i < j < records.len() ==> (#[trigger] records[i]).id < (#[trigger] records[j]).id
}

/// Entries other than the changed record's stay listed.
proof fn still_listed(
    records: Seq<Record>,
    i: int,
    r: Record,
    e: QueueEntry,
    c: int,
    stage: Stage,
)
    requires
        sorted(records),
        0 <= i < records.len(),
        records[i].id == r.id,
        listed(records, e, c, stage),
        e.id != r.id,
    ensures
        listed(records.update(i, r), e, c, stage),
{
    let next = records.update(i, r);
    let k = at(records, e.id);
    assert(record_at(records, k, e.id));
    assert(record_at(next, k, e.id));
    assert(sorted(next)) by {
        assert forall|x: int, y: int| 0 <= x < y < next.len() implies (#[trigger] next[x]).id < (
        #[trigger] next[y]).id by {
            assert(records[x].id < records[y].id);
        }
    }
    found(next, k, e.id);
}

/// What a change of one record, and of its lane with it, has to keep.
pub open spec fn one_step(v: SchedulerView, w: SchedulerView, i: int) -> bool {
    let r = v.records[i];
    let s = w.records[i];
    let c = r.class.slot();
    let old_lane = v.lanes[c];
    let new_lane = w.lanes[c];
    &&& 0 <= i < v.records.len()
    &&& w == (SchedulerView {
        records: v.records.update(i, s),
        lanes: v.lanes.update(c, new_lane),
        groups: w.groups,
        ..v
    })
    &&& same_identity(r, s)
    &&& same_groups(v.groups, w.groups)
    &&& record_ok(s, v.abandoned)
    &&& new_lane.unique()
    &&& 0 <= new_lane.handed_off <= v.limits.handoff@[c]
    &&& new_lane.runnable - new_lane.ready.len() == old_lane.runnable - old_lane.ready.len()
        + staged_in(c, Stage::Handed)(s) - staged_in(c, Stage::Handed)(r)
    &&& forall|id: u64|
        id != r.id ==> (#[trigger] holds(new_lane.ready, id) <==> holds(old_lane.ready, id))
    &&& forall|id: u64|
        id != r.id ==> (#[trigger] holds(new_lane.deferred, id) <==> holds(old_lane.deferred, id))
    &&& s.stage == Stage::Ready <==> holds(new_lane.ready, r.id)
    &&& s.stage == Stage::DeferredReady <==> holds(new_lane.deferred, r.id)
    &&& forall|k: int|
        0 <= k < new_lane.ready.len() ==> if (#[trigger] new_lane.ready[k]).id == r.id {
            new_lane.ready[k] == entry_of(s)
        } else {
            old_lane.ready.contains(new_lane.ready[k])
        }
    &&& forall|k: int|
        0 <= k < new_lane.deferred.len() ==> if (#[trigger] new_lane.deferred[k]).id == r.id {
            new_lane.deferred[k] == entry_of(s)
        } else {
            old_lane.deferred.contains(new_lane.deferred[k])
        }
}

/// A change of one record and its lane keeps the whole state consistent.
#[verifier::rlimit(30)]
pub proof fn one_step_wf(v: SchedulerView, w: SchedulerView, i: int)
    requires
        v.wf(),
        one_step(v, w, i),
    ensures
        w.wf(),
{
    let r = v.records[i];
    let s = w.records[i];
    let c = r.class.slot();
    assert(sorted(v.records));
    assert(sorted(w.records)) by {
        assert forall|x: int, y: int| 0 <= x < y < w.records.len() implies (
        #[trigger] w.records[x]).id < (#[trigger] w.records[y]).id by {
            assert(v.records[x].id < v.records[y].id);
        }
    }
    assert(w.indexed()) by {
        assert forall|x: int| 0 <= x < w.records.len() implies (#[trigger] w.records[x]).id
            < w.next_id by {
            assert(v.records[x].id < v.next_id);
        }
        assert forall|x: int, y: int|
            0 <= x < w.records.len() && 0 <= y < w.external.len() implies (
        #[trigger] w.records[x]).id != (#[trigger] w.external[y]).id by {
            assert(v.records[x].id != v.external[y].id);
        }
        assert forall|x: int, y: int| 0 <= x < y < w.groups.len() implies (
        #[trigger] w.groups[x]).id < (#[trigger] w.groups[y]).id by {
            assert(v.groups[x].id < v.groups[y].id);
        }
        assert forall|x: int| 0 <= x < w.groups.len() implies (#[trigger] w.groups[x]).id
            < w.next_group by {
            assert(v.groups[x].id < v.next_group);
        }
    }
    total_update(v.records, i, s, edges_of());
    assert forall|d: int| 0 <= d < 3 implies #[trigger] w.lane_ok(d) by {
        assert(v.lane_ok(d));
        total_update(v.records, i, s, staged_in(d, Stage::Handed));
        let old_lane = v.lanes[d];
        let lane = w.lanes[d];
        assert forall|k: int| 0 <= k < lane.ready.len() implies listed(
            w.records,
            #[trigger] lane.ready[k],
            d,
            Stage::Ready,
        ) by {
            let e = lane.ready[k];
            if e.id == r.id {
                if d == c {
                    assert(holds(lane.ready, r.id));
                    found(w.records, i, r.id);
                    assert(record_at(w.records, i, r.id));
                } else {
                    found(v.records, i, r.id);
                    assert(listed(v.records, e, d, Stage::Ready));
                }
            } else {
                if d == c {
                    assert(old_lane.ready.contains(e));
                    let x = choose|x: int| 0 <= x < old_lane.ready.len() && old_lane.ready[x] == e;
                    assert(listed(v.records, old_lane.ready[x], d, Stage::Ready));
                }
                still_listed(v.records, i, s, e, d, Stage::Ready);
            }
        }
        assert forall|k: int| 0 <= k < lane.deferred.len() implies listed(
            w.records,
            #[trigger] lane.deferred[k],
            d,
            Stage::DeferredReady,
        ) by {
            let e = lane.deferred[k];
            if e.id == r.id {
                if d == c {
                    assert(holds(lane.deferred, r.id));
                    found(w.records, i, r.id);
                    assert(record_at(w.records, i, r.id));
                } else {
                    found(v.records, i, r.id);
                    assert(listed(v.records, e, d, Stage::DeferredReady));
                }
            } else {
                if d == c {
                    assert(old_lane.deferred.contains(e));
                    let x = choose|x: int|
                        0 <= x < old_lane.deferred.len() && old_lane.deferred[x] == e;
                    assert(listed(v.records, old_lane.deferred[x], d, Stage::DeferredReady));
                }
                still_listed(v.records, i, s, e, d, Stage::DeferredReady);
            }
        }
        assert forall|x: int|
            0 <= x < w.records.len() && (#[trigger] w.records[x]).class.slot() == d implies {
            &&& w.records[x].stage == Stage::Ready ==> holds(lane.ready, w.records[x].id)
            &&& w.records[x].stage == Stage::DeferredReady ==> holds(
                lane.deferred,
                w.records[x].id,
            )
        } by {
            if x != i {
                assert(w.records[x] == v.records[x]);
                assert(v.records[x].id != r.id) by {
                    if x < i {
                        assert(v.records[x].id < v.records[i].id);
                    } else {
                        assert(v.records[i].id < v.records[x].id);
                    }
                }
            }
        }
    }
    assert forall|g: int| 0 <= g < w.groups.len() implies #[trigger] w.group_ok(g) by {
        assert(v.group_ok(g));
        total_update(v.records, i, s, member_of(w.groups[g].id));
    }
    assert forall|x: int| 0 <= x < w.records.len() implies ((
    #[trigger] w.records[x]).group matches Some(group) ==> group_present(w.groups, group)
        && w.groups[group_slot(w.groups, group)].class == w.records[x].class) by {
        assert(v.records[x].group == w.records[x].group);
        if let Some(group) = w.records[x].group {
            let g = group_slot(v.groups, group);
            assert(group_at(v.groups, g, group));
            assert(group_at(w.groups, g, group));
            group_found(w.groups, g, group);
        }
    }
}

/// Taking one record out of a queue.
pub proof fn unqueue(q: Seq<QueueEntry>, id: u64)
    requires
        distinct(q),
        holds(q, id),
    ensures
        0 <= position(q, id) < q.len(),
        q[position(q, id)].id == id,
        unqueued(q, id) == q.remove(position(q, id)),
        unqueued(q, id).len() == q.len() - 1,
        distinct(unqueued(q, id)),
        forall|x: u64| #[trigger] holds(unqueued(q, id), x) <==> holds(q, x) && x != id,
        forall|k: int|
            0 <= k < unqueued(q, id).len() ==> q.contains(#[trigger] unqueued(q, id)[k]),
{
    let i = position(q, id);
    removal(q, i);
    let r = q.remove(i);
    assert forall|k: int| 0 <= k < r.len() implies q.contains(#[trigger] r[k]) by {
        assert(r[k] == q[if k < i {
            k
        } else {
            k + 1
        }]);
    }
}

/// A position with this identity is the only one.
pub proof fn position_is(q: Seq<QueueEntry>, i: int)
    requires
        distinct(q),
        0 <= i < q.len(),
    ensures
        holds(q, q[i].id),
        position(q, q[i].id) == i,
{
    let k = position(q, q[i].id);
    assert(holds(q, q[i].id));
    if k < i {
        assert(q[k].id != q[i].id);
    } else if i < k {
        assert(q[i].id != q[k].id);
    }
}

/// Activated records of a class follow the queue that they are in.
pub open spec fn requeued(records: Seq<Record>, ready: Seq<QueueEntry>, c: int) -> Seq<Record> {
    records.map_values(
        |r: Record|
            if r.class.slot() == c && (r.stage == Stage::Ready || r.stage
                == Stage::DeferredReady) {
                Record {
                    stage: if holds(ready, r.id) {
                        Stage::Ready
                    } else {
                        Stage::DeferredReady
                    },
                    ..r
                }
            } else {
                r
            },
    )
}

/// One for each entry whose record belongs to this group.
pub open spec fn wakes(records: Seq<Record>, group: u64) -> spec_fn(QueueEntry) -> int {
    |e: QueueEntry|
        if present(records, e.id) && records[at(records, e.id)].group == Some(group) {
            1
        } else {
            0
        }
}

/// The groups after helpers have been told of each of these entries.
pub open spec fn woken(
    groups: Seq<GroupInner>,
    records: Seq<Record>,
    entries: Seq<QueueEntry>,
) -> Seq<GroupInner> {
    groups.map_values(
        |g: GroupInner|
            GroupInner {
                generation: ((g.generation + total(entries, wakes(records, g.id)))
                    % 0x1_0000_0000_0000_0000) as u64,
                ..g
            },
    )
}

impl SchedulerView {
    /// Entries that refilling a lane's runnable window makes ready.
    pub open spec fn promotions(self, c: int) -> Seq<QueueEntry> {
        let lane = self.lanes[c];
        lane.refilled(self.limits.runnable@[c] as int).ready.skip(lane.merged().ready.len() as int)
    }

    /// The runnable window of a class refilled from all its unhanded work.
    pub open spec fn promoted(self, c: int) -> SchedulerView {
        let lane = self.lanes[c].refilled(self.limits.runnable@[c] as int);
        SchedulerView {
            records: requeued(self.records, lane.ready, c),
            groups: woken(self.groups, self.records, self.promotions(c)),
            lanes: self.lanes.update(c, lane),
            ..self
        }
    }
}

proof fn requeued_keeps(records: Seq<Record>, ready: Seq<QueueEntry>, c: int)
    ensures
        requeued(records, ready, c).len() == records.len(),
        forall|i: int|
            0 <= i < records.len() ==> same_identity(
                records[i],
                #[trigger] requeued(records, ready, c)[i],
            ),
        forall|d: int|
            total(requeued(records, ready, c), #[trigger] staged_in(d, Stage::Handed)) == total(
                records,
                staged_in(d, Stage::Handed),
            ),
        total(requeued(records, ready, c), edges_of()) == total(records, edges_of()),
        forall|g: u64|
            total(requeued(records, ready, c), #[trigger] member_of(g)) == total(
                records,
                member_of(g),
            ),
        sorted(records) ==> sorted(requeued(records, ready, c)),
        sorted(records) ==> forall|id: u64|
            #[trigger] present(requeued(records, ready, c), id) <==> present(records, id),
        sorted(records) ==> forall|id: u64|
            present(records, id) ==> #[trigger] at(requeued(records, ready, c), id) == at(
                records,
                id,
            ),
{
    let next = requeued(records, ready, c);
    assert forall|d: int|
        total(next, #[trigger] staged_in(d, Stage::Handed)) == total(
            records,
            staged_in(d, Stage::Handed),
        ) by {
        let f = staged_in(d, Stage::Handed);
        assert forall|i: int| 0 <= i < next.len() implies f(#[trigger] next[i]) == f(
            records[i],
        ) by {}
        total_pointwise(next, records, f, f);
    }
    assert forall|i: int| 0 <= i < next.len() implies edges_of()(#[trigger] next[i]) == edges_of()(
        records[i],
    ) by {}
    total_pointwise(next, records, edges_of(), edges_of());
    assert forall|g: u64|
        total(next, #[trigger] member_of(g)) == total(records, member_of(g)) by {
        let f = member_of(g);
        assert forall|i: int| 0 <= i < next.len() implies f(#[trigger] next[i]) == f(
            records[i],
        ) by {}
        total_pointwise(next, records, f, f);
    }
    if sorted(records) {
        assert(sorted(next)) by {
            assert forall|x: int, y: int| 0 <= x < y < next.len() implies (#[trigger] next[x]).id
                < (#[trigger] next[y]).id by {
                assert(records[x].id < records[y].id);
            }
        }
        assert forall|id: u64| #[trigger] present(next, id) <==> present(records, id) by {
            if present(next, id) {
                let i = at(next, id);
                assert(record_at(next, i, id));
                assert(record_at(records, i, id));
            }
            if present(records, id) {
                let i = at(records, id);
                assert(record_at(records, i, id));
                assert(record_at(next, i, id));
            }
        }
        assert forall|id: u64| present(records, id) implies #[trigger] at(next, id) == at(
            records,
            id,
        ) by {
            let i = at(records, id);
            assert(record_at(records, i, id));
            assert(record_at(next, i, id));
            found(next, i, id);
        }
    }
}

/// Refilling a runnable window keeps the whole state consistent.
#[verifier::rlimit(30)]
pub proof fn promoted_wf(v: SchedulerView, c: int)
    requires
        v.wf(),
        0 <= c < 3,
    ensures
        v.promoted(c).wf(),
{
    let w = v.promoted(c);
    let lane = v.lanes[c];
    let limit = v.limits.runnable@[c] as int;
    let next = lane.refilled(limit);
    assert(v.lane_ok(c));
    refill_conserves(lane, limit);
    requeued_keeps(v.records, next.ready, c);
    assert(sorted(v.records));
    assert(w.indexed()) by {
        assert forall|x: int| 0 <= x < w.records.len() implies (#[trigger] w.records[x]).id
            < w.next_id by {
            assert(v.records[x].id < v.next_id);
        }
        assert forall|x: int, y: int|
            0 <= x < w.records.len() && 0 <= y < w.external.len() implies (
        #[trigger] w.records[x]).id != (#[trigger] w.external[y]).id by {
            assert(v.records[x].id != v.external[y].id);
        }
        assert forall|x: int, y: int| 0 <= x < y < w.groups.len() implies (
        #[trigger] w.groups[x]).id < (#[trigger] w.groups[y]).id by {
            assert(v.groups[x].id < v.groups[y].id);
        }
        assert forall|x: int| 0 <= x < w.groups.len() implies (#[trigger] w.groups[x]).id
            < w.next_group by {
            assert(v.groups[x].id < v.next_group);
        }
    }
    assert forall|d: int| 0 <= d < 3 implies #[trigger] w.lane_ok(d) by {
        assert(v.lane_ok(d));
        let old_lane = v.lanes[d];
        let new_lane = w.lanes[d];
        assert(total(w.records, staged_in(d, Stage::Handed)) == total(
            v.records,
            staged_in(d, Stage::Handed),
        ));
        assert forall|k: int| 0 <= k < new_lane.ready.len() implies listed(
            w.records,
            #[trigger] new_lane.ready[k],
            d,
            Stage::Ready,
        ) by {
            let e = new_lane.ready[k];
            if d == c {
                assert(new_lane.lists(e));
                assert(lane.lists(e));
                listed_either(v, c, e);
                assert(holds(next.ready, e.id));
            } else {
                assert(listed(v.records, old_lane.ready[k], d, Stage::Ready));
            }
            assert(record_at(v.records, at(v.records, e.id), e.id));
        }
        assert forall|k: int| 0 <= k < new_lane.deferred.len() implies listed(
            w.records,
            #[trigger] new_lane.deferred[k],
            d,
            Stage::DeferredReady,
        ) by {
            let e = new_lane.deferred[k];
            if d == c {
                assert(new_lane.lists(e));
                assert(lane.lists(e));
                listed_either(v, c, e);
                assert(holds(next.deferred, e.id));
                assert(!holds(next.ready, e.id));
            } else {
                assert(listed(v.records, old_lane.deferred[k], d, Stage::DeferredReady));
            }
            assert(record_at(v.records, at(v.records, e.id), e.id));
        }
        assert forall|x: int|
            0 <= x < w.records.len() && (#[trigger] w.records[x]).class.slot() == d implies {
            &&& w.records[x].stage == Stage::Ready ==> holds(new_lane.ready, w.records[x].id)
            &&& w.records[x].stage == Stage::DeferredReady ==> holds(
                new_lane.deferred,
                w.records[x].id,
            )
        } by {
            let r = v.records[x];
            assert(same_identity(r, w.records[x]));
            if d == c && (r.stage == Stage::Ready || r.stage == Stage::DeferredReady) {
                assert(lane.queued(r.id));
                assert(next.queued(r.id));
            }
        }
    }
    assert forall|g: int| 0 <= g < w.groups.len() implies #[trigger] w.group_ok(g) by {
        assert(v.group_ok(g));
        assert(total(w.records, member_of(w.groups[g].id)) == total(
            v.records,
            member_of(w.groups[g].id),
        ));
    }
    assert forall|x: int| 0 <= x < w.records.len() implies ((
    #[trigger] w.records[x]).group matches Some(group) ==> group_present(w.groups, group)
        && w.groups[group_slot(w.groups, group)].class == w.records[x].class) by {
        assert(same_identity(v.records[x], w.records[x]));
        if let Some(group) = w.records[x].group {
            let g = group_slot(v.groups, group);
            assert(v.records[x].group == Some(group));
            assert(group_at(v.groups, g, group));
            assert(group_at(w.groups, g, group));
            group_found(w.groups, g, group);
        }
    }
    assert forall|x: int| 0 <= x < w.records.len() implies record_ok(
        #[trigger] w.records[x],
        w.abandoned,
    ) by {
        assert(record_ok(v.records[x], v.abandoned));
    }
}

/// An entry of a lane stands for an activated record of its class.
pub proof fn listed_either(v: SchedulerView, c: int, e: QueueEntry)
    requires
        v.queued(),
        0 <= c < 3,
        v.lanes[c].lists(e),
    ensures
        listed(v.records, e, c, Stage::Ready) || listed(v.records, e, c, Stage::DeferredReady),
{
    assert(v.lane_ok(c));
    let lane = v.lanes[c];
    if lane.ready.contains(e) {
        let k = choose|k: int| 0 <= k < lane.ready.len() && lane.ready[k] == e;
        assert(listed(v.records, lane.ready[k], c, Stage::Ready));
    } else {
        let k = choose|k: int| 0 <= k < lane.deferred.len() && lane.deferred[k] == e;
        assert(listed(v.records, lane.deferred[k], c, Stage::DeferredReady));
    }
}

/// Moving one record between the queues of its lane moves its stage alone.
pub proof fn requeue_one(
    records: Seq<Record>,
    before: Seq<QueueEntry>,
    after: Seq<QueueEntry>,
    c: int,
    k: int,
)
    requires
        forall|i: int, j: int|
            0 <= i < j < records.len() ==> (#[trigger] records[i]).id < (#[trigger] records[j]).id,
        0 <= k < records.len(),
        records[k].class.slot() == c,
        records[k].stage == Stage::Ready || records[k].stage == Stage::DeferredReady,
        forall|id: u64|
            id != records[k].id ==> (#[trigger] holds(after, id) <==> holds(before, id)),
    ensures
        requeued(records, after, c) == requeued(records, before, c).update(
            k,
            Record {
                stage: if holds(after, records[k].id) {
                    Stage::Ready
                } else {
                    Stage::DeferredReady
                },
                ..records[k]
            },
        ),
{
    let left = requeued(records, after, c);
    let right = requeued(records, before, c).update(
        k,
        Record {
            stage: if holds(after, records[k].id) {
                Stage::Ready
            } else {
                Stage::DeferredReady
            },
            ..records[k]
        },
    );
    assert forall|i: int| 0 <= i < records.len() implies left[i] == right[i] by {
        if i != k {
            if i < k {
                assert(records[i].id < records[k].id);
            } else {
                assert(records[k].id < records[i].id);
            }
        }
    }
    assert(left =~= right);
}

/// Queues that agree with the stages leave the records as they are.
pub proof fn requeue_nothing(v: SchedulerView, c: int)
    requires
        v.wf(),
        0 <= c < 3,
    ensures
        requeued(v.records, v.lanes[c].ready, c) == v.records,
{
    assert(v.lane_ok(c));
    let lane = v.lanes[c];
    let next = requeued(v.records, lane.ready, c);
    assert forall|i: int| 0 <= i < v.records.len() implies next[i] == v.records[i] by {
        let r = v.records[i];
        if r.class.slot() == c && r.stage == Stage::DeferredReady {
            assert(holds(lane.deferred, r.id));
            assert(!holds(lane.ready, r.id));
        }
    }
    assert(next =~= v.records);
}

/// Telling helpers of nothing changes nothing.
pub proof fn wake_nothing(groups: Seq<GroupInner>, records: Seq<Record>)
    ensures
        woken(groups, records, Seq::empty()) == groups,
{
    let w = woken(groups, records, Seq::empty());
    assert forall|g: int| 0 <= g < groups.len() implies w[g] == groups[g] by {
        assert(total(Seq::<QueueEntry>::empty(), wakes(records, groups[g].id)) == 0);
    }
    assert(w =~= groups);
}

/// Telling helpers of one more entry wakes the group of its record alone.
pub proof fn wake_one(
    groups: Seq<GroupInner>,
    records: Seq<Record>,
    entries: Seq<QueueEntry>,
    e: QueueEntry,
)
    requires
        forall|i: int, j: int|
            0 <= i < j < groups.len() ==> (#[trigger] groups[i]).id < (#[trigger] groups[j]).id,
        present(records, e.id),
    ensures
        ({
            let before = woken(groups, records, entries);
            let after = woken(groups, records, entries.push(e));
            match records[at(records, e.id)].group {
                Some(group) => forall|k: int| #[trigger]
                    group_at(groups, k, group) ==> after == before.update(k, before[k].notified()),
                None => after == before,
            }
        }),
{
    let before = woken(groups, records, entries);
    let after = woken(groups, records, entries.push(e));
    assert forall|g: int| 0 <= g < groups.len() implies after[g] == (if records[at(
        records,
        e.id,
    )].group == Some(groups[g].id) {
        before[g].notified()
    } else {
        before[g]
    }) by {
        total_push(entries, e, wakes(records, groups[g].id));
        let n = groups[g].generation + total(entries, wakes(records, groups[g].id));
        assert((n + 1) % 0x1_0000_0000_0000_0000 == (if n % 0x1_0000_0000_0000_0000
            == 0xffff_ffff_ffff_ffff {
            0
        } else {
            n % 0x1_0000_0000_0000_0000 + 1
        }));
    }
    match records[at(records, e.id)].group {
        Some(group) => {
            assert forall|k: int| #[trigger] group_at(groups, k, group) implies after
                == before.update(k, before[k].notified()) by {
                assert forall|g: int| 0 <= g < groups.len() implies after[g] == before.update(
                    k,
                    before[k].notified(),
                )[g] by {
                    if g < k {
                        assert(groups[g].id < groups[k].id);
                    } else if k < g {
                        assert(groups[k].id < groups[g].id);
                    }
                }
                assert(after =~= before.update(k, before[k].notified()));
            }
        },
        None => {
            assert(after =~= before);
        },
    }
}

/// Moving records between queues and waking groups moves no identity.
pub proof fn requeued_indexed(
    v: SchedulerView,
    w: SchedulerView,
    ready: Seq<QueueEntry>,
    c: int,
    entries: Seq<QueueEntry>,
)
    requires
        v.indexed(),
        w.records == requeued(v.records, ready, c),
        w.groups == woken(v.groups, v.records, entries),
        w.external == v.external,
        w.next_id == v.next_id,
        w.next_group == v.next_group,
    ensures
        w.indexed(),
        forall|id: u64| #[trigger] present(w.records, id) <==> present(v.records, id),
        forall|id: u64|
            present(v.records, id) ==> #[trigger] at(w.records, id) == at(v.records, id),
        forall|id: u64|
            present(v.records, id) ==> record_at(v.records, #[trigger] at(v.records, id), id),
        forall|i: int, id: u64| #[trigger] group_at(w.groups, i, id) <==> group_at(v.groups, i, id),
        forall|id: u64| #[trigger] group_present(w.groups, id) <==> group_present(v.groups, id),
{
    assert(sorted(v.records));
    requeued_keeps(v.records, ready, c);
    assert forall|x: int| 0 <= x < w.records.len() implies (#[trigger] w.records[x]).id
        < w.next_id by {
        assert(v.records[x].id < v.next_id);
    }
    assert forall|x: int, y: int|
        0 <= x < w.records.len() && 0 <= y < w.external.len() implies (
    #[trigger] w.records[x]).id != (#[trigger] w.external[y]).id by {
        assert(v.records[x].id != v.external[y].id);
    }
    assert forall|x: int, y: int| 0 <= x < y < w.groups.len() implies (#[trigger] w.groups[x]).id
        < (#[trigger] w.groups[y]).id by {
        assert(v.groups[x].id < v.groups[y].id);
    }
    assert forall|x: int| 0 <= x < w.groups.len() implies (#[trigger] w.groups[x]).id
        < w.next_group by {
        assert(v.groups[x].id < v.next_group);
    }
    assert forall|id: u64| #[trigger] group_present(w.groups, id) <==> group_present(
        v.groups,
        id,
    ) by {
        if group_present(w.groups, id) {
            let i = group_slot(w.groups, id);
            assert(group_at(w.groups, i, id));
            assert(group_at(v.groups, i, id));
        }
        if group_present(v.groups, id) {
            let i = group_slot(v.groups, id);
            assert(group_at(v.groups, i, id));
            assert(group_at(w.groups, i, id));
        }
    }
}

/// Replacing a record by another of the same identity moves no identity.
pub proof fn with_indexed(v: SchedulerView, w: SchedulerView, k: int, r: Record)
    requires
        v.indexed(),
        0 <= k < v.records.len(),
        r.id == v.records[k].id,
        w.records == v.records.update(k, r),
        w.groups == v.groups,
        w.external == v.external,
        w.next_id == v.next_id,
        w.next_group == v.next_group,
    ensures
        w.indexed(),
{
    assert forall|x: int, y: int| 0 <= x < y < w.records.len() implies (#[trigger] w.records[x]).id
        < (#[trigger] w.records[y]).id by {
        assert(v.records[x].id < v.records[y].id);
    }
    assert forall|x: int| 0 <= x < w.records.len() implies (#[trigger] w.records[x]).id
        < w.next_id by {
        assert(v.records[x].id < v.next_id);
    }
    assert forall|x: int, y: int|
        0 <= x < w.records.len() && 0 <= y < w.external.len() implies (
    #[trigger] w.records[x]).id != (#[trigger] w.external[y]).id by {
        assert(v.records[x].id != v.external[y].id);
    }
}

} // verus!
