//! Coordination of accepted owned work.
//!
//! One control domain for admission, record identity, claiming, and completion
//! transitions that must commit together. User code, destructors, provider
//! hooks, and backend calls run between transitions, never inside one.
use crate::admission::DeliveryClaim;
use crate::admission::SWCallerEligibility;
use crate::admission::SWDependencyPolicy;
use crate::admission::SWOwnedLimits;
use crate::admission::SWSpawnError;
use crate::config::SWExecutionClass;
use crate::context::is_within_lane;
use crate::group::GroupInner;
use crate::jobs::at;
use crate::jobs::external_at;
use crate::jobs::external_present;
use crate::jobs::found;
use crate::jobs::group_at;
use crate::jobs::group_found;
use crate::jobs::group_present;
use crate::jobs::group_slot;
use crate::jobs::listed_either;
use crate::jobs::position;
use crate::jobs::position_is;
use crate::jobs::present;
use crate::jobs::promoted_wf;
use crate::jobs::record_at;
use crate::jobs::record_ok;
use crate::jobs::requeue_nothing;
use crate::jobs::requeue_one;
use crate::jobs::requeued;
use crate::jobs::requeued_indexed;
use crate::jobs::staged_in;
use crate::jobs::unclaimed;
use crate::jobs::unqueued;
use crate::jobs::wake_nothing;
use crate::jobs::wake_one;
use crate::jobs::with_indexed;
use crate::jobs::woken;
use crate::jobs::ExternalRecord;
use crate::jobs::Record;
use crate::jobs::SchedulerView;
use crate::jobs::Stage;
use crate::progress::SWSchedulerProgress;
use crate::queue::addition;
use crate::queue::advanced_keeps;
use crate::queue::distinct;
use crate::queue::holds;
use crate::queue::merged_keeps;
use crate::queue::pop_order;
use crate::queue::removal;
use crate::queue::select;
use crate::queue::LaneView;
use crate::queue::QueueEntry;
use crate::queue::SWPriority;
use crate::queue::Selection;
use crate::steps::abandoned_all_wf;
use crate::steps::activated_wf;
use crate::steps::dispatched_wf;
use crate::steps::external_abandoned_wf;
use crate::steps::external_claimed_wf;
use crate::steps::external_found;
use crate::steps::finalized_wf;
use crate::steps::group_released_wf;
use crate::steps::helpable;
use crate::steps::in_stage;
use crate::steps::members_bounded;
use crate::steps::noted_wf;
use crate::steps::oldest_helpable;
use crate::steps::queue_stage;
use crate::steps::redemanded_wf;
use crate::steps::reranked;
use crate::steps::runnable_bounded;
use crate::steps::submitted_wf;
use crate::steps::unclaimed_ids;
use crate::steps::unsettled_ids;
use crate::steps::with_external_wf;
use crate::steps::with_group_wf;
use crate::steps::with_new_group_wf;
use crate::steps::withdrawn_wf;
use crate::steps::without_external_wf;
use crate::steps::Activated;
use crate::steps::SubmitRequest;
use crate::sums::total;
use crate::sums::total_bounds;
use crate::task::SWTaskStatus;
use crate::steps::reports_accumulate;
use crate::dispatch::jobs_are_admitted_by_room;
use crate::dispatch::claims_and_suppressions_by_stage;
use vstd::prelude::*;

verus! {

/// Queues and counts of one execution class.
struct Lane {
    ready: Vec<QueueEntry>,
    deferred: Vec<QueueEntry>,
    runnable: usize,
    handed_off: usize,
}

impl View for Lane {
    type V = LaneView;

    closed spec fn view(&self) -> LaneView {
        LaneView {
            ready: self.ready@,
            deferred: self.deferred@,
            runnable: self.runnable as int,
            handed_off: self.handed_off as int,
        }
    }
}

impl Lane {
    fn new() -> (lane: Self)
        ensures
            lane@ == (LaneView {
                ready: Seq::empty(),
                deferred: Seq::empty(),
                runnable: 0,
                handed_off: 0,
            }),
    {
        Lane { ready: Vec::new(), deferred: Vec::new(), runnable: 0, handed_off: 0 }
    }
}

/// Admission, dependencies, claims and terminal cleanup of owned work.
pub struct OwnedScheduler {
    limits: SWOwnedLimits,
    bands: Vec<SWPriority>,
    records: Vec<Record>,
    external: Vec<ExternalRecord>,
    groups: Vec<GroupInner>,
    next_id: u64,
    next_group: u64,
    edges: usize,
    lanes: Vec<Lane>,
    abandoned: bool,
}

impl View for OwnedScheduler {
    type V = SchedulerView;

    closed spec fn view(&self) -> SchedulerView {
        SchedulerView {
            limits: self.limits,
            bands: self.bands@,
            records: self.records@,
            external: self.external@,
            groups: self.groups@,
            next_id: self.next_id as int,
            next_group: self.next_group as int,
            edges: self.edges as int,
            lanes: self.lanes@.map_values(|lane: Lane| lane@),
            abandoned: self.abandoned,
        }
    }
}

impl OwnedScheduler {
    pub fn new(limits: SWOwnedLimits, bands: Vec<SWPriority>) -> (scheduler: Self)
        ensures
            scheduler@.wf(),
            scheduler@.limits == limits,
            scheduler@.bands == bands@,
            scheduler@.records.len() == 0,
            scheduler@.external.len() == 0,
            scheduler@.groups.len() == 0,
            scheduler@.next_id == 1,
            scheduler@.next_group == 1,
            scheduler@.edges == 0,
            !scheduler@.abandoned,
            forall|c: int|
                0 <= c < 3 ==> #[trigger] scheduler@.lanes[c] == (LaneView {
                    ready: Seq::empty(),
                    deferred: Seq::empty(),
                    runnable: 0,
                    handed_off: 0,
                }),
    {
        let mut lanes: Vec<Lane> = Vec::new();
        lanes.push(Lane::new());
        lanes.push(Lane::new());
        lanes.push(Lane::new());
        OwnedScheduler {
            limits,
            bands,
            records: Vec::new(),
            external: Vec::new(),
            groups: Vec::new(),
            next_id: 1,
            next_group: 1,
            edges: 0,
            lanes,
            abandoned: false,
        }
    }

    /// Position of a record, by its identity.
    fn find(&self, id: u64) -> (found: Option<usize>)
        requires
            self@.indexed(),
        ensures
            match found {
                Some(i) => {
                    &&& record_at(self@.records, i as int, id)
                    &&& self@.has(id)
                    &&& at(self@.records, id) == i
                },
                None => !self@.has(id),
            },
    {
        let mut low: usize = 0;
        let mut high: usize = self.records.len();
        while low < high
            invariant
                self@.indexed(),
                low <= high <= self.records@.len(),
                forall|i: int| 0 <= i < low ==> (#[trigger] self.records@[i]).id < id,
                forall|i: int|
                    high <= i < self.records@.len() ==> (#[trigger] self.records@[i]).id > id,
            decreases high - low,
        {
            let middle: usize = low + (high - low) / 2;
            let here: u64 = self.records[middle].id;
            if here == id {
                proof {
                    found(self@.records, middle as int, id);
                }
                return Some(middle);
            }
            if here < id {
                proof {
                    assert forall|i: int| 0 <= i < middle + 1 implies (
                    #[trigger] self.records@[i]).id < id by {
                        if i < middle {
                            assert(self@.records[i].id < self@.records[middle as int].id);
                        }
                    }
                }
                low = middle + 1;
            } else {
                proof {
                    assert forall|i: int| middle <= i < self.records@.len() implies (
                    #[trigger] self.records@[i]).id > id by {
                        if i > middle {
                            assert(self@.records[middle as int].id < self@.records[i].id);
                        }
                    }
                }
                high = middle;
            }
        }
        proof {
            if self@.has(id) {
                let i = at(self@.records, id);
                assert(record_at(self@.records, i, id));
                assert(self.records@[i].id == id);
            }
        }
        None
    }

    /// Position of a group, by its identity.
    fn find_group(&self, id: u64) -> (found: Option<usize>)
        requires
            self@.indexed(),
        ensures
            match found {
                Some(i) => {
                    &&& group_at(self@.groups, i as int, id)
                    &&& group_present(self@.groups, id)
                    &&& group_slot(self@.groups, id) == i
                },
                None => !group_present(self@.groups, id),
            },
    {
        let mut index: usize = 0;
        while index < self.groups.len()
            invariant
                self@.indexed(),
                index <= self.groups@.len(),
                forall|i: int| 0 <= i < index ==> (#[trigger] self.groups@[i]).id != id,
            decreases self.groups@.len() - index,
        {
            if self.groups[index].id == id {
                proof {
                    group_found(self@.groups, index as int, id);
                }
                return Some(index);
            }
            index += 1;
        }
        proof {
            if group_present(self@.groups, id) {
                let i = group_slot(self@.groups, id);
                assert(group_at(self@.groups, i, id));
                assert(self.groups@[i].id == id);
            }
        }
        None
    }

    /// Replacing one lane leaves the others.
    proof fn lane_replaced(before: OwnedScheduler, after: OwnedScheduler, c: int)
        requires
            0 <= c < before.lanes@.len(),
            after.lanes@.len() == before.lanes@.len(),
            forall|d: int|
                0 <= d < before.lanes@.len() && d != c ==> #[trigger] after.lanes@[d]
                    == before.lanes@[d],
        ensures
            after@.lanes == before@.lanes.update(c, after.lanes@[c]@),
    {
        let left = after@.lanes;
        let right = before@.lanes.update(c, after.lanes@[c]@);
        assert forall|d: int| 0 <= d < left.len() implies left[d] == right[d] by {
            if d != c {
                assert(after.lanes@[d] == before.lanes@[d]);
            }
        }
        assert(left =~= right);
    }

    fn take_ready(&mut self, class: SWExecutionClass, index: usize) -> (entry: QueueEntry)
        requires
            old(self)@.lanes.len() == 3,
            index < old(self)@.lanes[class.slot()].ready.len(),
        ensures
            entry == old(self)@.lanes[class.slot()].ready[index as int],
            final(self)@ == old(self)@.with_lane(
                class.slot(),
                LaneView {
                    ready: old(self)@.lanes[class.slot()].ready.remove(index as int),
                    ..old(self)@.lanes[class.slot()]
                },
            ),
    {
        let c: usize = class.index();
        let entry = self.lanes[c].ready.remove(index);
        proof {
            Self::lane_replaced(*old(self), *self, c as int);
        }
        entry
    }

    fn take_deferred(&mut self, class: SWExecutionClass, index: usize) -> (entry: QueueEntry)
        requires
            old(self)@.lanes.len() == 3,
            index < old(self)@.lanes[class.slot()].deferred.len(),
        ensures
            entry == old(self)@.lanes[class.slot()].deferred[index as int],
            final(self)@ == old(self)@.with_lane(
                class.slot(),
                LaneView {
                    deferred: old(self)@.lanes[class.slot()].deferred.remove(index as int),
                    ..old(self)@.lanes[class.slot()]
                },
            ),
    {
        let c: usize = class.index();
        let entry = self.lanes[c].deferred.remove(index);
        proof {
            Self::lane_replaced(*old(self), *self, c as int);
        }
        entry
    }

    fn push_ready(&mut self, class: SWExecutionClass, entry: QueueEntry)
        requires
            old(self)@.lanes.len() == 3,
            old(self)@.lanes[class.slot()].runnable < usize::MAX,
        ensures
            final(self)@ == old(self)@.with_lane(
                class.slot(),
                LaneView {
                    ready: old(self)@.lanes[class.slot()].ready.push(entry),
                    runnable: old(self)@.lanes[class.slot()].runnable + 1,
                    ..old(self)@.lanes[class.slot()]
                },
            ),
    {
        let c: usize = class.index();
        self.lanes[c].ready.push(entry);
        self.lanes[c].runnable = self.lanes[c].runnable + 1;
        proof {
            Self::lane_replaced(*old(self), *self, c as int);
        }
    }

    fn push_deferred(&mut self, class: SWExecutionClass, entry: QueueEntry)
        requires
            old(self)@.lanes.len() == 3,
        ensures
            final(self)@ == old(self)@.with_lane(
                class.slot(),
                LaneView {
                    deferred: old(self)@.lanes[class.slot()].deferred.push(entry),
                    ..old(self)@.lanes[class.slot()]
                },
            ),
    {
        let c: usize = class.index();
        self.lanes[c].deferred.push(entry);
        proof {
            Self::lane_replaced(*old(self), *self, c as int);
        }
    }

    fn lower_runnable(&mut self, class: SWExecutionClass)
        requires
            old(self)@.lanes.len() == 3,
            old(self)@.lanes[class.slot()].runnable > 0,
        ensures
            final(self)@ == old(self)@.with_lane(
                class.slot(),
                LaneView {
                    runnable: old(self)@.lanes[class.slot()].runnable - 1,
                    ..old(self)@.lanes[class.slot()]
                },
            ),
    {
        let c: usize = class.index();
        self.lanes[c].runnable = self.lanes[c].runnable - 1;
        proof {
            Self::lane_replaced(*old(self), *self, c as int);
        }
    }

    fn set_record(&mut self, k: usize, record: Record)
        requires
            k < old(self)@.records.len(),
        ensures
            final(self)@ == old(self)@.with(k as int, record),
    {
        self.records.set(k, record);
    }

    /// Tells helpers of a group to look again.
    fn notify_group(&mut self, group: Option<u64>)
        requires
            old(self)@.indexed(),
            group matches Some(id) ==> group_present(old(self)@.groups, id),
        ensures
            match group {
                Some(id) => {
                    let g = group_slot(old(self)@.groups, id);
                    final(self)@ == (SchedulerView {
                        groups: old(self)@.groups.update(g, old(self)@.groups[g].notified()),
                        ..old(self)@
                    })
                },
                None => final(self)@ == old(self)@,
            },
    {
        if let Some(id) = group {
            if let Some(g) = self.find_group(id) {
                self.groups[g].notify_ready();
            }
        }
    }

    /// Puts all unhanded work of a class back into one queue.
    #[verifier::rlimit(60)]
    fn merge(&mut self, class: SWExecutionClass)
        requires
            old(self)@.wf(),
            old(self)@.lanes[class.slot()].deferred.len() > 0,
        ensures
            final(self)@ == (SchedulerView {
                records: requeued(old(self)@.records, Seq::empty(), class.slot()),
                lanes: old(self)@.lanes.update(
                    class.slot(),
                    old(self)@.lanes[class.slot()].merged(),
                ),
                ..old(self)@
            }),
    {
        let c: usize = class.index();
        let ghost v = self@;
        let ghost lane0 = self@.lanes[c as int];
        let mut pending: Vec<QueueEntry> = Vec::new();
        proof {
            assert(v.lane_ok(c as int));
            requeue_nothing(v, c as int);
            wake_nothing(v.groups, v.records);
            assert(Seq::<QueueEntry>::empty() + pop_order(lane0.ready) =~= pop_order(lane0.ready));
            total_bounds(v.records, staged_in(c as int, Stage::Handed));
        }
        loop
            invariant
                c == class.slot(),
                0 <= c < 3,
                v.wf(),
                v == old(self)@,
                lane0 == v.lanes[c as int],
                lane0.ready.len() <= lane0.runnable,
                self@.lanes.len() == 3,
                distinct(self@.lanes[c as int].ready),
                forall|k: int|
                    0 <= k < self@.lanes[c as int].ready.len() ==> lane0.ready.contains(
                        #[trigger] self@.lanes[c as int].ready[k],
                    ),
                pending@ + pop_order(self@.lanes[c as int].ready) == pop_order(lane0.ready),
                pending@.len() + self@.lanes[c as int].ready.len() == lane0.ready.len(),
                self@ == (SchedulerView {
                    records: requeued(v.records, self@.lanes[c as int].ready, c as int),
                    lanes: v.lanes.update(
                        c as int,
                        LaneView {
                            ready: self@.lanes[c as int].ready,
                            runnable: lane0.runnable - pending@.len(),
                            ..lane0
                        },
                    ),
                    ..v
                }),
            ensures
                self@.lanes[c as int].ready.len() == 0,
            decreases self@.lanes[c as int].ready.len(),
        {
            let selected = select(&self.lanes[c].ready);
            let index: usize = match selected {
                Some(index) => index,
                None => {
                    break;
                },
            };
            let ghost before = self@.lanes[c as int].ready;
            let entry = self.lanes[c].ready[index];
            proof {
                wake_nothing(v.groups, v.records);
                requeued_indexed(v, self@, before, c as int, Seq::empty());
                let e0 = before[index as int];
                assert(lane0.ready.contains(e0));
                assert(lane0.lists(e0));
                listed_either(v, c as int, e0);
                assert(present(v.records, e0.id));
                removal(before, index as int);
            }
            let _ = self.take_ready(class, index);
            self.lower_runnable(class);
            let ghost after = before.remove(index as int);
            proof {
                assert(holds(before, entry.id));
                assert(pending@.push(entry) + pop_order(after) =~= pending@ + (seq![entry]
                    + pop_order(after)));
                requeued_indexed(v, self@, before, c as int, Seq::empty());
            }
            pending.push(entry);
            let found = self.find(entry.id);
            if let Some(k) = found {
                proof {
                    requeue_one(v.records, before, after, c as int, k as int);
                }
                let record = self.records[k];
                self.set_record(k, Record { stage: Stage::DeferredReady, ..record });
            }
            proof {
                assert forall|k: int| 0 <= k < after.len() implies lane0.ready.contains(
                    #[trigger] after[k],
                ) by {
                    assert(after[k] == before[if k < index {
                        k
                    } else {
                        k + 1
                    }]);
                }
            }
        }
        proof {
            let rest = self@.lanes[c as int].ready;
            assert(rest =~= Seq::empty());
            assert(pop_order(rest) =~= Seq::empty());
            assert(pending@ + pop_order(rest) =~= pending@);
            assert(pending@ == pop_order(lane0.ready));
        }
        let ghost last = *self;
        pending.append(&mut self.lanes[c].deferred);
        self.lanes[c].deferred = pending;
        proof {
            Self::lane_replaced(last, *self, c as int);
            assert(self@.lanes =~= v.lanes.update(c as int, lane0.merged()));
        }
    }

    /// Refills the runnable window of a class. Ready and deferred work are both
    /// unhanded: while some of it is deferred the window is filled again from
    /// all of it, so capacity pressure cannot freeze a background resource
    /// ahead of newly urgent work. Ordinary work keeps its order.
    #[verifier::rlimit(60)]
    fn promote(&mut self, class: SWExecutionClass)
        requires
            old(self)@.wf(),
        ensures
            final(self)@.wf(),
            final(self)@ == old(self)@.promoted(class.slot()),
    {
        let c: usize = class.index();
        let limit: usize = self.limits.runnable_for(class);
        let ghost v = self@;
        let ghost lane0 = self@.lanes[c as int];
        let ghost merged = lane0.merged();
        proof {
            assert(v.lane_ok(c as int));
            merged_keeps(lane0);
            requeue_nothing(v, c as int);
            wake_nothing(v.groups, v.records);
            promoted_wf(v, c as int);
        }
        if self.lanes[c].deferred.len() > 0 {
            self.merge(class);
        }
        proof {
            assert(merged.ready.skip(merged.ready.len() as int) =~= Seq::empty());
        }
        loop
            invariant
                c == class.slot(),
                0 <= c < 3,
                v.wf(),
                v == old(self)@,
                limit == v.limits.runnable@[c as int],
                lane0 == v.lanes[c as int],
                merged == lane0.merged(),
                self@.lanes.len() == 3,
                self@.lanes[c as int].unique(),
                forall|e: QueueEntry| #[trigger]
                    self@.lanes[c as int].lists(e) ==> lane0.lists(e),
                self@.lanes[c as int].filled(limit as int) == merged.filled(limit as int),
                merged.ready.len() <= self@.lanes[c as int].ready.len(),
                self@ == (SchedulerView {
                    records: requeued(v.records, self@.lanes[c as int].ready, c as int),
                    groups: woken(
                        v.groups,
                        v.records,
                        self@.lanes[c as int].ready.skip(merged.ready.len() as int),
                    ),
                    lanes: v.lanes.update(c as int, self@.lanes[c as int]),
                    ..v
                }),
            ensures
                self@.lanes[c as int] == merged.filled(limit as int),
            decreases self@.lanes[c as int].deferred.len(),
        {
            if self.lanes[c].runnable >= limit {
                break;
            }
            let selected = select(&self.lanes[c].deferred);
            let index: usize = match selected {
                Some(index) => index,
                None => {
                    break;
                },
            };
            let ghost before = self@.lanes[c as int];
            let ghost base = merged.ready.len() as int;
            let ghost known = before.ready.skip(base);
            proof {
                advanced_keeps(before);
                let e0 = before.deferred[index as int];
                assert(before.lists(e0)) by {
                    assert(before.deferred.contains(e0));
                }
                listed_either(v, c as int, e0);
                assert(present(v.records, e0.id));
                requeued_indexed(v, self@, before.ready, c as int, known);
            }
            let entry = self.take_deferred(class, index);
            self.push_ready(class, entry);
            let ghost after = before.advanced();
            proof {
                requeued_indexed(v, self@, before.ready, c as int, known);
            }
            if let Some(k) = self.find(entry.id) {
                let record = self.records[k];
                proof {
                    assert(after.ready[after.ready.len() - 1].id == entry.id);
                    assert(holds(after.ready, entry.id));
                    assert(holds(before.deferred, entry.id));
                    addition(before.ready, entry);
                    requeue_one(v.records, before.ready, after.ready, c as int, k as int);
                    assert(after.ready.skip(base) =~= known.push(entry));
                    wake_one(v.groups, v.records, known, entry);
                    if let Some(group) = record.group {
                        assert(v.records[k as int].group == Some(group));
                        let g = group_slot(v.groups, group);
                        assert(group_at(v.groups, g, group));
                        assert(group_at(self@.groups, g, group));
                        group_found(self@.groups, g, group);
                    }
                }
                self.set_record(k, Record { stage: Stage::Ready, ..record });
                proof {
                    let ready_records = self@;
                    requeued_indexed(v, ready_records, after.ready, c as int, known);
                }
                self.notify_group(record.group);
            }
        }
        proof {
            assert(self@.lanes =~= v.lanes.update(c as int, merged.filled(limit as int)));
        }
    }
}

/// An accepted job.
#[derive(Clone, Copy, Debug, PartialEq, Eq, Structural)]
pub struct Accepted {
    pub id: u64,
    /// The caller claims and executes the job itself.
    pub inline: bool,
}

/// A claimed job, to be executed in this context.
#[derive(Clone, Copy, Debug, PartialEq, Eq, Structural)]
pub struct Claim {
    pub class: SWExecutionClass,
    pub group: Option<u64>,
}

/// What ends a record's cleanup.
#[derive(Clone, Copy, Debug, PartialEq, Eq, Structural)]
pub enum FinishStep {
    /// The record has gone.
    Gone,
    /// Prerequisites are still being attached; the end of that continues.
    Parked,
    /// Detach the remaining edges, publish, then finalize the record.
    Publish,
}

/// A record that has settled for good.
#[derive(Clone, Copy, Debug)]
pub struct Finalized {
    pub record: Record,
    /// A group that settled with it, and the status to publish.
    pub settled_group: Option<(u64, SWTaskStatus)>,
}

impl OwnedScheduler {
    /// Takes a record out of the ready queue of its class.
    fn remove_ready(&mut self, class: SWExecutionClass, id: u64)
        requires
            old(self)@.wf(),
            holds(old(self)@.lanes[class.slot()].ready, id),
        ensures
            final(self)@ == old(self)@.with_lane(
                class.slot(),
                LaneView {
                    ready: unqueued(old(self)@.lanes[class.slot()].ready, id),
                    ..old(self)@.lanes[class.slot()]
                },
            ),
    {
        let c: usize = class.index();
        proof {
            assert(self@.lane_ok(c as int));
        }
        let ghost q = self@.lanes[c as int].ready;
        let mut index: usize = 0;
        while index < self.lanes[c].ready.len() && self.lanes[c].ready[index].id != id
            invariant
                c == class.slot(),
                c < 3,
                self.lanes@.len() == 3,
                self@ == old(self)@,
                q == self@.lanes[c as int].ready,
                holds(q, id),
                distinct(q),
                index <= q.len(),
                forall|i: int| 0 <= i < index ==> (#[trigger] q[i]).id != id,
            decreases q.len() - index,
        {
            assert(q[index as int].id != id);
            index += 1;
        }
        proof {
            let p = position(q, id);
            assert(0 <= p < q.len() && q[p].id == id);
            position_is(q, index as int);
        }
        let _ = self.take_ready(class, index);
    }

    /// Takes a record out of the deferred queue of its class.
    fn remove_deferred(&mut self, class: SWExecutionClass, id: u64)
        requires
            old(self)@.wf(),
            holds(old(self)@.lanes[class.slot()].deferred, id),
        ensures
            final(self)@ == old(self)@.with_lane(
                class.slot(),
                LaneView {
                    deferred: unqueued(old(self)@.lanes[class.slot()].deferred, id),
                    ..old(self)@.lanes[class.slot()]
                },
            ),
    {
        let c: usize = class.index();
        proof {
            assert(self@.lane_ok(c as int));
        }
        let ghost q = self@.lanes[c as int].deferred;
        let mut index: usize = 0;
        while index < self.lanes[c].deferred.len() && self.lanes[c].deferred[index].id != id
            invariant
                c == class.slot(),
                c < 3,
                self.lanes@.len() == 3,
                self@ == old(self)@,
                q == self@.lanes[c as int].deferred,
                holds(q, id),
                distinct(q),
                index <= q.len(),
                forall|i: int| 0 <= i < index ==> (#[trigger] q[i]).id != id,
            decreases q.len() - index,
        {
            assert(q[index as int].id != id);
            index += 1;
        }
        proof {
            let p = position(q, id);
            assert(0 <= p < q.len() && q[p].id == id);
            position_is(q, index as int);
        }
        let _ = self.take_deferred(class, index);
    }

    /// Takes a record out of its queue and into a later stage, and reports
    /// whether it occupied the runnable window.
    fn withdraw(&mut self, k: usize, stage: Stage) -> (freed: bool)
        requires
            old(self)@.wf(),
            k < old(self)@.records.len(),
            unclaimed(old(self)@.records[k as int].stage),
            stage == Stage::Finalizing || (stage == Stage::Running && !old(self)@.abandoned && (old(self)@.records[k as int].stage == Stage::Ready || old(self)@.records[k as int].stage
                == Stage::Handed)),
        ensures
            final(self)@.wf(),
            final(self)@ == old(self)@.withdrawn(old(self)@.records[k as int].id, stage),
            freed == (old(self)@.records[k as int].stage == Stage::Ready || old(self)@.records[k as int].stage == Stage::Handed),
    {
        let record = self.records[k];
        let ghost v = self@;
        let ghost c = record.class.slot();
        proof {
            queue_stage(v, k as int);
            withdrawn_wf(v, record.id, stage);
            assert(v.lanes =~= v.lanes.update(c, v.lanes[c]));
        }
        let freed = match record.stage {
            Stage::Ready => {
                self.remove_ready(record.class, record.id);
                true
            },
            Stage::DeferredReady => {
                self.remove_deferred(record.class, record.id);
                false
            },
            Stage::Handed => true,
            _ => false,
        };
        if freed {
            self.lower_runnable(record.class);
        }
        self.set_record(k, Record { stage, ..record });
        proof {
            let w = v.withdrawn(record.id, stage);
            assert(self@.lanes =~= w.lanes);
        }
        freed
    }

    /// Suppresses a job that has not been claimed. Hands back the status that
    /// it settles with, or none where it has gone or was claimed.
    pub fn suppress(&mut self, id: u64, status: SWTaskStatus) -> (settled: Option<SWTaskStatus>)
        requires
            old(self)@.wf(),
        ensures
            final(self)@.wf(),
            settled == old(self)@.suppression(id, status),
            final(self)@ == (if settled is Some {
                old(self)@.suppressed(id)
            } else {
                old(self)@
            }),
    {
        let k: usize = match self.find(id) {
            Some(k) => k,
            None => {
                return None;
            },
        };
        let record = self.records[k];
        let status = if self.abandoned {
            SWTaskStatus::Abandoned
        } else {
            status
        };
        match record.stage {
            Stage::Running | Stage::Finalizing => {
                return None;
            },
            _ => {},
        }
        let freed = self.withdraw(k, Stage::Finalizing);
        if freed {
            self.promote(record.class);
        }
        Some(status)
    }

    /// Claims a ready or handed-out job for execution, on a worker or on a
    /// participating caller. Whoever receives the claim executes the job.
    pub fn claim(&mut self, id: u64, caller: bool) -> (claim: Option<Claim>)
        requires
            old(self)@.wf(),
        ensures
            final(self)@.wf(),
            claim is Some <==> old(self)@.claimable(id, caller),
            forall|i: int|
                0 <= i < old(self)@.records.len() && (#[trigger] old(self)@.records[i]).id == id
                    ==> {
                    let r = old(self)@.records[i];
                    claim is Some <==> !old(self)@.abandoned && (r.stage == Stage::Ready || r.stage
                        == Stage::Handed) && (caller ==> r.eligibility
                        == SWCallerEligibility::CallerEligible)
                },
            match claim {
                Some(claim) => {
                    &&& claim == (Claim {
                        class: old(self)@.get(id).class,
                        group: old(self)@.get(id).group,
                    })
                    &&& final(self)@ == old(self)@.claimed(id)
                },
                None => final(self)@ == old(self)@,
            },
    {
        let ghost v = self@;
        proof {
            assert forall|i: int|
                0 <= i < v.records.len() && (#[trigger] v.records[i]).id == id implies (v.claimable(
                id,
                caller,
            ) <==> !v.abandoned && (v.records[i].stage == Stage::Ready || v.records[i].stage
                == Stage::Handed) && (caller ==> v.records[i].eligibility
                == SWCallerEligibility::CallerEligible)) by {
                claims_and_suppressions_by_stage(v, i, caller, SWTaskStatus::Cancelled);
            }
        }
        if self.abandoned {
            return None;
        }
        let k: usize = match self.find(id) {
            Some(k) => k,
            None => {
                return None;
            },
        };
        let record = self.records[k];
        match record.stage {
            Stage::Ready | Stage::Handed => {},
            _ => {
                return None;
            },
        }
        if caller && record.eligibility != SWCallerEligibility::CallerEligible {
            return None;
        }
        let _ = self.withdraw(k, Stage::Running);
        self.promote(record.class);
        Some(Claim { class: record.class, group: record.group })
    }

    /// Takes the report of one prerequisite.
    #[verifier::spinoff_prover]
    #[verifier::rlimit(50)]
    pub fn activate_prerequisite(&mut self, id: u64, status: SWTaskStatus) -> (activated: Activated)
        requires
            old(self)@.wf(),
        ensures
            final(self)@.wf(),
            activated == old(self)@.activation(id, status),
            final(self)@ == old(self)@.activated(id, status),
            forall|i: int|
                0 <= i < old(self)@.records.len() && (#[trigger] old(self)@.records[i]).id == id
                    ==> {
                    let r = old(self)@.records[i];
                    let s = final(self)@.records[i];
                    let failed = r.failed || status != SWTaskStatus::Succeeded;
                    &&& activated == Activated::Ignored <==> r.stage != Stage::Waiting
                    &&& activated == Activated::Pending <==> r.stage == Stage::Waiting && r.pending
                        > 1
                    &&& activated == Activated::Suppressed <==> r.stage == Stage::Waiting
                        && r.pending == 1 && failed && r.policy == SWDependencyPolicy::SuccessOnly
                    &&& r.stage == Stage::Waiting ==> s.pending + 1 == r.pending && s.failed
                        == failed
                },
    {
        let ghost v = self@;
        proof {
            activated_wf(v, id, status);
            reports_accumulate(v, id, status);
        }
        let k: usize = match self.find(id) {
            Some(k) => k,
            None => {
                return Activated::Ignored;
            },
        };
        let mut record = self.records[k];
        if record.stage != Stage::Waiting {
            return Activated::Ignored;
        }
        proof {
            assert(record_ok(v.records[k as int], v.abandoned));
            queue_stage(v, k as int);
        }
        record.pending = record.pending - 1;
        if !status.is_success() {
            record.failed = true;
        }
        if record.pending != 0 {
            self.set_record(k, record);
            return Activated::Pending;
        }
        if record.failed && record.policy == SWDependencyPolicy::SuccessOnly {
            record.stage = Stage::Finalizing;
            self.set_record(k, record);
            return Activated::Suppressed;
        }
        let c: usize = record.class.index();
        let entry = QueueEntry { id, demand: record.demand };
        if self.lanes[c].runnable < self.limits.runnable_for(record.class) {
            self.push_ready(record.class, entry);
            record.stage = Stage::Ready;
            self.set_record(k, record);
            proof {
                if let Some(group) = record.group {
                    assert(v.records[k as int].group == Some(group));
                }
                with_indexed(v, self@, k as int, record);
            }
            self.notify_group(record.group);
            proof {
                assert(self@ =~= v.activated(id, status));
            }
            Activated::Ready
        } else {
            self.push_deferred(record.class, entry);
            record.stage = Stage::DeferredReady;
            self.set_record(k, record);
            Activated::Deferred
        }
    }

    /// Returns one wrapper's place in the handoff allowance.
    pub fn decrement_handoff(&mut self, class: SWExecutionClass)
        requires
            old(self)@.wf(),
            old(self)@.lanes[class.slot()].handed_off > 0,
        ensures
            final(self)@.wf(),
            final(self)@ == old(self)@.with_lane(
                class.slot(),
                LaneView {
                    handed_off: old(self)@.lanes[class.slot()].handed_off - 1,
                    ..old(self)@.lanes[class.slot()]
                },
            ),
    {
        let c: usize = class.index();
        self.lanes[c].handed_off = self.lanes[c].handed_off - 1;
        proof {
            Self::lane_replaced(*old(self), *self, c as int);
            assert forall|d: int| 0 <= d < 3 implies #[trigger] self@.lane_ok(d) by {
                assert(old(self)@.lane_ok(d));
            }
            assert forall|g: int| 0 <= g < self@.groups.len() implies #[trigger] self@.group_ok(
                g,
            ) by {
                assert(old(self)@.group_ok(g));
            }
        }
    }

    /// Refills the runnable window of a class and hands out its next job,
    /// unless the handoff allowance is used up.
    pub fn dispatch_one(&mut self, class: SWExecutionClass) -> (handed: Option<u64>)
        requires
            old(self)@.wf(),
        ensures
            final(self)@.wf(),
            handed == old(self)@.handoff(class.slot()),
            final(self)@ == old(self)@.dispatched(class.slot()),
    {
        let c: usize = class.index();
        let ghost v = self@;
        proof {
            dispatched_wf(v, c as int);
        }
        if self.abandoned {
            return None;
        }
        self.promote(class);
        let ghost p = self@;
        if self.lanes[c].handed_off >= self.limits.handoff_for(class) {
            return None;
        }
        let index: usize = match select(&self.lanes[c].ready) {
            Some(index) => index,
            None => {
                return None;
            },
        };
        let entry = self.take_ready(class, index);
        let ghost taken = *self;
        proof {
            assert(self@.lanes.len() == 3);
            assert(self@.lanes[c as int] == self.lanes@[c as int]@);
        }
        self.lanes[c].handed_off = self.lanes[c].handed_off + 1;
        proof {
            Self::lane_replaced(taken, *self, c as int);
            assert(p.indexed());
        }
        if let Some(k) = self.find(entry.id) {
            let record = self.records[k];
            self.set_record(k, Record { stage: Stage::Handed, ..record });
        }
        proof {
            assert(self@.lanes =~= v.dispatched(c as int).lanes);
        }
        Some(entry.id)
    }

    /// Marks a claimed job as executed: cleanup and publication remain.
    pub fn settle(&mut self, id: u64)
        requires
            old(self)@.wf(),
        ensures
            final(self)@.wf(),
            final(self)@ == (if old(self)@.has(id) && old(self)@.get(id).stage == Stage::Running {
                old(self)@.noted(id, Record { stage: Stage::Finalizing, ..old(self)@.get(id) })
            } else {
                old(self)@
            }),
    {
        if let Some(k) = self.find(id) {
            let record = self.records[k];
            if record.stage == Stage::Running {
                let next = Record { stage: Stage::Finalizing, ..record };
                proof {
                    assert(record_ok(self@.records[k as int], self@.abandoned));
                    noted_wf(self@, id, next);
                }
                self.set_record(k, next);
            }
        }
    }

    /// Ends the cleanup of an executed or suppressed job. While prerequisites
    /// are still being attached, the status waits for that to end.
    pub fn finish_record(&mut self, id: u64, status: SWTaskStatus) -> (step: FinishStep)
        requires
            old(self)@.wf(),
            old(self)@.has(id) ==> old(self)@.get(id).stage == Stage::Finalizing && old(self)@.get(
                id,
            ).parked is None && old(self)@.get(id).outcome is None,
        ensures
            final(self)@.wf(),
            if !old(self)@.has(id) {
                step == FinishStep::Gone && final(self)@ == old(self)@
            } else if old(self)@.get(id).attaching {
                step == FinishStep::Parked && final(self)@ == old(self)@.noted(
                    id,
                    Record { parked: Some(status), ..old(self)@.get(id) },
                )
            } else {
                step == FinishStep::Publish && final(self)@ == old(self)@.noted(
                    id,
                    Record { outcome: Some(status), ..old(self)@.get(id) },
                )
            },
    {
        let k: usize = match self.find(id) {
            Some(k) => k,
            None => {
                return FinishStep::Gone;
            },
        };
        let record = self.records[k];
        proof {
            assert(record_ok(self@.records[k as int], self@.abandoned));
        }
        if record.attaching {
            let next = Record { parked: Some(status), ..record };
            proof {
                noted_wf(self@, id, next);
            }
            self.set_record(k, next);
            FinishStep::Parked
        } else {
            let next = Record { outcome: Some(status), ..record };
            proof {
                noted_wf(self@, id, next);
            }
            self.set_record(k, next);
            FinishStep::Publish
        }
    }

    /// Ends the attachment of prerequisites. Hands back a terminal status that
    /// waited for it, which is published now.
    pub fn attached(&mut self, id: u64) -> (parked: Option<SWTaskStatus>)
        requires
            old(self)@.wf(),
        ensures
            final(self)@.wf(),
            parked == (if old(self)@.has(id) {
                old(self)@.get(id).parked
            } else {
                None
            }),
            final(self)@ == (if old(self)@.has(id) {
                old(self)@.noted(
                    id,
                    Record {
                        attaching: false,
                        parked: None,
                        outcome: if old(self)@.get(id).parked is Some {
                            old(self)@.get(id).parked
                        } else {
                            old(self)@.get(id).outcome
                        },
                        ..old(self)@.get(id)
                    },
                )
            } else {
                old(self)@
            }),
    {
        let k: usize = match self.find(id) {
            Some(k) => k,
            None => {
                return None;
            },
        };
        let record = self.records[k];
        let outcome = match record.parked {
            Some(status) => Some(status),
            None => record.outcome,
        };
        let next = Record { attaching: false, parked: None, outcome, ..record };
        proof {
            assert(record_ok(self@.records[k as int], self@.abandoned));
            noted_wf(self@, id, next);
        }
        self.set_record(k, next);
        record.parked
    }

    /// Removes a record whose publication is done. Its edges and its group
    /// membership end; its capacity and admission are returned by the caller.
    pub fn finalize_record(&mut self, id: u64) -> (finalized: Option<Finalized>)
        requires
            old(self)@.wf(),
        ensures
            final(self)@.wf(),
            finalized is Some <==> old(self)@.removable(id),
            match finalized {
                Some(finalized) => {
                    &&& finalized.record == old(self)@.get(id)
                    &&& finalized.settled_group == old(self)@.settles_group(id)
                    &&& final(self)@ == old(self)@.finalized(id)
                },
                None => final(self)@ == old(self)@,
            },
    {
        let ghost v = self@;
        let k: usize = match self.find(id) {
            Some(k) => k,
            None => {
                return None;
            },
        };
        let record = self.records[k];
        if record.outcome.is_none() {
            return None;
        }
        proof {
            finalized_wf(v, id);
        }
        let mut settled_group: Option<(u64, SWTaskStatus)> = None;
        if let Some(group) = record.group {
            if let Some(g) = self.find_group(group) {
                proof {
                    assert(v.group_ok(g as int));
                }
                let terminal = self.groups[g].finish(record.outcome);
                if let Some(status) = terminal {
                    settled_group = Some((group, status));
                }
                if self.groups[g].pending == 0 && self.groups[g].public_handles == 0 {
                    let _ = self.groups.remove(g);
                }
            }
        }
        let _ = self.records.remove(k);
        self.edges = self.edges - record.edges;
        Some(Finalized { record, settled_group })
    }
}

impl OwnedScheduler {
    fn has_band(&self, priority: SWPriority) -> (found: bool)
        ensures
            found == self@.bands.contains(priority),
    {
        let mut index: usize = 0;
        while index < self.bands.len()
            invariant
                index <= self.bands@.len(),
                forall|i: int| 0 <= i < index ==> self.bands@[i] != priority,
            decreases self.bands@.len() - index,
        {
            if self.bands[index] == priority {
                assert(self.bands@[index as int] == priority);
                return true;
            }
            index += 1;
        }
        false
    }

    /// Why a job would be refused now, if it would be.
    pub fn check_submit(&self, request: &SubmitRequest) -> (error: Option<SWSpawnError>)
        requires
            self@.wf(),
        ensures
            error == self@.submit_error(*request),
            error is None ==> !self@.abandoned,
            request.group matches Some(key) ==> (error is None ==> exists|g: int|
                0 <= g < self@.groups.len() && (#[trigger] self@.groups[g]).id == key.id
                    && self@.groups[g].class == request.class && !self@.groups[g].sealed),
    {
        let c: usize = request.class.index();
        proof {
            jobs_are_admitted_by_room(self@, *request);
            assert(self@.lane_ok(c as int));
        }
        if self.abandoned {
            return Some(SWSpawnError::Closed);
        }
        if let Some(selection) = request.demand {
            if !self.has_band(selection.priority) {
                return Some(SWSpawnError::InvalidPriority);
            }
        }
        if request.prerequisites > self.limits.edges {
            return Some(SWSpawnError::TooLarge);
        }
        if self.records.len() + self.external.len() >= self.limits.records {
            return Some(SWSpawnError::Full);
        }
        match self.edges.checked_add(request.prerequisites) {
            Some(edges) => {
                if edges > self.limits.edges {
                    return Some(SWSpawnError::Full);
                }
            },
            None => {
                return Some(SWSpawnError::Full);
            },
        }
        if let Some(group) = request.group {
            if group.runtime != request.runtime || group.class != request.class {
                return Some(SWSpawnError::InvalidGroup);
            }
            match self.find_group(group.id) {
                Some(g) => {
                    if self.groups[g].sealed || self.groups[g].class != request.class {
                        return Some(SWSpawnError::InvalidGroup);
                    }
                },
                None => {
                    return Some(SWSpawnError::InvalidGroup);
                },
            }
        }
        let saturated = self.is_saturated(request);
        let inline = self.is_inline(request);
        if inline && request.context.is_some() && !is_within_lane(
            request.context,
            request.runtime,
            request.class,
        ) {
            return Some(SWSpawnError::InvalidContext);
        }
        if saturated && !inline && !request.reserved {
            return Some(SWSpawnError::Full);
        }
        match &request.delivery {
            Some(delivery) => delivery.check(request.runtime),
            None => None,
        }
    }

    /// Whether a record is still here.
    pub fn knows(&self, id: u64) -> (known: bool)
        requires
            self@.wf(),
        ensures
            known == self@.has(id),
    {
        self.find(id).is_some()
    }

    /// Whether a submission gets as far as joining its wave.
    pub fn joins(&self, request: &SubmitRequest) -> (joins: bool)
        requires
            self@.wf(),
        ensures
            joins == self@.joins(*request),
    {
        let group = match request.group {
            Some(group) => group,
            None => {
                return false;
            },
        };
        if let Some(selection) = request.demand {
            if !self.has_band(selection.priority) {
                return false;
            }
        }
        if self.abandoned || request.prerequisites > self.limits.edges || self.records.len()
            + self.external.len() >= self.limits.records || request.prerequisites
            > self.limits.edges - self.edges {
            return false;
        }
        if group.runtime != request.runtime || group.class != request.class {
            return false;
        }
        match self.find_group(group.id) {
            Some(g) => !self.groups[g].sealed && self.groups[g].class == request.class,
            None => false,
        }
    }

    /// Whether everything but its promised delivery lets a job in.
    pub fn commits(&self, request: &SubmitRequest) -> (commits: bool)
        requires
            self@.wf(),
        ensures
            commits == self@.commits(*request),
    {
        let plain = SubmitRequest { delivery: None, ..*request };
        self.check_submit(&plain).is_none()
    }

    /// Makes helpers of a wave look again, as joining and leaving it does.
    pub fn revisit_group(&mut self, id: u64)
        requires
            old(self)@.wf(),
            group_present(old(self)@.groups, id),
        ensures
            final(self)@.wf(),
            final(self)@ == old(self)@.revisited(id),
    {
        if let Some(g) = self.find_group(id) {
            let mut group = self.groups[g];
            proof {
                assert(self@.group_ok(g as int));
            }
            group.notify_ready();
            group.notify_ready();
            proof {
                with_group_wf(self@, g as int, group);
            }
            self.groups.set(g, group);
        }
    }

    fn is_saturated(&self, request: &SubmitRequest) -> (saturated: bool)
        requires
            self@.wf(),
        ensures
            saturated == self@.saturated(*request),
    {
        let c: usize = request.class.index();
        request.prerequisites == 0 && self.lanes[c].runnable >= self.limits.runnable_for(
            request.class,
        )
    }

    /// Whether the caller would execute this job itself.
    fn is_inline(&self, request: &SubmitRequest) -> (inline: bool)
        requires
            self@.wf(),
        ensures
            inline == self@.inline(*request),
    {
        self.is_saturated(request) && request.allow_inline && request.options.eligibility
            == SWCallerEligibility::CallerEligible
    }

    /// Admits a job or refuses it, in which case nothing changes. An accepted
    /// job with prerequisites waits for them to be attached; one without is
    /// ready, or deferred beyond the runnable window.
    pub fn submit(&mut self, request: &SubmitRequest) -> (result: Result<Accepted, SWSpawnError>)
        requires
            old(self)@.wf(),
            old(self)@.next_id < u64::MAX,
        ensures
            final(self)@.wf(),
            match result {
                Ok(accepted) => {
                    &&& old(self)@.submit_error(*request) is None
                    &&& accepted == (Accepted {
                        id: old(self)@.next_id as u64,
                        inline: old(self)@.inline(*request),
                    })
                    &&& final(self)@ == old(self)@.submitted(*request)
                },
                Err(error) => {
                    &&& old(self)@.submit_error(*request) == Some(error)
                    &&& final(self)@ == old(self)@
                },
            },
    {
        match self.check_submit(request) {
            Some(error) => {
                return Err(error);
            },
            None => {},
        }
        let ghost v = self@;
        let c: usize = request.class.index();
        proof {
            submitted_wf(v, *request);
            runnable_bounded(v, c as int);
        }
        let saturated = self.is_saturated(request);
        let inline = self.is_inline(request);
        let stage = if request.prerequisites > 0 {
            Stage::Waiting
        } else if saturated && !inline {
            Stage::DeferredReady
        } else {
            Stage::Ready
        };
        let id: u64 = self.next_id;
        let mut group: Option<u64> = None;
        if let Some(key) = request.group {
            group = Some(key.id);
            if let Some(g) = self.find_group(key.id) {
                proof {
                    assert(v.group_ok(g as int));
                    members_bounded(v, g as int);
                }
                let _ = self.groups[g].add();
            }
        }
        self.next_id = id + 1;
        self.edges = self.edges + request.prerequisites;
        self.records.push(
            Record {
                id,
                class: request.class,
                group,
                pending: request.prerequisites,
                failed: false,
                policy: request.policy,
                stage,
                eligibility: request.options.eligibility,
                edges: request.prerequisites,
                attaching: request.prerequisites > 0,
                parked: None,
                outcome: None,
                demand: request.demand,
            },
        );
        let entry = QueueEntry { id, demand: request.demand };
        match stage {
            Stage::Ready => self.push_ready(request.class, entry),
            Stage::DeferredReady => self.push_deferred(request.class, entry),
            _ => {
                proof {
                    assert(v.lanes =~= v.lanes.update(c as int, v.lanes[c as int]));
                }
            },
        }
        Ok(Accepted { id, inline })
    }

    /// Claims the oldest member of a group that this caller may execute.
    pub fn help_group(&mut self, group: u64) -> (helped: Option<(u64, Claim)>)
        requires
            old(self)@.wf(),
        ensures
            final(self)@.wf(),
            match helped {
                Some((id, claim)) => {
                    &&& oldest_helpable(old(self)@.records, group, id)
                    &&& claim == (Claim { class: old(self)@.get(id).class, group: Some(group) })
                    &&& final(self)@ == old(self)@.claimed(id)
                },
                None => {
                    &&& forall|j: int|
                        0 <= j < old(self)@.records.len() ==> !helpable(
                            #[trigger] old(self)@.records[j],
                            group,
                        )
                    &&& final(self)@ == old(self)@
                },
            },
    {
        let mut index: usize = 0;
        while index < self.records.len()
            invariant
                self@ == old(self)@,
                self@.wf(),
                index <= self.records@.len(),
                forall|j: int| 0 <= j < index ==> !helpable(#[trigger] self@.records[j], group),
            decreases self.records@.len() - index,
        {
            let record = self.records[index];
            let member = match record.group {
                Some(id) => id == group,
                None => false,
            };
            if member && (record.stage == Stage::Ready || record.stage == Stage::Handed)
                && record.eligibility == SWCallerEligibility::CallerEligible {
                proof {
                    let v = self@;
                    found(v.records, index as int, record.id);
                    assert(record_ok(v.records[index as int], v.abandoned));
                    assert forall|j: int|
                        0 <= j < v.records.len() && helpable(
                            #[trigger] v.records[j],
                            group,
                        ) implies record.id <= v.records[j].id by {
                        if j > index {
                            assert(v.records[index as int].id < v.records[j].id);
                        }
                    }
                }
                return match self.claim(record.id, true) {
                    Some(claim) => Some((record.id, claim)),
                    None => None,
                };
            }
            index += 1;
        }
        None
    }

    /// Gives up everything unclaimed. Hands back the owned and the
    /// provider-owned records to settle as abandoned; nothing can be claimed
    /// from here on.
    pub fn abandon(&mut self) -> (settle: (Vec<u64>, Vec<u64>))
        requires
            old(self)@.wf(),
        ensures
            final(self)@.wf(),
            settle.0@ == unclaimed_ids(old(self)@.records),
            settle.1@ == unsettled_ids(old(self)@.external),
            final(self)@ == old(self)@.abandoned_all().external_abandoned(),
    {
        let ghost v = self@;
        let ghost w = v.abandoned_all().external_abandoned();
        proof {
            abandoned_all_wf(v);
            external_abandoned_wf(v.abandoned_all());
        }
        let mut ids: Vec<u64> = Vec::new();
        let mut index: usize = 0;
        while index < self.records.len()
            invariant
                index <= self.records@.len(),
                self.records@.len() == v.records.len(),
                w.records.len() == v.records.len(),
                w == v.abandoned_all().external_abandoned(),
                self@ == (SchedulerView { records: self.records@, ..v }),
                ids@ == unclaimed_ids(v.records.take(index as int)),
                forall|i: int| 0 <= i < index ==> #[trigger] self.records@[i] == w.records[i],
                forall|i: int|
                    index <= i < v.records.len() ==> #[trigger] self.records@[i] == v.records[i],
            decreases self.records@.len() - index,
        {
            let record = self.records[index];
            proof {
                assert(v.records.take(index + 1).drop_last() =~= v.records.take(index as int));
                assert(v.records.take(index + 1).last() == record);
            }
            match record.stage {
                Stage::Running | Stage::Finalizing => {},
                _ => {
                    ids.push(record.id);
                    self.records.set(index, Record { stage: Stage::Finalizing, ..record });
                },
            }
            index += 1;
        }
        proof {
            assert(v.records.take(index as int) =~= v.records);
            assert(self.records@ =~= w.records);
        }
        let mut results: Vec<u64> = Vec::new();
        let mut at_result: usize = 0;
        while at_result < self.external.len()
            invariant
                at_result <= self.external@.len(),
                self.external@.len() == v.external.len(),
                w == v.abandoned_all().external_abandoned(),
                self@ == (SchedulerView { records: w.records, external: self.external@, ..v }),
                results@ == unsettled_ids(v.external.take(at_result as int)),
                forall|i: int| 0 <= i < at_result ==> #[trigger] self.external@[i] == w.external[i],
                forall|i: int|
                    at_result <= i < v.external.len() ==> #[trigger] self.external@[i]
                        == v.external[i],
            decreases self.external@.len() - at_result,
        {
            let record = self.external[at_result];
            proof {
                assert(v.external.take(at_result + 1).drop_last() =~= v.external.take(
                    at_result as int,
                ));
                assert(v.external.take(at_result + 1).last() == record);
            }
            if !record.settling {
                results.push(record.id);
                self.external.set(at_result, ExternalRecord { id: record.id, settling: true });
            }
            at_result += 1;
        }
        proof {
            assert(v.external.take(at_result as int) =~= v.external);
            assert(self.external@ =~= w.external);
        }
        self.clear_lane(SWExecutionClass::Low);
        self.clear_lane(SWExecutionClass::Mid);
        self.clear_lane(SWExecutionClass::High);
        self.abandoned = true;
        proof {
            assert(self@.lanes =~= w.lanes);
        }
        (ids, results)
    }

    fn clear_lane(&mut self, class: SWExecutionClass)
        requires
            old(self)@.lanes.len() == 3,
        ensures
            final(self)@ == old(self)@.with_lane(
                class.slot(),
                LaneView {
                    ready: Seq::empty(),
                    deferred: Seq::empty(),
                    runnable: 0,
                    ..old(self)@.lanes[class.slot()]
                },
            ),
    {
        let c: usize = class.index();
        self.lanes[c].ready.clear();
        self.lanes[c].deferred.clear();
        self.lanes[c].runnable = 0;
        proof {
            Self::lane_replaced(*old(self), *self, c as int);
            assert(self.lanes@[c as int].ready@ =~= Seq::empty());
            assert(self.lanes@[c as int].deferred@ =~= Seq::empty());
        }
    }
}

impl OwnedScheduler {
    /// Starts an open wave with one public handle.
    pub fn group(&mut self, class: SWExecutionClass) -> (result: Result<u64, SWSpawnError>)
        requires
            old(self)@.wf(),
            old(self)@.next_group < u64::MAX,
        ensures
            final(self)@.wf(),
            match result {
                Ok(id) => {
                    &&& !old(self)@.abandoned
                    &&& id == old(self)@.next_group
                    &&& final(self)@ == old(self)@.with_new_group(class)
                },
                Err(error) => {
                    &&& old(self)@.abandoned
                    &&& error == SWSpawnError::Closed
                    &&& final(self)@ == old(self)@
                },
            },
    {
        if self.abandoned {
            return Err(SWSpawnError::Closed);
        }
        proof {
            with_new_group_wf(self@, class);
        }
        let id: u64 = self.next_group;
        self.next_group = id + 1;
        self.groups.push(GroupInner::new(id, class));
        Ok(id)
    }

    /// A wave, if it is still reachable.
    pub fn group_state(&self, id: u64) -> (group: Option<GroupInner>)
        requires
            self@.wf(),
        ensures
            group == (if group_present(self@.groups, id) {
                Some(self@.groups[group_slot(self@.groups, id)])
            } else {
                None
            }),
    {
        match self.find_group(id) {
            Some(g) => Some(self.groups[g]),
            None => None,
        }
    }

    /// Counts another public handle of a wave.
    pub fn retain_group(&mut self, id: u64) -> (retained: bool)
        requires
            old(self)@.wf(),
        ensures
            final(self)@.wf(),
            ({
                let g = group_slot(old(self)@.groups, id);
                let group = old(self)@.groups[g];
                &&& retained == (group_present(old(self)@.groups, id) && group.public_handles
                    < usize::MAX)
                &&& final(self)@ == (if retained {
                    old(self)@.with_group(
                        g,
                        GroupInner {
                            public_handles: (group.public_handles + 1) as usize,
                            ..group
                        },
                    )
                } else {
                    old(self)@
                })
            }),
    {
        match self.find_group(id) {
            Some(g) => {
                let mut group = self.groups[g];
                if group.public_handles == usize::MAX {
                    return false;
                }
                group.public_handles = group.public_handles + 1;
                proof {
                    assert(self@.group_ok(g as int));
                    with_group_wf(self@, g as int, group);
                }
                self.groups.set(g, group);
                true
            },
            None => false,
        }
    }

    /// Ends a public handle of a wave, and reports whether a sealed wave lost
    /// its last one. Accepted members go on; dropping observers never cancels
    /// work.
    pub fn release_group(&mut self, id: u64) -> (retired: bool)
        requires
            old(self)@.wf(),
        ensures
            final(self)@.wf(),
            ({
                let g = group_slot(old(self)@.groups, id);
                let group = old(self)@.groups[g];
                if group_present(old(self)@.groups, id) && group.public_handles > 0 {
                    &&& retired == (group.public_handles == 1 && group.sealed)
                    &&& final(self)@ == old(self)@.group_released(g)
                } else {
                    &&& !retired
                    &&& final(self)@ == old(self)@
                }
            }),
    {
        match self.find_group(id) {
            Some(g) => {
                let mut group = self.groups[g];
                if group.public_handles == 0 {
                    return false;
                }
                proof {
                    group_released_wf(self@, g as int);
                }
                group.public_handles = group.public_handles - 1;
                self.groups.set(g, group);
                if group.pending == 0 && group.public_handles == 0 {
                    let _ = self.groups.remove(g);
                }
                group.public_handles == 0 && group.sealed
            },
            None => false,
        }
    }

    /// Closes the membership of a wave. Hands back the status to publish where
    /// nobody is left in it.
    pub fn seal_group(&mut self, id: u64) -> (terminal: Option<SWTaskStatus>)
        requires
            old(self)@.wf(),
        ensures
            final(self)@.wf(),
            ({
                let g = group_slot(old(self)@.groups, id);
                let sealed = old(self)@.groups[g].closed_membership();
                if group_present(old(self)@.groups, id) {
                    &&& terminal == sealed.terminal_status()
                    &&& final(self)@ == old(self)@.with_group(g, sealed.handed_out())
                } else {
                    &&& terminal is None
                    &&& final(self)@ == old(self)@
                }
            }),
    {
        match self.find_group(id) {
            Some(g) => {
                let mut group = self.groups[g];
                proof {
                    assert(self@.group_ok(g as int));
                }
                let terminal = group.seal();
                proof {
                    with_group_wf(self@, g as int, group);
                }
                self.groups.set(g, group);
                terminal
            },
            None => None,
        }
    }

    /// Makes the terminal status of a settled wave visible.
    pub fn publish_group(&mut self, id: u64) -> (published: bool)
        requires
            old(self)@.wf(),
        ensures
            final(self)@.wf(),
            ({
                let g = group_slot(old(self)@.groups, id);
                let group = old(self)@.groups[g];
                &&& published == (group_present(old(self)@.groups, id) && group.publishing)
                &&& final(self)@ == (if published {
                    old(self)@.with_group(
                        g,
                        GroupInner { status: Some(group.verdict()), ..group }.notified(),
                    )
                } else {
                    old(self)@
                })
            }),
    {
        match self.find_group(id) {
            Some(g) => {
                let mut group = self.groups[g];
                if !group.publishing {
                    return false;
                }
                proof {
                    assert(self@.group_ok(g as int));
                }
                group.publish();
                proof {
                    with_group_wf(self@, g as int, group);
                }
                self.groups.set(g, group);
                true
            },
            None => false,
        }
    }

    /// Starts the next wave of a reusable owner in place of a settled one,
    /// keeping its storage only where no other handle refers to it.
    pub fn renew_group(&mut self, id: u64) -> (result: Result<u64, SWSpawnError>)
        requires
            old(self)@.wf(),
            old(self)@.next_group < u64::MAX,
            group_present(old(self)@.groups, id),
            old(self)@.groups[group_slot(old(self)@.groups, id)].status is Some,
            old(self)@.groups[group_slot(old(self)@.groups, id)].public_handles > 0,
        ensures
            final(self)@.wf(),
            match result {
                Ok(next) => {
                    let g = group_slot(old(self)@.groups, id);
                    &&& !old(self)@.abandoned
                    &&& next == old(self)@.next_group
                    &&& final(self)@ == old(self)@.with_new_group(
                        old(self)@.groups[g].class,
                    ).group_released(g)
                },
                Err(error) => {
                    &&& old(self)@.abandoned
                    &&& error == SWSpawnError::Closed
                    &&& final(self)@ == old(self)@
                },
            },
    {
        let class = match self.find_group(id) {
            Some(g) => self.groups[g].class,
            None => SWExecutionClass::Low,
        };
        match self.group(class) {
            Err(error) => Err(error),
            Ok(next) => {
                proof {
                    let g = group_slot(old(self)@.groups, id);
                    assert(group_at(old(self)@.groups, g, id));
                    assert(group_at(self@.groups, g, id));
                    group_found(self@.groups, g, id);
                }
                let _ = self.release_group(id);
                Ok(next)
            },
        }
    }

    /// Why a provider-owned result would be refused now, if it would be.
    pub fn check_external(
        &self,
        runtime: u64,
        priority: Option<SWPriority>,
        provider_demand: bool,
        delivery: Option<DeliveryClaim>,
    ) -> (error: Option<SWSpawnError>)
        requires
            self@.wf(),
        ensures
            error == self@.external_error(runtime, priority, provider_demand, delivery),
    {
        if self.abandoned {
            return Some(SWSpawnError::Closed);
        }
        if let Some(priority) = priority {
            if !self.has_band(priority) {
                return Some(SWSpawnError::InvalidPriority);
            }
        }
        if provider_demand && self.bands.len() == 0 {
            return Some(SWSpawnError::InvalidPriority);
        }
        if self.records.len() + self.external.len() >= self.limits.records {
            return Some(SWSpawnError::Full);
        }
        match delivery {
            Some(delivery) => delivery.check(runtime),
            None => None,
        }
    }

    /// Admits a provider-owned result, or refuses it and changes nothing.
    pub fn admit_external(
        &mut self,
        runtime: u64,
        priority: Option<SWPriority>,
        provider_demand: bool,
        delivery: Option<DeliveryClaim>,
    ) -> (result: Result<u64, SWSpawnError>)
        requires
            old(self)@.wf(),
            old(self)@.next_id < u64::MAX,
        ensures
            final(self)@.wf(),
            match result {
                Ok(id) => {
                    &&& old(self)@.external_error(runtime, priority, provider_demand, delivery)
                        is None
                    &&& id == old(self)@.next_id
                    &&& final(self)@ == old(self)@.with_external()
                },
                Err(error) => {
                    &&& old(self)@.external_error(runtime, priority, provider_demand, delivery)
                        == Some(error)
                    &&& final(self)@ == old(self)@
                },
            },
    {
        match self.check_external(runtime, priority, provider_demand, delivery) {
            Some(error) => {
                return Err(error);
            },
            None => {},
        }
        proof {
            with_external_wf(self@);
        }
        let id: u64 = self.next_id;
        self.next_id = id + 1;
        self.external.push(ExternalRecord { id, settling: false });
        Ok(id)
    }

    fn find_external(&self, id: u64) -> (found: Option<usize>)
        requires
            self@.indexed(),
        ensures
            match found {
                Some(i) => {
                    &&& external_at(self@.external, i as int, id)
                    &&& external_present(self@.external, id)
                    &&& self@.external_slot(id) == i
                },
                None => !external_present(self@.external, id),
            },
    {
        let mut index: usize = 0;
        while index < self.external.len()
            invariant
                self@.indexed(),
                index <= self.external@.len(),
                forall|i: int| 0 <= i < index ==> (#[trigger] self.external@[i]).id != id,
            decreases self.external@.len() - index,
        {
            if self.external[index].id == id {
                proof {
                    external_found(self@, index as int, id);
                }
                return Some(index);
            }
            index += 1;
        }
        proof {
            if external_present(self@.external, id) {
                let i = self@.external_slot(id);
                assert(external_at(self@.external, i, id));
                assert(self.external@[i].id == id);
            }
        }
        None
    }

    /// Claims the settlement of a provider-owned result. Whoever receives the
    /// claim publishes and then removes it.
    pub fn claim_external(&mut self, id: u64, abandonment: bool) -> (claimed: bool)
        requires
            old(self)@.wf(),
        ensures
            final(self)@.wf(),
            claimed == old(self)@.external_claimable(id, abandonment),
            final(self)@ == (if claimed {
                old(self)@.external_claimed(id)
            } else {
                old(self)@
            }),
    {
        if self.abandoned && !abandonment {
            return false;
        }
        match self.find_external(id) {
            Some(index) => {
                if self.external[index].settling {
                    return false;
                }
                proof {
                    external_claimed_wf(self@, id);
                }
                self.external.set(index, ExternalRecord { id, settling: true });
                true
            },
            None => false,
        }
    }

    /// Removes a provider-owned result after its publication.
    pub fn finish_external(&mut self, id: u64) -> (removed: bool)
        requires
            old(self)@.wf(),
        ensures
            final(self)@.wf(),
            removed == external_present(old(self)@.external, id),
            final(self)@ == (if removed {
                old(self)@.without_external(id)
            } else {
                old(self)@
            }),
    {
        match self.find_external(id) {
            Some(index) => {
                proof {
                    without_external_wf(self@, id);
                }
                let _ = self.external.remove(index);
                true
            },
            None => false,
        }
    }

    /// Whether one more record can be named.
    pub fn names_records(&self) -> (room: bool)
        ensures
            room == (self@.next_id < u64::MAX),
    {
        self.next_id < u64::MAX
    }

    /// Whether one more wave can be named.
    pub fn names_groups(&self) -> (room: bool)
        ensures
            room == (self@.next_group < u64::MAX),
    {
        self.next_group < u64::MAX
    }

    /// Whether unclaimed work was suppressed for good.
    pub fn is_abandoned(&self) -> (abandoned: bool)
        ensures
            abandoned == self@.abandoned,
    {
        self.abandoned
    }

    /// Changes the urgency of live resource work.
    pub fn update_demand(&mut self, id: u64, selection: Selection) -> (updated: bool)
        requires
            old(self)@.wf(),
        ensures
            final(self)@.wf(),
            updated == old(self)@.demanded(id),
            final(self)@ == (if updated {
                old(self)@.redemanded(id, selection)
            } else {
                old(self)@
            }),
    {
        let k: usize = match self.find(id) {
            Some(k) => k,
            None => {
                return false;
            },
        };
        let record = self.records[k];
        if record.demand.is_none() {
            return false;
        }
        let ghost v = self@;
        let c: usize = record.class.index();
        proof {
            redemanded_wf(v, id, selection);
            queue_stage(v, k as int);
        }
        let next = Record { demand: Some(selection), ..record };
        let entry = QueueEntry { id, demand: Some(selection) };
        match record.stage {
            Stage::Ready => {
                rerank_queue(&mut self.lanes[c].ready, entry);
            },
            Stage::DeferredReady => {
                rerank_queue(&mut self.lanes[c].deferred, entry);
            },
            _ => {},
        }
        proof {
            Self::lane_replaced(*old(self), *self, c as int);
        }
        self.set_record(k, next);
        proof {
            assert(self@.lanes =~= v.redemanded(id, selection).lanes);
        }
        true
    }

    /// Records in one stage.
    fn count_stage(&self, stage: Stage) -> (count: usize)
        ensures
            count == total(self@.records, in_stage(stage)),
    {
        let mut count: usize = 0;
        let mut index: usize = 0;
        while index < self.records.len()
            invariant
                index <= self.records@.len(),
                count <= index,
                count == total(self@.records.take(index as int), in_stage(stage)),
            decreases self.records@.len() - index,
        {
            proof {
                let next = self@.records.take(index + 1);
                assert(next.drop_last() =~= self@.records.take(index as int));
                assert(next.last() == self@.records[index as int]);
            }
            if self.records[index].stage == stage {
                count += 1;
            }
            index += 1;
        }
        proof {
            assert(self@.records.take(index as int) =~= self@.records);
        }
        count
    }

    /// A passive snapshot. Demand updates and provider callbacks are counted by
    /// the caller.
    pub fn progress(&self, demand_pending: bool, provider_callbacks: usize) -> (progress:
        SWSchedulerProgress)
        requires
            self@.wf(),
        ensures
            self@.shows(progress, demand_pending, provider_callbacks),
    {
        assert(self@.lanes.len() == 3);
        SWSchedulerProgress {
            waiting: self.count_stage(Stage::Waiting),
            ready: self.count_stage(Stage::Ready),
            deferred: self.count_stage(Stage::DeferredReady),
            handed: self.count_stage(Stage::Handed),
            running: self.count_stage(Stage::Running),
            finalizing: self.count_stage(Stage::Finalizing),
            handoff_wrappers: [
                self.lanes[0].handed_off,
                self.lanes[1].handed_off,
                self.lanes[2].handed_off,
            ],
            demand_pending,
            provider_callbacks,
            records_full: self.records.len() + self.external.len() >= self.limits.records,
            edges_full: self.edges >= self.limits.edges,
            runnable_full: [
                self.lanes[0].runnable >= self.limits.runnable[0],
                self.lanes[1].runnable >= self.limits.runnable[1],
                self.lanes[2].runnable >= self.limits.runnable[2],
            ],
            handoff_full: [
                self.lanes[0].handed_off >= self.limits.handoff[0],
                self.lanes[1].handed_off >= self.limits.handoff[1],
                self.lanes[2].handed_off >= self.limits.handoff[2],
            ],
        }
    }

    /// Whether no accepted work is left: no record, no provider-owned result,
    /// no wrapper at the backend.
    pub fn quiescent(&self) -> (quiescent: bool)
        requires
            self@.wf(),
        ensures
            quiescent == (self@.records.len() == 0 && self@.external.len() == 0 && forall|c: int|
                0 <= c < 3 ==> #[trigger] self@.lanes[c].handed_off == 0),
    {
        assert(self@.lanes.len() == 3);
        let quiet = self.lanes[0].handed_off == 0 && self.lanes[1].handed_off == 0
            && self.lanes[2].handed_off == 0;
        proof {
            assert(self@.lanes[0].handed_off == self.lanes@[0].handed_off);
            assert(self@.lanes[1].handed_off == self.lanes@[1].handed_off);
            assert(self@.lanes[2].handed_off == self.lanes@[2].handed_off);
        }
        self.records.len() == 0 && self.external.len() == 0 && quiet
    }
}

/// Gives a queued record another urgency.
fn rerank_queue(queue: &mut Vec<QueueEntry>, entry: QueueEntry)
    requires
        distinct(old(queue)@),
        holds(old(queue)@, entry.id),
    ensures
        final(queue)@ == reranked(old(queue)@, entry),
{
    let ghost q = queue@;
    let mut index: usize = 0;
    while index < queue.len() && queue[index].id != entry.id
        invariant
            queue@ == q,
            holds(q, entry.id),
            distinct(q),
            index <= q.len(),
            forall|i: int| 0 <= i < index ==> (#[trigger] q[i]).id != entry.id,
        decreases q.len() - index,
    {
        assert(q[index as int].id != entry.id);
        index += 1;
    }
    proof {
        let p = position(q, entry.id);
        assert(0 <= p < q.len() && q[p].id == entry.id);
        position_is(q, index as int);
    }
    queue.set(index, entry);
}

} // verus!
