//! What holds over every history of accepted work: reports of prerequisites,
//! members of waves, and settlements, however they interleave.
use crate::admission::SWDependencyPolicy;
use crate::admission::SWSpawnError;
use crate::config::SWExecutionClass;
use crate::group::GroupInner;
use crate::group::GroupKey;
use crate::guarantees::promoted_get;
use crate::guarantees::same_place;
use crate::guarantees::steps_stay_consistent;
use crate::guarantees::Step;
use crate::jobs::at;
use crate::jobs::found;
use crate::jobs::group_at;
use crate::jobs::group_found;
use crate::jobs::group_present;
use crate::jobs::group_slot;
use crate::jobs::member_of;
use crate::jobs::promoted_wf;
use crate::jobs::record_at;
use crate::jobs::record_ok;
use crate::jobs::unclaimed;
use crate::jobs::ExternalRecord;
use crate::jobs::SchedulerView;
use crate::jobs::Stage;
use crate::queue::LaneView;
use crate::queue::Selection;
use crate::steps::dispatched_wf;
use crate::steps::members_bounded;
use crate::steps::withdrawn_wf;
use crate::steps::Activated;
use crate::steps::SubmitRequest;
use crate::sums::total;
use crate::sums::total_bounds;
use crate::task::SWTaskStatus;
use vstd::prelude::*;

verus! {

/// What can happen to accepted work.
pub enum Event {
    Work(Step),
    /// A wave is opened.
    Open(SWExecutionClass),
    /// A wave, by its position, changes its own bookkeeping.
    Seal(int),
    Show(int),
    Look(int),
    /// The handles of a wave are counted anew.
    Handles(int, usize),
    /// A wave that nobody holds or belongs to is forgotten.
    Forget(int),
    Rank(u64, Selection),
    /// Provider-owned results come, are decided and go.
    Provide(Seq<ExternalRecord>, int),
    /// Handed-out work is counted anew.
    Return(int, int),
}

/// The event leads from one state to the next.
pub open spec fn leads(v: SchedulerView, w: SchedulerView, event: Event) -> bool {
    match event {
        Event::Work(step) => v.enabled(step) && w == v.after(step),
        Event::Open(class) => w == v.with_new_group(class),
        Event::Seal(g) => 0 <= g < v.groups.len() && w == v.with_group(
            g,
            v.groups[g].closed_membership().handed_out(),
        ),
        Event::Show(g) => 0 <= g < v.groups.len() && v.groups[g].publishing && w == v.with_group(
            g,
            GroupInner { status: Some(v.groups[g].verdict()), ..v.groups[g] }.notified(),
        ),
        Event::Look(g) => 0 <= g < v.groups.len() && w == v.with_group(g, v.groups[g].notified()),
        Event::Handles(g, public_handles) => 0 <= g < v.groups.len() && w == v.with_group(
            g,
            GroupInner { public_handles, ..v.groups[g] },
        ),
        Event::Forget(g) => 0 <= g < v.groups.len() && w == (SchedulerView {
            groups: v.groups.remove(g),
            ..v
        }),
        Event::Rank(id, selection) => v.demanded(id) && w == v.redemanded(id, selection),
        Event::Provide(external, next_id) => next_id >= v.next_id && w == (SchedulerView {
            external,
            next_id,
            ..v
        }),
        Event::Return(c, handed_off) => 0 <= c < 3 && w == v.with_lane(
            c,
            LaneView { handed_off, ..v.lanes[c] },
        ),
    }
}

/// States of accepted work, and the events between them.
pub open spec fn history(states: Seq<SchedulerView>, events: Seq<Event>) -> bool {
    &&& states.len() == events.len() + 1
    &&& forall|k: int| 0 <= k < states.len() ==> (#[trigger] states[k]).wf()
    &&& forall|k: int|
        0 <= k < events.len() ==> leads(states[k], states[k + 1], #[trigger] events[k])
}

/// The statuses that prerequisites reported to one job, oldest first.
pub open spec fn reports(events: Seq<Event>, id: u64) -> Seq<SWTaskStatus>
    decreases events.len(),
{
    if events.len() == 0 {
        Seq::empty()
    } else {
        let earlier = reports(events.drop_last(), id);
        match events.last() {
            Event::Work(Step::Activate(x, status)) => if x == id {
                earlier.push(status)
            } else {
                earlier
            },
            _ => earlier,
        }
    }
}

pub open spec fn all_succeeded(statuses: Seq<SWTaskStatus>) -> bool {
    forall|k: int| 0 <= k < statuses.len() ==> #[trigger] statuses[k] == SWTaskStatus::Succeeded
}

/// What an event that is no report to a job leaves of it.
spec fn undisturbed(v: SchedulerView, w: SchedulerView, id: u64) -> bool {
    &&& v.next_id <= w.next_id
    &&& w.has(id) && id < v.next_id ==> v.has(id)
    &&& v.has(id) && w.has(id) ==> {
        let r = v.get(id);
        let s = w.get(id);
        &&& s.pending == r.pending && s.failed == r.failed && s.policy == r.policy
        &&& s.stage == Stage::Waiting ==> r.stage == Stage::Waiting
        &&& r.stage == Stage::Waiting ==> s.stage == Stage::Waiting || s.stage
            == Stage::Finalizing
        &&& r.stage == Stage::Finalizing ==> s.stage == Stage::Finalizing
    }
}

proof fn submission_undisturbed(v: SchedulerView, request: SubmitRequest, id: u64)
    requires
        v.wf(),
        v.submitted(request).wf(),
    ensures
        undisturbed(v, v.submitted(request), id),
{
    let w = v.submitted(request);
    if w.has(id) {
        let j = at(w.records, id);
        assert(record_at(w.records, j, id));
        if j < v.records.len() {
            assert(record_at(v.records, j, id));
            found(v.records, j, id);
        }
    }
    if v.has(id) {
        let j = at(v.records, id);
        assert(record_at(v.records, j, id));
        assert(record_at(w.records, j, id));
        found(w.records, j, id);
    }
}

proof fn withdrawal_undisturbed(v: SchedulerView, x: u64, stage: Stage, id: u64)
    requires
        v.wf(),
        v.has(x),
        unclaimed(v.get(x).stage),
        stage == Stage::Finalizing || (stage == Stage::Running && !v.abandoned && (v.get(x).stage
            == Stage::Ready || v.get(x).stage == Stage::Handed)),
    ensures
        undisturbed(v, v.withdrawn(x, stage), id),
        undisturbed(v, v.withdrawn(x, stage).promoted(v.class_of(x)), id),
{
    withdrawn_wf(v, x, stage);
    let m = v.withdrawn(x, stage);
    assert(record_at(v.records, at(v.records, x), x));
    same_place(v, m, id);
    refill_undisturbed(m, v.class_of(x), id);
}

/// Refilling a window moves jobs between ready and deferred only.
proof fn refill_undisturbed(v: SchedulerView, c: int, id: u64)
    requires
        v.wf(),
        0 <= c < 3,
    ensures
        undisturbed(v, v.promoted(c), id),
        v.promoted(c).wf(),
{
    promoted_wf(v, c);
    promoted_get(v, c, id);
    same_place(v, v.promoted(c), id);
}

proof fn dispatch_undisturbed(v: SchedulerView, c: int, id: u64)
    requires
        v.wf(),
        0 <= c < 3,
    ensures
        undisturbed(v, v.dispatched(c), id),
{
    let m = v.promoted(c);
    let w = v.dispatched(c);
    refill_undisturbed(v, c, id);
    dispatched_wf(v, c);
    if !v.abandoned {
        if let Some(x) = v.handoff(c) {
            let k = at(m.records, x);
            assert(record_at(m.records, k, x));
            assert(m.lane_ok(c));
        }
        same_place(m, w, id);
    }
}

proof fn removal_undisturbed(v: SchedulerView, x: u64, id: u64)
    requires
        v.wf(),
        v.removable(x),
        v.finalized(x).wf(),
    ensures
        undisturbed(v, v.finalized(x), id),
{
    let w = v.finalized(x);
    let k = at(v.records, x);
    assert(record_at(v.records, k, x));
    if w.has(id) {
        let j = at(w.records, id);
        assert(record_at(w.records, j, id));
        let o = if j < k {
            j
        } else {
            j + 1
        };
        assert(w.records[j] == v.records[o]);
        assert(record_at(v.records, o, id));
        found(v.records, o, id);
    }
}

/// One record changes; every other one stays.
proof fn change_undisturbed(v: SchedulerView, w: SchedulerView, x: u64, id: u64)
    requires
        v.wf(),
        w.wf(),
        v.has(x),
        w.records == v.records.update(at(v.records, x), w.records[at(v.records, x)]),
        w.records[at(v.records, x)].id == x,
        w.next_id == v.next_id,
    ensures
        w.has(id) <==> v.has(id),
        v.has(id) && id != x ==> w.get(id) == v.get(id),
        w.get(x) == w.records[at(v.records, x)],
        at(w.records, x) == at(v.records, x),
{
    let i = at(v.records, x);
    assert(record_at(v.records, i, x));
    same_place(v, w, id);
    same_place(v, w, x);
    if v.has(id) && id != x {
        assert(record_at(v.records, at(v.records, id), id));
    }
}

/// A step that keeps the books of one job leaves what jobs wait for.
proof fn note_undisturbed(v: SchedulerView, step: Step, x: u64, id: u64)
    requires
        v.wf(),
        v.enabled(step),
        v.after(step).wf(),
        match step {
            Step::Settle(y) => x == y,
            Step::Finish(y, _) => x == y,
            Step::Attached(y) => x == y,
            Step::Activate(y, _) => x == y && x != id,
            _ => false,
        },
    ensures
        undisturbed(v, v.after(step), id),
{
    assert(record_at(v.records, at(v.records, x), x));
    change_undisturbed(v, v.after(step), x, id);
}

proof fn work_undisturbed(v: SchedulerView, step: Step, id: u64)
    requires
        v.wf(),
        v.enabled(step),
        v.after(step).wf(),
        !(step matches Step::Activate(x, _) && x == id),
    ensures
        undisturbed(v, v.after(step), id),
{
    match step {
        Step::Submit(request) => submission_undisturbed(v, request, id),
        Step::Suppress(x, _) => withdrawal_undisturbed(v, x, Stage::Finalizing, id),
        Step::Claim(x, _) => withdrawal_undisturbed(v, x, Stage::Running, id),
        Step::Dispatch(class) => dispatch_undisturbed(v, class.slot(), id),
        Step::Finalize(x) => removal_undisturbed(v, x, id),
        Step::Activate(x, _) => note_undisturbed(v, step, x, id),
        Step::Settle(x) => note_undisturbed(v, step, x, id),
        Step::Finish(x, _) => note_undisturbed(v, step, x, id),
        Step::Attached(x) => note_undisturbed(v, step, x, id),
        Step::Abandon => same_place(v, v.after(step), id),
    }
}

/// An event that is no report to a job leaves what the job waits for.
proof fn others_undisturbed(v: SchedulerView, w: SchedulerView, event: Event, id: u64)
    requires
        v.wf(),
        w.wf(),
        leads(v, w, event),
        !(event matches Event::Work(Step::Activate(x, _)) && x == id),
    ensures
        undisturbed(v, w, id),
{
    match event {
        Event::Work(step) => work_undisturbed(v, step, id),
        Event::Rank(x, _) => {
            assert(record_at(v.records, at(v.records, x), x));
            change_undisturbed(v, w, x, id);
        },
        _ => {
            assert(w.records == v.records);
        },
    }
}

/// What a job was told so far, and how far that has brought it.
spec fn told(v: SchedulerView, id: u64, request: SubmitRequest, statuses: Seq<SWTaskStatus>) -> bool {
    &&& id < v.next_id
    &&& v.has(id) ==> {
        let r = v.get(id);
        &&& r.policy == request.policy
        &&& r.stage == Stage::Waiting ==> {
            &&& r.pending + statuses.len() == request.prerequisites
            &&& r.failed <==> !all_succeeded(statuses)
        }
        &&& r.stage != Stage::Waiting && r.stage != Stage::Finalizing ==> {
            &&& statuses.len() == request.prerequisites
            &&& request.policy == SWDependencyPolicy::SuccessOnly ==> all_succeeded(statuses)
        }
    }
}

proof fn report_told(
    v: SchedulerView,
    id: u64,
    request: SubmitRequest,
    statuses: Seq<SWTaskStatus>,
    status: SWTaskStatus,
)
    requires
        v.wf(),
        v.activated(id, status).wf(),
        v.activation(id, status) != Activated::Ignored,
        told(v, id, request, statuses),
    ensures
        told(v.activated(id, status), id, request, statuses.push(status)),
        v.get(id).pending > 1 ==> v.activation(id, status) == Activated::Pending,
        v.get(id).pending == 1 ==> (v.activation(id, status) == Activated::Suppressed
            <==> request.policy == SWDependencyPolicy::SuccessOnly && !all_succeeded(
            statuses.push(status),
        )),
        v.get(id).pending == 1 ==> v.activation(id, status) != Activated::Pending,
{
    let w = v.activated(id, status);
    let i = at(v.records, id);
    assert(record_at(v.records, i, id));
    assert(record_ok(v.records[i], v.abandoned));
    same_place(v, w, id);
    let longer = statuses.push(status);
    assert(longer[statuses.len() as int] == status);
    assert(all_succeeded(longer) <==> all_succeeded(statuses) && status
        == SWTaskStatus::Succeeded) by {
        if all_succeeded(longer) {
            assert forall|k: int| 0 <= k < statuses.len() implies #[trigger] statuses[k]
                == SWTaskStatus::Succeeded by {
                assert(longer[k] == statuses[k]);
            }
        }
        if all_succeeded(statuses) && status == SWTaskStatus::Succeeded {
            assert forall|k: int| 0 <= k < longer.len() implies #[trigger] longer[k]
                == SWTaskStatus::Succeeded by {
                if k < statuses.len() {
                    assert(longer[k] == statuses[k]);
                }
            }
        }
    }
}

/// What a job was told over a whole history.
proof fn history_told(
    v: SchedulerView,
    request: SubmitRequest,
    states: Seq<SchedulerView>,
    events: Seq<Event>,
)
    requires
        v.wf(),
        v.enabled(Step::Submit(request)),
        history(states, events),
        states[0] == v.submitted(request),
    ensures
        told(states.last(), v.next_id as u64, request, reports(events, v.next_id as u64)),
    decreases events.len(),
{
    let id = v.next_id as u64;
    if events.len() == 0 {
        let w = states[0];
        assert(w.wf());
        let n = v.records.len() as int;
        assert(record_at(w.records, n, id));
        found(w.records, n, id);
    } else {
        let n = events.len() - 1;
        let earlier = events.drop_last();
        let before = states.drop_last();
        assert forall|k: int| 0 <= k < before.len() implies (#[trigger] before[k]).wf() by {
            assert(states[k].wf());
        }
        assert forall|k: int| 0 <= k < earlier.len() implies leads(
            before[k],
            before[k + 1],
            #[trigger] earlier[k],
        ) by {
            assert(leads(states[k], states[k + 1], events[k]));
        }
        history_told(v, request, before, earlier);
        assert(states[n].wf() && states[n + 1].wf());
        assert(leads(states[n], states[n + 1], events[n]));
        assert(before.last() == states[n]);
        let statuses = reports(earlier, id);
        match events[n] {
            Event::Work(Step::Activate(x, status)) => {
                if x == id {
                    report_told(states[n], id, request, statuses, status);
                } else {
                    others_undisturbed(states[n], states[n + 1], events[n], id);
                }
            },
            _ => others_undisturbed(states[n], states[n + 1], events[n], id),
        }
    }
}

/// A job runs only after each of its prerequisites has reported, once; a
/// success-only job only if every one of them reported success. This holds of
/// any history from its submission on, whatever else happens in between.
pub proof fn jobs_run_after_their_prerequisites(
    v: SchedulerView,
    request: SubmitRequest,
    states: Seq<SchedulerView>,
    events: Seq<Event>,
    caller: bool,
)
    requires
        v.wf(),
        v.enabled(Step::Submit(request)),
        history(states, events),
        states[0] == v.submitted(request),
        states.last().claimable(v.next_id as u64, caller),
    ensures
        reports(events, v.next_id as u64).len() == request.prerequisites,
        request.policy == SWDependencyPolicy::SuccessOnly ==> forall|k: int|
            0 <= k < request.prerequisites ==> #[trigger] reports(events, v.next_id as u64)[k]
                == SWTaskStatus::Succeeded,
{
    history_told(v, request, states, events);
}

/// The last report decides: until it has come a waiting job is held back, and no
/// report is ignored. With it a success-only job is suppressed if any report of
/// its history was not a success, whichever that was, and every other job
/// becomes ready, at once or once the window has room.
pub proof fn the_last_report_decides(
    v: SchedulerView,
    request: SubmitRequest,
    states: Seq<SchedulerView>,
    events: Seq<Event>,
    status: SWTaskStatus,
    caller: bool,
)
    requires
        v.wf(),
        v.enabled(Step::Submit(request)),
        history(states, events),
        states[0] == v.submitted(request),
        states.last().has(v.next_id as u64),
        states.last().get(v.next_id as u64).stage == Stage::Waiting,
        states.last().activated(v.next_id as u64, status).wf(),
    ensures
        ({
            let id = v.next_id as u64;
            let w = states.last();
            let heard = reports(events, id).push(status);
            let after = w.activated(id, status);
            let failed = exists|k: int|
                0 <= k < heard.len() && #[trigger] heard[k] != SWTaskStatus::Succeeded;
            let suppress = request.policy == SWDependencyPolicy::SuccessOnly && failed;
            &&& heard.len() <= request.prerequisites
            &&& !w.claimable(id, caller)
            &&& heard.len() < request.prerequisites ==> w.activation(id, status)
                == Activated::Pending && !after.claimable(id, caller)
            &&& heard.len() == request.prerequisites && suppress ==> w.activation(id, status)
                == Activated::Suppressed && !after.claimable(id, caller) && !unclaimed(
                after.get(id).stage,
            )
            &&& heard.len() == request.prerequisites && !suppress ==> w.activation(id, status)
                == Activated::Ready && after.claimable(id, false) || w.activation(id, status)
                == Activated::Deferred && after.get(id).stage == Stage::DeferredReady
        }),
{
    let id = v.next_id as u64;
    let w = states.last();
    assert(states[states.len() - 1].wf());
    history_told(v, request, states, events);
    let i = at(w.records, id);
    assert(record_at(w.records, i, id));
    assert(record_ok(w.records[i], w.abandoned));
    let heard = reports(events, id).push(status);
    report_told(w, id, request, reports(events, id), status);
    same_place(w, w.activated(id, status), id);
    assert(!all_succeeded(heard) <==> exists|k: int|
        0 <= k < heard.len() && #[trigger] heard[k] != SWTaskStatus::Succeeded);
}

/// A job without prerequisites can be claimed as soon as it is accepted, unless
/// it waits for room in the window.
pub proof fn free_jobs_start_ready(v: SchedulerView, request: SubmitRequest)
    requires
        v.wf(),
        v.enabled(Step::Submit(request)),
        request.prerequisites == 0,
    ensures
        ({
            let id = v.next_id as u64;
            let w = v.submitted(request);
            let c = request.class.slot();
            &&& w.has(id)
            &&& v.lanes[c].runnable < v.limits.runnable@[c] ==> w.claimable(id, false)
            &&& !w.claimable(id, false) ==> w.get(id).stage == Stage::DeferredReady
                && request.reserved
        }),
{
    steps_stay_consistent(v, Step::Submit(request));
    let w = v.submitted(request);
    let n = v.records.len() as int;
    assert(record_at(w.records, n, v.next_id as u64));
    found(w.records, n, v.next_id as u64);
}

/// A wave that an event leaves behind, at these positions before and after.
spec fn same_wave(v: SchedulerView, w: SchedulerView, i: int, j: int) -> bool {
    0 <= i < v.groups.len() && 0 <= j < w.groups.len() && v.groups[i].id == w.groups[j].id
}

/// The member that an event adds to a wave, or takes from it.
pub open spec fn joins_wave(event: Event, wave: u64) -> bool {
    event matches Event::Work(Step::Submit(request)) && request.group matches Some(key) && key.id
        == wave
}

pub open spec fn leaves_wave(v: SchedulerView, event: Event, wave: u64) -> bool {
    event matches Event::Work(Step::Finalize(x)) && v.get(x).group == Some(wave)
}

proof fn same_index(a: Seq<GroupInner>, b: Seq<GroupInner>, i: int, j: int)
    requires
        forall|x: int, y: int|
            0 <= x < y < a.len() ==> (#[trigger] a[x]).id < (#[trigger] a[y]).id,
        b.len() >= a.len(),
        forall|x: int| 0 <= x < a.len() ==> (#[trigger] b[x]).id == a[x].id,
        forall|x: int, y: int|
            0 <= x < y < b.len() ==> (#[trigger] b[x]).id < (#[trigger] b[y]).id,
        0 <= i < a.len(),
        0 <= j < b.len(),
        a[i].id == b[j].id,
    ensures
        i == j,
{
    assert(b[i].id == a[i].id);
    if i < j {
        assert(b[i].id < b[j].id);
    } else if j < i {
        assert(b[j].id < b[i].id);
    }
}

/// What one event does to one wave.
spec fn wave_moves(v: SchedulerView, w: SchedulerView, event: Event, i: int, j: int) -> bool {
    let a = v.groups[i];
    let b = w.groups[j];
    &&& b.class == a.class
    &&& a.sealed ==> b.sealed
    &&& b.pending == a.pending + (if joins_wave(event, a.id) {
        1int
    } else {
        0int
    }) - (if leaves_wave(v, event, a.id) {
        1int
    } else {
        0int
    })
    &&& joins_wave(event, a.id) ==> !a.sealed
    &&& b.failed == (a.failed || (leaves_wave(v, event, a.id) && v.get(
        event->Work_0->Finalize_0,
    ).outcome is Some && v.get(event->Work_0->Finalize_0).outcome->0 != SWTaskStatus::Succeeded))
    &&& a.status is Some ==> b.status == a.status
    &&& b.sealed && !a.sealed ==> event is Seal
}

proof fn submission_moves_waves(v: SchedulerView, request: SubmitRequest, i: int, j: int)
    requires
        v.wf(),
        v.enabled(Step::Submit(request)),
        v.submitted(request).wf(),
        same_wave(v, v.submitted(request), i, j),
    ensures
        wave_moves(v, v.submitted(request), Event::Work(Step::Submit(request)), i, j),
{
    let w = v.submitted(request);
    same_index(v.groups, w.groups, i, j);
    assert(v.group_ok(i) && w.group_ok(j));
    if let Some(key) = request.group {
        let g = group_slot(v.groups, key.id);
        assert(group_at(v.groups, g, key.id));
        if v.groups[i].id == key.id {
            assert(group_at(v.groups, i, key.id));
            group_found(v.groups, i, key.id);
        }
        members_bounded(v, g);
    }
}

proof fn removal_moves_waves(v: SchedulerView, x: u64, i: int, j: int)
    requires
        v.wf(),
        v.removable(x),
        v.finalized(x).wf(),
        same_wave(v, v.finalized(x), i, j),
    ensures
        wave_moves(v, v.finalized(x), Event::Work(Step::Finalize(x)), i, j),
{
    let w = v.finalized(x);
    let k = at(v.records, x);
    assert(record_at(v.records, k, x));
    assert(v.group_ok(i));
    match v.records[k].group {
        Some(wave) => {
            let g = group_slot(v.groups, wave);
            assert(group_at(v.groups, g, wave));
            assert(v.group_ok(g));
            total_bounds(v.records, member_of(wave));
            assert(member_of(wave)(v.records[k]) <= total(
                v.records,
                member_of(wave),
            ));
            let changed = v.groups.update(g, v.group_after(v.records[k]).handed_out());
            if v.groups[i].id == wave {
                assert(group_at(v.groups, i, wave));
                group_found(v.groups, i, wave);
            }
            if w.groups == changed {
                same_index(v.groups, w.groups, i, j);
            } else {
                let h = if j < g {
                    j
                } else {
                    j + 1
                };
                assert(w.groups[j] == changed[h]);
                assert(v.groups[h].id == v.groups[i].id);
                if h < i {
                    assert(v.groups[h].id < v.groups[i].id);
                } else if i < h {
                    assert(v.groups[i].id < v.groups[h].id);
                }
            }
        },
        None => same_index(v.groups, w.groups, i, j),
    }
}

/// Refilling a window tells helpers, and changes nothing else of a wave.
proof fn refill_moves_waves(v: SchedulerView, c: int)
    requires
        v.wf(),
        0 <= c < 3,
    ensures
        v.promoted(c).groups.len() == v.groups.len(),
        forall|g: int|
            0 <= g < v.groups.len() ==> #[trigger] v.promoted(c).groups[g] == (GroupInner {
                generation: v.promoted(c).groups[g].generation,
                ..v.groups[g]
            }),
{
}

proof fn quiet_work_moves_waves(v: SchedulerView, step: Step, i: int, j: int)
    requires
        v.wf(),
        v.enabled(step),
        v.after(step).wf(),
        same_wave(v, v.after(step), i, j),
        !(step is Submit) && !(step is Finalize),
    ensures
        wave_moves(v, v.after(step), Event::Work(step), i, j),
{
    let w = v.after(step);
    match step {
        Step::Suppress(x, _) => {
            withdrawn_wf(v, x, Stage::Finalizing);
            refill_moves_waves(v.withdrawn(x, Stage::Finalizing), v.class_of(x));
        },
        Step::Claim(x, _) => {
            withdrawn_wf(v, x, Stage::Running);
            refill_moves_waves(v.withdrawn(x, Stage::Running), v.class_of(x));
        },
        Step::Dispatch(class) => refill_moves_waves(v, class.slot()),
        Step::Activate(x, _) => {
            assert(record_at(v.records, at(v.records, x), x));
            if let Some(wave) = v.get(x).group {
                assert(group_at(v.groups, group_slot(v.groups, wave), wave));
            }
        },
        _ => {},
    }
    same_index(v.groups, w.groups, i, j);
}

proof fn event_moves_waves(v: SchedulerView, w: SchedulerView, event: Event, i: int, j: int)
    requires
        v.wf(),
        w.wf(),
        leads(v, w, event),
        same_wave(v, w, i, j),
    ensures
        wave_moves(v, w, event, i, j),
{
    assert(v.group_ok(i));
    match event {
        Event::Work(step) => match step {
            Step::Submit(request) => submission_moves_waves(v, request, i, j),
            Step::Finalize(x) => removal_moves_waves(v, x, i, j),
            _ => quiet_work_moves_waves(v, step, i, j),
        },
        Event::Forget(g) => {
            let h = if j < g {
                j
            } else {
                j + 1
            };
            assert(w.groups[j] == v.groups[h]);
            if h < i {
                assert(v.groups[h].id < v.groups[i].id);
            } else if i < h {
                assert(v.groups[i].id < v.groups[h].id);
            }
        },
        _ => same_index(v.groups, w.groups, i, j),
    }
}

/// Sealing ends membership: no event gives a sealed wave another member or opens
/// it again, and its status, once visible, stays.
pub proof fn sealed_waves_only_shrink(
    v: SchedulerView,
    w: SchedulerView,
    event: Event,
    i: int,
    j: int,
)
    requires
        v.wf(),
        w.wf(),
        leads(v, w, event),
        0 <= i < v.groups.len(),
        0 <= j < w.groups.len(),
        v.groups[i].id == w.groups[j].id,
        v.groups[i].sealed,
    ensures
        w.groups[j].sealed,
        w.groups[j].pending <= v.groups[i].pending,
        v.groups[i].status is Some ==> w.groups[j].status == v.groups[i].status,
{
    event_moves_waves(v, w, event, i, j);
}

/// Membership is asked of an open wave of the same lane. A job that would be
/// accepted outside any wave is accepted into one that is here, open, and of its
/// runtime and class, and into no other: a sealed wave refuses every job.
pub proof fn open_waves_take_members(v: SchedulerView, request: SubmitRequest, key: GroupKey)
    requires
        v.wf(),
        request.group == Some(key),
    ensures
        ({
            let open = exists|g: int|
                0 <= g < v.groups.len() && (#[trigger] v.groups[g]).id == key.id
                    && !v.groups[g].sealed && v.groups[g].class == request.class;
            let fits = open && key.runtime == request.runtime && key.class == request.class;
            let alone = v.submit_error(SubmitRequest { group: None, ..request });
            &&& !fits ==> v.submit_error(request) is Some
            &&& alone is None && fits ==> v.submit_error(request) is None
            &&& alone is None && !fits ==> v.submit_error(request) == Some(
                SWSpawnError::InvalidGroup,
            )
            &&& alone is Some && fits ==> v.submit_error(request) == alone
        }),
{
    let open = exists|g: int|
        0 <= g < v.groups.len() && (#[trigger] v.groups[g]).id == key.id && !v.groups[g].sealed
            && v.groups[g].class == request.class;
    if group_present(v.groups, key.id) {
        let s = group_slot(v.groups, key.id);
        assert(group_at(v.groups, s, key.id));
        if open {
            let g = choose|g: int|
                0 <= g < v.groups.len() && (#[trigger] v.groups[g]).id == key.id
                    && !v.groups[g].sealed && v.groups[g].class == request.class;
            assert(group_at(v.groups, g, key.id));
            group_found(v.groups, g, key.id);
        }
    } else if open {
        let g = choose|g: int|
            0 <= g < v.groups.len() && (#[trigger] v.groups[g]).id == key.id && !v.groups[g].sealed
                && v.groups[g].class == request.class;
        assert(group_at(v.groups, g, key.id));
    }
}

/// The statuses with which members of a wave have settled, oldest first.
pub open spec fn settlements(
    states: Seq<SchedulerView>,
    events: Seq<Event>,
    wave: u64,
) -> Seq<SWTaskStatus>
    decreases events.len(),
{
    if events.len() == 0 {
        Seq::empty()
    } else {
        let n = events.len() - 1;
        let earlier = settlements(states, events.drop_last(), wave);
        match events.last() {
            Event::Work(Step::Finalize(x)) => if states[n].get(x).group == Some(wave)
                && states[n].get(x).outcome is Some {
                earlier.push(states[n].get(x).outcome->0)
            } else {
                earlier
            },
            _ => earlier,
        }
    }
}

/// The members that joined a wave.
pub open spec fn joined(events: Seq<Event>, wave: u64) -> nat
    decreases events.len(),
{
    if events.len() == 0 {
        0
    } else {
        joined(events.drop_last(), wave) + if joins_wave(events.last(), wave) {
            1nat
        } else {
            0nat
        }
    }
}

/// A wave was sealed.
pub open spec fn sealed_in(states: Seq<SchedulerView>, events: Seq<Event>, wave: u64) -> bool
    decreases events.len(),
{
    events.len() > 0 && (sealed_in(states, events.drop_last(), wave) || (
    events.last() matches Event::Seal(g) && states[events.len() - 1].groups[g].id == wave))
}

/// What a wave is after its history.
spec fn wave_story(
    states: Seq<SchedulerView>,
    events: Seq<Event>,
    wave: u64,
    j: int,
) -> bool {
    let b = states[events.len() as int].groups[j];
    &&& b.pending + settlements(states, events, wave).len() == joined(events, wave)
    &&& b.failed <==> !all_succeeded(settlements(states, events, wave))
    &&& b.sealed <==> sealed_in(states, events, wave)
}

proof fn pushed_succeeded(statuses: Seq<SWTaskStatus>, status: SWTaskStatus)
    ensures
        all_succeeded(statuses.push(status)) <==> all_succeeded(statuses) && status
            == SWTaskStatus::Succeeded,
{
    let longer = statuses.push(status);
    assert(longer[statuses.len() as int] == status);
    if all_succeeded(longer) {
        assert forall|k: int| 0 <= k < statuses.len() implies #[trigger] statuses[k]
            == SWTaskStatus::Succeeded by {
            assert(longer[k] == statuses[k]);
        }
    }
    if all_succeeded(statuses) && status == SWTaskStatus::Succeeded {
        assert forall|k: int| 0 <= k < longer.len() implies #[trigger] longer[k]
            == SWTaskStatus::Succeeded by {
            if k < statuses.len() {
                assert(longer[k] == statuses[k]);
            }
        }
    }
}

/// A wave that is there after an event was there before it, or was just opened.
proof fn wave_was_there(v: SchedulerView, w: SchedulerView, event: Event, j: int) -> (i: int)
    requires
        v.wf(),
        w.wf(),
        leads(v, w, event),
        0 <= j < w.groups.len(),
        w.groups[j].id < v.next_group,
    ensures
        same_wave(v, w, i, j),
{
    match event {
        Event::Work(step) => match step {
            Step::Finalize(x) => {
                let k = at(v.records, x);
                assert(record_at(v.records, k, x));
                match v.records[k].group {
                    Some(wave) => {
                        let g = group_slot(v.groups, wave);
                        assert(group_at(v.groups, g, wave));
                        let changed = v.groups.update(g, v.group_after(v.records[k]).handed_out());
                        if w.groups == changed {
                            j
                        } else if j < g {
                            j
                        } else {
                            j + 1
                        }
                    },
                    None => j,
                }
            },
            Step::Suppress(x, _) => {
                withdrawn_wf(v, x, Stage::Finalizing);
                refill_moves_waves(v.withdrawn(x, Stage::Finalizing), v.class_of(x));
                j
            },
            Step::Claim(x, _) => {
                withdrawn_wf(v, x, Stage::Running);
                refill_moves_waves(v.withdrawn(x, Stage::Running), v.class_of(x));
                j
            },
            Step::Dispatch(class) => {
                refill_moves_waves(v, class.slot());
                j
            },
            Step::Activate(x, _) => {
                assert(record_at(v.records, at(v.records, x), x));
                j
            },
            _ => j,
        },
        Event::Forget(g) => if j < g {
            j
        } else {
            j + 1
        },
        _ => j,
    }
}

#[verifier::spinoff_prover]
#[verifier::rlimit(40)]
proof fn history_of_wave(
    v: SchedulerView,
    class: SWExecutionClass,
    states: Seq<SchedulerView>,
    events: Seq<Event>,
    j: int,
)
    requires
        v.wf(),
        history(states, events),
        states[0] == v.with_new_group(class),
        0 <= j < states.last().groups.len(),
        states.last().groups[j].id == v.next_group,
    ensures
        wave_story(states, events, v.next_group as u64, j),
        states.last().next_group > v.next_group,
    decreases events.len(),
{
    let wave = v.next_group as u64;
    if events.len() == 0 {
        assert(states[0].wf());
        let n = v.groups.len() as int;
        assert(states[0].groups[n].id == wave);
        if j < n {
            assert(v.groups[j].id < v.next_group);
        }
    } else {
        let n = events.len() - 1;
        let earlier = events.drop_last();
        let before = states.drop_last();
        assert forall|k: int| 0 <= k < before.len() implies (#[trigger] before[k]).wf() by {
            assert(states[k].wf());
        }
        assert forall|k: int| 0 <= k < earlier.len() implies leads(
            before[k],
            before[k + 1],
            #[trigger] earlier[k],
        ) by {
            assert(leads(states[k], states[k + 1], events[k]));
        }
        let a = states[n];
        let b = states[n + 1];
        assert(a.wf() && b.wf());
        assert(leads(a, b, events[n]));
        opened_before(v, class, before, earlier);
        assert(before.last() == a);
        let i = wave_was_there(a, b, events[n], j);
        history_of_wave(v, class, before, earlier, i);
        event_moves_waves(a, b, events[n], i, j);
        same_settlements(before, states, earlier, wave);
        seal_told(a, b, events[n], i, j);
        assert(before[n] == states[n]);
        story_goes_on(states, events, wave, i, j);
    }
}

/// One more event in the history of a wave.
proof fn story_goes_on(
    states: Seq<SchedulerView>,
    events: Seq<Event>,
    wave: u64,
    i: int,
    j: int,
)
    requires
        events.len() > 0,
        states.len() > events.len(),
        wave_story(states, events.drop_last(), wave, i),
        states[events.len() - 1].groups[i].id == wave,
        wave_moves(
            states[events.len() - 1],
            states[events.len() as int],
            events.last(),
            i,
            j,
        ),
        leaves_wave(states[events.len() - 1], events.last(), wave) ==> states[events.len()
            - 1].get(events.last()->Work_0->Finalize_0).outcome is Some,
        states[events.len() as int].groups[j].sealed <==> states[events.len() - 1].groups[i].sealed
            || (events.last() matches Event::Seal(g) && states[events.len() - 1].groups[g].id
            == wave),
    ensures
        wave_story(states, events, wave, j),
{
    let n = events.len() - 1;
    if let Event::Work(Step::Finalize(x)) = events.last() {
        if states[n].get(x).group == Some(wave) {
            pushed_succeeded(
                settlements(states, events.drop_last(), wave),
                states[n].get(x).outcome->0,
            );
        }
    }
}

/// A wave becomes sealed by being sealed.
proof fn seal_told(v: SchedulerView, w: SchedulerView, event: Event, i: int, j: int)
    requires
        v.wf(),
        w.wf(),
        leads(v, w, event),
        same_wave(v, w, i, j),
        wave_moves(v, w, event, i, j),
    ensures
        w.groups[j].sealed <==> v.groups[i].sealed || (event matches Event::Seal(g)
            && v.groups[g].id == v.groups[i].id),
{
    if let Event::Seal(g) = event {
        same_index(v.groups, w.groups, i, j);
        if g < i {
            assert(v.groups[g].id < v.groups[i].id);
        } else if i < g {
            assert(v.groups[i].id < v.groups[g].id);
        }
    }
}

proof fn opened_before(
    v: SchedulerView,
    class: SWExecutionClass,
    states: Seq<SchedulerView>,
    events: Seq<Event>,
)
    requires
        v.wf(),
        history(states, events),
        states[0] == v.with_new_group(class),
    ensures
        states.last().next_group > v.next_group,
    decreases events.len(),
{
    if events.len() > 0 {
        let n = events.len() - 1;
        let earlier = events.drop_last();
        let before = states.drop_last();
        assert forall|k: int| 0 <= k < before.len() implies (#[trigger] before[k]).wf() by {
            assert(states[k].wf());
        }
        assert forall|k: int| 0 <= k < earlier.len() implies leads(
            before[k],
            before[k + 1],
            #[trigger] earlier[k],
        ) by {
            assert(leads(states[k], states[k + 1], events[k]));
        }
        opened_before(v, class, before, earlier);
        assert(leads(states[n], states[n + 1], events[n]));
        assert(before.last() == states[n]);
    }
}

proof fn same_settlements(
    a: Seq<SchedulerView>,
    b: Seq<SchedulerView>,
    events: Seq<Event>,
    wave: u64,
)
    requires
        a.len() > events.len(),
        forall|k: int| 0 <= k < a.len() ==> #[trigger] a[k] == b[k],
    ensures
        settlements(a, events, wave) == settlements(b, events, wave),
        sealed_in(a, events, wave) == sealed_in(b, events, wave),
    decreases events.len(),
{
    if events.len() > 0 {
        same_settlements(a, b, events.drop_last(), wave);
        assert(a[events.len() - 1] == b[events.len() - 1]);
    }
}

/// A wave completes exactly when it was sealed and every member that joined it
/// has settled, and it succeeds exactly if every one of them succeeded. This
/// holds of any history from its opening on.
pub proof fn waves_tell_of_their_members(
    v: SchedulerView,
    class: SWExecutionClass,
    states: Seq<SchedulerView>,
    events: Seq<Event>,
    j: int,
)
    requires
        v.wf(),
        history(states, events),
        states[0] == v.with_new_group(class),
        0 <= j < states.last().groups.len(),
        states.last().groups[j].id == v.next_group,
    ensures
        ({
            let wave = v.next_group as u64;
            let group = states.last().groups[j];
            let outcomes = settlements(states, events, wave);
            let settled = sealed_in(states, events, wave) && outcomes.len() == joined(events, wave);
            let failed = exists|k: int|
                0 <= k < outcomes.len() && #[trigger] outcomes[k] != SWTaskStatus::Succeeded;
            let status = if failed {
                SWTaskStatus::PrerequisiteFailed
            } else {
                SWTaskStatus::Succeeded
            };
            &&& outcomes.len() <= joined(events, wave)
            &&& group.status is Some ==> settled && group.status == Some(status)
            &&& group.terminal_status() is Some ==> settled && group.terminal_status() == Some(
                status,
            )
            &&& settled ==> group.publishing || group.terminal_status() is Some
        }),
{
    history_of_wave(v, class, states, events, j);
    assert(states[states.len() - 1].wf());
    assert(states.last().group_ok(j));
    let outcomes = settlements(states, events, v.next_group as u64);
    assert(!all_succeeded(outcomes) <==> exists|k: int|
        0 <= k < outcomes.len() && #[trigger] outcomes[k] != SWTaskStatus::Succeeded);
}

} // verus!
