//! What holds across the transitions of accepted work.
use crate::admission::SWCallerEligibility;
use crate::admission::SWDependencyPolicy;
use crate::admission::SWSpawnError;
use crate::config::SWExecutionClass;
use crate::jobs::at;
use crate::jobs::found;
use crate::jobs::promoted_wf;
use crate::jobs::record_at;
use crate::jobs::record_ok;
use crate::jobs::unclaimed;
use crate::jobs::Record;
use crate::jobs::SchedulerView;
use crate::jobs::Stage;
use crate::queue::refill_conserves;
use crate::steps::abandoned_all_wf;
use crate::steps::activated_wf;
use crate::steps::dispatched_wf;
use crate::steps::external_abandoned_wf;
use crate::steps::finalized_wf;
use crate::steps::noted_wf;
use crate::steps::runnable_bounded;
use crate::steps::submitted_wf;
use crate::steps::withdrawn_wf;
use crate::steps::Activated;
use crate::steps::SubmitRequest;
use crate::task::SWTaskStatus;
use vstd::prelude::*;

verus! {

/// The transitions that concern a job.
pub enum Step {
    Submit(SubmitRequest),
    Activate(u64, SWTaskStatus),
    Suppress(u64, SWTaskStatus),
    Claim(u64, bool),
    Dispatch(SWExecutionClass),
    Settle(u64),
    Finish(u64, SWTaskStatus),
    Attached(u64),
    Finalize(u64),
    Abandon,
}

impl SchedulerView {
    /// The transition takes place.
    pub open spec fn enabled(self, step: Step) -> bool {
        match step {
            Step::Submit(request) => self.submit_error(request) is None && self.next_id < u64::MAX,
            Step::Activate(id, status) => self.activation(id, status) != Activated::Ignored,
            Step::Suppress(id, status) => self.suppression(id, status) is Some,
            Step::Claim(id, caller) => self.claimable(id, caller),
            Step::Dispatch(class) => true,
            Step::Settle(id) => self.has(id) && self.get(id).stage == Stage::Running,
            Step::Finish(id, status) => {
                &&& self.has(id)
                &&& self.get(id).stage == Stage::Finalizing
                &&& self.get(id).parked is None
                &&& self.get(id).outcome is None
            },
            Step::Attached(id) => self.has(id),
            Step::Finalize(id) => self.removable(id),
            Step::Abandon => true,
        }
    }

    /// The state after the transition.
    pub open spec fn after(self, step: Step) -> SchedulerView {
        match step {
            Step::Submit(request) => self.submitted(request),
            Step::Activate(id, status) => self.activated(id, status),
            Step::Suppress(id, status) => self.suppressed(id),
            Step::Claim(id, caller) => self.claimed(id),
            Step::Dispatch(class) => self.dispatched(class.slot()),
            Step::Settle(id) => self.noted(
                id,
                Record { stage: Stage::Finalizing, ..self.get(id) },
            ),
            Step::Finish(id, status) => self.noted(
                id,
                if self.get(id).attaching {
                    Record { parked: Some(status), ..self.get(id) }
                } else {
                    Record { outcome: Some(status), ..self.get(id) }
                },
            ),
            Step::Attached(id) => self.noted(
                id,
                Record {
                    attaching: false,
                    parked: None,
                    outcome: if self.get(id).parked is Some {
                        self.get(id).parked
                    } else {
                        self.get(id).outcome
                    },
                    ..self.get(id)
                },
            ),
            Step::Finalize(id) => self.finalized(id),
            Step::Abandon => self.abandoned_all().external_abandoned(),
        }
    }
}

/// Every transition keeps the state consistent.
pub proof fn steps_stay_consistent(v: SchedulerView, step: Step)
    requires
        v.wf(),
        v.enabled(step),
    ensures
        v.after(step).wf(),
{
    match step {
        Step::Submit(request) => submit_tracks(v, request, 0),
        Step::Activate(id, status) => activate_tracks(v, id, status, 0),
        Step::Suppress(id, status) => suppress_tracks(v, id, 0),
        Step::Claim(id, caller) => claim_tracks(v, id, caller, 0),
        Step::Dispatch(class) => dispatch_tracks(v, class.slot(), 0),
        Step::Settle(id) => note_tracks(v, step, id, 0),
        Step::Finish(id, status) => note_tracks(v, step, id, 0),
        Step::Attached(id) => note_tracks(v, step, id, 0),
        Step::Finalize(id) => finalize_tracks(v, id, 0),
        Step::Abandon => abandon_tracks(v, 0),
    }
}

/// What one transition does to one record.
spec fn tracks(v: SchedulerView, w: SchedulerView, id: u64) -> bool {
    &&& v.next_id <= w.next_id
    &&& w.has(id) && !v.has(id) ==> id == v.next_id && w.next_id == id + 1
    &&& v.has(id) && w.has(id) && !unclaimed(v.get(id).stage) ==> !unclaimed(w.get(id).stage)
}

proof fn submit_tracks(v: SchedulerView, request: SubmitRequest, id: u64)
    requires
        v.wf(),
        v.submit_error(request) is None,
        v.next_id < u64::MAX,
    ensures
        v.submitted(request).wf(),
        tracks(v, v.submitted(request), id),
{
    submitted_wf(v, request);
    let w = v.submitted(request);
    if w.has(id) {
        let j = at(w.records, id);
        assert(record_at(w.records, j, id));
        if j < v.records.len() {
            assert(record_at(v.records, j, id));
            found(v.records, j, id);
        }
    }
}

proof fn activate_tracks(v: SchedulerView, x: u64, status: SWTaskStatus, id: u64)
    requires
        v.wf(),
        v.activation(x, status) != Activated::Ignored,
    ensures
        v.activated(x, status).wf(),
        tracks(v, v.activated(x, status), id),
{
    activated_wf(v, x, status);
    assert(record_at(v.records, at(v.records, x), x));
    same_place(v, v.activated(x, status), id);
}

proof fn withdraw_tracks(v: SchedulerView, x: u64, stage: Stage, id: u64)
    requires
        v.wf(),
        v.has(x),
        unclaimed(v.get(x).stage),
        stage == Stage::Finalizing || (stage == Stage::Running && !v.abandoned && (v.get(x).stage
            == Stage::Ready || v.get(x).stage == Stage::Handed)),
    ensures
        v.withdrawn(x, stage).wf(),
        tracks(v, v.withdrawn(x, stage), id),
        v.withdrawn(x, stage).promoted(v.class_of(x)).wf(),
        tracks(v, v.withdrawn(x, stage).promoted(v.class_of(x)), id),
{
    withdrawn_wf(v, x, stage);
    let m = v.withdrawn(x, stage);
    assert(record_at(v.records, at(v.records, x), x));
    same_place(v, m, id);
    promoted_wf(m, v.class_of(x));
    promoted_get(m, v.class_of(x), id);
}

proof fn suppress_tracks(v: SchedulerView, x: u64, id: u64)
    requires
        v.wf(),
        v.has(x),
        unclaimed(v.get(x).stage),
    ensures
        v.suppressed(x).wf(),
        tracks(v, v.suppressed(x), id),
{
    withdraw_tracks(v, x, Stage::Finalizing, id);
}

proof fn claim_tracks(v: SchedulerView, x: u64, caller: bool, id: u64)
    requires
        v.wf(),
        v.claimable(x, caller),
    ensures
        v.claimed(x).wf(),
        tracks(v, v.claimed(x), id),
{
    withdraw_tracks(v, x, Stage::Running, id);
}

proof fn dispatch_tracks(v: SchedulerView, c: int, id: u64)
    requires
        v.wf(),
        0 <= c < 3,
    ensures
        v.dispatched(c).wf(),
        tracks(v, v.dispatched(c), id),
{
    let m = v.promoted(c);
    let w = v.dispatched(c);
    promoted_get(v, c, id);
    promoted_wf(v, c);
    dispatched_wf(v, c);
    if !v.abandoned {
        if let Some(x) = v.handoff(c) {
            let k = at(m.records, x);
            assert(record_at(m.records, k, x));
        }
        same_place(m, w, id);
    }
}

proof fn note_tracks(v: SchedulerView, step: Step, x: u64, id: u64)
    requires
        v.wf(),
        v.enabled(step),
        match step {
            Step::Settle(y) => x == y,
            Step::Finish(y, _) => x == y,
            Step::Attached(y) => x == y,
            _ => false,
        },
    ensures
        v.after(step).wf(),
        tracks(v, v.after(step), id),
{
    let k = at(v.records, x);
    assert(record_at(v.records, k, x));
    assert(record_ok(v.get(x), v.abandoned));
    let w = v.after(step);
    noted_wf(v, x, w.records[k]);
    assert(w == v.noted(x, w.records[k]));
    same_place(v, w, id);
}

proof fn finalize_tracks(v: SchedulerView, x: u64, id: u64)
    requires
        v.wf(),
        v.removable(x),
    ensures
        v.finalized(x).wf(),
        tracks(v, v.finalized(x), id),
{
    finalized_wf(v, x);
    let w = v.finalized(x);
    let k = at(v.records, x);
    assert(record_at(v.records, k, x));
    if w.has(id) {
        let j = at(w.records, id);
        assert(record_at(w.records, j, id));
        let o = if j < k {
            j
        } else {
            j + 1
        };
        assert(w.records[j] == v.records[o]);
        assert(record_at(v.records, o, id));
        found(v.records, o, id);
    }
}

proof fn abandon_tracks(v: SchedulerView, id: u64)
    requires
        v.wf(),
    ensures
        v.abandoned_all().external_abandoned().wf(),
        tracks(v, v.abandoned_all().external_abandoned(), id),
{
    abandoned_all_wf(v);
    external_abandoned_wf(v.abandoned_all());
    same_place(v, v.abandoned_all().external_abandoned(), id);
}

proof fn step_tracks(v: SchedulerView, step: Step, id: u64)
    requires
        v.wf(),
        v.enabled(step),
    ensures
        tracks(v, v.after(step), id),
{
    match step {
        Step::Submit(request) => submit_tracks(v, request, id),
        Step::Activate(x, status) => activate_tracks(v, x, status, id),
        Step::Suppress(x, status) => suppress_tracks(v, x, id),
        Step::Claim(x, caller) => claim_tracks(v, x, caller, id),
        Step::Dispatch(class) => dispatch_tracks(v, class.slot(), id),
        Step::Settle(x) => note_tracks(v, step, x, id),
        Step::Finish(x, status) => note_tracks(v, step, x, id),
        Step::Attached(x) => note_tracks(v, step, x, id),
        Step::Finalize(x) => finalize_tracks(v, x, id),
        Step::Abandon => abandon_tracks(v, id),
    }
}

/// A record that came out of another one by position keeps its identity.
pub proof fn same_place(v: SchedulerView, w: SchedulerView, id: u64)
    requires
        v.indexed(),
        w.indexed(),
        w.records.len() == v.records.len(),
        forall|i: int|
            0 <= i < v.records.len() ==> (#[trigger] w.records[i]).id == v.records[i].id,
    ensures
        w.has(id) <==> v.has(id),
        v.has(id) ==> at(w.records, id) == at(v.records, id) && 0 <= at(v.records, id)
            < v.records.len(),
{
    if v.has(id) {
        let i = at(v.records, id);
        assert(record_at(v.records, i, id));
        assert(w.records[i].id == id);
        assert(record_at(w.records, i, id));
        found(w.records, i, id);
    }
    if w.has(id) {
        let i = at(w.records, id);
        assert(record_at(w.records, i, id));
        assert(w.records[i].id == v.records[i].id);
        assert(record_at(v.records, i, id));
    }
}

/// Refilling a window moves records between ready and deferred only.
pub proof fn promoted_get(v: SchedulerView, c: int, id: u64)
    requires
        v.wf(),
        0 <= c < 3,
    ensures
        v.promoted(c).has(id) <==> v.has(id),
        v.has(id) ==> {
            let r = v.get(id);
            let s = v.promoted(c).get(id);
            &&& s == (Record { stage: s.stage, ..r })
            &&& s.stage == r.stage || (unclaimed(r.stage) && unclaimed(s.stage))
        },
        v.promoted(c).next_id == v.next_id,
        v.promoted(c).abandoned == v.abandoned,
{
    promoted_wf(v, c);
    same_place(v, v.promoted(c), id);
}

/// A job that was claimed or suppressed is neither claimed nor suppressed
/// again, whatever happens next: it runs at most once, and never after it was
/// suppressed.
pub proof fn claims_are_final(
    v: SchedulerView,
    step: Step,
    id: u64,
    caller: bool,
    status: SWTaskStatus,
)
    requires
        v.wf(),
        v.enabled(step),
        v.has(id),
        !unclaimed(v.get(id).stage),
    ensures
        !v.after(step).claimable(id, caller),
        v.after(step).suppression(id, status) is None,
        v.after(step).has(id) ==> !unclaimed(v.after(step).get(id).stage),
{
    step_tracks(v, step, id);
}

/// A claim turns the job into a claimed one, and a suppression too.
pub proof fn claim_and_suppression_claim(v: SchedulerView, step: Step, id: u64)
    requires
        v.wf(),
        v.enabled(step),
        (step matches Step::Claim(x, _) && x == id) || (step matches Step::Suppress(x, _) && x
            == id),
    ensures
        v.after(step).has(id),
        !unclaimed(v.after(step).get(id).stage),
{
    let i = at(v.records, id);
    assert(record_at(v.records, i, id));
    let stage = match step {
        Step::Claim(_, _) => Stage::Running,
        _ => Stage::Finalizing,
    };
    let m = v.withdrawn(id, stage);
    withdrawn_wf(v, id, stage);
    same_place(v, m, id);
    promoted_get(m, v.class_of(id), id);
}

/// Only a job whose prerequisites have all reported is executed, and a
/// success-only job only if all of them succeeded.
pub proof fn prerequisites_gate_execution(v: SchedulerView, id: u64, caller: bool)
    requires
        v.wf(),
        v.claimable(id, caller),
    ensures
        v.get(id).pending == 0,
        v.get(id).failed ==> v.get(id).policy == SWDependencyPolicy::OutcomeAware,
{
    assert(record_at(v.records, at(v.records, id), id));
    assert(record_ok(v.get(id), v.abandoned));
}

/// Identities are never reused: a record that appears has the next identity,
/// and the next identity only rises.
pub proof fn identities_are_fresh(v: SchedulerView, step: Step, id: u64)
    requires
        v.wf(),
        v.enabled(step),
    ensures
        v.next_id <= v.after(step).next_id,
        v.after(step).has(id) && !v.has(id) ==> id == v.next_id && v.after(step).next_id == id + 1,
{
    step_tracks(v, step, id);
}

/// After abandonment nothing is admitted, claimed or handed out, and no
/// transition ends it.
pub proof fn abandonment_is_final(
    v: SchedulerView,
    step: Step,
    id: u64,
    caller: bool,
    c: int,
    request: SubmitRequest,
)
    requires
        v.wf(),
        v.abandoned,
        v.enabled(step),
    ensures
        v.submit_error(request) == Some(SWSpawnError::Closed),
        !v.claimable(id, caller),
        v.handoff(c) is None,
        v.has(id) ==> !unclaimed(v.get(id).stage),
        v.after(step).abandoned,
{
    if v.has(id) {
        assert(record_at(v.records, at(v.records, id), id));
        assert(record_ok(v.get(id), v.abandoned));
    }
}

/// The runnable window is exceeded only by a caller that executes the job
/// itself: no other transition lets a class grow beyond its limit.
pub proof fn window_grows_only_inline(v: SchedulerView, step: Step, c: int)
    requires
        v.wf(),
        v.enabled(step),
        0 <= c < 3,
        step matches Step::Submit(request) ==> !v.inline(request),
    ensures
        v.after(step).lanes[c].runnable <= v.limits.runnable@[c] || v.after(step).lanes[c].runnable
            <= v.lanes[c].runnable,
{
    let w = v.after(step);
    assert(v.lane_ok(c));
    runnable_bounded(v, c);
    match step {
        Step::Suppress(x, _) => {
            let m = v.withdrawn(x, Stage::Finalizing);
            withdrawn_wf(v, x, Stage::Finalizing);
            assert(m.lane_ok(v.class_of(x)));
            refill_conserves(
                m.lanes[v.class_of(x)],
                v.limits.runnable@[v.class_of(x)] as int,
            );
        },
        Step::Claim(x, _) => {
            let m = v.withdrawn(x, Stage::Running);
            withdrawn_wf(v, x, Stage::Running);
            assert(m.lane_ok(v.class_of(x)));
            refill_conserves(
                m.lanes[v.class_of(x)],
                v.limits.runnable@[v.class_of(x)] as int,
            );
        },
        Step::Dispatch(class) => {
            assert(v.lane_ok(class.slot()));
            refill_conserves(v.lanes[class.slot()], v.limits.runnable@[class.slot()] as int);
        },
        _ => {},
    }
}

/// No room in a runnable window stays unused while work of its class is
/// deferred, once a job of that class was claimed, suppressed out of the
/// window, or looked for.
pub proof fn window_is_refilled(v: SchedulerView, step: Step, c: int)
    requires
        v.wf(),
        v.enabled(step),
        match step {
            Step::Claim(id, _) => c == v.class_of(id),
            Step::Suppress(id, _) => c == v.class_of(id) && (v.get(id).stage == Stage::Ready
                || v.get(id).stage == Stage::Handed),
            Step::Dispatch(class) => c == class.slot() && v.handoff(c) is None && !v.abandoned,
            _ => false,
        },
    ensures
        v.after(step).lanes[c].runnable >= v.limits.runnable@[c] || v.after(
            step,
        ).lanes[c].deferred.len() == 0,
{
    assert(v.lane_ok(c));
    match step {
        Step::Suppress(x, _) => {
            let m = v.withdrawn(x, Stage::Finalizing);
            withdrawn_wf(v, x, Stage::Finalizing);
            assert(m.lane_ok(c));
            refill_conserves(m.lanes[c], v.limits.runnable@[c] as int);
        },
        Step::Claim(x, _) => {
            let m = v.withdrawn(x, Stage::Running);
            withdrawn_wf(v, x, Stage::Running);
            assert(m.lane_ok(c));
            refill_conserves(m.lanes[c], v.limits.runnable@[c] as int);
        },
        _ => {
            refill_conserves(v.lanes[c], v.limits.runnable@[c] as int);
        },
    }
}

/// Handoff pressure alone never runs a job on its caller: whether it does rests
/// on the runnable window, and neither on what the backend holds nor on what
/// waits.
pub proof fn handoff_pressure_never_runs_inline(
    v: SchedulerView,
    w: SchedulerView,
    request: SubmitRequest,
)
    requires
        w.limits == v.limits,
        forall|c: int| 0 <= c < 3 ==> (#[trigger] w.lanes[c]).runnable == v.lanes[c].runnable,
    ensures
        w.inline(request) == v.inline(request),
        request.options.eligibility != SWCallerEligibility::CallerEligible ==> !v.inline(request),
        !request.allow_inline ==> !v.inline(request),
{
    let c = request.class.slot();
    assert(w.lanes[c].runnable == v.lanes[c].runnable);
}

} // verus!
