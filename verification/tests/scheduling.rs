use solworker::admission::application_failed;
use solworker::admission::run_stage;
use solworker::context::Context;
use solworker::dependency::attach_prerequisite;
use solworker::dependency::run_shared;
use solworker::dependency::run_unique_outcome;
use solworker::dependency::run_unique_success;
use solworker::group::GroupInner;
use solworker::lane::GroupTurn;
use solworker::lane::OwnedJob;
use solworker::queue::Selection;
use solworker::runtime::DemandChange;
use solworker::runtime::DispatchStep;
use solworker::runtime::WorkLease;
use solworker::scheduler::FinishStep;
use solworker::steps::Activated;
use solworker::task::settle_outcome;
use solworker::task::Attachment;
use solworker::task::Decision;
use solworker::SWBatchError;
use solworker::SWCallerEligibility;
use solworker::SWCompletion;
use solworker::SWCost;
use solworker::SWDemandError;
use solworker::SWDependencyPolicy;
use solworker::SWDiscoveryError;
use solworker::SWExecutionClass;
use solworker::SWExecutionError;
use solworker::SWLimits;
use solworker::SWOutcome;
use solworker::SWOwnedConfigError;
use solworker::SWOwnedLimits;
use solworker::SWPriority;
use solworker::SWRetained;
use solworker::SWRuntime;
use solworker::SWRuntimeBuilder;
use solworker::SWRuntimeConfig;
use solworker::SWSpawnError;
use solworker::SWSpawnOptions;
use solworker::SWStageOptions;
use solworker::SWTask;
use solworker::SWTaskStatus;
use solworker::SWWorkOptions;
use solworker::SWWorkerConfig;

const HIGH: SWExecutionClass = SWExecutionClass::High;
const LOW: SWExecutionClass = SWExecutionClass::Low;

fn config() -> SWRuntimeConfig {
    let one = SWWorkerConfig::new(1);
    SWRuntimeConfig::new(3, [one, one, one]).unwrap()
}

fn runtime_with(records: usize, edges: usize, runnable: usize, handoff: usize) -> SWRuntime {
    let limits = SWOwnedLimits::new(records, edges, [runnable; 3], [handoff; 3]).unwrap();
    SWRuntimeBuilder::<()>::new(config())
        .with_owned_limits(limits)
        .with_demand_limits(vec![SWPriority::new(0), SWPriority::new(5)], 4)
        .build::<()>(1, Ok(()))
        .ok()
        .unwrap()
        .runtime
}

fn worker_only() -> SWSpawnOptions {
    SWSpawnOptions::default()
}

fn eligible() -> SWSpawnOptions {
    SWSpawnOptions { eligibility: SWCallerEligibility::CallerEligible }
}

fn end(runtime: &mut SWRuntime, id: u64, status: SWTaskStatus) {
    runtime.settle(id);
    assert_eq!(runtime.finish_record(id, status), FinishStep::Publish);
    assert!(runtime.finalize_record(id).is_some());
}

fn spawn(runtime: &mut SWRuntime, class: SWExecutionClass) -> u64 {
    let lane = runtime.lane(class);
    let job: OwnedJob<(), ()> =
        lane.try_spawn(runtime, None, worker_only(), ()).ok().unwrap();
    job.accepted.id
}

#[test]
fn owned_limits_name_the_missing_capacity() {
    assert_eq!(
        SWOwnedLimits::new(0, 0, [1; 3], [1; 3]).err(),
        Some(SWOwnedConfigError::ZeroRecords)
    );
    assert_eq!(
        SWOwnedLimits::new(1, 0, [1, 0, 1], [1; 3]).err(),
        Some(SWOwnedConfigError::ZeroRunnable(SWExecutionClass::Mid))
    );
    assert_eq!(
        SWOwnedLimits::new(1, 0, [1; 3], [1, 1, 0]).err(),
        Some(SWOwnedConfigError::ZeroHandoff(HIGH))
    );
    let limits = SWOwnedLimits::new(1, 0, [1, 2, 3], [4, 5, 6]).unwrap();
    assert_eq!(limits.runnable_for(HIGH), 3);
    assert_eq!(limits.handoff_for(LOW), 4);
}

#[test]
fn jobs_are_handed_out_in_order() {
    let mut runtime = runtime_with(8, 0, 8, 8);
    let first = spawn(&mut runtime, HIGH);
    let second = spawn(&mut runtime, HIGH);
    let other = spawn(&mut runtime, LOW);
    assert!(first < second && second < other);
    assert!(matches!(runtime.dispatch_one(HIGH, true), DispatchStep::Handed(id) if id == first));
    assert!(matches!(runtime.dispatch_one(HIGH, true), DispatchStep::Handed(id) if id == second));
    assert!(matches!(runtime.dispatch_one(HIGH, true), DispatchStep::Idle));
    assert!(matches!(runtime.dispatch_one(LOW, true), DispatchStep::Handed(id) if id == other));
}

#[test]
fn a_job_runs_once() {
    let mut runtime = runtime_with(8, 0, 8, 8);
    let id = spawn(&mut runtime, HIGH);
    assert!(matches!(runtime.dispatch_one(HIGH, true), DispatchStep::Handed(_)));
    let claim = runtime.claim(id, false, true).unwrap();
    assert_eq!(claim.class, HIGH);
    assert!(runtime.claim(id, false, true).is_none());
    assert!(runtime.suppress(id, SWTaskStatus::Cancelled).is_none());
    end(&mut runtime, id, SWTaskStatus::Succeeded);
    runtime.release_lease();
    assert!(runtime.claim(id, false, true).is_none());
}

#[test]
fn cancellation_wins_before_a_claim() {
    let mut runtime = runtime_with(8, 0, 8, 8);
    let lane = runtime.lane(HIGH);
    let job: OwnedJob<u8, u8> =
        lane.try_spawn(&mut runtime, None, worker_only(), 9).ok().unwrap();
    assert_eq!(job.operation, 9);
    assert!(!job.fallible);
    assert_eq!(job.control.cancel(&mut runtime), Some(SWTaskStatus::Cancelled));
    assert_eq!(job.control.cancel(&mut runtime), None);
    assert!(runtime.claim(job.accepted.id, false, true).is_none());
    assert_eq!(
        runtime.finish_record(job.accepted.id, SWTaskStatus::Cancelled),
        FinishStep::Publish
    );
    assert!(runtime.finalize_record(job.accepted.id).is_some());
}

#[test]
fn refusal_returns_the_operation() {
    let mut runtime = runtime_with(1, 0, 1, 1);
    spawn(&mut runtime, HIGH);
    let lane = runtime.lane(HIGH);
    let rejected = lane
        .try_spawn::<_, ()>(&mut runtime, None, worker_only(), "kept")
        .err()
        .unwrap();
    assert_eq!(rejected.reason, SWSpawnError::Full);
    assert_eq!(rejected.operation, "kept");
    assert_eq!(rejected.options, worker_only());
}

#[test]
fn each_submission_error() {
    let scoped = SWRuntimeBuilder::<()>::new(config()).build::<()>(1, Ok(())).ok().unwrap();
    let mut runtime = scoped.runtime;
    let lane = runtime.lane(HIGH);
    let reason = |result: Result<OwnedJob<(), ()>, solworker::SWSpawnRejected<()>>| {
        result.err().map(|rejected| rejected.reason)
    };
    assert_eq!(
        reason(lane.try_spawn(&mut runtime, None, worker_only(), ())),
        Some(SWSpawnError::Disabled)
    );

    let mut runtime = runtime_with(3, 1, 1, 1);
    assert_eq!(
        reason(lane.try_spawn_after(
            &mut runtime,
            None,
            worker_only(),
            2,
            SWDependencyPolicy::SuccessOnly,
            ()
        )),
        Some(SWSpawnError::TooLarge)
    );
    let (group, _) = runtime.lane(LOW).group(&mut runtime, None).ok().unwrap();
    assert_eq!(
        reason(lane.try_spawn_in(&mut runtime, None, &group, worker_only(), ())),
        Some(SWSpawnError::InvalidGroup)
    );
    spawn(&mut runtime, HIGH);
    assert_eq!(
        reason(lane.try_spawn(&mut runtime, None, worker_only(), ())),
        Some(SWSpawnError::Full)
    );
    let elsewhere = Some(Context { runtime: 1, class: LOW, group: None });
    assert_eq!(
        reason(lane.submit_or_run(&mut runtime, elsewhere, eligible(), ())),
        Some(SWSpawnError::InvalidContext)
    );
    let mut options = SWStageOptions::new();
    options.priority =
        Some(Selection { active: true, priority: SWPriority::new(3), tie: 0 });
    let refused = lane
        .try_spawn_stage::<(), (), _, ()>(&mut runtime, None, None, options, ())
        .err()
        .unwrap();
    assert_eq!(refused.reason, SWSpawnError::InvalidPriority);
    assert_eq!(
        reason(WorkLease::Ambiguous.try_spawn(&lane, &mut runtime, None, worker_only(), ())),
        Some(SWSpawnError::InvalidContext)
    );
    let refusal = WorkLease::Refused(SWDiscoveryError::Cancelled);
    assert_eq!(
        reason(refusal.try_spawn_with(
            &lane,
            &mut runtime,
            None,
            SWWorkOptions::default(),
            ()
        )),
        Some(SWSpawnError::Closed)
    );
    runtime.begin_shutdown();
    assert_eq!(
        reason(lane.try_spawn(&mut runtime, None, worker_only(), ())),
        Some(SWSpawnError::Closed)
    );
}

#[test]
fn saturation_runs_eligible_work_on_the_caller() {
    let mut runtime = runtime_with(8, 0, 1, 1);
    spawn(&mut runtime, HIGH);
    let lane = runtime.lane(HIGH);
    let job: OwnedJob<(), ()> =
        lane.submit_or_run(&mut runtime, None, eligible(), ()).ok().unwrap();
    assert!(job.accepted.inline);
    assert!(runtime.claim(job.accepted.id, true, true).is_some());
    let fallible: OwnedJob<(), Result<u8, u8>> =
        lane.submit_or_run_fallible(&mut runtime, None, eligible(), ()).ok().unwrap();
    assert!(fallible.accepted.inline && fallible.fallible);
}

#[test]
fn a_successor_waits_for_all_its_prerequisites() {
    let mut runtime = runtime_with(8, 4, 8, 8);
    let lane = runtime.lane(HIGH);
    let job: OwnedJob<(), ()> = lane
        .try_spawn_after(
            &mut runtime,
            None,
            worker_only(),
            2,
            SWDependencyPolicy::SuccessOnly,
            (),
        )
        .ok()
        .unwrap();
    let id = job.accepted.id;
    let mut pending = SWCompletion::pending();
    let mut ended = SWCompletion::pending();
    ended.publish(SWTaskStatus::Succeeded);
    assert_eq!(attach_prerequisite(&mut runtime, id, &mut pending), None);
    assert_eq!(
        attach_prerequisite(&mut runtime, id, &mut ended),
        Some(Activated::Pending)
    );
    assert_eq!(runtime.attached(id), None);
    assert!(matches!(runtime.dispatch_one(HIGH, true), DispatchStep::Idle));
    let edges = pending.publish(SWTaskStatus::Succeeded);
    assert_eq!(edges.len(), 1);
    assert_eq!(edges[0].token, id);
    assert_eq!(
        runtime.activate_prerequisite(id, SWTaskStatus::Succeeded),
        Activated::Ready
    );
    assert!(matches!(runtime.dispatch_one(HIGH, true), DispatchStep::Handed(ready) if ready == id));
}

#[test]
fn a_failed_prerequisite_suppresses_a_success_only_successor() {
    let mut runtime = runtime_with(8, 4, 8, 8);
    let lane = runtime.lane(HIGH);
    for (policy, expected) in [
        (SWDependencyPolicy::SuccessOnly, Activated::Suppressed),
        (SWDependencyPolicy::OutcomeAware, Activated::Ready),
    ] {
        let job: OwnedJob<(), ()> = lane
            .try_spawn_after(&mut runtime, None, worker_only(), 1, policy, ())
            .ok()
            .unwrap();
        let mut failed = SWCompletion::pending();
        failed.publish(SWTaskStatus::ApplicationFailed);
        assert_eq!(
            attach_prerequisite(&mut runtime, job.accepted.id, &mut failed),
            Some(expected)
        );
    }
}

#[test]
fn continuations_move_their_input() {
    let mut runtime = runtime_with(8, 4, 8, 8);
    let lane = runtime.lane(HIGH);
    let input = SWTask::ready(20_u32);
    let job: OwnedJob<(SWTask<u32>, u32), u32> =
        input.try_then(&lane, &mut runtime, None, worker_only(), 2).ok().unwrap();
    let (task, factor) = job.operation;
    assert_eq!(run_unique_success(task, |value| value * factor), 40);

    let mut taken = SWTask::ready(1_u32);
    assert_eq!(taken.try_take(), Some(SWOutcome::Success(1)));
    let rejected = taken
        .try_then_outcome::<_, ()>(&lane, &mut runtime, None, worker_only(), "op")
        .err()
        .unwrap();
    assert_eq!(rejected.reason, SWSpawnError::Consumed);
    assert_eq!(rejected.operation, "op");
    assert_eq!(rejected.input.status(), Some(SWTaskStatus::Succeeded));

    let failed = SWTask::<u32>::ready_outcome(SWOutcome::Panicked);
    assert!(run_unique_outcome(failed, |outcome| outcome == SWOutcome::Panicked));
    let (cell, shared) = SWTask::ready(3_u32).into_shared(1);
    let job: OwnedJob<(solworker::SWShared<u32>, ()), u32> = shared
        .try_then_fallible(&cell, &lane, &mut runtime, None, worker_only(), ())
        .ok()
        .unwrap();
    assert!(job.fallible);
    assert_eq!(*job.operation.0.try_result(&cell).unwrap(), SWOutcome::Success(3));
}

#[test]
fn a_group_completes_when_sealed_and_settled() {
    let mut runtime = runtime_with(8, 0, 8, 8);
    let lane = runtime.lane(HIGH);
    let (group, mut wave) = lane.group(&mut runtime, None).ok().unwrap();
    let job: OwnedJob<(), ()> =
        lane.try_spawn_in(&mut runtime, None, &group, eligible(), ()).ok().unwrap();
    assert_eq!(group.seal(&mut runtime), None);
    assert!(!group.is_complete(&runtime));
    let turn = group.wait_helping(&mut runtime, None, false, true).unwrap();
    let id = match turn {
        GroupTurn::Run(id, claim) => {
            assert_eq!(claim.group, Some(group.key().id));
            id
        }
        _ => panic!("a member is ready"),
    };
    assert_eq!(id, job.accepted.id);
    assert!(matches!(
        group.wait_helping(&mut runtime, None, false, true),
        Ok(GroupTurn::Park(_))
    ));
    runtime.settle(id);
    assert_eq!(
        runtime.finish_record(id, SWTaskStatus::ApplicationFailed),
        FinishStep::Publish
    );
    let finalized = runtime.finalize_record(id).unwrap();
    assert_eq!(
        finalized.settled_group,
        Some((group.key().id, SWTaskStatus::PrerequisiteFailed))
    );
    assert!(wave.publish(&mut runtime, SWTaskStatus::PrerequisiteFailed).is_empty());
    assert_eq!(group.status(&runtime), Some(SWTaskStatus::PrerequisiteFailed));
    assert_eq!(group.completion(&mut wave).status(), Some(SWTaskStatus::PrerequisiteFailed));
    assert_eq!(
        group.wait_helping(&mut runtime, None, false, true),
        Ok(GroupTurn::Complete)
    );
    assert!(group.release(&mut runtime));
}

#[test]
fn helping_is_refused_in_a_foreign_context() {
    let mut runtime = runtime_with(8, 0, 8, 8);
    let lane = runtime.lane(HIGH);
    let (group, _) = lane.group(&mut runtime, None).ok().unwrap();
    let low = Some(Context { runtime: 1, class: LOW, group: None });
    assert_eq!(
        group.help_ready(&mut runtime, low, false, true),
        Err(SWExecutionError::InvalidContext)
    );
    assert_eq!(
        group.help_ready(&mut runtime, None, true, true),
        Err(SWExecutionError::InvalidContext)
    );
    let member = Some(Context { runtime: 1, class: HIGH, group: Some(group.key().id) });
    assert_eq!(
        group.wait_helping(&mut runtime, member, false, true),
        Err(SWExecutionError::InvalidContext)
    );
    assert_eq!(group.help_ready(&mut runtime, member, false, true), Ok(None));
}

#[test]
fn an_empty_group_succeeds() {
    let mut runtime = runtime_with(8, 0, 8, 8);
    let lane = runtime.lane(LOW);
    let (group, mut wave) = lane.group(&mut runtime, None).ok().unwrap();
    let other = group.share(&mut runtime).unwrap();
    assert_eq!(other.key(), group.key());
    assert_eq!(group.seal(&mut runtime), Some(SWTaskStatus::Succeeded));
    wave.publish(&mut runtime, SWTaskStatus::Succeeded);
    assert!(group.is_complete(&runtime));
    assert!(!other.release(&mut runtime));
    assert!(group.release(&mut runtime));
}

#[test]
fn members_join_their_wave_by_every_route() {
    let mut runtime = runtime_with(8, 4, 2, 1);
    let lane = runtime.lane(HIGH);
    let (group, _) = lane.group(&mut runtime, None).ok().unwrap();
    let plain: OwnedJob<(), u8> =
        lane.try_spawn_in(&mut runtime, None, &group, worker_only(), ()).ok().unwrap();
    let fallible: OwnedJob<(), u8> =
        lane.try_spawn_fallible_in(&mut runtime, None, &group, worker_only(), ()).ok().unwrap();
    assert!(!plain.fallible && fallible.fallible);
    let inline: OwnedJob<(), u8> =
        lane.submit_or_run_in(&mut runtime, None, &group, eligible(), ()).ok().unwrap();
    assert!(inline.accepted.inline);
    let inline: OwnedJob<(), u8> =
        lane.submit_or_run_fallible_in(&mut runtime, None, &group, eligible(), ()).ok().unwrap();
    assert!(inline.accepted.inline && inline.fallible);
    let policy = SWDependencyPolicy::OutcomeAware;
    let after: OwnedJob<(), u8> = lane
        .try_spawn_after_in(&mut runtime, None, &group, worker_only(), 1, policy, ())
        .ok()
        .unwrap();
    let last: OwnedJob<(), u8> = lane
        .try_spawn_after_fallible_in(&mut runtime, None, &group, worker_only(), 1, policy, ())
        .ok()
        .unwrap();
    assert!(!after.fallible && last.fallible);
    let outside: OwnedJob<(), u8> = lane
        .try_spawn_after_fallible(&mut runtime, None, worker_only(), 1, policy, ())
        .ok()
        .unwrap();
    assert!(outside.fallible);
    assert_eq!(runtime.group_state(group.key().id).unwrap().pending, 6);
}

#[test]
fn shared_input_stays_shared() {
    let (mut cell, shared) = SWTask::ready(vec![1, 2]).into_shared(1);
    let kept = shared.share(&mut cell);
    let sum: i32 = run_shared(shared, |input| match &*input.try_result(&cell).unwrap() {
        SWOutcome::Success(values) => values.iter().sum(),
        _ => 0,
    });
    assert_eq!(sum, 3);
    assert_eq!(*kept.try_result(&cell).unwrap(), SWOutcome::Success(vec![1, 2]));
}

#[test]
fn a_wave_is_a_prerequisite_before_it_is_sealed() {
    let mut runtime = runtime_with(8, 4, 8, 8);
    let lane = runtime.lane(HIGH);
    let (group, mut wave) = lane.group(&mut runtime, None).ok().unwrap();
    let member: OwnedJob<(), ()> =
        lane.try_spawn_in(&mut runtime, None, &group, eligible(), ()).ok().unwrap();
    let policy = SWDependencyPolicy::OutcomeAware;
    let after: OwnedJob<(), ()> =
        lane.try_spawn_after(&mut runtime, None, worker_only(), 1, policy, ()).ok().unwrap();
    let id = after.accepted.id;
    assert_eq!(attach_prerequisite(&mut runtime, id, group.completion(&mut wave)), None);
    assert_eq!(runtime.attached(id), None);
    assert_eq!(
        group.completion(&mut wave).demand(Some(&runtime), SWPriority::new(0)),
        Err(SWDemandError::Closed)
    );
    assert_eq!(group.seal(&mut runtime), None);
    assert!(runtime.claim(member.accepted.id, false, true).is_some());
    runtime.settle(member.accepted.id);
    runtime.finish_record(member.accepted.id, SWTaskStatus::Succeeded);
    let finalized = runtime.finalize_record(member.accepted.id).unwrap();
    let (key, status) = finalized.settled_group.unwrap();
    assert_eq!((key, status), (wave.key().id, SWTaskStatus::Succeeded));
    let edges = wave.publish(&mut runtime, status);
    assert_eq!(edges.len(), 1);
    assert_eq!(edges[0].token, id);
    assert_eq!(runtime.activate_prerequisite(id, status), Activated::Ready);
    assert!(group.release(&mut runtime));
    assert_eq!(wave.status(), Some(SWTaskStatus::Succeeded));
}

#[test]
fn a_token_is_published_though_its_group_has_gone() {
    let mut runtime = runtime_with(8, 0, 8, 8);
    let lane = runtime.lane(LOW);
    let (group, mut wave) = lane.group(&mut runtime, None).ok().unwrap();
    wave.completion().subscribe(9);
    let status = group.seal(&mut runtime).unwrap();
    assert!(group.release(&mut runtime));
    assert!(runtime.group_state(wave.key().id).is_none());
    let edges = wave.publish(&mut runtime, status);
    assert_eq!(edges[0].token, 9);
    assert_eq!(wave.status(), Some(SWTaskStatus::Succeeded));
}

#[test]
fn refusals_notify_of_what_ended_again() {
    let mut runtime = runtime_with(1, 0, 8, 8);
    let lane = runtime.lane(HIGH);
    let first = spawn(&mut runtime, HIGH);
    assert_eq!(runtime.take_wake(), 1);
    let refused: Result<OwnedJob<(), ()>, _> =
        lane.try_spawn(&mut runtime, None, worker_only(), ());
    assert_eq!(refused.err().map(|r| r.reason), Some(SWSpawnError::Full));
    assert_eq!(runtime.take_wake(), 2);
    assert_eq!(runtime.take_wake(), 0);
    assert!(runtime.claim(first, true, true).is_none());
    assert_eq!(runtime.take_wake(), 2);
    assert!(runtime.claim(first + 1, false, true).is_none());
    assert_eq!(runtime.take_wake(), 0);
    assert!(matches!(runtime.dispatch_one(HIGH, true), DispatchStep::Handed(_)));
    assert_eq!(runtime.take_wake(), 2);
    let (group, _) = lane.group(&mut runtime, None).ok().unwrap();
    assert_eq!(runtime.take_wake(), 2);
    assert!(runtime.claim(first, false, true).is_some());
    assert_eq!(runtime.take_wake(), 1);
    runtime.begin_shutdown();
    assert_eq!(runtime.take_wake(), 1);
    let refused: Result<OwnedJob<(), ()>, _> =
        lane.try_spawn_in(&mut runtime, None, &group, worker_only(), ());
    assert_eq!(refused.err().map(|r| r.reason), Some(SWSpawnError::Closed));
    assert_eq!(runtime.take_wake(), 0);
}

#[test]
fn a_refused_member_makes_helpers_look_again() {
    let mut runtime = runtime_with(8, 0, 1, 1);
    let lane = runtime.lane(HIGH);
    spawn(&mut runtime, HIGH);
    let (group, wave) = lane.group(&mut runtime, None).ok().unwrap();
    let before = runtime.group_state(wave.key().id).unwrap();
    let refused: Result<OwnedJob<(), ()>, _> =
        lane.try_spawn_in(&mut runtime, None, &group, worker_only(), ());
    assert_eq!(refused.err().map(|r| r.reason), Some(SWSpawnError::Full));
    let after = runtime.group_state(wave.key().id).unwrap();
    assert_eq!(after.generation, before.generation + 2);
    assert_eq!(after.pending, 0);
    assert_eq!(group.seal(&mut runtime), Some(SWTaskStatus::Succeeded));
}

#[test]
fn a_published_wave_keeps_its_status() {
    let mut wave = GroupInner::new(4, HIGH);
    assert!(wave.add());
    assert_eq!(wave.seal(), None);
    assert_eq!(wave.finish(Some(SWTaskStatus::Cancelled)), Some(SWTaskStatus::PrerequisiteFailed));
    wave.publish();
    assert_eq!(wave.status, Some(SWTaskStatus::PrerequisiteFailed));
    assert!(!wave.add());
    assert_eq!(wave.seal(), None);
    wave.public_handles = 2;
    assert!(!wave.try_reset(5, true));
    assert_eq!((wave.id, wave.status), (4, Some(SWTaskStatus::PrerequisiteFailed)));
    wave.public_handles = 1;
    assert!(!wave.try_reset(5, false));
    assert!(wave.try_reset(5, true));
    assert_eq!((wave.id, wave.status), (5, None));
}

#[test]
fn edges_leave_once_or_not_at_all() {
    let mut completion = SWCompletion::pending();
    completion.subscribe(10);
    let detached = match completion.subscribe(11) {
        Attachment::Registered(id) => id,
        Attachment::Ready(_) => panic!("pending"),
    };
    completion.subscribe(12);
    assert!(completion.detach(detached));
    assert!(!completion.detach(detached));
    let edges = completion.publish(SWTaskStatus::Succeeded);
    let tokens: Vec<u64> = edges.iter().map(|edge| edge.token).collect();
    assert_eq!(tokens, vec![10, 12]);
    assert!(!completion.detach(edges[0].id));
    assert!(matches!(completion.subscribe(13), Attachment::Ready(SWTaskStatus::Succeeded)));
}

#[test]
fn a_batch_starts_waves_one_after_another() {
    let mut runtime = runtime_with(8, 0, 8, 8);
    let mut batch = runtime.lane(HIGH).batch();
    assert!(batch.current().is_none());
    assert_eq!(batch.class(), HIGH);
    let mut first = batch.begin(&mut runtime, None).ok().unwrap();
    assert_eq!(batch.begin(&mut runtime, None).err(), Some(SWBatchError::Busy));
    batch.current().unwrap().seal(&mut runtime);
    first.publish(&mut runtime, SWTaskStatus::Succeeded);
    let mut second = batch.begin(&mut runtime, None).ok().unwrap();
    assert_ne!(first.key(), second.key());
    // A retained token keeps its terminal status.
    assert_eq!(first.status(), Some(SWTaskStatus::Succeeded));
    assert_eq!(second.status(), None);
    assert!(!batch.current().unwrap().is_complete(&runtime));
    runtime.begin_shutdown();
    assert_eq!(batch.begin(&mut runtime, None).err(), Some(SWBatchError::Busy));
    batch.current().unwrap().seal(&mut runtime);
    second.publish(&mut runtime, SWTaskStatus::Succeeded);
    assert_eq!(
        batch.begin(&mut runtime, None).err(),
        Some(SWBatchError::Admission(SWSpawnError::Closed))
    );
    assert_eq!(batch.current().unwrap().key(), second.key());
}

#[test]
fn urgent_resource_work_overtakes_its_lane() {
    let mut runtime = runtime_with(8, 0, 8, 8);
    let lane = runtime.lane(HIGH);
    let mut ids = Vec::new();
    for tie in 0..2_u64 {
        let mut options = SWStageOptions::new();
        options.priority =
            Some(Selection { active: true, priority: SWPriority::new(5), tie });
        let job: OwnedJob<(), SWRetained<()>> = lane
            .try_spawn_stage::<(), (), _, _>(&mut runtime, None, None, options, ())
            .ok()
            .unwrap();
        ids.push(job.accepted.id);
    }
    let urgent = Selection { active: true, priority: SWPriority::new(0), tie: 1 };
    runtime.service_demand(&vec![DemandChange { id: ids[1], selection: urgent }]);
    assert!(matches!(runtime.dispatch_one(HIGH, true), DispatchStep::Handed(id) if id == ids[1]));
    assert!(matches!(runtime.dispatch_one(HIGH, true), DispatchStep::Handed(id) if id == ids[0]));
}

#[test]
fn accounted_descendants_are_admitted_while_closing() {
    let mut runtime = runtime_with(8, 0, 8, 8);
    let lane = runtime.lane(HIGH);
    runtime.begin_shutdown();
    let child: Result<OwnedJob<(), ()>, _> =
        WorkLease::Granted.submit_or_run(&lane, &mut runtime, None, worker_only(), ());
    assert!(child.is_ok());
    let within = Some(Context { runtime: 1, class: HIGH, group: None });
    let nested: Result<OwnedJob<(), ()>, _> =
        lane.try_spawn(&mut runtime, within, worker_only(), ());
    assert!(nested.is_ok());
}

#[test]
fn declared_bytes_follow_the_returned_value() {
    let limits = SWOwnedLimits::new(4, 4, [2; 3], [2; 3]).unwrap();
    let policy = SWLimits::new(SWCost::new(4, 4, 4, 50), SWCost::new(0, 0, 0, 0), 0, None).unwrap();
    let mut runtime = SWRuntimeBuilder::<()>::new(config())
        .with_owned_limits(limits)
        .with_capacity_limits(policy)
        .build::<()>(1, Ok(()))
        .ok()
        .unwrap()
        .runtime;
    let lane = runtime.lane(HIGH);
    let mut options = SWStageOptions::new();
    options.cost = SWCost::new(1, 0, 0, 40);
    options.retained_bytes = 30;
    let mut job = lane
        .try_spawn_stage::<(), (), _, u32>(&mut runtime, None, None, options, || 7)
        .ok()
        .unwrap();
    let id = job.accepted.id;
    assert!(runtime.claim(id, false, true).is_some());
    let retained = run_stage(job.operation, job.accepted.bytes);
    assert_eq!(*retained.value(), 7);
    job.task.finish(SWOutcome::Success(retained), false);
    end(&mut runtime, id, SWTaskStatus::Succeeded);
    assert_eq!(runtime.capacity_usage().unwrap().ordinary, SWCost::new(0, 0, 0, 30));
    match job.task.try_take() {
        Some(SWOutcome::Success(value)) => assert_eq!(value.into_value(&mut runtime), 7),
        _ => panic!("finished"),
    }
    assert_eq!(runtime.capacity_usage().unwrap().ordinary, SWCost::new(0, 0, 0, 0));
}

#[test]
fn only_fallible_jobs_fail_by_an_error() {
    let error: Result<u8, &str> = Err("no");
    for (fallible, expected) in
        [(true, SWTaskStatus::ApplicationFailed), (false, SWTaskStatus::Succeeded)]
    {
        let failed = application_failed(fallible, &error);
        let (outcome, failed) = settle_outcome(Decision::Run, Some(error), failed);
        let mut task = SWTask::pending();
        task.finish(outcome, failed);
        assert_eq!(task.status(), Some(expected));
        assert_eq!(task.try_take(), Some(SWOutcome::Success(Err("no"))));
    }
    assert!(!application_failed(true, &Ok::<u8, &str>(1)));
}

#[test]
fn a_stage_charges_its_declared_cost() {
    let limits = SWOwnedLimits::new(1, 0, [1; 3], [1; 3]).unwrap();
    let policy =
        SWLimits::new(SWCost::new(2, 2, 2, 100), SWCost::new(1, 1, 1, 0), 1, None).unwrap();
    let mut runtime = SWRuntimeBuilder::<()>::new(config())
        .with_owned_limits(limits)
        .with_capacity_limits(policy)
        .build::<()>(4, Ok(()))
        .ok()
        .unwrap()
        .runtime;
    let lane = runtime.lane(HIGH);
    let mut options = SWStageOptions::new();
    options.cost = SWCost::new(1, 0, 0, 60);
    options.retained_bytes = 70;
    let refused = lane
        .try_spawn_stage::<(), (), _, ()>(&mut runtime, None, None, options, 5_u8)
        .err()
        .unwrap();
    assert_eq!(refused.reason, SWSpawnError::TooLarge);
    assert_eq!(refused.operation, 5);
    let mut options = refused.options;
    options.retained_bytes = 50;
    let job: OwnedJob<u8, SWRetained<()>> = lane
        .try_spawn_stage::<(), (), _, _>(&mut runtime, None, None, options, 5_u8)
        .ok()
        .unwrap();
    assert_eq!(job.accepted.bytes.as_ref().map(|lease| lease.bytes()), Some(50));
    assert_eq!(runtime.capacity_usage().unwrap().ordinary, SWCost::new(1, 0, 0, 60));
    assert!(runtime.claim(job.accepted.id, true, true).is_none());
    assert!(matches!(runtime.dispatch_one(HIGH, true), DispatchStep::Handed(_)));
    assert!(runtime.claim(job.accepted.id, false, true).is_some());
    end(&mut runtime, job.accepted.id, SWTaskStatus::Succeeded);
    assert_eq!(runtime.capacity_usage().unwrap().ordinary, SWCost::new(0, 0, 0, 50));
    runtime.release_bytes(job.accepted.bytes.unwrap());
    assert_eq!(runtime.capacity_usage().unwrap().ordinary, SWCost::new(0, 0, 0, 0));
}

#[test]
fn required_pipelines_are_admitted_beyond_saturation() {
    let limits = SWOwnedLimits::new(1, 0, [1; 3], [1; 3]).unwrap();
    let policy =
        SWLimits::new(SWCost::new(1, 0, 0, 0), SWCost::new(2, 0, 0, 0), 1, None).unwrap();
    let mut runtime = SWRuntimeBuilder::<()>::new(config())
        .with_owned_limits(limits)
        .with_capacity_limits(policy)
        .build::<()>(4, Ok(()))
        .ok()
        .unwrap()
        .runtime;
    let lane = runtime.lane(HIGH);
    spawn(&mut runtime, HIGH);
    let pipeline = runtime.reserve_required(SWCost::new(2, 0, 0, 0)).ok().unwrap();
    let mut options = SWStageOptions::new();
    options.reservation = Some(&pipeline);
    let job: Result<OwnedJob<(), SWRetained<()>>, _> =
        lane.try_spawn_stage::<(), (), _, _>(&mut runtime, None, None, options, ());
    assert!(job.is_ok());
    let usage = runtime.capacity_usage().unwrap();
    assert_eq!(usage.required, SWCost::new(2, 0, 0, 0));
    assert_eq!(usage.ordinary, SWCost::new(1, 0, 0, 0));
}

#[test]
fn abandonment_suppresses_what_was_not_claimed() {
    let mut runtime = runtime_with(8, 0, 8, 8);
    let ready = spawn(&mut runtime, HIGH);
    let running = spawn(&mut runtime, LOW);
    assert!(matches!(runtime.dispatch_one(LOW, true), DispatchStep::Handed(_)));
    assert!(runtime.claim(running, false, true).is_some());
    let (owned, external) = runtime.abandon().unwrap();
    assert_eq!(owned, vec![ready]);
    assert!(external.is_empty());
    assert!(runtime.abandon().is_none());
    assert!(runtime.claim(ready, false, true).is_none());
    end(&mut runtime, running, SWTaskStatus::Succeeded);
}

#[test]
fn edges_are_delivered_once() {
    let mut completion = SWCompletion::pending();
    let first = completion.subscribe(10);
    let second = completion.subscribe(20);
    assert!(matches!(first, Attachment::Registered(_)));
    let id = match second {
        Attachment::Registered(id) => id,
        Attachment::Ready(_) => panic!("still pending"),
    };
    assert!(completion.detach(id));
    assert!(!completion.detach(id));
    let edges = completion.publish(SWTaskStatus::Succeeded);
    assert_eq!(edges.len(), 1);
    assert_eq!(edges[0].token, 10);
    assert_eq!(completion.subscribe(30), Attachment::Ready(SWTaskStatus::Succeeded));
}

#[test]
fn handoff_pressure_does_not_run_work_on_the_caller() {
    let mut runtime = runtime_with(8, 0, 8, 1);
    spawn(&mut runtime, HIGH);
    spawn(&mut runtime, HIGH);
    assert!(matches!(runtime.dispatch_one(HIGH, true), DispatchStep::Handed(_)));
    assert!(matches!(runtime.dispatch_one(HIGH, true), DispatchStep::Idle));
    let lane = runtime.lane(HIGH);
    let job: OwnedJob<(), ()> =
        lane.submit_or_run(&mut runtime, None, eligible(), ()).ok().unwrap();
    assert!(!job.accepted.inline);
    runtime.release_handoff(HIGH);
    assert!(matches!(runtime.dispatch_one(HIGH, true), DispatchStep::Handed(_)));
}

#[test]
fn the_window_is_refilled_in_order() {
    let limits = SWOwnedLimits::new(8, 0, [1; 3], [1; 3]).unwrap();
    let policy =
        SWLimits::new(SWCost::new(4, 0, 0, 0), SWCost::new(4, 0, 0, 0), 1, None).unwrap();
    let mut runtime = SWRuntimeBuilder::<()>::new(config())
        .with_owned_limits(limits)
        .with_capacity_limits(policy)
        .build::<()>(4, Ok(()))
        .ok()
        .unwrap()
        .runtime;
    let lane = runtime.lane(HIGH);
    let first = spawn(&mut runtime, HIGH);
    let pipeline = runtime.reserve_required(SWCost::new(2, 0, 0, 0)).ok().unwrap();
    let mut deferred = Vec::new();
    for _ in 0..2 {
        let mut options = SWStageOptions::new();
        options.reservation = Some(&pipeline);
        let job: OwnedJob<(), SWRetained<()>> = lane
            .try_spawn_stage::<(), (), _, _>(&mut runtime, None, None, options, ())
            .ok()
            .unwrap();
        deferred.push(job.accepted.id);
    }
    assert!(matches!(runtime.dispatch_one(HIGH, true), DispatchStep::Handed(id) if id == first));
    assert!(runtime.claim(deferred[0], false, true).is_none());
    assert!(runtime.claim(first, false, true).is_some());
    runtime.release_handoff(HIGH);
    assert!(matches!(
        runtime.dispatch_one(HIGH, true),
        DispatchStep::Handed(id) if id == deferred[0]
    ));
    assert!(runtime.claim(deferred[0], false, true).is_some());
    runtime.release_handoff(HIGH);
    assert!(matches!(
        runtime.dispatch_one(HIGH, true),
        DispatchStep::Handed(id) if id == deferred[1]
    ));
}

#[test]
fn lost_workers_give_up_unclaimed_work() {
    let mut runtime = runtime_with(8, 0, 8, 8);
    let id = spawn(&mut runtime, HIGH);
    match runtime.dispatch_one(HIGH, false) {
        DispatchStep::GivenUp(jobs, results) => {
            assert_eq!(jobs, vec![id]);
            assert!(results.is_empty());
        }
        _ => panic!("no worker is left"),
    }
    assert!(runtime.claim(id, false, false).is_none());
}

#[test]
fn a_group_fails_with_any_member() {
    let mut runtime = runtime_with(8, 0, 8, 8);
    let lane = runtime.lane(HIGH);
    let (group, _) = lane.group(&mut runtime, None).ok().unwrap();
    let mut ids = Vec::new();
    for _ in 0..3 {
        let job: OwnedJob<(), ()> =
            lane.try_spawn_in(&mut runtime, None, &group, eligible(), ()).ok().unwrap();
        ids.push(job.accepted.id);
    }
    group.seal(&mut runtime);
    let statuses = [SWTaskStatus::Succeeded, SWTaskStatus::Panicked, SWTaskStatus::Succeeded];
    for (id, status) in ids.iter().zip(statuses) {
        let (helped, _) = group.help_ready(&mut runtime, None, false, true).unwrap().unwrap();
        assert_eq!(helped, *id);
        runtime.settle(helped);
        assert_eq!(runtime.finish_record(helped, status), FinishStep::Publish);
        let finalized = runtime.finalize_record(helped).unwrap();
        let last = *id == ids[2];
        assert_eq!(
            finalized.settled_group,
            if last {
                Some((group.key().id, SWTaskStatus::PrerequisiteFailed))
            } else {
                None
            }
        );
        runtime.release_lease();
    }
}
