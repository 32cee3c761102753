use solworker::access::prepare_external;
use solworker::queue::Selection;
use solworker::runtime::WorkLease;
use solworker::task::outcome_status;
use solworker::task::settle_outcome;
use solworker::task::Decision;
use solworker::task::WaitStep;
use solworker::SWCompletion;
use solworker::SWCost;
use solworker::SWDemandError;
use solworker::SWExternalAccessOptions;
use solworker::SWExternalOptions;
use solworker::SWExternalProgress;
use solworker::SWExternalRejected;
use solworker::SWLimits;
use solworker::SWOutcome;
use solworker::SWOwnedLimits;
use solworker::SWOwner;
use solworker::SWPriority;
use solworker::SWProducer;
use solworker::SWProducerControl;
use solworker::SWRetained;
use solworker::SWRuntime;
use solworker::SWRuntimeBuilder;
use solworker::SWRuntimeConfig;
use solworker::SWShared;
use solworker::SWSpawnError;
use solworker::SWTask;
use solworker::SWTaskStatus;
use solworker::SWWaitError;
use solworker::SWWorkerConfig;

fn runtime() -> SWRuntime {
    let one = SWWorkerConfig::new(1);
    let limits = SWOwnedLimits::new(4, 4, [2; 3], [2; 3]).unwrap();
    let policy =
        SWLimits::new(SWCost::new(4, 4, 4, 100), SWCost::new(1, 1, 1, 0), 1, None).unwrap();
    SWRuntimeBuilder::<()>::new(SWRuntimeConfig::new(3, [one, one, one]).unwrap())
        .with_owned_limits(limits)
        .with_capacity_limits(policy)
        .with_demand_limits(vec![SWPriority::new(1)], 2)
        .with_external_capacity(1)
        .build::<()>(3, Ok(()))
        .ok()
        .unwrap()
        .runtime
}

fn external<'a>(cost: SWCost, retained_bytes: usize) -> SWExternalOptions<'a> {
    let mut options = SWExternalOptions::new();
    options.cost = cost;
    options.retained_bytes = retained_bytes;
    options
}

type Supplied<T> = (SWProducer, SWTask<SWRetained<T>>, SWProducerControl);

/// Admits a result that promises no delivery.
fn supply<'a, T>(
    runtime: &mut SWRuntime,
    options: SWExternalOptions<'a>,
) -> Result<Supplied<T>, SWExternalRejected<'a>> {
    SWProducer::accept(runtime, None, None::<&mut SWOwner<(), ()>>, options)
}

#[test]
fn statuses_and_outcomes() {
    assert!(SWTaskStatus::Succeeded.is_success());
    for status in [
        SWTaskStatus::ApplicationFailed,
        SWTaskStatus::Cancelled,
        SWTaskStatus::PrerequisiteFailed,
        SWTaskStatus::Panicked,
        SWTaskStatus::Abandoned,
    ] {
        assert!(!status.is_success());
    }
    assert_eq!(outcome_status(&SWOutcome::Success(1), false), SWTaskStatus::Succeeded);
    assert_eq!(outcome_status(&SWOutcome::Success(1), true), SWTaskStatus::ApplicationFailed);
    assert_eq!(outcome_status(&SWOutcome::<u8>::Abandoned, true), SWTaskStatus::Abandoned);
}

#[test]
fn a_suppressed_job_never_succeeds() {
    let (outcome, _) = settle_outcome(Decision::Suppress(SWTaskStatus::Cancelled), Some(5), false);
    assert_eq!(outcome, SWOutcome::Cancelled);
    let (outcome, _) = settle_outcome(Decision::Run, Some(5), false);
    assert_eq!(outcome, SWOutcome::Success(5));
    let (outcome, _) = settle_outcome(Decision::Run, None::<u8>, false);
    assert_eq!(outcome, SWOutcome::Panicked);
}

#[test]
fn a_unique_result_moves_once() {
    let mut task = SWTask::pending();
    assert_eq!(task.status(), None);
    assert!(task.try_result().is_none());
    task.finish(SWOutcome::Success("value"), false);
    assert_eq!(task.try_result().unwrap().get(), &SWOutcome::Success("value"));
    assert_eq!(task.try_take(), Some(SWOutcome::Success("value")));
    assert_eq!(task.try_take(), None);
    assert_eq!(task.status(), Some(SWTaskStatus::Succeeded));
    assert!(!task.continuation_input_available());
}

#[test]
fn a_ready_failure_keeps_its_error() {
    let task = SWTask::<Result<u8, &str>>::ready_fallible(Err("no"));
    assert_eq!(task.status(), Some(SWTaskStatus::ApplicationFailed));
    assert_eq!(task.try_result().unwrap().get(), &SWOutcome::Success(Err("no")));
}

#[test]
fn shared_results_lead_to_one_value() {
    let (cell, shared) = SWShared::ready(1, vec![1, 2]);
    let first = shared.try_result(&cell).unwrap();
    let second = shared.try_result(&cell).unwrap();
    assert!(std::sync::Arc::ptr_eq(&first, &second));
    assert_eq!(*first, SWOutcome::Success(vec![1, 2]));
    assert_eq!(shared.status(&cell), Some(SWTaskStatus::Succeeded));
}

#[test]
fn an_abandoned_task_tells_its_observers() {
    let mut task = SWTask::<u8>::pending();
    task.subscribe(77);
    let edges = task.abandon();
    assert_eq!(edges.len(), 1);
    assert_eq!(edges[0].token, 77);
    assert_eq!(task.status(), Some(SWTaskStatus::Abandoned));
    assert!(task.abandon().is_empty());
}

#[test]
fn passive_waiting() {
    let mut completion = SWCompletion::pending();
    assert_eq!(completion.wait(true), Err(SWWaitError::ExecutionContext));
    assert_eq!(completion.wait(false), Ok(WaitStep::Park));
    assert_eq!(completion.wait_timeout(false, true), Ok(WaitStep::TimedOut));
    completion.publish(SWTaskStatus::Cancelled);
    assert_eq!(
        completion.wait_timeout(false, true),
        Ok(WaitStep::Done(SWTaskStatus::Cancelled))
    );
    assert_eq!(completion.wait_timeout(true, true), Err(SWWaitError::ExecutionContext));
}

#[test]
fn demand_needs_a_known_live_producer() {
    let mut runtime = runtime();
    let mut completion = SWCompletion::pending();
    let band = SWPriority::new(1);
    assert_eq!(completion.demand(Some(&runtime), band), Err(SWDemandError::Closed));
    completion.set_producer(solworker::task::ProducerIdentity { runtime: 3, record: 12 });
    let request = completion.demand(Some(&runtime), band).unwrap();
    assert_eq!(request.record, 12);
    assert_eq!(request.priority, band);
    assert_eq!(completion.demand(None, band), Err(SWDemandError::Closed));
    let refused = WorkLease::Refused(solworker::SWDiscoveryError::Full);
    assert_eq!(
        completion.demand_in(refused, Some(&runtime), band),
        Err(SWDemandError::Closed)
    );
    assert!(completion.demand_in(WorkLease::Granted, Some(&runtime), band).is_ok());
    runtime.abandon();
    assert_eq!(completion.demand(Some(&runtime), band), Err(SWDemandError::Closed));
}

#[test]
fn a_provider_result_is_decided_once() {
    let mut runtime = runtime();
    let (mut producer, mut cell, _) =
        supply::<u32>(&mut runtime, external(SWCost::new(1, 0, 0, 40), 30)).ok().unwrap();
    assert_eq!(runtime.external_progress().logical, 1);
    assert!(producer.complete(&mut runtime, &mut cell, 8).is_ok());
    assert_eq!(producer.complete(&mut runtime, &mut cell, 9).err(), Some(9));
    assert!(producer.cancel(&mut runtime, &mut cell).is_none());
    assert!(runtime.finish_external(1));
    let retained = match cell.try_take() {
        Some(SWOutcome::Success(retained)) => retained,
        _ => panic!("completed"),
    };
    assert_eq!(*retained.value(), 8);
    assert_eq!(runtime.capacity_usage().unwrap().ordinary, SWCost::new(0, 0, 0, 30));
    assert_eq!(retained.into_value(&mut runtime), 8);
    assert_eq!(runtime.capacity_usage().unwrap().ordinary, SWCost::new(0, 0, 0, 0));
}

#[test]
fn a_provider_failure_is_an_application_failure() {
    let mut runtime = runtime();
    let (mut producer, mut cell, _) =
        supply::<Result<u8, &str>>(&mut runtime, SWExternalOptions::new()).ok().unwrap();
    assert!(producer.complete_fallible(&mut runtime, &mut cell, Err("disk")).is_ok());
    assert_eq!(cell.status(), Some(SWTaskStatus::ApplicationFailed));
    let (mut producer, mut other, _) =
        supply::<Result<u8, &str>>(&mut runtime, SWExternalOptions::new()).ok().unwrap();
    let value = SWRetained::new(Ok(4), None);
    assert!(producer.complete_fallible_retained(&mut runtime, &mut other, value).is_ok());
    assert_eq!(other.status(), Some(SWTaskStatus::Succeeded));
}

#[test]
fn a_charged_value_replaces_the_declared_bytes() {
    let mut runtime = runtime();
    let pipeline = runtime.reserve_ordinary(SWCost::new(0, 0, 0, 50)).ok().unwrap();
    let lease = runtime.retain_bytes(&pipeline, 20).ok().unwrap();
    runtime.retire(pipeline);
    let (mut producer, mut cell, _) =
        supply::<u32>(&mut runtime, external(SWCost::new(1, 0, 0, 40), 30)).ok().unwrap();
    assert_eq!(runtime.capacity_usage().unwrap().ordinary, SWCost::new(1, 0, 0, 60));
    let value = SWRetained::from_lease(6, lease);
    assert!(producer.complete_retained(&mut runtime, &mut cell, value).is_ok());
    assert!(runtime.finish_external(producer.id()));
    assert_eq!(runtime.capacity_usage().unwrap().ordinary, SWCost::new(0, 0, 0, 20));
    match cell.try_take() {
        Some(SWOutcome::Success(value)) => assert_eq!(value.into_value(&mut runtime), 6),
        _ => panic!("completed"),
    }
    assert_eq!(runtime.capacity_usage().unwrap().ordinary, SWCost::new(0, 0, 0, 0));
}

#[test]
fn an_unfinished_producer_can_be_abandoned() {
    let mut runtime = runtime();
    let (mut producer, mut cell, _) =
        supply::<u8>(&mut runtime, SWExternalOptions::new()).ok().unwrap();
    assert!(producer.abandon(&mut runtime, &mut cell).is_some());
    assert_eq!(cell.status(), Some(SWTaskStatus::Abandoned));
    assert_eq!(producer.complete(&mut runtime, &mut cell, 1).err(), Some(1));
}

#[test]
fn a_provider_result_is_cancelled_through_its_control() {
    let mut runtime = runtime();
    let (mut producer, mut cell, control) =
        supply::<u32>(&mut runtime, external(SWCost::new(1, 0, 0, 40), 30)).ok().unwrap();
    cell.subscribe(5);
    assert_eq!(control.cancel(&mut runtime), Some(SWTaskStatus::Cancelled));
    let edges = producer.publish_status(&mut runtime, &mut cell, false);
    assert_eq!(edges.len(), 1);
    assert_eq!(edges[0].token, 5);
    assert_eq!(cell.status(), Some(SWTaskStatus::Cancelled));
    assert_eq!(producer.complete(&mut runtime, &mut cell, 9).err(), Some(9));
    assert_eq!(control.cancel(&mut runtime), None);
    assert!(producer.cancel(&mut runtime, &mut cell).is_none());
    assert!(producer.abandon(&mut runtime, &mut cell).is_none());
    assert_eq!(cell.status(), Some(SWTaskStatus::Cancelled));
    assert!(runtime.finish_external(producer.id()));
    assert_eq!(runtime.external_progress().logical, 0);
    assert_eq!(runtime.capacity_usage().unwrap().ordinary, SWCost::new(0, 0, 0, 0));
    for _ in 0..4 {
        assert!(supply::<u32>(&mut runtime, SWExternalOptions::new()).is_ok());
    }
    assert_eq!(runtime.external_progress().logical, 4);
}

#[test]
fn a_completed_provider_result_is_not_cancelled() {
    let mut runtime = runtime();
    let (mut producer, mut cell, control) =
        supply::<u32>(&mut runtime, SWExternalOptions::new()).ok().unwrap();
    assert!(producer.complete(&mut runtime, &mut cell, 4).is_ok());
    assert_eq!(control.cancel(&mut runtime), None);
    assert_eq!(cell.status(), Some(SWTaskStatus::Succeeded));
    assert!(runtime.finish_external(producer.id()));
    assert_eq!(control.cancel(&mut runtime), None);
}

#[test]
fn a_provider_result_names_its_producer() {
    let mut runtime = runtime();
    let (producer, task, _) =
        supply::<u32>(&mut runtime, SWExternalOptions::new()).ok().unwrap();
    let band = SWPriority::new(1);
    let request = task.completion().demand(Some(&runtime), band).unwrap();
    assert_eq!(request.record, producer.id());
}

#[test]
fn a_published_status_stays() {
    let mut task = SWTask::pending();
    assert!(task.finish(SWOutcome::Success(3), false).is_empty());
    assert!(task.abandon().is_empty());
    assert_eq!(task.try_take(), Some(SWOutcome::Success(3)));
    assert_eq!(task.status(), Some(SWTaskStatus::Succeeded));
    let mut completion = SWCompletion::pending();
    completion.publish(SWTaskStatus::Cancelled);
    completion.subscribe(1);
    completion.detach(1);
    assert_eq!(completion.status(), Some(SWTaskStatus::Cancelled));
}

#[test]
fn a_shared_result_has_many_observers() {
    let (mut cell, shared) = SWTask::pending().into_shared(1);
    let other = shared.share(&mut cell);
    assert_eq!((shared.status(&cell), other.status(&cell)), (None, None));
    assert!(other.try_result(&cell).is_none());
    other.completion(&mut cell).subscribe(6);
    let edges = cell.finish(SWOutcome::Success(vec![4]), false);
    assert_eq!(edges[0].token, 6);
    let late = shared.share(&mut cell);
    for handle in [&shared, &other, &late] {
        assert_eq!(handle.status(&cell), Some(SWTaskStatus::Succeeded));
        assert!(std::sync::Arc::ptr_eq(
            &handle.try_result(&cell).unwrap(),
            &shared.try_result(&cell).unwrap()
        ));
    }
    assert!(!shared.release(&mut cell));
    assert!(!late.release(&mut cell));
    assert_eq!(*other.try_result(&cell).unwrap(), SWOutcome::Success(vec![4]));
    assert!(other.release(&mut cell));
}

#[test]
fn external_admission_errors() {
    let mut runtime = runtime();
    let mut options = external(SWCost::new(1, 0, 0, 10), 11);
    assert_eq!(
        supply::<u8>(&mut runtime, options).err().map(|r| r.reason),
        Some(SWSpawnError::TooLarge)
    );
    options = SWExternalOptions::new();
    options.priority = Some(SWPriority::new(9));
    assert_eq!(
        supply::<u8>(&mut runtime, options).err().map(|r| r.reason),
        Some(SWSpawnError::InvalidPriority)
    );
    options = SWExternalOptions::new();
    options.lease = WorkLease::Ambiguous;
    assert_eq!(
        supply::<u8>(&mut runtime, options).err().map(|r| r.reason),
        Some(SWSpawnError::InvalidContext)
    );
    runtime.begin_shutdown();
    options = SWExternalOptions::new();
    assert_eq!(
        supply::<u8>(&mut runtime, options).err().map(|r| r.reason),
        Some(SWSpawnError::Closed)
    );
}

fn access<'a>(bytes: usize) -> SWExternalAccessOptions<'a> {
    SWExternalAccessOptions {
        lease: WorkLease::Unset,
        reservation: None,
        cost: SWCost::new(1, 0, 0, bytes),
    }
}

#[test]
fn physical_storage_is_counted_until_its_release() {
    let mut runtime = runtime();
    let mut prepared =
        prepare_external(&mut runtime, vec![0_u8; 4], access(20), None).ok().unwrap();
    prepared.get_mut()[0] = 7;
    assert_eq!(prepared.get()[0], 7);
    let progress = |prepared, active, orphaned| SWExternalProgress {
        logical: 0,
        prepared,
        active,
        orphaned,
    };
    assert_eq!(runtime.external_progress(), progress(1, 0, 0));
    let full = prepare_external(&mut runtime, (), access(0), None).err().unwrap();
    assert_eq!(full.reason, SWSpawnError::Full);
    let active = prepared.activate(&mut runtime, None).ok().unwrap();
    assert_eq!(runtime.external_progress(), progress(0, 1, 0));
    let retained = active.acknowledge_release(&mut runtime);
    assert_eq!(runtime.external_progress(), progress(0, 0, 0));
    assert_eq!(retained.value()[0], 7);
    assert_eq!(runtime.capacity_usage().unwrap().ordinary, SWCost::new(0, 0, 0, 20));
    assert_eq!(retained.into_value(&mut runtime).len(), 4);
    assert_eq!(runtime.capacity_usage().unwrap().ordinary, SWCost::new(0, 0, 0, 0));
}

#[test]
fn lost_storage_stays_counted() {
    let mut runtime = runtime();
    let prepared = prepare_external(&mut runtime, 1_u8, access(20), None).ok().unwrap();
    let lost = prepared.activate(&mut runtime, None).ok().unwrap().lose(&mut runtime);
    assert_eq!(lost.resource, 1);
    assert_eq!(runtime.external_progress().orphaned, 1);
    assert_eq!(runtime.capacity_usage().unwrap().ordinary, SWCost::new(1, 0, 0, 20));
}

#[test]
fn a_refused_activation_keeps_the_prepared_storage() {
    let mut runtime = runtime();
    let prepared = prepare_external(&mut runtime, 1_u8, access(0), None).ok().unwrap();
    let refused = prepared.activate(&mut runtime, Some(SWSpawnError::Closed)).err().unwrap();
    assert_eq!(refused.reason, SWSpawnError::Closed);
    assert_eq!(runtime.external_progress().prepared, 1);
    assert_eq!(*refused.prepared.into_retained(&mut runtime).value(), 1);
    assert_eq!(runtime.external_progress().prepared, 0);
}

#[test]
fn edges_are_not_a_physical_cost() {
    let mut runtime = runtime();
    let mut options = access(0);
    options.cost = SWCost::new(1, 1, 0, 0);
    let refused = prepare_external(&mut runtime, "r", options, None).err().unwrap();
    assert_eq!(refused.reason, SWSpawnError::InvalidContext);
    assert_eq!(refused.resource, "r");
}

#[test]
fn selections_order_by_activity_rank_and_tie() {
    let at = |active, rank, tie| Selection { active, priority: SWPriority::new(rank), tie };
    assert!(at(true, 9, 9).before(&at(false, 0, 0)));
    assert!(at(true, 0, 9).before(&at(true, 1, 0)));
    assert!(at(true, 1, 0).before(&at(true, 1, 1)));
    assert!(!at(true, 1, 1).before(&at(true, 1, 1)));
}

#[test]
fn required_storage_uses_its_own_places() {
    let mut runtime = runtime();
    let pipeline = runtime.reserve_required(SWCost::new(1, 0, 0, 0)).ok().unwrap();
    let ordinary = prepare_external(&mut runtime, "o", access(0), None).ok().unwrap();
    let required = SWExternalAccessOptions {
        lease: WorkLease::Unset,
        reservation: Some(&pipeline),
        cost: SWCost::new(1, 0, 0, 0),
    };
    let protected = prepare_external(&mut runtime, "r", required, None).ok().unwrap();
    assert_eq!(runtime.external_progress().prepared, 2);
    assert_eq!(*protected.into_retained(&mut runtime).value(), "r");
    assert_eq!(*ordinary.into_retained(&mut runtime).value(), "o");
    assert_eq!(runtime.external_progress().prepared, 0);
    runtime.retire(pipeline);
}

#[test]
fn foreign_reservations_are_refused() {
    let mut other = SWRuntimeBuilder::<()>::new(
        SWRuntimeConfig::new(3, [SWWorkerConfig::new(1); 3]).unwrap(),
    )
    .with_owned_limits(SWOwnedLimits::new(4, 4, [2; 3], [2; 3]).unwrap())
    .with_capacity_limits(
        SWLimits::new(SWCost::new(4, 4, 4, 0), SWCost::new(0, 0, 0, 0), 0, None).unwrap(),
    )
    .build::<()>(99, Ok(()))
    .ok()
    .unwrap()
    .runtime;
    let foreign = other.reserve_ordinary(SWCost::new(1, 0, 0, 0)).ok().unwrap();
    let mut runtime = runtime();
    let mut options = external(SWCost::new(1, 0, 0, 0), 0);
    options.reservation = Some(&foreign);
    assert_eq!(
        supply::<u8>(&mut runtime, options).err().map(|r| r.reason),
        Some(SWSpawnError::InvalidReservation)
    );
    other.retire(foreign);
}
