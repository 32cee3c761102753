use solworker::channel::NotificationQueue;
use solworker::delivery::ClaimResult;
use solworker::delivery::EndpointKind;
use solworker::delivery::Transport;
use solworker::lane::OwnedJob;
use solworker::owner::LocalDelivery;
use solworker::owner::Pump;
use solworker::owner::PumpStep;
use solworker::runtime::WorkLease;
use solworker::SWCancelResult;
use solworker::SWCompletion;
use solworker::SWCost;
use solworker::SWDeliveryOptions;
use solworker::SWDeliveryStatus;
use solworker::SWDiscoveryError;
use solworker::SWExecutionClass;
use solworker::SWExternalOptions;
use solworker::SWLimits;
use solworker::SWOutcome;
use solworker::SWOwnedLimits;
use solworker::SWOwner;
use solworker::SWOwnerError;
use solworker::SWPhase;
use solworker::SWProducer;
use solworker::SWPumpBudget;
use solworker::SWPumpMode;
use solworker::SWRuntime;
use solworker::SWRuntimeBuilder;
use solworker::SWRuntimeConfig;
use solworker::SWRetained;
use solworker::SWSpawnError;
use solworker::SWStageOptions;
use solworker::SWTaskStatus;
use solworker::SWWorkerConfig;

const UPDATE: SWPhase = SWPhase(1);
const RENDER: SWPhase = SWPhase(2);

type Owner = SWOwner<Vec<&'static str>, &'static str>;

fn runtime(policy: Option<SWLimits>) -> SWRuntime {
    let one = SWWorkerConfig::new(1);
    let limits = SWOwnedLimits::new(8, 8, [8; 3], [8; 3]).unwrap();
    let builder =
        SWRuntimeBuilder::<()>::new(SWRuntimeConfig::new(3, [one, one, one]).unwrap())
            .with_owned_limits(limits);
    let builder = match policy {
        Some(policy) => builder.with_capacity_limits(policy),
        None => builder,
    };
    builder.build::<()>(11, Ok(())).ok().unwrap().runtime
}

fn open(runtime: &mut SWRuntime, capacity: usize) -> Owner {
    let (mut owner, _) = runtime.owner(Vec::new(), capacity, false).ok().unwrap();
    owner.set_phase(UPDATE).unwrap();
    owner
}

fn settle(
    owner: &mut Owner,
    runtime: &mut SWRuntime,
    pump: &mut Pump,
    panicked: bool,
) -> SWDeliveryStatus {
    let (status, capacity) = owner.pump_settle(pump, panicked);
    if let Some(capacity) = capacity {
        runtime.retire(capacity);
    }
    status
}

/// Pumps a phase to its end; callbacks append themselves to the state.
fn pump(owner: &mut Owner, runtime: &mut SWRuntime, phase: SWPhase, budget: SWPumpBudget) -> Pump {
    let mut pump = owner.pump(phase, budget).unwrap();
    loop {
        match owner.pump_next(&pump, false) {
            PumpStep::Done => return pump,
            PumpStep::Run(entry) => {
                owner.state_mut().push(entry.callback);
                assert_eq!(
                    settle(owner, runtime, &mut pump, false),
                    SWDeliveryStatus::Published
                );
            }
            PumpStep::Discard(_) => {
                assert_eq!(
                    settle(owner, runtime, &mut pump, false),
                    SWDeliveryStatus::Suppressed
                );
            }
        }
    }
}

fn close(owner: &mut Owner, runtime: &mut SWRuntime) -> Vec<&'static str> {
    let mut destroyed = Vec::new();
    owner.close();
    while let Some(LocalDelivery { callback, .. }) = owner.cleanup_next() {
        destroyed.push(callback);
        if let Some(capacity) = owner.cleanup_settle() {
            runtime.retire(capacity);
        }
    }
    destroyed
}

#[test]
fn posted_callbacks_run_in_order_in_their_phase() {
    let mut runtime = runtime(None);
    let mut owner = open(&mut runtime, 4);
    owner.try_post(&mut runtime, UPDATE, "a").ok().unwrap();
    owner.try_post(&mut runtime, RENDER, "b").ok().unwrap();
    owner.try_post(&mut runtime, UPDATE, "c").ok().unwrap();
    let report = pump(&mut owner, &mut runtime, UPDATE, SWPumpBudget::new(9)).report;
    assert_eq!((report.invoked, report.suppressed, report.processed()), (2, 0, 2));
    assert_eq!(owner.state(), &vec!["a", "c"]);
    assert_eq!(owner.pump(RENDER, SWPumpBudget::new(9)).err(), Some(SWOwnerError::WrongPhase));
    owner.set_phase(RENDER).unwrap();
    assert_eq!(owner.phase(), Some(RENDER));
    pump(&mut owner, &mut runtime, RENDER, SWPumpBudget::new(9));
    assert_eq!(owner.state(), &vec!["a", "c", "b"]);
}

#[test]
fn a_pump_stays_within_its_budget() {
    let mut runtime = runtime(None);
    let mut owner = open(&mut runtime, 4);
    for name in ["a", "b", "c"] {
        owner.try_post(&mut runtime, UPDATE, name).ok().unwrap();
    }
    let first = pump(&mut owner, &mut runtime, UPDATE, SWPumpBudget::new(2));
    assert_eq!(first.report.invoked, 2);
    let expired = owner.pump(UPDATE, SWPumpBudget::new(2)).unwrap();
    assert!(matches!(owner.pump_next(&expired, true), PumpStep::Done));
    assert_eq!(owner.state(), &vec!["a", "b"]);
}

#[test]
fn a_batch_pump_freezes_its_frontier() {
    let mut runtime = runtime(None);
    let mut owner = open(&mut runtime, 4);
    owner.try_post(&mut runtime, UPDATE, "a").ok().unwrap();
    let budget = SWPumpBudget { max_entries: 9, mode: SWPumpMode::Batch };
    let mut batch = owner.pump(UPDATE, budget).unwrap();
    assert_eq!(batch.frontier, 1);
    owner.try_post(&mut runtime, UPDATE, "late").ok().unwrap();
    assert!(matches!(owner.pump_next(&batch, false), PumpStep::Run(entry) if entry.callback == "a"));
    settle(&mut owner, &mut runtime, &mut batch, false);
    assert!(matches!(owner.pump_next(&batch, false), PumpStep::Done));
    let live = pump(&mut owner, &mut runtime, UPDATE, SWPumpBudget::new(9));
    assert_eq!(live.report.invoked, 1);
}

#[test]
fn owners_notify_of_every_change() {
    let places = SWLimits::new(SWCost::new(4, 4, 3, 0), SWCost::new(0, 0, 0, 0), 0, None).unwrap();
    let mut runtime = runtime(Some(places));
    let mut owner = open(&mut runtime, 1);
    runtime.take_wake();
    let (_, control) = owner.try_post(&mut runtime, UPDATE, "a").ok().unwrap();
    assert_eq!((owner.take_wake(), runtime.take_wake()), (2, 1));
    // A draw that finds no place is given back.
    assert!(owner.prepare_delivery(&mut runtime, UPDATE, "b").is_err());
    assert_eq!((owner.take_wake(), runtime.take_wake()), (0, 3));
    assert_eq!(control.cancel(&mut owner), SWCancelResult::Requested);
    assert_eq!(control.cancel(&mut owner), SWCancelResult::Requested);
    assert_eq!(owner.take_wake(), 2);
    pump(&mut owner, &mut runtime, UPDATE, SWPumpBudget::new(9));
    assert_eq!((owner.take_wake(), runtime.take_wake()), (2, 2));
    assert!(close(&mut owner, &mut runtime).is_empty());
    assert_eq!(owner.take_wake(), 1);
}

#[test]
fn a_full_route_returns_the_callback() {
    let mut runtime = runtime(None);
    let mut owner = open(&mut runtime, 1);
    owner.try_post(&mut runtime, UPDATE, "a").ok().unwrap();
    let rejected = owner.try_post(&mut runtime, UPDATE, "b").err().unwrap();
    assert_eq!(rejected.reason, SWOwnerError::Full);
    assert_eq!(rejected.callback, "b");
    let sender = owner.sender();
    let rejected = sender.try_post(&mut owner, &mut runtime, UPDATE, "c").err().unwrap();
    assert_eq!(rejected.reason, SWOwnerError::Full);
    pump(&mut owner, &mut runtime, UPDATE, SWPumpBudget::new(9));
    assert!(sender.try_post(&mut owner, &mut runtime, UPDATE, "d").is_ok());
    pump(&mut owner, &mut runtime, UPDATE, SWPumpBudget::new(9));
    assert_eq!(owner.state(), &vec!["a", "d"]);
}

#[test]
fn prepared_deliveries_wait_for_their_ticket() {
    let mut runtime = runtime(None);
    let mut owner = open(&mut runtime, 4);
    let ready = owner.prepare_delivery(&mut runtime, UPDATE, "ready").ok().unwrap();
    let unused = owner.prepare_delivery(&mut runtime, UPDATE, "unused").ok().unwrap();
    assert_eq!(ready.delivery.status(&owner), Some(SWDeliveryStatus::Waiting));
    pump(&mut owner, &mut runtime, UPDATE, SWPumpBudget::new(9));
    assert!(owner.state().is_empty());
    ready.ticket.ready(&mut owner);
    assert_eq!(ready.delivery.status(&owner), Some(SWDeliveryStatus::Ready));
    unused.ticket.suppress(&mut owner);
    let report = pump(&mut owner, &mut runtime, UPDATE, SWPumpBudget::new(9)).report;
    assert_eq!((report.invoked, report.suppressed), (1, 1));
    assert_eq!(owner.state(), &vec!["ready"]);
    assert_eq!(ready.delivery.status(&owner), Some(SWDeliveryStatus::Published));
    assert_eq!(unused.delivery.status(&owner), Some(SWDeliveryStatus::Suppressed));
}

#[test]
fn a_settled_status_is_kept_for_its_handles() {
    let mut runtime = runtime(None);
    let mut owner = open(&mut runtime, 2);
    let (delivery, control) = owner.try_post(&mut runtime, UPDATE, "a").ok().unwrap();
    let other = delivery.share(&mut owner).unwrap();
    pump(&mut owner, &mut runtime, UPDATE, SWPumpBudget::new(9));
    assert_eq!(delivery.status(&owner), Some(SWDeliveryStatus::Published));
    assert_eq!(control.cancel(&mut owner), SWCancelResult::Settled);
    assert_eq!(delivery.status(&owner), Some(SWDeliveryStatus::Published));
    delivery.release(&mut owner);
    assert_eq!(other.status(&owner), Some(SWDeliveryStatus::Published));
    let (next, _) = owner.try_post(&mut runtime, UPDATE, "b").ok().unwrap();
    assert_eq!(next.status(&owner), Some(SWDeliveryStatus::Ready));
    assert_eq!(other.status(&owner), Some(SWDeliveryStatus::Published));
    next.release(&mut owner);
    pump(&mut owner, &mut runtime, UPDATE, SWPumpBudget::new(9));
    assert_eq!(owner.state(), &vec!["a", "b"]);
    assert_eq!(other.status(&owner), Some(SWDeliveryStatus::Published));
    other.release(&mut owner);
}

#[test]
fn a_panicked_delivery_reports_its_panic() {
    let mut runtime = runtime(None);
    let mut owner = open(&mut runtime, 2);
    let (bad, _) = owner.try_post(&mut runtime, UPDATE, "bad").ok().unwrap();
    let (next, _) = owner.try_post(&mut runtime, UPDATE, "next").ok().unwrap();
    let mut running = owner.pump(UPDATE, SWPumpBudget::new(9)).unwrap();
    assert!(matches!(owner.pump_next(&running, false), PumpStep::Run(_)));
    settle(&mut owner, &mut runtime, &mut running, true);
    assert_eq!(bad.status(&owner), Some(SWDeliveryStatus::Panicked));
    assert!(matches!(owner.pump_next(&running, false), PumpStep::Discard(_)));
    settle(&mut owner, &mut runtime, &mut running, false);
    assert_eq!(owner.recover(), Ok(()));
    assert_eq!(bad.status(&owner), Some(SWDeliveryStatus::Panicked));
    assert_eq!(next.status(&owner), Some(SWDeliveryStatus::Suppressed));
}

#[test]
fn closing_suppresses_what_was_not_delivered() {
    let mut runtime = runtime(None);
    let mut owner = open(&mut runtime, 2);
    let (posted, _) = owner.try_post(&mut runtime, UPDATE, "a").ok().unwrap();
    let prepared = owner.prepare_delivery(&mut runtime, UPDATE, "b").ok().unwrap();
    assert_eq!(close(&mut owner, &mut runtime).len(), 2);
    assert_eq!(posted.status(&owner), Some(SWDeliveryStatus::Suppressed));
    assert_eq!(prepared.delivery.status(&owner), Some(SWDeliveryStatus::Suppressed));
}

#[test]
fn a_callback_learns_how_its_completion_ended() {
    let mut runtime = runtime(None);
    let mut owner = open(&mut runtime, 4);
    let mut pending = SWCompletion::pending();
    let mut ended = SWCompletion::pending();
    ended.publish(SWTaskStatus::Panicked);
    owner.on_ready(&mut runtime, &mut ended, UPDATE, "ended").ok().unwrap();
    owner.on_ready(&mut runtime, &mut pending, UPDATE, "pending").ok().unwrap();
    owner.try_post(&mut runtime, UPDATE, "posted").ok().unwrap();
    let edges = pending.publish(SWTaskStatus::Cancelled);
    owner.deliver(&edges, SWTaskStatus::Cancelled);
    // Only the first report counts.
    owner.deliver(&edges, SWTaskStatus::Succeeded);
    let mut running = owner.pump(UPDATE, SWPumpBudget::new(9)).unwrap();
    let mut told = Vec::new();
    while let PumpStep::Run(entry) = owner.pump_next(&running, false) {
        told.push((entry.callback, entry.status));
        settle(&mut owner, &mut runtime, &mut running, false);
    }
    told.sort_by_key(|(name, _)| *name);
    assert_eq!(
        told,
        vec![
            ("ended", Some(SWTaskStatus::Panicked)),
            ("pending", Some(SWTaskStatus::Cancelled)),
            ("posted", None),
        ]
    );
}

#[test]
fn cancellation_suppresses_until_the_claim() {
    let mut runtime = runtime(None);
    let mut owner = open(&mut runtime, 4);
    let (_, cancelled) = owner.try_post(&mut runtime, UPDATE, "a").ok().unwrap();
    let (delivery, control) = owner.try_post(&mut runtime, UPDATE, "b").ok().unwrap();
    assert_eq!(cancelled.cancel(&mut owner), SWCancelResult::Requested);
    let mut running = owner.pump(UPDATE, SWPumpBudget::new(9)).unwrap();
    assert!(matches!(owner.pump_next(&running, false), PumpStep::Discard(_)));
    settle(&mut owner, &mut runtime, &mut running, false);
    assert!(matches!(owner.pump_next(&running, false), PumpStep::Run(_)));
    assert_eq!(delivery.status(&owner), Some(SWDeliveryStatus::Claimed));
    assert_eq!(control.cancel(&mut owner), SWCancelResult::TooLate);
    settle(&mut owner, &mut runtime, &mut running, false);
    assert_eq!(control.cancel(&mut owner), SWCancelResult::Settled);
}

#[test]
fn completions_notify_through_the_pump() {
    let mut runtime = runtime(None);
    let mut owner = open(&mut runtime, 4);
    let mut pending = SWCompletion::pending();
    let mut ended = SWCompletion::pending();
    ended.publish(SWTaskStatus::Panicked);
    owner.on_ready(&mut runtime, &mut pending, UPDATE, "pending").ok().unwrap();
    owner.on_ready(&mut runtime, &mut ended, UPDATE, "ended").ok().unwrap();
    pump(&mut owner, &mut runtime, UPDATE, SWPumpBudget::new(9));
    assert_eq!(owner.state(), &vec!["ended"]);
    for edge in pending.publish(SWTaskStatus::Succeeded) {
        owner.ready(edge.token, SWTaskStatus::Succeeded);
    }
    pump(&mut owner, &mut runtime, UPDATE, SWPumpBudget::new(9));
    assert_eq!(owner.state(), &vec!["ended", "pending"]);
    let refused = WorkLease::Refused(SWDiscoveryError::Closed);
    let rejected =
        owner.on_ready_in(&mut runtime, refused, &mut pending, UPDATE, "set").err().unwrap();
    assert_eq!(rejected.reason, SWOwnerError::Closed);
}

#[test]
fn a_panic_faults_the_owner_until_recovery() {
    let mut runtime = runtime(None);
    let mut owner = open(&mut runtime, 4);
    owner.try_post(&mut runtime, UPDATE, "bad").ok().unwrap();
    owner.try_post(&mut runtime, UPDATE, "next").ok().unwrap();
    let mut running = owner.pump(UPDATE, SWPumpBudget::new(9)).unwrap();
    assert!(matches!(owner.pump_next(&running, false), PumpStep::Run(_)));
    assert_eq!(
        settle(&mut owner, &mut runtime, &mut running, true),
        SWDeliveryStatus::Panicked
    );
    assert_eq!(
        owner.try_post(&mut runtime, UPDATE, "x").err().map(|r| r.reason),
        Some(SWOwnerError::Faulted)
    );
    let sender = owner.sender();
    assert_eq!(
        sender.try_post(&mut owner, &mut runtime, UPDATE, "x").err().map(|r| r.reason),
        Some(SWOwnerError::Faulted)
    );
    assert_eq!(owner.recover(), Err(SWOwnerError::Faulted));
    assert!(matches!(owner.pump_next(&running, false), PumpStep::Discard(e) if e.callback == "next"));
    settle(&mut owner, &mut runtime, &mut running, false);
    assert_eq!(owner.recover(), Ok(()));
    assert!(owner.try_post(&mut runtime, UPDATE, "again").is_ok());
}

#[test]
fn a_running_callback_keeps_others_out() {
    let mut runtime = runtime(None);
    let mut owner = open(&mut runtime, 4);
    owner.try_post(&mut runtime, UPDATE, "a").ok().unwrap();
    let mut running = owner.pump(UPDATE, SWPumpBudget::new(9)).unwrap();
    assert!(matches!(owner.pump_next(&running, false), PumpStep::Run(_)));
    assert_eq!(owner.set_phase(RENDER), Err(SWOwnerError::InvalidContext));
    assert_eq!(owner.pump(UPDATE, SWPumpBudget::new(1)).err(), Some(SWOwnerError::InvalidContext));
    assert_eq!(
        owner.try_post(&mut runtime, UPDATE, "b").err().map(|r| r.reason),
        Some(SWOwnerError::InvalidContext)
    );
    settle(&mut owner, &mut runtime, &mut running, false);
}

#[test]
fn immediate_access() {
    let mut runtime = runtime(None);
    let mut owner = open(&mut runtime, 4);
    assert_eq!(owner.with_ready(RENDER, true), Some(SWOwnerError::WrongPhase));
    assert_eq!(owner.with_ready(UPDATE, false), Some(SWOwnerError::NotReady));
    assert_eq!(owner.with_ready(UPDATE, true), None);
    assert_eq!(owner.with_ready(UPDATE, true), Some(SWOwnerError::InvalidContext));
    owner.with_ready_ended(false);
    assert_eq!(owner.with_ready(UPDATE, true), None);
    owner.with_ready_ended(true);
    assert_eq!(owner.with_ready(UPDATE, true), Some(SWOwnerError::Faulted));
}

#[test]
fn a_close_request_is_observed_by_the_next_pump() {
    let mut runtime = runtime(None);
    let mut owner = open(&mut runtime, 4);
    owner.try_post(&mut runtime, UPDATE, "a").ok().unwrap();
    owner.control().request_close();
    assert_eq!(
        owner.try_post(&mut runtime, UPDATE, "b").err().map(|r| r.reason),
        Some(SWOwnerError::Closed)
    );
    let report = pump(&mut owner, &mut runtime, RENDER, SWPumpBudget::new(9)).report;
    assert_eq!((report.invoked, report.suppressed), (0, 1));
    assert!(!owner.is_registered());
    assert_eq!(owner.recover(), Err(SWOwnerError::Closed));
}

#[test]
fn closure_destroys_everything_unclaimed() {
    let mut runtime = runtime(None);
    let (mut owner, id): (Owner, u64) = runtime.owner(Vec::new(), 4, false).ok().unwrap();
    owner.set_phase(UPDATE).unwrap();
    owner.prepare_delivery(&mut runtime, UPDATE, "waiting").ok().unwrap();
    owner.try_post(&mut runtime, RENDER, "ready").ok().unwrap();
    let sender = owner.sender();
    sender.try_post(&mut owner, &mut runtime, UPDATE, "sent").ok().unwrap();
    let mut destroyed = close(&mut owner, &mut runtime);
    destroyed.sort();
    assert_eq!(destroyed, vec!["ready", "sent", "waiting"]);
    assert!(owner.state().is_empty());
    assert!(!owner.is_registered());
    assert_eq!(
        sender.try_post(&mut owner, &mut runtime, UPDATE, "x").err().map(|r| r.reason),
        Some(SWOwnerError::Closed)
    );
    runtime.unregister_owner(id);
}

#[test]
fn owners_register_from_idle_threads_of_a_running_runtime() {
    let mut runtime = runtime(None);
    let participating: Result<(SWOwner<(), ()>, u64), _> = runtime.owner((), 1, true);
    assert_eq!(participating.err(), Some(SWOwnerError::InvalidContext));
    runtime.begin_shutdown();
    let closed: Result<(SWOwner<(), ()>, u64), _> = runtime.owner((), 1, false);
    assert_eq!(closed.err(), Some(SWOwnerError::Closed));
}

fn policy() -> SWLimits {
    SWLimits::new(SWCost::new(4, 4, 1, 0), SWCost::new(1, 1, 1, 0), 1, None).unwrap()
}

#[test]
fn required_deliveries_use_protected_places() {
    let mut runtime = runtime(Some(policy()));
    let mut owner = open(&mut runtime, 1);
    owner.try_post(&mut runtime, UPDATE, "ordinary").ok().unwrap();
    assert_eq!(
        owner.try_post(&mut runtime, UPDATE, "more").err().map(|r| r.reason),
        Some(SWOwnerError::Full)
    );
    let pipeline = runtime.reserve_required(SWCost::new(0, 0, 1, 0)).ok().unwrap();
    let prepared = owner
        .prepare_delivery_reserved(&mut runtime, &pipeline, UPDATE, "required")
        .ok()
        .unwrap();
    assert_eq!(
        owner
            .prepare_delivery_reserved(&mut runtime, &pipeline, UPDATE, "again")
            .err()
            .map(|r| r.reason),
        Some(SWOwnerError::Full)
    );
    prepared.ticket.ready(&mut owner);
    assert_eq!(runtime.capacity_usage().unwrap().required, SWCost::new(0, 0, 1, 0));
    pump(&mut owner, &mut runtime, UPDATE, SWPumpBudget::new(9));
    assert_eq!(owner.state(), &vec!["ordinary", "required"]);
    assert_eq!(runtime.capacity_usage().unwrap().ordinary, SWCost::new(0, 0, 0, 0));
    assert_eq!(runtime.capacity_usage().unwrap().required, SWCost::new(0, 0, 1, 0));
    runtime.retire(pipeline);
    assert_eq!(runtime.capacity_usage().unwrap().required, SWCost::new(0, 0, 0, 0));
}

#[test]
fn a_reservation_needs_a_policy() {
    let mut with_policy = runtime(Some(policy()));
    let pipeline = with_policy.reserve_ordinary(SWCost::new(0, 0, 1, 0)).ok().unwrap();
    let mut plain = runtime(None);
    let mut owner = open(&mut plain, 1);
    assert_eq!(
        owner
            .prepare_delivery_reserved(&mut plain, &pipeline, UPDATE, "x")
            .err()
            .map(|r| r.reason),
        Some(SWOwnerError::InvalidContext)
    );
    with_policy.retire(pipeline);
}

#[test]
fn work_delivers_its_outcome() {
    let mut runtime = runtime(Some(policy()));
    let mut owner = open(&mut runtime, 2);
    let lane = runtime.lane(SWExecutionClass::Mid);
    let prepared = owner.prepare_delivery(&mut runtime, UPDATE, "done").ok().unwrap();
    let mut job: OwnedJob<&str, u8> = lane
        .try_spawn_delivering(
            &mut runtime,
            None,
            &mut owner,
            SWDeliveryOptions::default(),
            prepared.ticket,
            "work",
        )
        .ok()
        .unwrap();
    assert_eq!(job.operation, "work");
    let edges = job.task.finish(SWOutcome::Success(1), false);
    assert_eq!(edges.len(), 1);
    for edge in edges {
        owner.ready(edge.token, SWTaskStatus::Succeeded);
    }
    pump(&mut owner, &mut runtime, UPDATE, SWPumpBudget::new(9));
    assert_eq!(owner.state(), &vec!["done"]);
}

#[test]
fn a_reserved_callback_charges_its_pipeline() {
    let mut runtime = runtime(Some(policy()));
    let mut owner = open(&mut runtime, 4);
    let pipeline = runtime.reserve_ordinary(SWCost::new(0, 0, 1, 0)).ok().unwrap();
    let mut pending = SWCompletion::pending();
    let (delivery, _) = owner
        .on_ready_reserved(&mut runtime, &pipeline, &mut pending, UPDATE, "first")
        .ok()
        .unwrap();
    assert_eq!(runtime.available(&pipeline), SWCost::new(0, 0, 0, 0));
    let rejected = owner
        .on_ready_reserved(&mut runtime, &pipeline, &mut pending, UPDATE, "second")
        .err()
        .unwrap();
    assert_eq!((rejected.reason, rejected.callback), (SWOwnerError::Full, "second"));
    assert_eq!(delivery.status(&owner), Some(SWDeliveryStatus::Waiting));
    let edges = pending.publish(SWTaskStatus::Succeeded);
    assert_eq!(edges.len(), 1);
    owner.deliver(&edges, SWTaskStatus::Succeeded);
    assert_eq!(delivery.status(&owner), Some(SWDeliveryStatus::Ready));
    pump(&mut owner, &mut runtime, UPDATE, SWPumpBudget::new(9));
    assert_eq!(owner.state(), &vec!["first"]);
    assert_eq!(runtime.available(&pipeline), SWCost::new(0, 0, 1, 0));
    runtime.retire(pipeline);
}

#[test]
fn a_consumer_set_decides_on_its_deliveries() {
    let mut runtime = runtime(None);
    let mut owner = open(&mut runtime, 4);
    let cancelled = WorkLease::Refused(SWDiscoveryError::Cancelled);
    let rejected =
        owner.prepare_delivery_in(&mut runtime, cancelled, UPDATE, "x").err().unwrap();
    assert_eq!((rejected.reason, rejected.callback), (SWOwnerError::Closed, "x"));
    let prepared = owner
        .prepare_delivery_from(&mut runtime, WorkLease::Granted, UPDATE, "y")
        .ok()
        .unwrap();
    assert_eq!(prepared.delivery.status(&owner), Some(SWDeliveryStatus::Waiting));
    let mut ended = SWCompletion::pending();
    ended.publish(SWTaskStatus::Abandoned);
    let (ready, _) = owner
        .on_ready_in(&mut runtime, WorkLease::Granted, &mut ended, UPDATE, "z")
        .ok()
        .unwrap();
    assert_eq!(ready.status(&owner), Some(SWDeliveryStatus::Ready));
}

#[test]
fn a_provider_result_reaches_its_owner() {
    let mut runtime = runtime(Some(policy()));
    let mut owner = open(&mut runtime, 2);
    let prepared = owner.prepare_delivery(&mut runtime, UPDATE, "done").ok().unwrap();
    let mut options = SWExternalOptions::new();
    options.delivery = Some(prepared.ticket);
    let accepted = SWProducer::accept(&mut runtime, None, Some(&mut owner), options);
    let (mut producer, mut task, _) = accepted.ok().unwrap();
    assert_eq!(prepared.delivery.status(&owner), Some(SWDeliveryStatus::Waiting));
    let edges = producer.complete(&mut runtime, &mut task, 7).ok().unwrap();
    owner.deliver(&edges, SWTaskStatus::Succeeded);
    assert!(runtime.finish_external(producer.id()));
    pump(&mut owner, &mut runtime, UPDATE, SWPumpBudget::new(9));
    assert_eq!(owner.state(), &vec!["done"]);
    assert_eq!(prepared.delivery.status(&owner), Some(SWDeliveryStatus::Published));
    assert_eq!(runtime.capacity_usage().unwrap().ordinary, SWCost::new(0, 0, 0, 0));
}

#[test]
fn a_refused_result_returns_its_ticket() {
    let mut runtime = runtime(None);
    let mut owner = open(&mut runtime, 2);
    let prepared = owner.prepare_delivery(&mut runtime, UPDATE, "done").ok().unwrap();
    assert_eq!(prepared.control.cancel(&mut owner), SWCancelResult::Requested);
    let mut options = SWExternalOptions::new();
    options.delivery = Some(prepared.ticket);
    let rejected = SWProducer::accept::<_, _, u8>(&mut runtime, None, Some(&mut owner), options)
        .err()
        .unwrap();
    assert_eq!(rejected.reason, SWSpawnError::Closed);
    assert!(rejected.options.delivery.is_some());
    assert_eq!(runtime.external_progress().logical, 0);
}

#[test]
fn a_delivery_is_promised_once() {
    let mut runtime = runtime(None);
    let mut owner = open(&mut runtime, 2);
    let lane = runtime.lane(SWExecutionClass::Mid);
    let prepared = owner.prepare_delivery(&mut runtime, UPDATE, "done").ok().unwrap();
    assert_eq!(prepared.control.cancel(&mut owner), SWCancelResult::Requested);
    let rejected = lane
        .submit_or_run_delivering::<_, _, _, ()>(
            &mut runtime,
            None,
            &mut owner,
            SWDeliveryOptions::default(),
            prepared.ticket,
            "work",
        )
        .err()
        .unwrap();
    assert_eq!(rejected.reason, SWSpawnError::Closed);
    assert_eq!(rejected.operation, "work");

    let one = SWWorkerConfig::new(1);
    let mut foreign =
        SWRuntimeBuilder::<()>::new(SWRuntimeConfig::new(3, [one, one, one]).unwrap())
            .with_owned_limits(SWOwnedLimits::new(1, 0, [1; 3], [1; 3]).unwrap())
            .build::<()>(12, Ok(()))
            .ok()
            .unwrap()
            .runtime;
    let prepared = owner.prepare_delivery(&mut runtime, UPDATE, "done").ok().unwrap();
    let rejected = foreign
        .lane(SWExecutionClass::Mid)
        .try_spawn_fallible_delivering::<_, _, _, ()>(
            &mut foreign,
            None,
            &mut owner,
            SWDeliveryOptions::default(),
            prepared.ticket,
            "work",
        )
        .err()
        .unwrap();
    assert_eq!(rejected.reason, SWSpawnError::InvalidDelivery);
}

#[test]
fn a_stage_accounts_its_delivery() {
    let mut runtime = runtime(Some(policy()));
    let mut owner = open(&mut runtime, 2);
    let lane = runtime.lane(SWExecutionClass::Mid);
    let prepared = owner.prepare_delivery(&mut runtime, UPDATE, "done").ok().unwrap();
    assert_eq!(runtime.capacity_usage().unwrap().ordinary, SWCost::new(0, 0, 1, 0));
    let mut options = SWStageOptions::new();
    options.delivery = Some(prepared.ticket);
    let job: OwnedJob<(), SWRetained<()>> = lane
        .submit_or_run_stage(&mut runtime, None, Some(&mut owner), options, ())
        .ok()
        .unwrap();
    assert_eq!(runtime.capacity_usage().unwrap().ordinary, SWCost::new(1, 0, 1, 0));
    assert!(job.accepted.ticket.is_none());
}

#[test]
fn notifications_leave_in_order_and_within_capacity() {
    let mut queue = NotificationQueue::new(2);
    assert!(queue.push(5));
    assert!(queue.push(6));
    assert!(!queue.push(7));
    assert_eq!(queue.pop(), Some(5));
    assert!(queue.push(8));
    assert_eq!(queue.pop(), Some(6));
    assert_eq!(queue.pop(), Some(8));
    assert_eq!(queue.pop(), None);
}

#[test]
fn a_transport_counts_its_places_by_kind() {
    let mut transport = Transport::new(1, 1, 9);
    let ordinary = transport.reserve_with_charge(EndpointKind::Ordinary, None);
    assert!(!transport.would_accept(EndpointKind::Ordinary));
    assert!(transport.would_accept(EndpointKind::Protected));
    let protected = transport.reserve_with_charge(EndpointKind::Protected, None);
    transport.ready(protected);
    transport.cancel(ordinary);
    assert_eq!(transport.try_recv(), Some(protected));
    assert_eq!(transport.try_recv(), Some(ordinary));
    assert_eq!(transport.claim(protected), ClaimResult::Run);
    assert_eq!(transport.claim(ordinary), ClaimResult::Suppress);
    let progress = transport.progress();
    assert_eq!((progress.routes, progress.claimed, progress.cleanup), (1, 1, 1));
    assert!(transport.settle(protected).is_none());
    assert!(transport.would_accept(EndpointKind::Protected));
    assert!(transport.settle(ordinary).is_none());
    assert!(transport.is_empty());
}

#[test]
fn settled_statuses() {
    for status in [
        SWDeliveryStatus::Published,
        SWDeliveryStatus::Suppressed,
        SWDeliveryStatus::Panicked,
    ] {
        assert!(status.is_settled());
    }
    for status in [
        SWDeliveryStatus::Waiting,
        SWDeliveryStatus::Ready,
        SWDeliveryStatus::Claimed,
    ] {
        assert!(!status.is_settled());
    }
}
