use solworker::access::prepare_external;
use solworker::builder::LaunchStep;
use solworker::builder::Launcher;
use solworker::builder::WorkerSetup;
use solworker::lane::OwnedJob;
use solworker::lifecycle::ShutdownStep;
use solworker::notification::signal_fault;
use solworker::notification::SignalEnd;
use solworker::platform::apply_worker_priority;
use solworker::runtime::WorkLease;
use solworker::scheduler::FinishStep;
use solworker::startup::StartStep;
use solworker::startup::Startup;
use solworker::SWBuildError;
use solworker::SWConfigError;
use solworker::SWCost;
use solworker::SWExecutionClass;
use solworker::SWExternalAccessOptions;
use solworker::SWExternalProgress;
use solworker::SWLimitError;
use solworker::SWLimits;
use solworker::SWNotifyError;
use solworker::SWNotifyFault;
use solworker::SWNotifyLimits;
use solworker::SWOwnedConfigError;
use solworker::SWOwnedLimits;
use solworker::SWOwner;
use solworker::SWOwnerProgress;
use solworker::SWPriority;
use solworker::SWProgressWait;
use solworker::SWProgressWaitError;
use solworker::SWReservationError;
use solworker::SWRuntime;
use solworker::SWRuntimeBuilder;
use solworker::SWRuntimeConfig;
use solworker::SWRuntimeState;
use solworker::SWShutdownError;
use solworker::SWSpawnOptions;
use solworker::SWTaskStatus;
use solworker::SWThreadPriority;
use solworker::SWWake;
use solworker::SWWorkSetProgress;
use solworker::SWWorkSetsProgress;
use solworker::SWWorkerConfig;
use solworker::SWWorkerSetupError;

fn config() -> SWRuntimeConfig {
    SWRuntimeConfig::new(
        6,
        [SWWorkerConfig::new(1), SWWorkerConfig::new(2), SWWorkerConfig::new(1)],
    )
    .unwrap()
}

fn runtime() -> SWRuntime {
    SWRuntimeBuilder::<()>::new(config())
        .with_owned_limits(SWOwnedLimits::new(4, 4, [2; 3], [2; 3]).unwrap())
        .build::<()>(2, Ok(()))
        .ok()
        .unwrap()
        .runtime
}

#[test]
fn capacity_and_demand_need_owned_work() {
    let policy =
        SWLimits::new(SWCost::new(1, 0, 0, 0), SWCost::new(1, 0, 0, 0), 1, None).unwrap();
    let capacity = SWRuntimeBuilder::<()>::new(config()).with_capacity_limits(policy);
    assert!(matches!(
        capacity.build::<()>(1, Ok(())).err(),
        Some(SWBuildError::OwnedWorkDisabled)
    ));
    let demand =
        SWRuntimeBuilder::<()>::new(config()).with_demand_limits(vec![SWPriority::new(0)], 1);
    assert!(matches!(demand.check::<()>(), Some(SWBuildError::OwnedWorkDisabled)));
}

#[test]
fn an_unchecked_policy_is_validated() {
    let policy = SWLimits {
        ordinary_target: SWCost::new(1, 0, 0, 9),
        required_allowance: SWCost::new(0, 0, 0, 0),
        required_pipelines: 0,
        hard_byte_ceiling: Some(8),
    };
    let builder = SWRuntimeBuilder::<()>::new(config())
        .with_owned_limits(SWOwnedLimits::new(1, 0, [1; 3], [1; 3]).unwrap())
        .with_capacity_limits(policy);
    assert!(matches!(
        builder.build::<()>(1, Ok(())).err(),
        Some(SWBuildError::Capacity(SWLimitError::OrdinaryTargetExceedsCeiling))
    ));
}

#[test]
fn a_policy_widens_smaller_limits() {
    let policy =
        SWLimits::new(SWCost::new(3, 2, 0, 0), SWCost::new(2, 1, 0, 0), 1, None).unwrap();
    let mut runtime = SWRuntimeBuilder::<()>::new(config())
        .with_owned_limits(SWOwnedLimits::new(1, 9, [9; 3], [9; 3]).unwrap())
        .with_capacity_limits(policy)
        .build::<()>(1, Ok(()))
        .ok()
        .unwrap()
        .runtime;
    let lane = runtime.lane(SWExecutionClass::Low);
    for _ in 0..3 {
        let job: Result<OwnedJob<(), ()>, _> =
            lane.try_spawn(&mut runtime, None, SWSpawnOptions::default(), ());
        assert!(job.is_ok());
    }
}

#[test]
fn a_failed_startup_returns_its_error() {
    let error = SWBuildError::Hook { class: SWExecutionClass::Mid, worker: 1, source: "no" };
    let failed = SWRuntimeBuilder::<()>::new(config()).build(1, Err(error)).err().unwrap();
    assert_eq!(failed.describe("no"), "setup hook failed for Mid worker 1: no");
}

#[test]
fn the_builder_keeps_its_hook_and_notifications() {
    let mut builder = SWRuntimeBuilder::new(config())
        .with_worker_setup("hook")
        .with_notification_limits(SWNotifyLimits { routes: 2, bindings: 3 });
    assert_eq!(builder.config().worker_budget(), 6);
    assert_eq!(builder.take_setup(), Some("hook"));
    assert_eq!(builder.take_setup(), None);
    let built = builder.build::<()>(8, Ok(())).ok().unwrap();
    let mut domain = built.notifications.unwrap();
    assert!(domain.create_route(false).is_ok());
    assert!(domain.create_route(false).is_ok());
    assert_eq!(domain.create_route(false).err(), Some(SWNotifyError::Full));
}

#[test]
fn a_failed_signal_shows_on_a_new_runtime() {
    let built = SWRuntimeBuilder::<()>::new(config())
        .with_notification_limits(SWNotifyLimits { routes: 1, bindings: 1 })
        .build::<()>(8, Ok(()))
        .ok()
        .unwrap();
    let mut domain = built.notifications.unwrap();
    let mut route = domain.create_route(false).unwrap();
    let (_binding, claim) = route.watch_progress(&mut domain, false).unwrap();
    assert!(claim);
    assert!(domain.begin_claim(route.index()));
    let fault = signal_fault(SignalEnd::Failed(Some(String::from("boom"))), false);
    assert!(!domain.finish_claim(route.index(), fault));
    assert_eq!(route.fault(&domain), Some(&SWNotifyFault::Error(String::from("boom"))));
    assert_eq!(route.prepare_wait(&mut domain, false).err(), Some(SWNotifyError::Faulted));
    assert_eq!(route.watch_progress(&mut domain, false).err(), Some(SWNotifyError::Faulted));
}

#[test]
fn every_worker_is_launched_in_order() {
    let startup = Startup::<SWBuildError<()>>::new();
    let mut launcher = Launcher::new(config());
    let mut launched = Vec::new();
    let expected = loop {
        match launcher.next(&startup) {
            LaunchStep::Launch { class, worker } => launched.push((class, worker)),
            LaunchStep::Await(expected) => break expected,
            LaunchStep::Abort => panic!("nothing failed"),
        }
    };
    assert_eq!(expected, 4);
    assert_eq!(
        launched,
        vec![
            (SWExecutionClass::Low, 0),
            (SWExecutionClass::Mid, 0),
            (SWExecutionClass::Mid, 1),
            (SWExecutionClass::High, 0),
        ]
    );
}

#[test]
fn workers_start_together_or_not_at_all() {
    let mut startup = Startup::<&str>::new();
    startup.arrive();
    assert_eq!(startup.ready_and_wait(), None);
    assert_eq!(startup.start_when_ready(2), StartStep::Wait);
    startup.arrive();
    assert_eq!(startup.start_when_ready(2), StartStep::Started);
    assert_eq!(startup.ready_and_wait(), Some(true));

    let mut startup = Startup::<&str>::new();
    startup.arrive();
    assert_eq!(startup.fail("first"), None);
    assert_eq!(startup.fail("second"), Some("second"));
    assert_eq!(startup.start_when_ready(1), StartStep::Aborted);
    assert_eq!(startup.ready_and_wait(), Some(false));
    assert_eq!(startup.take_error(), Some("first"));
}

#[test]
fn a_failed_spawn_aborts_the_launch() {
    let mut startup = Startup::new();
    let mut launcher = Launcher::new(config());
    assert!(matches!(launcher.next(&startup), LaunchStep::Launch { .. }));
    assert!(Launcher::spawn_failed(&mut startup, SWExecutionClass::Low, 0, "quota").is_none());
    assert_eq!(launcher.next(&startup), LaunchStep::Abort);
    let error = startup.take_error().unwrap();
    assert_eq!(error.describe("quota"), "could not spawn Low worker 0: quota");
}

#[test]
fn worker_preparation_reports() {
    let unsupported = apply_worker_priority::<&str>(Some(SWThreadPriority::Normal), None);
    let error = unsupported.err().unwrap();
    assert!(matches!(
        error,
        SWWorkerSetupError::UnsupportedPriority(SWThreadPriority::Normal)
    ));
    let report = WorkerSetup::Priority(error).report(SWExecutionClass::High, 3).unwrap();
    assert_eq!(
        report.describe(""),
        "could not configure High worker 3: worker priority Normal is unsupported on this platform"
    );
    assert!(apply_worker_priority::<&str>(None, None).is_ok());
    assert!(apply_worker_priority::<&str>(Some(SWThreadPriority::Normal), Some(Ok(()))).is_ok());
    let system = apply_worker_priority(Some(SWThreadPriority::AboveNormal), Some(Err("denied")));
    assert!(matches!(system, Err(SWWorkerSetupError::System("denied"))));
    let panicked = WorkerSetup::<()>::Panicked.report(SWExecutionClass::Low, 10).unwrap();
    assert_eq!(panicked.describe(""), "setup hook panicked for Low worker 10");
    assert!(WorkerSetup::<()>::Ready.report(SWExecutionClass::Low, 0).is_none());
}

#[test]
fn shutdown_joins_an_idle_runtime() {
    let mut runtime = runtime();
    let none = Vec::new();
    assert_eq!(runtime.state(), SWRuntimeState::Running);
    assert_eq!(
        runtime.try_shutdown(true, &none, true),
        Err(SWShutdownError::ExecutionContext)
    );
    assert_eq!(runtime.state(), SWRuntimeState::Running);
    assert_eq!(runtime.try_shutdown(false, &none, true), Ok(ShutdownStep::Join));
    runtime.stop();
    assert_eq!(runtime.state(), SWRuntimeState::Stopped);
    assert_eq!(runtime.try_shutdown(false, &none, true), Ok(ShutdownStep::Stopped));
    assert!(runtime.abandon().is_none());
}

#[test]
fn shutdown_waits_for_accepted_work() {
    let mut runtime = runtime();
    let none = Vec::new();
    let lane = runtime.lane(SWExecutionClass::Low);
    let job: OwnedJob<(), ()> =
        lane.try_spawn(&mut runtime, None, SWSpawnOptions::default(), ()).ok().unwrap();
    assert_eq!(runtime.try_shutdown(false, &none, true), Ok(ShutdownStep::Service));
    assert_eq!(runtime.state(), SWRuntimeState::Closing);
    assert!(job.control.cancel(&mut runtime).is_some());
    assert_eq!(
        runtime.finish_record(job.accepted.id, SWTaskStatus::Cancelled),
        FinishStep::Publish
    );
    assert!(runtime.finalize_record(job.accepted.id).is_some());
    assert_eq!(runtime.try_shutdown(false, &none, true), Ok(ShutdownStep::Join));
}

#[test]
fn shutdown_names_its_blocker() {
    let mut runtime = runtime();
    let open = vec![SWWorkSetProgress {
        sealed: false,
        active_work: 1,
        discovery_permits: 0,
        drained: false,
    }];
    assert_eq!(runtime.shutdown(false, &open), Err(SWShutdownError::LiveWorkSets));
    assert_eq!(runtime.state(), SWRuntimeState::Running);
    let (_owner, id): (SWOwner<(), ()>, u64) = runtime.owner((), 1, false).ok().unwrap();
    assert_eq!(runtime.shutdown(false, &Vec::new()), Err(SWShutdownError::LiveOwners));
    runtime.unregister_owner(id);
    assert_eq!(runtime.wait_blocker(&Vec::new(), true), Some(SWShutdownError::PendingControl));
    assert_eq!(runtime.wait_blocker(&Vec::new(), false), None);
}

#[test]
fn abandonment_is_terminal() {
    let mut runtime = runtime();
    assert!(runtime.abandon().is_some());
    assert_eq!(runtime.state(), SWRuntimeState::Abandoned);
    assert_eq!(
        runtime.try_shutdown(false, &Vec::new(), true),
        Ok(ShutdownStep::Abandoned)
    );
    assert_eq!(runtime.state(), SWRuntimeState::Abandoned);
}

#[test]
fn progress_is_a_snapshot() {
    let mut runtime = runtime();
    let lane = runtime.lane(SWExecutionClass::High);
    for _ in 0..2 {
        let job: Result<OwnedJob<(), ()>, _> =
            lane.try_spawn(&mut runtime, None, SWSpawnOptions::default(), ());
        assert!(job.is_ok());
    }
    let mut wake = SWWake::new();
    let generation = wake.generation();
    let owner = SWOwnerProgress { routes: 0, waiting: 0, ready: 0, claimed: 0, cleanup: 0 };
    let sets = SWWorkSetsProgress { sets: 0, open: 0, active_work: 0, discovery_permits: 0 };
    let progress = runtime.progress(owner, sets, false, 0, generation);
    assert_eq!(progress.state, SWRuntimeState::Running);
    assert_eq!(progress.scheduler.ready, 2);
    assert_eq!(progress.active_leases, 2);
    assert_eq!(progress.scheduler.runnable_full, [false, false, true]);
    assert!(progress.capacity.is_none());
    assert_eq!(progress.wait_for_change(false, generation, false), Ok(None));
    assert_eq!(
        progress.wait_for_change(true, generation, false),
        Err(SWProgressWaitError::InvalidContext)
    );
    assert_eq!(wake.wait_since(generation, false), None);
    assert_eq!(wake.wait_since(generation, true), Some(false));
    assert!(wake.notify());
    assert_eq!(wake.wait_since(generation, true), Some(true));
    let changed = wake.generation();
    assert_ne!(changed, generation);
    assert_eq!(
        progress.wait_for_change(false, changed, false),
        Ok(Some(SWProgressWait::Changed(changed)))
    );
    assert_eq!(
        progress.wait_for_change(false, generation, true),
        Ok(Some(SWProgressWait::TimedOut(generation)))
    );
}

#[test]
fn progress_shows_every_blocker() {
    let mut runtime = SWRuntimeBuilder::<()>::new(config())
        .with_owned_limits(SWOwnedLimits::new(2, 1, [2; 3], [1; 3]).unwrap())
        .with_external_capacity(3)
        .build::<()>(2, Ok(()))
        .ok()
        .unwrap()
        .runtime;
    let owner = SWOwnerProgress::default();
    let sets = SWWorkSetsProgress { sets: 0, open: 0, active_work: 0, discovery_permits: 0 };
    let before = runtime.progress(owner, sets, false, 0, 0);
    assert_eq!(before.scheduler.handoff_wrappers, [0; 3]);
    assert_eq!(before.scheduler.handoff_full, [false; 3]);
    assert!(!before.scheduler.records_full && !before.scheduler.edges_full);
    let options = || SWExternalAccessOptions {
        lease: WorkLease::Unset,
        reservation: None,
        cost: SWCost::new(0, 0, 0, 0),
    };
    let _prepared = prepare_external(&mut runtime, 1, options(), None).ok().unwrap();
    let active = prepare_external(&mut runtime, 2, options(), None).ok().unwrap();
    let _active = active.activate(&mut runtime, None).ok().unwrap();
    let lost = prepare_external(&mut runtime, 3, options(), None).ok().unwrap();
    let _lost = lost.activate(&mut runtime, None).ok().unwrap().lose(&mut runtime);
    let lane = runtime.lane(SWExecutionClass::Low);
    for _ in 0..2 {
        let job: Result<OwnedJob<(), ()>, _> =
            lane.try_spawn(&mut runtime, None, SWSpawnOptions::default(), ());
        assert!(job.is_ok());
    }
    let progress = runtime.progress(owner, sets, true, 5, 0);
    assert_eq!(
        progress.external,
        SWExternalProgress { logical: 0, prepared: 1, active: 1, orphaned: 1 }
    );
    assert!(progress.scheduler.records_full);
    assert!(progress.scheduler.demand_pending);
    assert_eq!(progress.scheduler.provider_callbacks, 5);
    assert_eq!(progress.scheduler.runnable_full, [true, false, false]);
}

#[test]
fn errors_say_what_they_mean() {
    assert_eq!(SWConfigError::ZeroBudget.describe(), "worker budget must be nonzero");
    assert_eq!(
        SWConfigError::ZeroWorkers(SWExecutionClass::High).describe(),
        "High class has no workers"
    );
    assert_eq!(
        SWConfigError::BudgetExceeded { budget: 10, configured: 1_234_567_890 }.describe(),
        "worker budget is 10, but class counts require 1234567890"
    );
    assert_eq!(
        SWOwnedConfigError::ZeroHandoff(SWExecutionClass::Low).describe(),
        "Low handoff capacity must be nonzero"
    );
    assert_eq!(
        SWReservationError::InsufficientCredits.describe(),
        "reservation has insufficient free credits"
    );
    assert_eq!(
        SWLimitError::MetadataOverflow.describe(),
        "combined metadata capacity overflows usize"
    );
    assert_eq!(
        SWShutdownError::LiveOwners.describe(),
        "close and clean live owners before runtime shutdown"
    );
    assert_eq!(SWNotifyError::ForeignStamp.describe(), "notification ForeignStamp");
    assert_eq!(
        SWProgressWaitError::InvalidContext.describe(),
        "passive progress wait from a CPU or live-owner context"
    );
    assert_eq!(
        SWBuildError::<()>::Capacity(SWLimitError::ZeroRequiredCapacity).describe(""),
        "invalid capacity policy: required pipeline capacity needs protected metadata"
    );
}
