use solworker::reservation::SWReservationPool;
use solworker::SWConfigError;
use solworker::SWCost;
use solworker::SWExecutionClass;
use solworker::SWLimitError;
use solworker::SWLimits;
use solworker::SWReservationError;
use solworker::SWRuntimeConfig;
use solworker::SWThreadPriority;
use solworker::SWWorkerConfig;

fn limits() -> SWLimits {
    SWLimits::new(
        SWCost::new(4, 4, 2, 1_000),
        SWCost::new(2, 1, 1, 500),
        2,
        Some(1_200),
    )
    .unwrap()
}

#[test]
fn configuration_keeps_its_split() {
    let config = SWRuntimeConfig::new(
        6,
        [
            SWWorkerConfig::new(1),
            SWWorkerConfig::new(2).with_priority(SWThreadPriority::AboveNormal),
            SWWorkerConfig::new(3),
        ],
    )
    .unwrap();
    assert_eq!(config.worker_budget(), 6);
    assert_eq!(config.expected_workers(), 6);
    assert_eq!(config.workers_for(SWExecutionClass::Low).worker_count(), 1);
    let mid = config.workers_for(SWExecutionClass::Mid);
    assert_eq!(mid.worker_count(), 2);
    assert_eq!(mid.requested_priority(), Some(SWThreadPriority::AboveNormal));
    assert_eq!(config.workers_for(SWExecutionClass::High).requested_priority(), None);
    assert_eq!(SWThreadPriority::BelowNormal.relative(), -1);
    assert_eq!(SWThreadPriority::Normal.relative(), 0);
    assert_eq!(SWThreadPriority::AboveNormal.relative(), 1);
}

#[test]
fn a_class_configuration_is_its_parts() {
    let w = SWWorkerConfig::new;
    let config = SWRuntimeConfig::new(6, [w(1), w(2), w(3)]).unwrap();
    assert_eq!(config.workers_for(SWExecutionClass::Low), w(1));
    assert_ne!(config.workers_for(SWExecutionClass::Mid), w(1));
}

#[test]
fn configuration_errors_are_ordered() {
    let w = SWWorkerConfig::new;
    assert_eq!(
        SWRuntimeConfig::new(0, [w(0), w(1), w(1)]).err(),
        Some(SWConfigError::ZeroBudget)
    );
    assert_eq!(
        SWRuntimeConfig::new(9, [w(1), w(0), w(0)]).err(),
        Some(SWConfigError::ZeroWorkers(SWExecutionClass::Mid))
    );
    assert_eq!(
        SWRuntimeConfig::new(9, [w(usize::MAX), w(1), w(1)]).err(),
        Some(SWConfigError::WorkerCountOverflow)
    );
    assert_eq!(
        SWRuntimeConfig::new(3, [w(1), w(2), w(3)]).err(),
        Some(SWConfigError::BudgetExceeded { budget: 3, configured: 6 })
    );
}

#[test]
fn policy_errors() {
    let zero = SWCost::new(0, 0, 0, 0);
    assert_eq!(
        SWLimits::new(SWCost::new(1, 1, 1, 1), SWCost::new(0, 0, 0, 9), 1, None).err(),
        Some(SWLimitError::ZeroRequiredCapacity)
    );
    assert_eq!(
        SWLimits::new(SWCost::new(usize::MAX, 0, 0, 0), SWCost::new(1, 0, 0, 0), 0, None).err(),
        Some(SWLimitError::MetadataOverflow)
    );
    assert_eq!(
        SWLimits::new(SWCost::new(1, 0, 0, 11), zero, 0, Some(10)).err(),
        Some(SWLimitError::OrdinaryTargetExceedsCeiling)
    );
    assert!(SWLimits::new(SWCost::new(1, 0, 0, 10), zero, 0, Some(10)).is_ok());
}

#[test]
fn ordinary_work_leaves_the_required_allowance() {
    let mut pool = SWReservationPool::new(7, limits());
    let ordinary = pool.try_reserve_ordinary(SWCost::new(4, 4, 2, 1_000)).ok().unwrap();
    assert_eq!(
        pool.try_reserve_ordinary(SWCost::new(1, 0, 0, 0)).err(),
        Some(SWReservationError::Full)
    );
    let required = pool.try_reserve_required(SWCost::new(2, 1, 1, 0)).ok().unwrap();
    assert!(required.is_required());
    assert!(!ordinary.is_required());
    assert_eq!(required.runtime_identity(), 7);
    assert_eq!(pool.snapshot().required_pipelines, 1);
    assert_eq!(pool.snapshot().ordinary, SWCost::new(4, 4, 2, 1_000));
    required.retire(&mut pool);
    ordinary.retire(&mut pool);
    assert_eq!(pool.snapshot().ordinary, SWCost::new(0, 0, 0, 0));
    assert_eq!(pool.snapshot().required, SWCost::new(0, 0, 0, 0));
    assert_eq!(pool.snapshot().required_pipelines, 0);
}

#[test]
fn each_reservation_error() {
    let mut pool = SWReservationPool::new(1, limits());
    assert_eq!(
        pool.try_reserve_ordinary(SWCost::new(5, 0, 0, 0)).err(),
        Some(SWReservationError::TooLarge)
    );
    let held = pool.try_reserve_ordinary(SWCost::new(3, 0, 0, 0)).ok().unwrap();
    assert_eq!(
        pool.try_reserve_ordinary(SWCost::new(2, 0, 0, 0)).err(),
        Some(SWReservationError::Full)
    );
    assert_eq!(
        held.stage(&mut pool, SWCost::new(4, 0, 0, 0)).err(),
        Some(SWReservationError::InsufficientCredits)
    );
    pool.close();
    assert_eq!(
        pool.try_reserve_ordinary(SWCost::new(1, 0, 0, 0)).err(),
        Some(SWReservationError::Closed)
    );
    held.retire(&mut pool);
}

#[test]
fn a_retired_stage_gives_its_credits_back() {
    let mut pool = SWReservationPool::new(1, limits());
    let pipeline = pool.try_reserve_ordinary(SWCost::new(3, 2, 1, 100)).ok().unwrap();
    let before = pipeline.available(&pool);
    let stage = pipeline.stage(&mut pool, SWCost::new(1, 2, 0, 40)).ok().unwrap();
    assert_eq!(pipeline.available(&pool), SWCost::new(2, 0, 1, 60));
    assert_eq!(stage.available(&pool), SWCost::new(1, 2, 0, 40));
    stage.retire(&mut pool);
    assert_eq!(pipeline.available(&pool), before);
    pipeline.retire(&mut pool);
    assert_eq!(pool.snapshot().ordinary, SWCost::new(0, 0, 0, 0));
}

#[test]
fn a_split_is_independent() {
    let mut pool = SWReservationPool::new(1, limits());
    let mut whole = pool.try_reserve_ordinary(SWCost::new(3, 0, 0, 0)).ok().unwrap();
    let part = whole.split(&mut pool, SWCost::new(1, 0, 0, 0)).ok().unwrap();
    whole.retire(&mut pool);
    assert_eq!(part.available(&pool), SWCost::new(1, 0, 0, 0));
    part.retire(&mut pool);
    assert_eq!(pool.snapshot().ordinary, SWCost::new(0, 0, 0, 0));
}

#[test]
fn growth_is_charged() {
    let mut pool = SWReservationPool::new(1, limits());
    let mut pipeline = pool.try_reserve_ordinary(SWCost::new(1, 0, 0, 0)).ok().unwrap();
    assert!(pipeline.try_grow(&mut pool, SWCost::new(2, 0, 0, 10)).is_ok());
    assert_eq!(pipeline.available(&pool), SWCost::new(3, 0, 0, 10));
    assert_eq!(pool.snapshot().ordinary, SWCost::new(3, 0, 0, 10));
    assert_eq!(
        pipeline.try_grow(&mut pool, SWCost::new(2, 0, 0, 0)).err(),
        Some(SWReservationError::TooLarge)
    );
    let other = pool.try_reserve_ordinary(SWCost::new(1, 0, 0, 0)).ok().unwrap();
    assert_eq!(
        pipeline.try_grow(&mut pool, SWCost::new(1, 0, 0, 0)).err(),
        Some(SWReservationError::Full)
    );
    other.retire(&mut pool);
    assert!(pipeline.try_grow(&mut pool, SWCost::new(1, 0, 0, 0)).is_ok());
    pipeline.retire(&mut pool);
}

#[test]
fn bytes_outlive_their_pipeline() {
    let mut pool = SWReservationPool::new(1, limits());
    let pipeline = pool.try_reserve_ordinary(SWCost::new(1, 0, 0, 300)).ok().unwrap();
    let lease = pipeline.retain_bytes(&mut pool, 200).ok().unwrap();
    assert_eq!(lease.bytes(), 200);
    pipeline.retire(&mut pool);
    assert_eq!(pool.snapshot().ordinary, SWCost::new(0, 0, 0, 200));
    lease.release(&mut pool);
    assert_eq!(pool.snapshot().ordinary, SWCost::new(0, 0, 0, 0));
}

#[test]
fn all_credits_come_back() {
    let mut pool = SWReservationPool::new(1, limits());
    let mut root = pool.try_reserve_ordinary(SWCost::new(2, 2, 1, 400)).ok().unwrap();
    let other = pool.try_reserve_ordinary(SWCost::new(1, 0, 0, 50)).ok().unwrap();
    let mut stage = root.stage(&mut pool, SWCost::new(1, 2, 0, 300)).ok().unwrap();
    let split = stage.split(&mut pool, SWCost::new(1, 1, 0, 200)).ok().unwrap();
    let first = split.retain_bytes(&mut pool, 120).ok().unwrap();
    let second = stage.retain_bytes(&mut pool, 100).ok().unwrap();
    assert!(stage.try_grow(&mut pool, SWCost::new(0, 1, 0, 30)).is_ok());
    assert!(root.try_grow(&mut pool, SWCost::new(1, 0, 1, 5)).is_ok());
    stage.retire(&mut pool);
    assert_eq!(root.available(&pool), SWCost::new(2, 2, 2, 135));
    first.release(&mut pool);
    split.retire(&mut pool);
    other.retire(&mut pool);
    assert_eq!(root.available(&pool), SWCost::new(3, 3, 2, 335));
    second.release(&mut pool);
    assert_eq!(root.available(&pool), SWCost::new(3, 3, 2, 435));
    root.retire(&mut pool);
    assert_eq!(pool.snapshot().ordinary, SWCost::new(0, 0, 0, 0));
}

#[test]
fn every_change_of_the_books_notifies() {
    let mut pool = SWReservationPool::new(1, limits());
    let mut root = pool.try_reserve_ordinary(SWCost::new(2, 0, 0, 40)).ok().unwrap();
    assert_eq!(pool.take_wake(), 1);
    let stage = root.stage(&mut pool, SWCost::new(1, 0, 0, 20)).ok().unwrap();
    let lease = stage.retain_bytes(&mut pool, 10).ok().unwrap();
    assert_eq!(pool.take_wake(), 0);
    assert!(root.try_grow(&mut pool, SWCost::new(1, 0, 0, 0)).is_ok());
    assert_eq!(pool.take_wake(), 1);
    stage.retire(&mut pool);
    assert_eq!(pool.take_wake(), 1);
    // The last reservation of a pipeline ends it too.
    root.retire(&mut pool);
    assert_eq!(pool.take_wake(), 2);
    lease.release(&mut pool);
    pool.close();
    assert_eq!(pool.take_wake(), 2);
}

#[test]
fn the_hard_ceiling_bounds_all_bytes() {
    let mut pool = SWReservationPool::new(1, limits());
    let ordinary = pool.try_reserve_ordinary(SWCost::new(1, 0, 0, 1_000)).ok().unwrap();
    assert_eq!(
        pool.try_reserve_required(SWCost::new(1, 0, 0, 300)).err(),
        Some(SWReservationError::Full)
    );
    let required = pool.try_reserve_required(SWCost::new(1, 0, 0, 200)).ok().unwrap();
    required.retire(&mut pool);
    ordinary.retire(&mut pool);
}

#[test]
fn costs_add_and_subtract() {
    let a = SWCost::new(1, 2, 3, 4);
    let b = SWCost::new(4, 3, 2, 1);
    assert_eq!(a.checked_add(b), Some(SWCost::new(5, 5, 5, 5)));
    assert_eq!(a.checked_add(SWCost::new(usize::MAX, 0, 0, 0)), None);
    assert!(a.fits(SWCost::new(1, 2, 3, 4)));
    assert!(!a.fits(SWCost::new(1, 2, 3, 3)));
    assert!(a.metadata_fits(SWCost::new(1, 2, 3, 0)));
    let mut c = SWCost::new(5, 5, 5, 5);
    assert!(c.subtract(b));
    assert_eq!(c, a);
    assert!(!c.subtract(b));
    assert_eq!(c, a);
}
