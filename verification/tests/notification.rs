use solworker::notification::signal_fault;
use solworker::notification::ClaimQueue;
use solworker::notification::CompletionInterest;
use solworker::notification::NotifyDomain;
use solworker::notification::SignalEnd;
use solworker::SWNotifyError;
use solworker::SWNotifyFault;
use solworker::SWNotifyLimits;
use solworker::SWNotifyRejected;
use solworker::SWRuntime;

fn domain(routes: usize, bindings: usize) -> NotifyDomain {
    NotifyDomain::new(5, SWNotifyLimits { routes, bindings })
}

#[test]
fn a_disabled_domain_rejects_routes() {
    let mut none = domain(0, 0);
    assert_eq!(none.create_route(false).err(), Some(SWNotifyError::Disabled));
    let rejected = SWRuntime::notification_route(None, false, "signal").err().unwrap();
    assert_eq!(rejected.reason, SWNotifyError::Disabled);
    assert_eq!(rejected.into_signal(), "signal");
    let mut enabled = domain(1, 1);
    let (_, signal) =
        SWRuntime::notification_route(Some(&mut enabled), false, "signal").ok().unwrap();
    assert_eq!(signal, "signal");
}

#[test]
fn route_errors() {
    let mut domain = domain(1, 1);
    assert_eq!(domain.create_route(true).err(), Some(SWNotifyError::InvalidContext));
    let mut route = domain.create_route(false).unwrap();
    assert_eq!(domain.create_route(false).err(), Some(SWNotifyError::Full));
    let (_binding, _) = route.watch_progress(&mut domain, false).unwrap();
    let source = domain.new_source();
    assert_eq!(
        route.watch_source(&mut domain, 5, source, false).err(),
        Some(SWNotifyError::Full)
    );
    assert_eq!(
        route.watch_source(&mut domain, 6, source, false).err(),
        Some(SWNotifyError::ForeignSource)
    );
    assert!(route.close(&mut domain, false).is_ok());
    assert_eq!(
        route.watch_source(&mut domain, 5, source, false).err(),
        Some(SWNotifyError::Closed)
    );
}

#[test]
fn a_change_after_the_stamp_is_seen() {
    let mut domain = domain(1, 2);
    let mut route = domain.create_route(false).unwrap();
    let source = domain.new_source();
    let (_binding, recheck) = route.watch_source(&mut domain, 5, source, false).unwrap();
    assert!(recheck);
    assert!(domain.publish(source).is_empty());
    assert!(domain.begin_claim(route.index()));
    assert!(!domain.finish_claim(route.index(), None));
    let stamp = route.prepare_wait(&mut domain, false).unwrap();
    assert_eq!(route.changed_since(&domain, stamp, false), Ok(false));
    let claims = domain.publish(source);
    assert_eq!(claims.len(), 1);
    assert_eq!(route.changed_since(&domain, stamp, false), Ok(true));
    assert!(domain.publish(source).is_empty());
    assert!(domain.begin_claim(claims[0]));
    assert!(!domain.finish_claim(claims[0], None));
    let next = route.prepare_wait(&mut domain, false).unwrap();
    assert_eq!(route.changed_since(&domain, next, false), Ok(false));
}

#[test]
fn a_fault_is_reported_by_its_route() {
    let mut domain = domain(1, 2);
    let mut route = domain.create_route(false).unwrap();
    let source = domain.new_source();
    let (_binding, recheck) = route.watch_source(&mut domain, 5, source, false).unwrap();
    assert!(recheck);
    assert!(domain.begin_claim(route.index()));
    domain.finish_claim(route.index(), Some(SWNotifyFault::Panicked));
    assert_eq!(route.fault(&domain), Some(&SWNotifyFault::Panicked));
    assert_eq!(
        route.prepare_wait(&mut domain, false).err(),
        Some(SWNotifyError::Faulted)
    );
}

#[test]
fn a_stamp_belongs_to_its_route() {
    let mut domain = domain(2, 2);
    let mut first = domain.create_route(false).unwrap();
    let mut second = domain.create_route(false).unwrap();
    let stamp = first.prepare_wait(&mut domain, false).unwrap();
    let _ = second.prepare_wait(&mut domain, false).unwrap();
    assert_eq!(
        second.changed_since(&domain, stamp, false),
        Err(SWNotifyError::ForeignStamp)
    );
    assert_eq!(
        first.changed_since(&domain, stamp, true),
        Err(SWNotifyError::InvalidContext)
    );
}

#[test]
fn a_closed_route_becomes_quiescent_and_reusable() {
    let mut domain = domain(1, 1);
    let mut route = domain.create_route(false).unwrap();
    assert!(!route.is_quiescent(&domain));
    assert_eq!(route.close(&mut domain, false), Ok(true));
    route.signal_destroyed(&mut domain, false);
    assert!(route.is_quiescent(&domain));
    route.release(&mut domain);
    assert!(domain.create_route(false).is_ok());
}

#[test]
fn completed_work_notifies_at_once() {
    let mut domain = domain(1, 1);
    let mut route = domain.create_route(false).unwrap();
    let ready = CompletionInterest { runtime: None, source: None, complete: true };
    let (_, changed) = route.watch_completion(&mut domain, ready, false).unwrap();
    assert!(changed);
    let unknown = CompletionInterest { runtime: Some(5), source: None, complete: true };
    assert_eq!(
        route.watch_completion(&mut domain, unknown, false).err(),
        Some(SWNotifyError::Closed)
    );
    let foreign = CompletionInterest { runtime: Some(6), source: None, complete: true };
    assert_eq!(
        route.watch_completion(&mut domain, foreign, false).err(),
        Some(SWNotifyError::ForeignSource)
    );
}

#[test]
fn signal_ends_and_their_faults() {
    assert_eq!(signal_fault(SignalEnd::Delivered, false), None);
    assert_eq!(
        signal_fault(SignalEnd::Failed(Some(String::from("lost"))), false),
        Some(SWNotifyFault::Error(String::from("lost")))
    );
    assert_eq!(signal_fault(SignalEnd::Failed(None), false), Some(SWNotifyFault::Panicked));
    assert_eq!(signal_fault(SignalEnd::Panicked, false), Some(SWNotifyFault::Panicked));
}

#[test]
fn claims_wait_for_the_outermost_scope() {
    let mut queue = ClaimQueue::new();
    queue.enter();
    assert!(!queue.queue_claims(&vec![3, 1]));
    assert!(queue.leave());
    assert_eq!(queue.next_claim(), Some(3));
    assert_eq!(queue.next_claim(), Some(1));
    assert_eq!(queue.next_claim(), None);
    assert!(!queue.invocation_active());
    queue.enter_invocation();
    assert!(queue.invocation_active());
    queue.leave_invocation();
    assert!(!queue.invocation_active());
}

#[test]
fn a_rejected_signal_comes_back() {
    let rejected = SWNotifyRejected { reason: SWNotifyError::Full, signal: vec![1] };
    assert_eq!(rejected.into_signal(), vec![1]);
}

#[test]
fn a_terminal_source_publishes_for_the_last_time() {
    let mut domain = domain(1, 2);
    let mut route = domain.create_route(false).unwrap();
    let source = domain.new_source();
    let (_binding, _) = route.watch_source(&mut domain, 5, source, false).unwrap();
    assert!(domain.begin_claim(route.index()));
    domain.finish_claim(route.index(), None);
    let _ = route.prepare_wait(&mut domain, false).unwrap();
    let claims = domain.publish_terminal(source);
    assert_eq!(claims, vec![route.index()]);
    assert!(domain.begin_claim(route.index()));
    domain.finish_claim(route.index(), None);
    let _ = route.prepare_wait(&mut domain, false).unwrap();
    assert!(domain.publish(source).is_empty());
    let (late, recheck) = route.watch_source(&mut domain, 5, source, false).unwrap();
    assert!(recheck);
    late.release(&mut domain);
}

#[test]
fn broad_progress_has_its_own_source() {
    let mut enabled = domain(1, 1);
    let serial = enabled.progress_source().unwrap();
    assert!(enabled.has_room());
    assert!(enabled.publish_if_watched(serial).is_empty());
    let mut route = enabled.create_route(false).unwrap();
    let (_binding, _) = route.watch_progress(&mut enabled, false).unwrap();
    assert!(enabled.begin_claim(route.index()));
    enabled.finish_claim(route.index(), None);
    let _ = route.prepare_wait(&mut enabled, false).unwrap();
    assert_eq!(enabled.publish_if_watched(serial), vec![route.index()]);
    assert_eq!(domain(0, 0).progress_source(), None);
}

#[test]
fn an_owner_is_watched_until_it_has_gone() {
    let mut domain = domain(1, 2);
    let mut route = domain.create_route(false).unwrap();
    assert_eq!(
        route.watch_owner(&mut domain, 5, None, false).err(),
        Some(SWNotifyError::Disabled)
    );
    let source = domain.new_source();
    assert_eq!(
        route.watch_owner(&mut domain, 6, Some(source), false).err(),
        Some(SWNotifyError::ForeignSource)
    );
    let (_binding, claim) = route.watch_owner(&mut domain, 5, Some(source), false).unwrap();
    assert!(claim);
    assert!(domain.begin_claim(route.index()));
    domain.finish_claim(route.index(), None);
    let _ = route.prepare_wait(&mut domain, false).unwrap();
    assert_eq!(domain.publish(source), vec![route.index()]);
    assert!(domain.release_source(source));
    assert!(!domain.release_source(source));
    assert!(domain.publish(source).is_empty());
}
