use solworker::activation::Activation;
use solworker::activation::ActivationQueue;
use solworker::buffers::bucket_index;
use solworker::buffers::BufferGrant;
use solworker::buffers::BufferPool;
use solworker::context::Context;
use solworker::diagnostics::Probe;
use solworker::diagnostics::TraceThread;
use solworker::diagnostics::THREADS;
use solworker::group::GroupInner;
use solworker::scope::inherited_group;
use solworker::scope::Chunks;
use solworker::scope::FirstPanic;
use solworker::storage::GroupPool;
use solworker::storage::JobPool;
use solworker::storage::SignalPool;
use solworker::SWCompletion;
use solworker::SWExecutionClass;
use solworker::SWExecutionError;
use solworker::SWPanic;
use solworker::SWRuntimeBuilder;
use solworker::SWRuntimeConfig;
use solworker::SWTaskStatus;
use solworker::SWTrace;
use solworker::SWTraceJob;
use solworker::SWWorkerConfig;

const LOW: SWExecutionClass = SWExecutionClass::Low;
const HIGH: SWExecutionClass = SWExecutionClass::High;

#[test]
fn chunks_cover_a_slice_once() {
    for (len, size, count) in [(0, 4, 0), (1, 4, 1), (4, 4, 1), (5, 4, 2), (7, 1, 7)] {
        let chunks = Chunks { len, size };
        assert_eq!(chunks.count(), count);
        let mut next = 0;
        for index in 0..count {
            let (start, end) = chunks.bounds(index);
            assert_eq!(start, next);
            assert!(start < end && end - start <= size);
            next = end;
        }
        assert_eq!(next, len);
    }
    let huge = Chunks { len: usize::MAX, size: usize::MAX - 1 };
    assert_eq!(huge.count(), 2);
    assert_eq!(huge.bounds(1), (usize::MAX - 1, usize::MAX));
}

#[test]
fn lanes_admit_borrowed_work() {
    let one = SWWorkerConfig::new(1);
    let mut runtime =
        SWRuntimeBuilder::<()>::new(SWRuntimeConfig::new(3, [one, one, one]).unwrap())
            .build::<()>(6, Ok(()))
            .ok()
            .unwrap()
            .runtime;
    let lane = runtime.lane(HIGH);
    let joined = lane.join(&mut runtime, None, true, "l", "r").ok().unwrap();
    assert_eq!((joined.left, joined.right), ("l", "r"));
    assert_eq!(joined.branch, Context { runtime: 6, class: HIGH, group: None });
    let nested = Some(Context { runtime: 6, class: HIGH, group: Some(4) });
    let chunked = lane.for_each_chunk(&mut runtime, nested, true, 10, 3, "op").ok().unwrap();
    assert_eq!(chunked.chunks.count(), 4);
    assert_eq!(chunked.branch.group, Some(4));
    let foreign = Some(Context { runtime: 6, class: LOW, group: None });
    let rejected =
        lane.join_with_owner(&mut runtime, foreign, true, "w", "o").err().unwrap();
    assert_eq!(rejected.reason, SWExecutionError::InvalidContext);
    assert_eq!((rejected.left, rejected.right), ("w", "o"));
    let gone = lane.for_each_read_chunk(&mut runtime, None, false, 1, 1, "op").err().unwrap();
    assert_eq!(gone.reason, SWExecutionError::Closed);
    assert_eq!(gone.operation, "op");
    runtime.release_lease();
    runtime.release_lease();
    runtime.begin_shutdown();
    assert_eq!(
        lane.join(&mut runtime, None, true, (), ()).err().map(|r| r.reason),
        Some(SWExecutionError::Closed)
    );
    assert!(lane.join(&mut runtime, nested, true, (), ()).is_ok());
}

#[test]
fn groups_are_inherited_within_a_lane() {
    let context = Some(Context { runtime: 1, class: LOW, group: Some(9) });
    assert_eq!(inherited_group(context, 1, LOW), Some(9));
    assert_eq!(inherited_group(context, 1, HIGH), None);
    assert_eq!(inherited_group(context, 2, LOW), None);
    assert_eq!(inherited_group(None, 1, LOW), None);
}

#[test]
fn the_first_panic_is_kept() {
    let mut panics = FirstPanic::new();
    assert_eq!(panics.record("first"), None);
    assert_eq!(panics.record("second"), Some("second"));
    assert_eq!(panics.into_outcome().err().map(|panic| panic.into_payload()), Some("first"));
    assert!(FirstPanic::<()>::new().into_outcome().is_ok());
    assert_eq!(SWPanic::new(3).into_payload(), 3);
}

#[test]
fn buckets_are_powers_of_two() {
    assert_eq!(bucket_index(0), None);
    assert_eq!(bucket_index(1), Some(0));
    assert_eq!(bucket_index(3), Some(2));
    assert_eq!(bucket_index(4), Some(2));
    assert_eq!(bucket_index(5), Some(3));
    assert_eq!(bucket_index(usize::MAX), None);
}

fn grant(pool: &mut BufferPool<u32>, minimum: usize) -> Option<usize> {
    match pool.acquire(minimum) {
        BufferGrant::Reused(buffer) => {
            assert!(buffer.is_empty());
            None
        }
        BufferGrant::Allocate(capacity) => Some(capacity),
    }
}

#[test]
fn buffers_are_reused_by_capacity() {
    let mut pool = BufferPool::new(16, false);
    assert_eq!(grant(&mut pool, 0), Some(0));
    assert_eq!(grant(&mut pool, 5), Some(8));
    pool.release(Vec::new(), 8);
    assert_eq!(grant(&mut pool, 3), Some(4));
    assert_eq!(grant(&mut pool, 5), None);
    assert_eq!(grant(&mut pool, 5), Some(8));
    pool.release(Vec::new(), 6);
    pool.release(Vec::new(), 32);
    pool.release(Vec::new(), 0);
    assert_eq!(grant(&mut pool, 6), Some(8));
    assert_eq!(grant(&mut pool, usize::MAX), Some(usize::MAX));
    let mut empty = BufferPool::<u32>::new(16, true);
    empty.release(Vec::new(), 8);
    assert_eq!(grant(&mut empty, 8), Some(0));
}

#[test]
fn an_absent_class_displaces_a_wider_buffer() {
    let mut pool = BufferPool::<u32>::new(16, false);
    pool.release(Vec::new(), 8);
    pool.release(Vec::new(), 8);
    pool.release(Vec::new(), 8);
    pool.release(Vec::new(), 4);
    assert_eq!(grant(&mut pool, 4), None);
    assert_eq!(grant(&mut pool, 8), None);
    assert_eq!(grant(&mut pool, 8), Some(8));
}

#[test]
fn waves_are_recycled_without_their_past() {
    let mut pool = GroupPool::new(1);
    let free = Vec::new();
    let mut settled = GroupInner::new(1, LOW);
    assert_eq!(settled.seal(), Some(SWTaskStatus::Succeeded));
    settled.publish();
    pool.retire(settled);
    let mut open = GroupInner::new(2, LOW);
    open.seal();
    pool.retire(open);
    let next = pool.acquire(7, HIGH, &free);
    assert_eq!(next, GroupInner::new(7, HIGH));
    assert_eq!(pool.acquire(8, LOW, &free), GroupInner::new(8, LOW));
}

#[test]
fn a_wave_that_somebody_holds_is_not_recycled() {
    let mut pool = GroupPool::new(1);
    let mut settled = GroupInner::new(1, LOW);
    settled.seal();
    settled.publish();
    pool.retire(settled);
    let mut other = GroupInner::new(2, LOW);
    other.seal();
    other.publish();
    assert_eq!(pool.acquire(7, HIGH, &vec![3, 1]), GroupInner::new(7, HIGH));
    // The pool is still full, so another wave finds no place in it.
    pool.retire(other);
    assert_eq!(pool.acquire(8, HIGH, &vec![1]), GroupInner::new(8, HIGH));
    assert_eq!(pool.acquire(9, HIGH, &Vec::new()), GroupInner::new(9, HIGH));
}

#[test]
fn completions_are_recycled_when_nobody_waits() {
    let mut pool = SignalPool::new(2);
    let mut ended = SWCompletion::pending();
    ended.publish(SWTaskStatus::Succeeded);
    pool.retire_if_last(ended, true);
    let mut awaited = SWCompletion::pending();
    awaited.subscribe(1);
    pool.retire_if_last(awaited, true);
    assert_eq!(pool.acquire().status(), None);
    assert_eq!(pool.acquire().status(), None);
}

#[test]
fn job_controls_give_their_operation_once() {
    let mut pool = JobPool::new(1);
    let mut job = pool.acquire(4, "op");
    assert_eq!(job.take_envelope(), Some("op"));
    assert_eq!(job.take_envelope(), None);
    assert!(pool.release(job, true).is_none());
    let again = pool.acquire(5, "next");
    assert_eq!((again.id, again.envelope), (5, Some("next")));
    let intact = pool.acquire(6, "kept");
    assert_eq!(pool.release(intact, true).and_then(|job| job.envelope), Some("kept"));
    let mut shared = pool.acquire(7, "gone");
    shared.take_envelope();
    assert!(pool.release(shared, false).is_some());
}

#[test]
fn nested_activations_only_queue() {
    let mut queue = ActivationQueue::new();
    assert!(queue.enqueue(Activation::Finalize(1)));
    assert!(!queue.enqueue(Activation::Prerequisite(2, SWTaskStatus::Succeeded)));
    assert_eq!(queue.next(), Some(Activation::Finalize(1)));
    assert_eq!(queue.next(), Some(Activation::Prerequisite(2, SWTaskStatus::Succeeded)));
    assert_eq!(queue.next(), None);
    assert!(queue.enqueue(Activation::Finalize(3)));
    queue.unwound();
    assert!(queue.enqueue(Activation::Finalize(4)));
    assert_eq!(queue.next(), Some(Activation::Finalize(3)));
}

fn probe(id: u64) -> Probe {
    Probe { native_thread_id: None, runtime: 1, event: "claim", id, related: 0 }
}

#[test]
fn traces_start_once_and_drain() {
    let mut trace = SWTrace::new();
    let mut local = TraceThread::new(40);
    trace.record_at(&mut local, probe(1), 5);
    assert!(trace.start(100));
    assert!(!trace.start(200));
    trace.record_at(&mut local, probe(2), 90);
    trace.record_at(&mut local, probe(3), 130);
    let mut other = TraceThread::new(41);
    trace.record_at(&mut other, probe(4), u128::MAX);
    let mut output = Vec::new();
    assert_eq!(trace.drain(&mut output), 0);
    let seen: Vec<(u64, u64, u64)> =
        output.iter().map(|event| (event.thread, event.id, event.elapsed_ns)).collect();
    assert_eq!(seen, vec![(40, 2, 0), (40, 3, 30), (41, 4, u64::MAX)]);
    output.clear();
    assert_eq!(trace.drain(&mut output), 0);
    assert!(output.is_empty());
}

#[test]
fn threads_beyond_the_bound_count_as_dropped() {
    let mut trace = SWTrace::new();
    trace.start(0);
    for thread in 0..THREADS {
        trace.record_at(&mut TraceThread::new(thread as u64), probe(0), 1);
    }
    trace.record_at(&mut TraceThread::new(99), probe(0), 1);
    let mut output = Vec::new();
    assert_eq!(trace.drain(&mut output), 1);
    assert_eq!(output.len(), THREADS);
}

#[test]
fn full_buffers_drop_events() {
    let mut trace = SWTrace::new();
    trace.start(0);
    let mut local = TraceThread::new(1);
    for id in 0..65_538 {
        trace.record_at(&mut local, probe(id), 1);
    }
    let mut output = Vec::new();
    assert_eq!(trace.drain(&mut output), 2);
    assert_eq!(output.len(), 65_536);
}

#[test]
fn helping_restores_the_suspended_job() {
    let mut local = TraceThread::new(1);
    let outer = SWTraceJob { runtime: 1, id: 2, group: None };
    let inner = SWTraceJob { runtime: 1, id: 3, group: Some(4) };
    assert_eq!(SWTrace::current_job(&local), None);
    let before = local.enter(outer);
    let suspended = local.enter(inner);
    assert_eq!(SWTrace::current_job(&local), Some(inner));
    local.leave(suspended);
    assert_eq!(SWTrace::current_job(&local), Some(outer));
    local.leave(before);
    assert_eq!(SWTrace::current_job(&local), None);
}
