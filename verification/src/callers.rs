//! What callers ask for, get back and build on.
use crate::access::access_ended;
use crate::admission::SWCallerEligibility;
use crate::admission::SWDependencyPolicy;
use crate::admission::SWSpawnError;
use crate::admission::SWSpawnOptions;
use crate::admission::SWSpawnRejected;
use crate::buffers::BUCKETS;
use crate::buffers::BuffersView;
use crate::buffers::held;
use crate::buffers::serves;
use crate::buffers::widest;
use crate::builder::BuilderView;
use crate::builder::SWBuildError;
use crate::config::SWExecutionClass;
use crate::context::Context;
use crate::context::SWExecutionError;
use crate::cost::SWCost;
use crate::delivery::TransportView;
use crate::dependency::continued;
use crate::dependency::then_route;
use crate::diagnostics::all_events;
use crate::diagnostics::BufferView;
use crate::diagnostics::CAPACITY;
use crate::diagnostics::Probe;
use crate::diagnostics::SWTraceEvent;
use crate::diagnostics::THREADS;
use crate::diagnostics::TraceView;
use crate::group::GroupInner;
use crate::jobs::group_at;
use crate::jobs::group_found;
use crate::jobs::Stage;
use crate::lane::delivering;
use crate::lane::delivery_submitted;
use crate::lane::group_helped;
use crate::lane::job_signal;
use crate::lane::OwnedJob;
use crate::lane::OwnedRoute;
use crate::lane::submitted;
use crate::lane::SWBatch;
use crate::lane::SWDeliveryOptions;
use crate::lane::SWDeliverySpawnRejected;
use crate::lane::SWGroup;
use crate::lane::SWLane;
use crate::lane::SWStageOptions;
use crate::lane::SWWorkOptions;
use crate::lane::wave_published;
use crate::owner::OwnerView;
use crate::owner::SWDeliveryTicket;
use crate::producer::SWExternalOptions;
use crate::progress::SWRuntimeState;
use crate::runtime::plain_need;
use crate::runtime::PreparedAccess;
use crate::runtime::refusals_only_notify;
use crate::runtime::RuntimeView;
use crate::runtime::WorkLease;
use crate::scheduler::Claim;
use crate::scope::branch_context;
use crate::scope::chunk_starts_inside;
use crate::scope::Chunks;
use crate::scope::count_shape;
use crate::scope::entered;
use crate::scope::group_of;
use crate::startup::StartStep;
use crate::startup::StartupPhase;
use crate::startup::StartupView;
use crate::steps::helpable;
use crate::steps::SubmitRequest;
use crate::storage::first_reusable;
use crate::storage::reusable;
use crate::storage::swap_removed;
use crate::task::SWTaskStatus;
use crate::task::SWThenRejected;
use vstd::arithmetic::power2::lemma_pow2_strictly_increases;
use vstd::arithmetic::power2::pow2;
use vstd::prelude::*;

verus! {

/// A submission asks for what its caller chose, in its own lane: nothing is
/// added, and a plain one names no wave, no prerequisite and no inline run.
pub proof fn requests_say_what_was_asked(
    lane: SWLane,
    route: OwnedRoute,
    context: Option<Context>,
    options: SWSpawnOptions,
    policy: SWDependencyPolicy,
)
    ensures
        ({
            let request = lane.request(route, context);
            &&& request.runtime == lane.of() && request.class == lane.selects()
            &&& request.group == route.group && request.options == route.options
            &&& request.prerequisites == route.prerequisites && request.policy == route.policy
            &&& request.allow_inline == route.allow_inline && request.context == context
            &&& request.demand is None && !request.reserved && request.delivery is None
        }),
        ({
            let plain = OwnedRoute::plain(options);
            &&& plain.options == options && plain.group is None && plain.prerequisites == 0
            &&& plain.policy == SWDependencyPolicy::SuccessOnly && !plain.allow_inline
        }),
        ({
            let then = then_route(options, policy);
            &&& then.options == options && then.group is None && then.prerequisites == 1
            &&& then.policy == policy && !then.allow_inline
        }),
{
}

/// The options of work, deliveries and stages are routed as they were chosen.
pub proof fn options_are_routed_as_chosen<'a>(
    work: SWWorkOptions,
    delivery: SWDeliveryOptions,
    stage: SWStageOptions<'a>,
    lane: SWLane,
    context: Option<Context>,
    inline: bool,
)
    ensures
        ({
            let r = work.route();
            &&& r.options == work.spawn && r.group == work.group && r.prerequisites
                == work.prerequisites && r.policy == work.dependency_policy && r.allow_inline
                == work.allow_inline
        }),
        ({
            let r = delivery.route(inline);
            &&& r.options == delivery.spawn && r.group == delivery.group && r.prerequisites
                == delivery.prerequisites && r.policy == delivery.policy && r.allow_inline
                == inline
        }),
        ({
            let r = stage.request(lane, context, inline, None);
            &&& r.options == stage.spawn && r.group == stage.group && r.prerequisites
                == stage.prerequisites && r.policy == stage.policy && r.allow_inline == inline
            &&& r.demand == stage.priority && r.delivery is None && r.context == context
            &&& r.class == lane.selects() && r.runtime == lane.of()
        }),
{
}

/// A result of a fresh job is pending, knows its producer, and tells only the
/// delivery that was promised for it.
pub proof fn fresh_results_tell_their_delivery(runtime: u64, record: u64, delivery: Option<u64>)
    ensures
        ({
            let s = job_signal(runtime, record, delivery);
            &&& s.wf() && s.status is None
            &&& s.producer is Some && s.producer->0.runtime == runtime && s.producer->0.record
                == record
            &&& delivery is None ==> s.subscribers.len() == 0
            &&& delivery matches Some(token) ==> s.subscribers.len() == 1 && s.subscribers[0].token
                == token
        }),
{
}

/// A submission either is admitted, with the caller's operation in a fresh job,
/// or gives the operation and its options back with the reason, and then nothing
/// was admitted.
pub proof fn submissions_keep_or_return<F, T>(
    before: RuntimeView,
    after: RuntimeView,
    request: SubmitRequest,
    lease: WorkLease,
    operation: F,
    fallible: bool,
    result: Result<OwnedJob<F, T>, SWSpawnRejected<F>>,
)
    requires
        submitted(before, after, request, lease, operation, fallible, result),
    ensures
        result is Ok <==> before.submit_error(request, lease) is None,
        result matches Ok(job) ==> {
            &&& job.operation == operation && job.fallible == fallible
            &&& job.task@.signal.status is None && job.task@.outcome is None
            &&& job.task@.signal.subscribers.len() == 0
            &&& job.task@.signal.producer is Some
            &&& job.task@.signal.producer->0.record == job.accepted.id
            &&& job.task@.signal.producer->0.runtime == before.control.id
            &&& job.control.target() == job.accepted.id
            &&& after.control.active == before.control.active + 1
            &&& after.owned is Some
            &&& after.owned->0.records.len() == before.owned->0.records.len() + 1
        },
        result matches Err(rejected) ==> {
            &&& rejected.operation == operation && rejected.options == request.options
            &&& before.submit_error(request, lease) == Some(rejected.reason)
            &&& after.control.active == before.control.active
            &&& after.charges == before.charges
            &&& before.owned is Some ==> after.owned is Some && after.owned->0.records
                == before.owned->0.records && after.owned->0.next_id == before.owned->0.next_id
                && after.owned->0.lanes == before.owned->0.lanes && after.owned->0.edges
                == before.owned->0.edges
        },
{
    refusals_only_notify(
        before,
        request,
        arbitrary(),
        lease,
        None,
        plain_need(request),
        SWCost::zero(),
    );
}

/// The same of a submission with a promised delivery: what is admitted reports
/// to that delivery, and a refusal returns the promise too and leaves its owner
/// alone.
pub proof fn delivery_submissions_keep_or_return<C, F, T>(
    before: RuntimeView,
    after: RuntimeView,
    owner_before: OwnerView<C>,
    owner_after: OwnerView<C>,
    request: SubmitRequest,
    options: SWDeliveryOptions,
    ticket: SWDeliveryTicket,
    operation: F,
    fallible: bool,
    result: Result<OwnedJob<F, T>, SWDeliverySpawnRejected<F>>,
)
    requires
        delivery_submitted(
            before,
            after,
            owner_before,
            owner_after,
            request,
            options,
            ticket,
            operation,
            fallible,
            result,
        ),
    ensures
        result is Ok <==> before.submit_error(request, WorkLease::Unset) is None,
        result matches Ok(job) ==> {
            &&& job.operation == operation && job.fallible == fallible
            &&& job.task@.signal.status is None && job.task@.outcome is None
            &&& job.task@.signal.subscribers.len() == 1
            &&& job.task@.signal.subscribers[0].token == ticket.identity()
            &&& after.control.active == before.control.active + 1
            &&& owner_after.callbacks == owner_before.callbacks && owner_after.pending
                == owner_before.pending && owner_after.observers == owner_before.observers
        },
        result matches Err(rejected) ==> {
            &&& rejected.operation == operation && rejected.ticket == ticket && rejected.options
                == options
            &&& owner_after == owner_before
        },
{
}

/// A continuation is refused as consumed exactly if the input's outcome was
/// already taken, and then nothing happens; otherwise it is a submission. The
/// input and the operation come back together.
pub proof fn continuations_need_their_input<I, F, U>(
    before: RuntimeView,
    after: RuntimeView,
    request: SubmitRequest,
    available: bool,
    input: I,
    operation: F,
    fallible: bool,
    result: Result<OwnedJob<(I, F), U>, SWThenRejected<I, F>>,
)
    requires
        continued(before, after, request, available, input, operation, fallible, result),
    ensures
        result is Ok <==> available && before.submit_error(request, WorkLease::Unset) is None,
        result matches Ok(job) ==> job.operation == (input, operation) && job.fallible == fallible
            && job.task@.signal.status is None && after.control.active == before.control.active
            + 1,
        result matches Err(rejected) ==> {
            &&& rejected.input == input && rejected.operation == operation && rejected.options
                == request.options
            &&& !available ==> rejected.reason == SWSpawnError::Consumed && after == before
            &&& available ==> before.submit_error(request, WorkLease::Unset) == Some(
                rejected.reason,
            )
        },
{
}

/// A caller that helps a wave runs its oldest member that may run there; one
/// invocation more is then active. It helps while the runtime executes, so also
/// while it closes.
pub proof fn helping_runs_a_member(
    before: RuntimeView,
    after: RuntimeView,
    group: u64,
    backend: bool,
    helped: Option<(u64, Claim)>,
)
    requires
        before.owned is Some,
        before.owned->0.wf(),
        group_helped(before, after, group, backend, helped),
    ensures
        helped matches Some((id, claim)) ==> {
            &&& before.control.phase == SWRuntimeState::Running || before.control.phase
                == SWRuntimeState::Closing
            &&& backend
            &&& claim.group == Some(group)
            &&& before.owned->0.get(id).group == Some(group)
            &&& before.owned->0.get(id).stage == Stage::Ready || before.owned->0.get(id).stage
                == Stage::Handed
            &&& after.control.active == before.control.active + 1
            &&& after.control.phase == before.control.phase
        },
        helped is None ==> after == before,
        helped is None && backend && (before.control.phase == SWRuntimeState::Running
            || before.control.phase == SWRuntimeState::Closing) ==> forall|j: int|
            0 <= j < before.owned->0.records.len() ==> !((
            #[trigger] before.owned->0.records[j]).group == Some(group) && (
            before.owned->0.records[j].stage == Stage::Ready || before.owned->0.records[j].stage
                == Stage::Handed) && before.owned->0.records[j].eligibility
                == SWCallerEligibility::CallerEligible),
{
    if helped is None && backend && (before.control.phase == SWRuntimeState::Running
        || before.control.phase == SWRuntimeState::Closing) {
        assert forall|j: int| 0 <= j < before.owned->0.records.len() implies !((
        #[trigger] before.owned->0.records[j]).group == Some(group) && (
        before.owned->0.records[j].stage == Stage::Ready || before.owned->0.records[j].stage
            == Stage::Handed) && before.owned->0.records[j].eligibility
            == SWCallerEligibility::CallerEligible) by {
            assert(!helpable(before.owned->0.records[j], group));
        }
    }
}

/// A physical access that ends frees its place and gives its charge back; all
/// other accesses stay.
pub proof fn ended_accesses_free_their_place(before: RuntimeView, access: PreparedAccess, i: int)
    requires
        before.control.physical.wf(),
        0 <= i < before.control.physical.entries.len(),
        before.control.physical.entries[i].id == access.id,
    ensures
        ({
            let after = access_ended(before, access);
            &&& after.control.physical.entries == before.control.physical.entries.remove(i)
            &&& after.control.active == before.control.active && after.control.external
                == before.control.external && after.control.phase == before.control.phase
            &&& before.control.wake < u64::MAX ==> after.control.wake == before.control.wake + 1
            &&& access.charge is None ==> after.capacity == before.capacity
            &&& after.owned == before.owned && after.charges == before.charges
        }),
{
    let v = before.control.physical;
    let id = access.id;
    assert(v.entry_at(i, id));
    let k = v.slot(id);
    assert(v.entry_at(k, id));
    if k < i {
        assert(v.entries[k].id < v.entries[i].id);
    } else if i < k {
        assert(v.entries[i].id < v.entries[k].id);
    }
}

/// Nested work belongs to the wave of its caller exactly inside the same lane.
pub proof fn nested_work_stays_in_its_wave(
    context: Option<Context>,
    runtime: u64,
    class: SWExecutionClass,
)
    ensures
        context is None ==> group_of(context, runtime, class) is None,
        context matches Some(current) ==> {
            &&& current.runtime == runtime && current.class == class ==> group_of(
                context,
                runtime,
                class,
            ) == current.group
            &&& current.runtime != runtime || current.class != class ==> group_of(
                context,
                runtime,
                class,
            ) is None
        },
{
}

/// Chunks are as long as asked for, but for the last one: each starts where the
/// one before it ends, the first at the beginning and the last ends at the end,
/// and none is empty.
pub proof fn chunks_follow_each_other(chunks: Chunks, index: int)
    requires
        chunks.size > 0,
        0 <= index < chunks.number(),
    ensures
        chunks.start(0) == 0,
        0 <= chunks.start(index) < chunks.end(index) <= chunks.len,
        index + 1 < chunks.number() ==> chunks.end(index) - chunks.start(index) == chunks.size,
        index + 1 < chunks.number() ==> chunks.start(index + 1) == chunks.end(index),
        index + 1 == chunks.number() ==> chunks.end(index) == chunks.len,
        chunks.end(index) - chunks.start(index) <= chunks.size,
{
    let n = chunks.len as int;
    let s = chunks.size as int;
    count_shape(chunks);
    chunk_starts_inside(chunks, index);
    assert((index + 1) * s == index * s + s) by (nonlinear_arith);
    assert(0 * s == 0) by (nonlinear_arith);
    if index + 1 < chunks.number() {
        chunk_starts_inside(chunks, index + 1);
    } else {
        assert(index == (n - 1) / s);
        assert(n <= index * s + s) by (nonlinear_arith)
            requires
                s > 0,
                n > 0,
                index == (n - 1) / s,
        ;
    }
}

/// Startup passes workers exactly once all of them are ready and none has
/// failed, and aborts on the first failure whatever comes after it.
pub proof fn startup_passes_when_all_are_ready<E>(v: StartupView<E>, expected: int, error: E)
    ensures
        v.step(expected) == StartStep::Aborted <==> v.phase == StartupPhase::Aborted,
        v.step(expected) == StartStep::Started <==> v.phase == StartupPhase::Started || v.phase
            == StartupPhase::Preparing && v.ready == expected,
        v.step(expected) == StartStep::Wait <==> v.phase == StartupPhase::Preparing && v.ready
            != expected,
        v.passage() == Some(true) <==> v.phase == StartupPhase::Started,
        v.passage() == Some(false) <==> v.phase == StartupPhase::Aborted,
        v.stepped(expected).ready == v.ready && v.stepped(expected).error == v.error,
        v.failed(error).phase == StartupPhase::Aborted && v.failed(error).ready == v.ready,
        v.error is None ==> v.failed(error).error == Some(error),
        v.error is Some ==> v.failed(error).error == v.error,
{
}

/// A builder is refused exactly if it configures capacity or demand without
/// owned work, or a policy that cannot be kept.
pub proof fn builders_need_owned_work<H, S>(v: BuilderView<H>)
    ensures
        ({
            let error = v.error::<S>();
            let orphan = v.owned_limits is None && (v.capacity_limits is Some
                || v.demand_priorities.len() > 0);
            &&& error is None <==> !orphan && (v.capacity_limits is None
                || v.capacity_limits->0.error() is None)
            &&& orphan ==> error == Some(SWBuildError::<S>::OwnedWorkDisabled)
            &&& !orphan && v.capacity_limits is Some && v.capacity_limits->0.error() is Some
                ==> error == Some(SWBuildError::<S>::Capacity(v.capacity_limits->0.error()->0))
        }),
{
}

/// What is built can hold what was configured: at least the records and edges of
/// the owned limits, and all that the policy can admit; no more than the larger
/// of the two. Windows are as configured.
pub proof fn built_limits_cover_the_policy<H>(v: BuilderView<H>)
    requires
        v.owned_limits is Some,
        v.capacity_limits matches Some(policy) ==> policy.ordinary_target.records
            + policy.required_allowance.records <= usize::MAX && policy.ordinary_target.edges
            + policy.required_allowance.edges <= usize::MAX,
    ensures
        ({
            let limits = v.owned_limits->0;
            let built = v.effective_limits();
            &&& built.runnable == limits.runnable && built.handoff == limits.handoff
            &&& v.capacity_limits is None ==> built == limits
            &&& v.capacity_limits matches Some(policy) ==> {
                let records = policy.ordinary_target.records + policy.required_allowance.records;
                let edges = policy.ordinary_target.edges + policy.required_allowance.edges;
                &&& built.records >= limits.records && built.records >= records && (built.records
                    == limits.records || built.records == records)
                &&& built.edges >= limits.edges && built.edges >= edges && (built.edges
                    == limits.edges || built.edges == edges)
            }
        }),
{
}

/// A built runtime runs, holds nothing, and has the places that were configured:
/// physical accesses of required pipelines have places of their own where there
/// is a policy.
pub proof fn built_runtimes_start_empty<H>(v: BuilderView<H>, id: u64, runtime: RuntimeView)
    requires
        v.built(id, runtime),
    ensures
        runtime.control.id == id && runtime.control.phase == SWRuntimeState::Running,
        runtime.control.active == 0 && runtime.control.external == 0,
        runtime.control.owners.len() == 0 && runtime.control.physical.entries.len() == 0,
        runtime.owned is Some <==> v.owned_limits is Some,
        runtime.capacity is Some <==> v.capacity_limits is Some,
        runtime.owned matches Some(owned) ==> owned.records.len() == 0 && owned.external.len()
            == 0 && owned.groups.len() == 0 && owned.bands == v.demand_priorities
            && !owned.abandoned && owned.edges == 0,
        runtime.capacity matches Some(books) ==> books.limits == v.capacity_limits->0
            && books.identity == id && !books.usage.closed && books.usage.pipelines == 0
            && books.usage.ordinary.records == 0 && books.usage.required.records == 0
            && books.usage.ordinary.bytes == 0 && books.usage.required.bytes == 0
            && books.pipelines.len() == 0,
        runtime.charges.len() == 0,
        v.external_capacity is None ==> runtime.control.physical.ordinary_capacity == 0
            && runtime.control.physical.required_capacity == 0,
        v.external_capacity matches Some(capacity) ==> {
            &&& runtime.control.physical.ordinary_capacity == capacity
            &&& v.capacity_limits is None ==> runtime.control.physical.required_capacity == 0
            &&& v.capacity_limits matches Some(policy)
                ==> runtime.control.physical.required_capacity
                == policy.required_allowance.records
        },
{
}

/// The time of a probe is what passed since the session began, and neither
/// starts over nor goes below zero.
pub proof fn probe_times_are_since_the_start(v: TraceView, at: u128, later: u128)
    requires
        v.origin is Some,
        at <= later,
    ensures
        at <= v.origin->0 ==> v.elapsed(at) == 0,
        at > v.origin->0 && at - v.origin->0 <= u64::MAX ==> v.elapsed(at) == at - v.origin->0,
        v.elapsed(at) <= v.elapsed(later),
{
}

/// A probe is kept behind the earlier ones of its thread while there is room; a
/// full thread counts it as dropped, and so does the first one for threads that
/// found no buffer. Other threads are not touched.
pub proof fn probes_stay_with_their_thread(
    v: TraceView,
    slot: Option<usize>,
    event: SWTraceEvent,
    i: int,
)
    requires
        v.wf(),
        v.origin is Some,
        slot matches Some(slot) ==> slot < v.buffers.len(),
        0 <= i < v.buffers.len(),
    ensures
        ({
            let w = v.recorded(slot, event);
            let b = v.buffers[i];
            &&& slot == Some(i as usize) && b.events.len() < CAPACITY ==> w.buffers[i].events
                == b.events.push(event) && w.buffers[i].dropped == b.dropped
            &&& slot == Some(i as usize) && b.events.len() >= CAPACITY ==> w.buffers[i].events
                == b.events && w.buffers[i].dropped == b.dropped + 1
            &&& slot is Some && slot != Some(i as usize) ==> w.buffers[i] == b
            &&& slot is Some ==> w.buffers.len() == v.buffers.len()
            &&& slot is None && v.buffers.len() < THREADS ==> w.buffers.len() == v.buffers.len()
                + 1 && w.buffers[i] == b && w.buffers.last().events == seq![event]
                && w.buffers.last().dropped == 0
            &&& slot is None && v.buffers.len() >= THREADS ==> w.buffers.len() == v.buffers.len()
                && w.buffers[0].dropped == v.buffers[0].dropped + 1 && w.buffers[i].events
                == b.events && (i > 0 ==> w.buffers[i] == b)
        }),
{
    let w = v.recorded(slot, event);
    if slot is None && v.buffers.len() < THREADS {
        assert(w.buffers.last().events =~= seq![event]);
    }
}

/// A session hands out every kept probe once, thread by thread and in order.
pub proof fn sessions_keep_every_probe(buffers: Seq<BufferView>, buffer: BufferView)
    ensures
        all_events(buffers.push(buffer)) == all_events(buffers) + buffer.events,
        all_events(Seq::<BufferView>::empty()).len() == 0,
{
    assert(buffers.push(buffer).drop_last() =~= buffers);
}

/// One and only one size serves a request, and it is the smallest power of two
/// that is large enough.
pub proof fn the_smallest_size_serves(index: int, other: int, minimum: int)
    requires
        serves(index, minimum),
        0 <= other < BUCKETS,
    ensures
        minimum <= pow2(index as nat),
        minimum <= pow2(other as nat) ==> index <= other,
        serves(other, minimum) ==> other == index,
{
    if other < index {
        if other < index - 1 {
            lemma_pow2_strictly_increases(other as nat, (index - 1) as nat);
        }
    }
    if index < other {
        if index < other - 1 {
            lemma_pow2_strictly_increases(index as nat, (other - 1) as nat);
        }
    }
}

/// What a returned buffer does to a cache. It is kept where there is room; else
/// it displaces one of the widest kept buffers, if some are wider and none of its
/// own size is kept; else the cache stays as it is.
pub proof fn returned_buffers_displace_wider_ones(
    v: BuffersView,
    index: int,
    capacity: usize,
    w: BuffersView,
    j: int,
)
    requires
        v.wf(),
        v.canonical(index, capacity),
        v.released(index, capacity, w),
        0 <= j < BUCKETS,
    ensures
        w.limit == v.limit,
        w.counts.len() == v.counts.len(),
        held(v.counts) + capacity <= v.limit ==> w.counts == v.counts.update(
            index,
            v.counts[index] + 1,
        ),
        held(v.counts) + capacity > v.limit ==> {
            &&& w.counts != v.counts <==> v.counts[index] == 0 && exists|k: int|
                index < k < BUCKETS && #[trigger] v.counts[k] > 0
            &&& w.counts != v.counts ==> w.counts[index] == 1
            &&& j <= index && w.counts != v.counts && j != index ==> w.counts[j] == v.counts[j]
            &&& w.counts[j] < v.counts[j] ==> j > index && w.counts[j] + 1 == v.counts[j]
                && forall|k: int| j < k < BUCKETS ==> #[trigger] v.counts[k] == 0
        },
{
    if !v.fits(capacity) {
        if v.counts[index] > 0 || forall|k: int|
            index < k < BUCKETS ==> #[trigger] v.counts[k] == 0 {
        } else {
            let wide = choose|wide: int| #[trigger]
                widest(v.counts, index, wide) && w == v.counted(
                    wide,
                    v.counts[wide] - 1,
                ).counted(index, 1);
            assert(v.counts[wide] > 0);
            assert(w.counts[index] == 1 && v.counts[index] == 0);
        }
    }
}

/// A retired wave is used again only if it has ended and nobody holds it, and
/// the oldest such one first; taking it out keeps all others.
pub proof fn ended_waves_are_used_again(
    entries: Seq<GroupInner>,
    held: Seq<u64>,
    i: int,
    j: int,
)
    requires
        first_reusable(entries, held, i),
        0 <= j < entries.len(),
    ensures
        entries[i].status is Some,
        !held.contains(entries[i].id),
        j < i ==> entries[j].status is None || held.contains(entries[j].id),
        swap_removed(entries, i).len() + 1 == entries.len(),
        j != i ==> swap_removed(entries, i).contains(entries[j]),
{
    let s = swap_removed(entries, i);
    if j < i {
        assert(!reusable(entries[j], held));
    }
    if j != i {
        let x = if j == entries.len() - 1 {
            i
        } else {
            j
        };
        assert(s[x] == entries[j]);
    }
}

/// A scoped call enters exactly where its caller may: outside all work while the
/// runtime runs, or inside its own lane. One more invocation is then active;
/// otherwise nothing changes. Its branches belong to the wave of the caller.
pub proof fn scoped_calls_enter_their_lane(
    before: RuntimeView,
    after: RuntimeView,
    lane: SWLane,
    context: Option<Context>,
    backend: bool,
    error: Option<SWExecutionError>,
)
    requires
        entered(before, after, lane, context, backend, error),
        before.control.wake < u64::MAX,
    ensures
        ({
            let nested = context is Some && context->0.runtime == before.control.id
                && context->0.class == lane.selects();
            &&& error is None <==> backend && (nested || context is None && before.control.phase
                == SWRuntimeState::Running)
            &&& error == Some(SWExecutionError::InvalidContext) <==> context is Some && !nested
        }),
        error is Some ==> after == before,
        error is None ==> after.control.active == before.control.active + 1
            && after.control.wake == before.control.wake + 1 && after.control.phase
            == before.control.phase && after.owned == before.owned && after.capacity
            == before.capacity,
        ({
            let branch = branch_context(lane, context);
            &&& branch.runtime == lane.of() && branch.class == lane.selects()
            &&& context is None ==> branch.group is None
            &&& context matches Some(current) ==> (current.runtime == lane.of() && current.class
                == lane.selects() ==> branch.group == current.group)
        }),
{
}

/// A wave may be helped from outside all work and from inside its own lane, and
/// never from a host signal.
pub proof fn waves_are_helped_from_their_lane(
    wave: GroupInner,
    runtime: u64,
    context: Option<Context>,
    invoking: bool,
)
    ensures
        wave.help_error(runtime, context, invoking) is None <==> !invoking && (context is None
            || context->0.runtime == runtime && context->0.class == wave.class),
        wave.help_error(runtime, context, invoking) is Some ==> wave.help_error(
            runtime,
            context,
            invoking,
        ) == Some(SWExecutionError::InvalidContext),
{
}

/// A probe is recorded as it was made, with its thread and the time since the
/// session began.
pub proof fn probes_are_recorded_as_made(v: TraceView, thread: u64, probe: Probe, at: u128)
    requires
        v.origin is Some,
        v.origin->0 <= at,
        at - v.origin->0 <= u64::MAX,
    ensures
        ({
            let event = v.observation(thread, probe, at);
            &&& event.thread == thread && event.runtime == probe.runtime && event.event
                == probe.event && event.id == probe.id && event.related == probe.related
                && event.native_thread_id == probe.native_thread_id
            &&& event.elapsed_ns == at - v.origin->0
        }),
{
}

/// The end of a wave is visible once it is published, and whoever waits hears of
/// it.
pub proof fn published_waves_are_seen(runtime: RuntimeView, g: int)
    requires
        runtime.owned is Some,
        runtime.owned->0.wf(),
        0 <= g < runtime.owned->0.groups.len(),
    ensures
        ({
            let x = runtime.owned->0.groups[g];
            let w = wave_published(runtime, x.id);
            let y = w.owned->0.groups[g];
            &&& w.owned is Some && w.owned->0.groups.len() == runtime.owned->0.groups.len()
            &&& y.status == Some(
                if x.failed {
                    SWTaskStatus::PrerequisiteFailed
                } else {
                    SWTaskStatus::Succeeded
                },
            )
            &&& y.generation != x.generation
            &&& y.id == x.id && y.pending == x.pending && y.sealed == x.sealed && y.public_handles
                == x.public_handles
            &&& forall|k: int|
                0 <= k < runtime.owned->0.groups.len() && k != g ==> (
                #[trigger] w.owned->0.groups[k]) == runtime.owned->0.groups[k]
            &&& w.owned->0.records == runtime.owned->0.records && w.control == runtime.control
        }),
{
    let groups = runtime.owned->0.groups;
    let id = groups[g].id;
    assert(group_at(groups, g, id));
    group_found(groups, g, id);
}

/// A batch is busy exactly while its current wave has not ended.
pub proof fn batches_are_busy_until_their_wave_ends(
    batch: SWBatch,
    runtime: RuntimeView,
    group: SWGroup,
    g: int,
)
    requires
        runtime.owned is Some,
        runtime.owned->0.wf(),
        batch.wave() == Some(group),
        0 <= g < runtime.owned->0.groups.len(),
        runtime.owned->0.groups[g].id == group.key_of().id,
    ensures
        batch.busy(runtime) <==> runtime.owned->0.groups[g].status is None,
{
    let groups = runtime.owned->0.groups;
    assert(group_at(groups, g, group.key_of().id));
    group_found(groups, g, group.key_of().id);
}

/// An empty cache keeps any buffer of a size that it would hand out, up to its
/// whole limit; buffers of other sizes, and of values without size, are not for
/// it.
pub proof fn empty_caches_keep_what_they_hand_out(v: BuffersView, index: int, capacity: usize)
    requires
        v.counts.len() == BUCKETS,
        forall|j: int| 0 <= j < BUCKETS ==> #[trigger] v.counts[j] == 0,
        0 <= index < BUCKETS,
    ensures
        v.canonical(index, capacity) <==> !v.zero_sized && capacity > 0 && capacity <= v.limit
            && capacity == pow2(index as nat),
        v.canonical(index, capacity) ==> v.fits(capacity),
{
    nothing_held(v.counts);
}

proof fn nothing_held(counts: Seq<nat>)
    requires
        forall|j: int| 0 <= j < counts.len() ==> #[trigger] counts[j] == 0,
    ensures
        held(counts) == 0,
    decreases counts.len(),
{
    if counts.len() > 0 {
        assert(counts[counts.len() - 1] == 0);
        assert forall|j: int| 0 <= j < counts.drop_last().len() implies #[trigger] counts.drop_last()[
            j
        ] == 0 by {
            assert(counts[j] == 0);
        }
        nothing_held(counts.drop_last());
        assert(0 * pow2((counts.len() - 1) as nat) == 0) by (nonlinear_arith);
    }
}

/// A promise that is named in a request is looked up on the route that it
/// belongs to; without a promise there is none in the request.
pub proof fn promises_are_looked_up_on_their_route<'a>(
    stage: SWStageOptions<'a>,
    external: SWExternalOptions<'a>,
    lane: SWLane,
    context: Option<Context>,
    inline: bool,
    transport: TransportView,
    request: SubmitRequest,
    id: u64,
)
    ensures
        ({
            let r = stage.request(lane, context, inline, Some(transport));
            &&& stage.delivery is None ==> r.delivery is None
            &&& stage.delivery matches Some(ticket) ==> r.delivery is Some
                && r.delivery->0.runtime == transport.runtime && r.delivery->0.refusal
                == transport.commit_error(ticket.identity())
        }),
        ({
            let r = external.request(context, Some(transport));
            &&& r.priority == external.priority && r.provider_demand == external.provider_demand
            &&& r.cost == external.cost && r.retained_bytes == external.retained_bytes
            &&& r.context == context
            &&& external.delivery is None ==> r.delivery is None
            &&& external.delivery matches Some(ticket) ==> r.delivery is Some
                && r.delivery->0.runtime == transport.runtime && r.delivery->0.refusal
                == transport.commit_error(ticket.identity())
        }),
        ({
            let r = delivering(request, transport, id);
            &&& r == (SubmitRequest { delivery: r.delivery, ..request })
            &&& r.delivery is Some && r.delivery->0.runtime == transport.runtime
                && r.delivery->0.refusal == transport.commit_error(id)
        }),
{
}

} // verus!
