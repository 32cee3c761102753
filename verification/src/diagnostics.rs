//! Opt-in bounded diagnostic timeline.
//!
//! Events perturb scheduling and may be dropped at capacity; they are never
//! completion or lifetime proofs.
use crate::sums::total;
use crate::sums::total_append;
use crate::sums::total_bounds;
use crate::sums::total_pointwise;
use crate::sums::total_push;
use crate::sums::total_update;
use vstd::prelude::*;

verus! {

/// Events that one thread's buffer holds.
pub const CAPACITY: usize = 65_536;

/// Threads that can publish.
pub const THREADS: usize = 64;

/// A process-local observation. Runtime and record identities are diagnostic.
/// Timestamps share the start origin.
#[derive(Clone, Copy, Debug)]
pub struct SWTraceEvent {
    pub elapsed_ns: u64,
    pub thread: u64,
    /// Native thread identity for joining OS scheduling observations, when
    /// available.
    pub native_thread_id: Option<u32>,
    /// Runtime identity distinguishes record identities of separate runtimes.
    pub runtime: u64,
    pub event: &'static str,
    pub id: u64,
    pub related: u64,
}

/// What a probe reports.
#[derive(Clone, Copy, Debug)]
pub struct Probe {
    pub native_thread_id: Option<u32>,
    pub runtime: u64,
    pub event: &'static str,
    pub id: u64,
    pub related: u64,
}

/// Identity of the owned job executing or settling on a thread.
#[derive(Clone, Copy, Debug, PartialEq, Eq, Structural)]
pub struct SWTraceJob {
    pub runtime: u64,
    pub id: u64,
    pub group: Option<u64>,
}

/// What tracing keeps for one thread.
#[derive(Clone, Copy, Debug, PartialEq, Eq, Structural)]
pub struct TraceThread {
    thread: u64,
    current: Option<SWTraceJob>,
    buffer: Option<usize>,
}

impl TraceThread {
    pub closed spec fn identity(self) -> u64 {
        self.thread
    }

    pub closed spec fn running(self) -> Option<SWTraceJob> {
        self.current
    }

    /// The buffer of this thread, once it has published.
    pub closed spec fn slot(self) -> Option<usize> {
        self.buffer
    }

    pub fn new(thread: u64) -> (local: Self)
        ensures
            local.identity() == thread,
            local.running() is None,
            local.slot() is None,
    {
        TraceThread { thread, current: None, buffer: None }
    }

    /// Enters a job. Hands back the suspended one, to be restored.
    pub fn enter(&mut self, job: SWTraceJob) -> (previous: Option<SWTraceJob>)
        ensures
            previous == old(self).running(),
            final(self).running() == Some(job),
            final(self).identity() == old(self).identity(),
            final(self).slot() == old(self).slot(),
    {
        let previous = self.current;
        self.current = Some(job);
        previous
    }

    /// Restores a suspended job when helping returns, including by unwinding.
    pub fn leave(&mut self, previous: Option<SWTraceJob>)
        ensures
            final(self).running() == previous,
            final(self).identity() == old(self).identity(),
            final(self).slot() == old(self).slot(),
    {
        self.current = previous;
    }
}

#[verifier::ext_equal]
pub struct BufferView {
    pub events: Seq<SWTraceEvent>,
    pub dropped: int,
}

struct Buffer {
    events: Vec<SWTraceEvent>,
    dropped: u64,
}

impl View for Buffer {
    type V = BufferView;

    closed spec fn view(&self) -> BufferView {
        BufferView { events: self.events@, dropped: self.dropped as int }
    }
}

pub open spec fn losses() -> spec_fn(BufferView) -> int {
    |buffer: BufferView| buffer.dropped
}

#[verifier::ext_equal]
pub struct TraceView {
    /// When the session started, if it has.
    pub origin: Option<u128>,
    /// Buffers of publishing threads, in registration order.
    pub buffers: Seq<BufferView>,
}

impl TraceView {
    /// Everything that was dropped so far.
    pub open spec fn dropped(self) -> int {
        total(self.buffers, losses())
    }

    pub open spec fn wf(self) -> bool {
        &&& self.buffers.len() <= THREADS
        &&& self.origin is None ==> self.buffers.len() == 0
        &&& forall|i: int|
            0 <= i < self.buffers.len() ==> (#[trigger] self.buffers[i]).events.len() <= CAPACITY
                && 0 <= self.buffers[i].dropped <= u64::MAX
        &&& self.dropped() <= u64::MAX
    }

    /// Timestamps share the start origin, and saturate.
    pub open spec fn elapsed(self, at: u128) -> u64 {
        if at <= self.origin->0 {
            0
        } else if at - self.origin->0 > u64::MAX {
            u64::MAX
        } else {
            (at - self.origin->0) as u64
        }
    }

    /// The observation that a probe makes.
    pub open spec fn observation(self, thread: u64, probe: Probe, at: u128) -> SWTraceEvent {
        SWTraceEvent {
            elapsed_ns: self.elapsed(at),
            thread,
            native_thread_id: probe.native_thread_id,
            runtime: probe.runtime,
            event: probe.event,
            id: probe.id,
            related: probe.related,
        }
    }

    pub open spec fn with(self, i: int, buffer: BufferView) -> TraceView {
        TraceView { buffers: self.buffers.update(i, buffer), ..self }
    }

    /// One more thread publishes.
    pub open spec fn with_thread(self) -> TraceView {
        TraceView {
            buffers: self.buffers.push(BufferView { events: Seq::empty(), dropped: 0 }),
            ..self
        }
    }

    /// An event joins a buffer, or counts as dropped where the buffer is full.
    pub open spec fn published(self, i: int, event: SWTraceEvent) -> TraceView {
        let buffer = self.buffers[i];
        self.with(
            i,
            if buffer.events.len() < CAPACITY {
                BufferView { events: buffer.events.push(event), ..buffer }
            } else {
                BufferView { dropped: buffer.dropped + 1, ..buffer }
            },
        )
    }

    /// What one probe does. A thread beyond the bound is refused, which the
    /// first buffer counts.
    pub open spec fn recorded(self, slot: Option<usize>, event: SWTraceEvent) -> TraceView {
        match slot {
            Some(slot) => self.published(slot as int, event),
            None => if self.buffers.len() >= THREADS {
                self.with(
                    0,
                    BufferView { dropped: self.buffers[0].dropped + 1, ..self.buffers[0] },
                )
            } else {
                self.with_thread().published(self.buffers.len() as int, event)
            },
        }
    }
}

/// All events of these buffers, buffer by buffer.
pub open spec fn all_events(buffers: Seq<BufferView>) -> Seq<SWTraceEvent>
    decreases buffers.len(),
{
    if buffers.len() == 0 {
        Seq::empty()
    } else {
        all_events(buffers.drop_last()) + buffers.last().events
    }
}

/// One trace with fixed per-thread capacity.
pub struct SWTrace {
    origin: Option<u128>,
    buffers: Vec<Buffer>,
}

impl View for SWTrace {
    type V = TraceView;

    closed spec fn view(&self) -> TraceView {
        TraceView {
            origin: self.origin,
            buffers: self.buffers@.map_values(|buffer: Buffer| buffer@),
        }
    }
}

impl SWTrace {
    /// A trace that has not started: probes collect nothing.
    pub fn new() -> (trace: Self)
        ensures
            trace@.wf(),
            trace@ == (TraceView { origin: None, buffers: Seq::empty() }),
    {
        let trace = SWTrace { origin: None, buffers: Vec::new() };
        assert(trace@.buffers =~= Seq::empty());
        trace
    }

    /// The owned job currently executing or settling on a thread. Nested
    /// helping temporarily replaces the identity and restores it on return.
    pub fn current_job(local: &TraceThread) -> (job: Option<SWTraceJob>)
        ensures
            job == local.running(),
    {
        local.current
    }

    /// Starts the single session. Returns false if it was started before; there
    /// is no reset.
    pub fn start(&mut self, origin: u128) -> (started: bool)
        requires
            old(self)@.wf(),
        ensures
            final(self)@.wf(),
            started == (old(self)@.origin is None),
            final(self)@ == (if started {
                TraceView { origin: Some(origin), ..old(self)@ }
            } else {
                old(self)@
            }),
    {
        if self.origin.is_some() {
            return false;
        }
        self.origin = Some(origin);
        true
    }

    /// Whether probes collect anything.
    pub fn is_started(&self) -> (started: bool)
        ensures
            started == (self@.origin is Some),
    {
        self.origin.is_some()
    }

    proof fn buffer_changed(self, before: SWTrace, i: int)
        requires
            0 <= i < before.buffers@.len(),
            self.origin == before.origin,
            self.buffers@.len() == before.buffers@.len(),
            forall|j: int|
                0 <= j < before.buffers@.len() && j != i ==> #[trigger] self.buffers@[j]
                    == before.buffers@[j],
        ensures
            self@ == before@.with(i, self.buffers@[i]@),
    {
        let left = self@.buffers;
        let right = before@.buffers.update(i, self.buffers@[i]@);
        assert forall|j: int| 0 <= j < left.len() implies left[j] == right[j] by {
            if j != i {
                assert(self.buffers@[j] == before.buffers@[j]);
            }
        }
        assert(left =~= right);
    }

    /// Records an observation made at `at` by a thread. Without a started
    /// session it does nothing.
    pub fn record_at(&mut self, local: &mut TraceThread, probe: Probe, at: u128)
        requires
            old(self)@.wf(),
            old(self)@.dropped() < u64::MAX,
            old(local).slot() matches Some(slot) ==> slot < old(self)@.buffers.len(),
        ensures
            final(self)@.wf(),
            final(self)@ == (if old(self)@.origin is None {
                old(self)@
            } else {
                old(self)@.recorded(
                    old(local).slot(),
                    old(self)@.observation(old(local).identity(), probe, at),
                )
            }),
            final(local).identity() == old(local).identity(),
            final(local).running() == old(local).running(),
            final(local).slot() == (if old(local).slot() is None && old(self)@.origin is Some
                && old(self)@.buffers.len() < THREADS {
                Some(old(self)@.buffers.len() as usize)
            } else {
                old(local).slot()
            }),
            final(local).slot() matches Some(slot) ==> slot < final(self)@.buffers.len(),
    {
        let origin: u128 = match self.origin {
            Some(origin) => origin,
            None => {
                return;
            },
        };
        let ghost v = self@;
        let elapsed_ns: u64 = if at <= origin {
            0
        } else if at - origin > u64::MAX as u128 {
            u64::MAX
        } else {
            (at - origin) as u64
        };
        let event = SWTraceEvent {
            elapsed_ns,
            thread: local.thread,
            native_thread_id: probe.native_thread_id,
            runtime: probe.runtime,
            event: probe.event,
            id: probe.id,
            related: probe.related,
        };
        let slot: usize = match local.buffer {
            Some(slot) => slot,
            None => {
                if self.buffers.len() >= THREADS {
                    let ghost before = *self;
                    proof {
                        assert(v.buffers[0] == self.buffers@[0]@);
                        total_bounds(v.buffers, losses());
                        assert(losses()(v.buffers[0]) == v.buffers[0].dropped);
                    }
                    self.buffers[0].dropped = self.buffers[0].dropped + 1;
                    proof {
                        self.buffer_changed(before, 0);
                        total_update(v.buffers, 0, self.buffers@[0]@, losses());
                        assert(losses()(self.buffers@[0]@) == v.buffers[0].dropped + 1);
                    }
                    return;
                }
                let slot: usize = self.buffers.len();
                let buffer = Buffer { events: Vec::new(), dropped: 0 };
                let ghost fresh = buffer@;
                self.buffers.push(buffer);
                local.buffer = Some(slot);
                proof {
                    assert(fresh =~= (BufferView { events: Seq::empty(), dropped: 0 }));
                    assert(self@ =~= v.with_thread());
                    total_push(v.buffers, fresh, losses());
                    assert(losses()(fresh) == 0);
                }
                slot
            },
        };
        let ghost m = self@;
        let ghost before = *self;
        proof {
            assert(m.buffers[slot as int] == self.buffers@[slot as int]@);
            total_bounds(m.buffers, losses());
            assert(losses()(m.buffers[slot as int]) == m.buffers[slot as int].dropped);
        }
        if self.buffers[slot].events.len() < CAPACITY {
            self.buffers[slot].events.push(event);
        } else {
            self.buffers[slot].dropped = self.buffers[slot].dropped + 1;
        }
        proof {
            self.buffer_changed(before, slot as int);
            total_update(m.buffers, slot as int, self.buffers@[slot as int]@, losses());
            assert(losses()(self.buffers@[slot as int]@) == self.buffers@[slot as int]@.dropped);
        }
    }

    /// Appends observations and returns the cumulative dropped-event count.
    /// This is a diagnostic snapshot, not a global ordering or settlement
    /// fence.
    pub fn drain(&mut self, output: &mut Vec<SWTraceEvent>) -> (dropped: u64)
        requires
            old(self)@.wf(),
        ensures
            final(self)@.wf(),
            dropped == old(self)@.dropped(),
            final(output)@ == old(output)@ + all_events(old(self)@.buffers),
            final(self)@.origin == old(self)@.origin,
            final(self)@.buffers.len() == old(self)@.buffers.len(),
            forall|i: int|
                0 <= i < old(self)@.buffers.len() ==> #[trigger] final(self)@.buffers[i] == (
                BufferView { events: Seq::empty(), dropped: old(self)@.buffers[i].dropped }),
    {
        let ghost v = self@;
        let mut dropped: u64 = 0;
        let mut index: usize = 0;
        proof {
            assert(v.buffers.take(0) =~= Seq::empty());
            assert(old(output)@ + Seq::<SWTraceEvent>::empty() =~= old(output)@);
        }
        while index < self.buffers.len()
            invariant
                v.wf(),
                v == old(self)@,
                index <= v.buffers.len(),
                self.buffers@.len() == v.buffers.len(),
                self.origin == v.origin,
                dropped == total(v.buffers.take(index as int), losses()),
                output@ == old(output)@ + all_events(v.buffers.take(index as int)),
                forall|i: int|
                    0 <= i < index ==> (#[trigger] self.buffers@[i])@ == (BufferView {
                        events: Seq::empty(),
                        dropped: v.buffers[i].dropped,
                    }),
                forall|i: int|
                    index <= i < v.buffers.len() ==> (#[trigger] self.buffers@[i])@
                        == v.buffers[i],
            decreases v.buffers.len() - index,
        {
            let ghost before = self.buffers@;
            proof {
                let next = v.buffers.take(index + 1);
                assert(next.drop_last() =~= v.buffers.take(index as int));
                assert(next.last() == v.buffers[index as int]);
                let rest = v.buffers.skip(index + 1);
                total_bounds(rest, losses());
                assert(next + rest =~= v.buffers);
                total_append(next, rest, losses());
                assert(before[index as int]@ == v.buffers[index as int]);
                assert(losses()(next.last()) == v.buffers[index as int].dropped);
            }
            dropped = dropped + self.buffers[index].dropped;
            output.append(&mut self.buffers[index].events);
            proof {
                let b = v.buffers[index as int];
                let next = v.buffers.take(index + 1);
                assert((old(output)@ + all_events(v.buffers.take(index as int))) + b.events
                    =~= old(output)@ + (all_events(v.buffers.take(index as int)) + b.events));
                assert(self.buffers@[index as int]@ =~= (BufferView {
                    events: Seq::empty(),
                    dropped: b.dropped,
                }));
                assert forall|i: int| 0 <= i < v.buffers.len() && i != index implies (
                #[trigger] self.buffers@[i]) == before[i] by {}
            }
            index += 1;
        }
        proof {
            assert(v.buffers.take(index as int) =~= v.buffers);
            assert forall|i: int| 0 <= i < v.buffers.len() implies #[trigger] self@.buffers[i] == (
            BufferView { events: Seq::empty(), dropped: v.buffers[i].dropped }) by {
                assert(self.buffers@[i]@ == self@.buffers[i]);
            }
            total_pointwise(v.buffers, self@.buffers, losses(), losses());
        }
        dropped
    }
}

/// Every probe of a started session is either kept or counted as dropped.
pub proof fn probes_are_accounted(v: TraceView, slot: Option<usize>, event: SWTraceEvent)
    requires
        v.wf(),
        v.origin is Some,
        slot matches Some(slot) ==> slot < v.buffers.len(),
    ensures
        ({
            let w = v.recorded(slot, event);
            w.dropped() == v.dropped() + 1 || w.dropped() == v.dropped()
                && exists|i: int|
                0 <= i < w.buffers.len() && (#[trigger] w.buffers[i]).events.len() > 0
                    && w.buffers[i].events.last() == event
        }),
{
    let w = v.recorded(slot, event);
    let (m, i) = match slot {
        Some(slot) => (v, slot as int),
        None => if v.buffers.len() >= THREADS {
            (v, 0int)
        } else {
            (v.with_thread(), v.buffers.len() as int)
        },
    };
    if slot is None && v.buffers.len() < THREADS {
        let fresh = BufferView { events: Seq::empty(), dropped: 0 };
        total_push(v.buffers, fresh, losses());
        assert(losses()(fresh) == 0);
    }
    total_update(m.buffers, i, w.buffers[i], losses());
    assert(losses()(w.buffers[i]) == w.buffers[i].dropped);
    assert(losses()(m.buffers[i]) == m.buffers[i].dropped);
    if w.dropped() == v.dropped() {
        assert(w.buffers[i].events.last() == event);
    }
}

} // verus!
