//! Synchronous borrowed work on a runtime lane.
//!
//! The library admits an invocation and fixes which indices each chunk covers;
//! the threads that run the branches and chunks are the host's.
use crate::config::SWExecutionClass;
use crate::context::within_lane;
use crate::context::Context;
use crate::context::SWExecutionError;
use crate::lane::SWLane;
use crate::runtime::RuntimeView;
use crate::runtime::SWRuntime;
use vstd::prelude::*;

verus! {

/// A caught application panic. Its payload remains owned by the caller.
pub struct SWPanic<P>(P);

impl<P> SWPanic<P> {
    pub closed spec fn payload(self) -> P {
        self.0
    }

    pub fn new(payload: P) -> (panic: Self)
        ensures
            panic.payload() == payload,
    {
        SWPanic(payload)
    }

    pub fn into_payload(self) -> (payload: P)
        ensures
            payload == self.payload(),
    {
        self.0
    }
}

/// A branch's value or caught panic. Every accepted branch settles before
/// either result is returned.
pub type SWBranchOutcome<T, P> = Result<T, SWPanic<P>>;

/// A rejected join returns both closures uninvoked to their owner.
pub struct SWJoinRejected<L, R> {
    pub reason: SWExecutionError,
    pub left: L,
    pub right: R,
}

/// A rejected batch returns its operation uninvoked. Its borrowed slice stays
/// with the caller throughout admission.
pub struct SWBatchRejected<F> {
    pub reason: SWExecutionError,
    pub operation: F,
}

/// The group that nested borrowed work belongs to: that of the enclosing
/// invocation, where it is of the same lane.
pub open spec fn group_of(
    context: Option<Context>,
    runtime: u64,
    class: SWExecutionClass,
) -> Option<u64> {
    if within_lane(context, runtime, class) {
        context->0.group
    } else {
        None
    }
}

pub fn inherited_group(context: Option<Context>, runtime: u64, class: SWExecutionClass) -> (group:
    Option<u64>)
    ensures
        group == group_of(context, runtime, class),
{
    match context {
        Some(current) => if current.runtime == runtime && current.class == class {
            current.group
        } else {
            None
        },
        None => None,
    }
}

/// An admitted join: both branches, and the context of a branch that may run on
/// a worker. The owner's branch of a join with the calling thread runs there,
/// under the caller's own guard.
pub struct Joined<L, R> {
    pub left: L,
    pub right: R,
    pub branch: Context,
}

/// An admitted batch: its operation, its chunks, and the context that each
/// invocation runs in.
pub struct Chunked<F> {
    pub operation: F,
    pub chunks: Chunks,
    pub branch: Context,
}

/// How a slice is divided.
#[derive(Clone, Copy, Debug, PartialEq, Eq, Structural)]
pub struct Chunks {
    pub len: usize,
    pub size: usize,
}

impl Chunks {
    /// Number of chunks: as many as are needed, the last of them possibly
    /// short.
    pub open spec fn number(self) -> int {
        (self.len + self.size - 1) / (self.size as int)
    }

    pub open spec fn start(self, index: int) -> int {
        index * self.size
    }

    pub open spec fn end(self, index: int) -> int {
        if self.start(index) + self.size <= self.len {
            self.start(index) + self.size
        } else {
            self.len as int
        }
    }

    /// The chunk that an element falls into.
    pub open spec fn covers(self, index: int, element: int) -> bool {
        self.start(index) <= element < self.end(index)
    }

    pub fn count(&self) -> (count: usize)
        requires
            self.size > 0,
        ensures
            count == self.number(),
    {
        proof {
            count_shape(*self);
        }
        if self.len == 0 {
            0
        } else {
            (self.len - 1) / self.size + 1
        }
    }

    /// First and past-last element of a chunk.
    pub fn bounds(&self, index: usize) -> (bounds: (usize, usize))
        requires
            self.size > 0,
            index < self.number(),
        ensures
            bounds.0 == self.start(index as int),
            bounds.1 == self.end(index as int),
            bounds.0 < bounds.1 <= self.len,
    {
        proof {
            chunk_starts_inside(*self, index as int);
        }
        let start: usize = index * self.size;
        let end: usize = if self.len - start <= self.size {
            self.len
        } else {
            start + self.size
        };
        (start, end)
    }
}

pub proof fn count_shape(chunks: Chunks)
    requires
        chunks.size > 0,
    ensures
        chunks.len == 0 ==> chunks.number() == 0,
        chunks.len > 0 ==> chunks.number() == (chunks.len - 1) / (chunks.size as int) + 1,
        0 <= (chunks.len - 1) / (chunks.size as int) <= chunks.len || chunks.len == 0,
{
    let n = chunks.len as int;
    let s = chunks.size as int;
    if n == 0 {
        assert((s - 1) / s == 0) by (nonlinear_arith)
            requires
                s > 0,
        ;
    } else {
        assert((n + s - 1) / s == (n - 1) / s + 1) by (nonlinear_arith)
            requires
                s > 0,
                n > 0,
        ;
        assert(0 <= (n - 1) / s <= n) by (nonlinear_arith)
            requires
                s > 0,
                n > 0,
        ;
    }
}

pub proof fn chunk_starts_inside(chunks: Chunks, index: int)
    requires
        chunks.size > 0,
        0 <= index < chunks.number(),
    ensures
        0 <= chunks.start(index) < chunks.len,
{
    count_shape(chunks);
    let n = chunks.len as int;
    let s = chunks.size as int;
    assert(n > 0);
    assert(index <= (n - 1) / s);
    assert(index * s <= n - 1) by (nonlinear_arith)
        requires
            s > 0,
            n > 0,
            0 <= index <= (n - 1) / s,
    ;
    assert(0 <= index * s) by (nonlinear_arith)
        requires
            s > 0,
            0 <= index,
    ;
}

/// The chunks of a slice partition it: every element is in exactly one chunk,
/// and every chunk is there for some element.
pub proof fn chunks_partition(chunks: Chunks, element: int)
    requires
        chunks.size > 0,
        0 <= element < chunks.len,
    ensures
        0 <= element / (chunks.size as int) < chunks.number(),
        chunks.covers(element / (chunks.size as int), element),
        forall|index: int|
            0 <= index < chunks.number() && #[trigger] chunks.covers(index, element) ==> index
                == element / (chunks.size as int),
{
    let n = chunks.len as int;
    let s = chunks.size as int;
    let home = element / s;
    count_shape(chunks);
    assert(0 <= home <= (n - 1) / s && home * s <= element < home * s + s) by (nonlinear_arith)
        requires
            s > 0,
            0 <= element < n,
            home == element / s,
    ;
    assert forall|index: int|
        0 <= index < chunks.number() && #[trigger] chunks.covers(index, element) implies index
        == home by {
        assert(index * s <= element < index * s + s);
        assert(index == home) by (nonlinear_arith)
            requires
                s > 0,
                index * s <= element < index * s + s,
                home * s <= element < home * s + s,
        ;
    }
}

/// Distinct chunks share no element.
pub proof fn chunks_are_disjoint(chunks: Chunks, a: int, b: int, element: int)
    requires
        chunks.size > 0,
        0 <= a < chunks.number(),
        0 <= b < chunks.number(),
        a != b,
        chunks.covers(a, element),
    ensures
        !chunks.covers(b, element),
{
    chunk_starts_inside(chunks, a);
    chunks_partition(chunks, element);
}

/// Keeps the first panic of a batch; which one that is depends on timing.
pub struct FirstPanic<P> {
    first: Option<P>,
}

impl<P> FirstPanic<P> {
    pub closed spec fn kept(self) -> Option<P> {
        self.first
    }

    pub fn new() -> (panics: Self)
        ensures
            panics.kept() is None,
    {
        FirstPanic { first: None }
    }

    /// Keeps a payload, or hands it back where another came first.
    pub fn record(&mut self, payload: P) -> (loser: Option<P>)
        ensures
            match old(self).kept() {
                None => loser is None && final(self).kept() == Some(payload),
                Some(_) => loser == Some(payload) && final(self).kept() == old(self).kept(),
            },
    {
        if self.first.is_none() {
            self.first = Some(payload);
            None
        } else {
            Some(payload)
        }
    }

    /// What the batch returns once all its chunks have settled.
    pub fn into_outcome(self) -> (outcome: SWBranchOutcome<(), P>)
        ensures
            match self.kept() {
                None => outcome is Ok,
                Some(payload) => outcome is Err && outcome->Err_0.payload() == payload,
            },
    {
        match self.first {
            Some(payload) => Err(SWPanic::new(payload)),
            None => Ok(()),
        }
    }
}

/// The context of branches that a lane invocation starts.
pub open spec fn branch_context(lane: SWLane, context: Option<Context>) -> Context {
    Context {
        runtime: lane.of(),
        class: lane.selects(),
        group: group_of(context, lane.of(), lane.selects()),
    }
}

/// What entering a lane does to its runtime: one lease on the workers, or
/// nothing.
pub open spec fn entered(
    before: RuntimeView,
    after: RuntimeView,
    lane: SWLane,
    context: Option<Context>,
    backend: bool,
    error: Option<SWExecutionError>,
) -> bool {
    &&& error == before.control.acquire_error(lane.selects(), context, backend)
    &&& after == (if error is None {
        RuntimeView { control: before.control.leased(), ..before }
    } else {
        before
    })
}

impl SWLane {
    fn enter(&self, runtime: &mut SWRuntime, context: Option<Context>, backend: bool) -> (result:
        Result<Context, SWExecutionError>)
        requires
            old(runtime).wf(),
            old(runtime)@.control.active < usize::MAX,
            self.of() == old(runtime)@.control.id,
        ensures
            final(runtime).wf(),
            match result {
                Ok(branch) => {
                    &&& entered(old(runtime)@, final(runtime)@, *self, context, backend, None)
                    &&& branch == branch_context(*self, context)
                },
                Err(error) => {
                    entered(old(runtime)@, final(runtime)@, *self, context, backend, Some(error))
                },
            },
    {
        match runtime.acquire(self.class(), context, backend) {
            Err(error) => Err(error),
            Ok(()) => {
                let identity: u64 = runtime.identity();
                let class = self.class();
                let group = inherited_group(context, identity, class);
                Ok(Context { runtime: identity, class, group })
            },
        }
    }

    /// Admits two borrowed, transferable branches. Both settle before the
    /// invocation ends, even if either panics. Same-lane nesting is supported;
    /// calls from a different lane or runtime are refused before either branch
    /// runs. `backend` says that the workers are there.
    pub fn join<L, R>(
        &self,
        runtime: &mut SWRuntime,
        context: Option<Context>,
        backend: bool,
        left: L,
        right: R,
    ) -> (result: Result<Joined<L, R>, SWJoinRejected<L, R>>)
        requires
            old(runtime).wf(),
            old(runtime)@.control.active < usize::MAX,
            self.of() == old(runtime)@.control.id,
        ensures
            final(runtime).wf(),
            match result {
                Ok(joined) => {
                    &&& entered(old(runtime)@, final(runtime)@, *self, context, backend, None)
                    &&& joined.left == left
                    &&& joined.right == right
                    &&& joined.branch == branch_context(*self, context)
                },
                Err(rejected) => {
                    &&& entered(
                        old(runtime)@,
                        final(runtime)@,
                        *self,
                        context,
                        backend,
                        Some(rejected.reason),
                    )
                    &&& rejected.left == left
                    &&& rejected.right == right
                },
            },
    {
        match self.enter(runtime, context, backend) {
            Ok(branch) => Ok(Joined { left, right, branch }),
            Err(reason) => Err(SWJoinRejected { reason, left, right }),
        }
    }

    /// Admits a transferable worker branch and a branch of the calling thread.
    /// The branches must also be valid when run serially, owner first.
    pub fn join_with_owner<W, O>(
        &self,
        runtime: &mut SWRuntime,
        context: Option<Context>,
        backend: bool,
        worker: W,
        owner: O,
    ) -> (result: Result<Joined<W, O>, SWJoinRejected<W, O>>)
        requires
            old(runtime).wf(),
            old(runtime)@.control.active < usize::MAX,
            self.of() == old(runtime)@.control.id,
        ensures
            final(runtime).wf(),
            match result {
                Ok(joined) => {
                    &&& entered(old(runtime)@, final(runtime)@, *self, context, backend, None)
                    &&& joined.left == worker
                    &&& joined.right == owner
                    &&& joined.branch == branch_context(*self, context)
                },
                Err(rejected) => {
                    &&& entered(
                        old(runtime)@,
                        final(runtime)@,
                        *self,
                        context,
                        backend,
                        Some(rejected.reason),
                    )
                    &&& rejected.left == worker
                    &&& rejected.right == owner
                },
            },
    {
        self.join(runtime, context, backend, worker, owner)
    }

    /// Admits one invocation of `operation` for each disjoint mutable chunk of
    /// a slice, with its stable starting index. All chunks settle before the
    /// invocation ends.
    pub fn for_each_chunk<F>(
        &self,
        runtime: &mut SWRuntime,
        context: Option<Context>,
        backend: bool,
        len: usize,
        chunk_size: usize,
        operation: F,
    ) -> (result: Result<Chunked<F>, SWBatchRejected<F>>)
        requires
            old(runtime).wf(),
            old(runtime)@.control.active < usize::MAX,
            self.of() == old(runtime)@.control.id,
            chunk_size > 0,
        ensures
            final(runtime).wf(),
            match result {
                Ok(chunked) => {
                    &&& entered(old(runtime)@, final(runtime)@, *self, context, backend, None)
                    &&& chunked.operation == operation
                    &&& chunked.chunks == (Chunks { len, size: chunk_size })
                    &&& chunked.branch == branch_context(*self, context)
                },
                Err(rejected) => {
                    &&& entered(
                        old(runtime)@,
                        final(runtime)@,
                        *self,
                        context,
                        backend,
                        Some(rejected.reason),
                    )
                    &&& rejected.operation == operation
                },
            },
    {
        match self.enter(runtime, context, backend) {
            Ok(branch) => Ok(
                Chunked { operation, chunks: Chunks { len, size: chunk_size }, branch },
            ),
            Err(reason) => Err(SWBatchRejected { reason, operation }),
        }
    }

    /// Admits one invocation of `operation` for each immutable indexed chunk.
    /// Concurrent operations share the input.
    pub fn for_each_read_chunk<F>(
        &self,
        runtime: &mut SWRuntime,
        context: Option<Context>,
        backend: bool,
        len: usize,
        chunk_size: usize,
        operation: F,
    ) -> (result: Result<Chunked<F>, SWBatchRejected<F>>)
        requires
            old(runtime).wf(),
            old(runtime)@.control.active < usize::MAX,
            self.of() == old(runtime)@.control.id,
            chunk_size > 0,
        ensures
            final(runtime).wf(),
            match result {
                Ok(chunked) => {
                    &&& entered(old(runtime)@, final(runtime)@, *self, context, backend, None)
                    &&& chunked.operation == operation
                    &&& chunked.chunks == (Chunks { len, size: chunk_size })
                    &&& chunked.branch == branch_context(*self, context)
                },
                Err(rejected) => {
                    &&& entered(
                        old(runtime)@,
                        final(runtime)@,
                        *self,
                        context,
                        backend,
                        Some(rejected.reason),
                    )
                    &&& rejected.operation == operation
                },
            },
    {
        self.for_each_chunk(runtime, context, backend, len, chunk_size, operation)
    }
}

} // verus!
