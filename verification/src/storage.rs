//! Bounded retention of control allocations, never of reusable public
//! identities.
use crate::config::SWExecutionClass;
use crate::group::GroupInner;
use crate::task::SWCompletion;
use crate::task::SignalView;
use vstd::prelude::*;

verus! {

/// A retired wave has settled, and no accessor holds it any more.
pub open spec fn reusable(wave: GroupInner, held: Seq<u64>) -> bool {
    wave.status is Some && !held.contains(wave.id)
}

/// The first retired wave that can be reused.
pub open spec fn first_reusable(entries: Seq<GroupInner>, held: Seq<u64>, i: int) -> bool {
    &&& 0 <= i < entries.len()
    &&& reusable(entries[i], held)
    &&& forall|j: int| 0 <= j < i ==> !reusable(#[trigger] entries[j], held)
}

/// Whether an identity is among these.
fn is_held(held: &Vec<u64>, id: u64) -> (found: bool)
    ensures
        found == held@.contains(id),
{
    let mut index: usize = 0;
    while index < held.len()
        invariant
            index <= held@.len(),
            forall|j: int| 0 <= j < index ==> #[trigger] held@[j] != id,
        decreases held@.len() - index,
    {
        if held[index] == id {
            assert(held@[index as int] == id);
            return true;
        }
        index += 1;
    }
    false
}

/// The entries without one, whose place the last one takes.
pub open spec fn swap_removed<E>(entries: Seq<E>, i: int) -> Seq<E> {
    entries.update(i, entries.last()).drop_last()
}

/// Only sealed waves without a public handle enter this list. A wave may still
/// have running members; checkout checks its terminal boundary and every
/// retained accessor.
pub struct GroupPool {
    entries: Vec<GroupInner>,
    limit: usize,
}

impl GroupPool {
    pub closed spec fn retired(self) -> Seq<GroupInner> {
        self.entries@
    }

    pub closed spec fn bound(self) -> usize {
        self.limit
    }

    pub open spec fn wf(self) -> bool {
        self.retired().len() <= self.bound()
    }

    pub fn new(limit: usize) -> (pool: Self)
        ensures
            pool.wf(),
            pool.bound() == limit,
            pool.retired() == Seq::<GroupInner>::empty(),
    {
        let pool = GroupPool { entries: Vec::new(), limit };
        assert(pool.retired() =~= Seq::empty());
        pool
    }

    /// Keeps the storage of a sealed wave that lost its last handle, while
    /// there is room.
    pub fn retire(&mut self, group: GroupInner)
        requires
            old(self).wf(),
        ensures
            final(self).wf(),
            final(self).bound() == old(self).bound(),
            final(self).retired() == (if old(self).retired().len() < old(self).bound() {
                old(self).retired().push(group)
            } else {
                old(self).retired()
            }),
    {
        if self.entries.len() < self.limit {
            self.entries.push(group);
        }
    }

    /// Storage for a new wave: that of the first one that has settled and that
    /// no accessor holds, or new. Either way nothing of an earlier wave is left
    /// in it. `held` names the waves that somebody else still refers to.
    pub fn acquire(&mut self, id: u64, class: SWExecutionClass, held: &Vec<u64>) -> (group:
        GroupInner)
        requires
            old(self).wf(),
        ensures
            final(self).wf(),
            final(self).bound() == old(self).bound(),
            group == GroupInner::fresh(id, class),
            if exists|i: int| first_reusable(old(self).retired(), held@, i) {
                exists|i: int| #[trigger]
                    first_reusable(old(self).retired(), held@, i) && final(self).retired()
                        == swap_removed(old(self).retired(), i)
            } else {
                final(self).retired() == old(self).retired()
            },
    {
        let mut index: usize = 0;
        while index < self.entries.len()
            invariant
                *self == *old(self),
                self.wf(),
                index <= self.entries@.len(),
                forall|j: int|
                    0 <= j < index ==> !reusable(#[trigger] self.entries@[j], held@),
            decreases self.entries@.len() - index,
        {
            if self.entries[index].is_complete() && !is_held(held, self.entries[index].id) {
                let last: usize = self.entries.len() - 1;
                let kept = self.entries[last];
                self.entries.set(index, kept);
                let _ = self.entries.pop();
                proof {
                    let before = old(self).retired();
                    assert(first_reusable(before, held@, index as int));
                    assert(self.retired() =~= swap_removed(before, index as int));
                }
                return GroupInner::new(id, class);
            }
            index += 1;
        }
        proof {
            if exists|i: int| first_reusable(old(self).retired(), held@, i) {
                let i = choose|i: int| first_reusable(old(self).retired(), held@, i);
                assert(!reusable(self.entries@[i], held@));
            }
        }
        GroupInner::new(id, class)
    }
}

/// Completions enter this cache only when their final owner is released.
pub struct SignalPool {
    entries: Vec<SWCompletion>,
    limit: usize,
}

impl SignalPool {
    pub closed spec fn kept(self) -> nat {
        self.entries@.len()
    }

    pub closed spec fn bound(self) -> usize {
        self.limit
    }

    /// What is kept can be reset: nobody waits for it.
    pub closed spec fn reusable(self) -> bool {
        forall|i: int|
            0 <= i < self.entries@.len() ==> (#[trigger] self.entries@[i])@.wf()
                && self.entries@[i]@.subscribers.len() == 0
    }

    pub open spec fn wf(self) -> bool {
        self.kept() <= self.bound() && self.reusable()
    }

    pub fn new(limit: usize) -> (pool: Self)
        ensures
            pool.wf(),
            pool.bound() == limit,
            pool.kept() == 0,
    {
        SignalPool { entries: Vec::new(), limit }
    }

    /// Takes back a completion. One that has other owners, or that somebody
    /// still waits for, is only released.
    pub fn retire_if_last(&mut self, signal: SWCompletion, last: bool)
        requires
            old(self).wf(),
            signal@.wf(),
        ensures
            final(self).wf(),
            final(self).bound() == old(self).bound(),
            final(self).kept() == old(self).kept() + (if last && signal@.subscribers.len() == 0
                && old(self).kept() < old(self).bound() {
                1int
            } else {
                0int
            }),
    {
        if last && signal.is_reusable() && self.entries.len() < self.limit {
            self.entries.push(signal);
        }
    }

    /// A pending completion with nothing of an earlier one left in it.
    pub fn acquire(&mut self) -> (signal: SWCompletion)
        requires
            old(self).wf(),
        ensures
            final(self).wf(),
            final(self).bound() == old(self).bound(),
            final(self).kept() == (if old(self).kept() == 0 {
                0
            } else {
                (old(self).kept() - 1) as nat
            }),
            signal@.wf(),
            signal@ == SignalView::fresh(),
    {
        match self.entries.pop() {
            Some(signal) => signal.reset(),
            None => SWCompletion::pending(),
        }
    }
}

/// A job control: its identity and the operation that was not claimed yet.
pub struct Job<P> {
    pub id: u64,
    pub envelope: Option<P>,
}

impl<P> Job<P> {
    /// Hands the operation out, once.
    pub fn take_envelope(&mut self) -> (envelope: Option<P>)
        ensures
            envelope == old(self).envelope,
            final(self).envelope is None,
            final(self).id == old(self).id,
    {
        self.envelope.take()
    }
}

/// Holds only returned, exclusive job controls.
pub struct JobPool<P> {
    free: Vec<Job<P>>,
    limit: usize,
}

impl<P> JobPool<P> {
    pub closed spec fn kept(self) -> nat {
        self.free@.len()
    }

    pub closed spec fn bound(self) -> usize {
        self.limit
    }

    /// Nothing that is kept has an operation in it.
    pub closed spec fn empty_handed(self) -> bool {
        forall|i: int| 0 <= i < self.free@.len() ==> (#[trigger] self.free@[i]).envelope is None
    }

    pub open spec fn wf(self) -> bool {
        self.kept() <= self.bound() && self.empty_handed()
    }

    pub fn new(limit: usize) -> (pool: Self)
        ensures
            pool.wf(),
            pool.bound() == limit,
            pool.kept() == 0,
    {
        JobPool { free: Vec::new(), limit }
    }

    pub fn acquire(&mut self, id: u64, envelope: P) -> (job: Job<P>)
        requires
            old(self).wf(),
        ensures
            final(self).wf(),
            final(self).bound() == old(self).bound(),
            final(self).kept() == (if old(self).kept() == 0 {
                0
            } else {
                (old(self).kept() - 1) as nat
            }),
            job == (Job { id, envelope: Some(envelope) }),
    {
        match self.free.pop() {
            Some(job) => {
                let mut job = job;
                job.id = id;
                job.envelope = Some(envelope);
                job
            },
            None => Job { id, envelope: Some(envelope) },
        }
    }

    /// Takes back a job control. One with other handles, or abandoned with its
    /// operation intact, never enters the cache: it comes back to be destroyed.
    pub fn release(&mut self, job: Job<P>, last: bool) -> (dropped: Option<Job<P>>)
        requires
            old(self).wf(),
        ensures
            final(self).wf(),
            final(self).bound() == old(self).bound(),
            if last && job.envelope is None && old(self).kept() < old(self).bound() {
                dropped is None && final(self).kept() == old(self).kept() + 1
            } else {
                dropped == Some(job) && final(self).kept() == old(self).kept()
            },
    {
        if last && job.envelope.is_none() && self.free.len() < self.limit {
            self.free.push(job);
            None
        } else {
            Some(job)
        }
    }
}

} // verus!
