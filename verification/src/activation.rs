//! The order in which one thread activates successors.
//!
//! Activation can reenter itself. The first enqueue on a thread drains; nested
//! ones only add to the queue, so that long chains do not nest their stacks.
use crate::task::SWTaskStatus;
use vstd::prelude::*;

verus! {

/// Work that publication hands to the draining thread.
#[derive(Clone, Copy, Debug, PartialEq, Eq, Structural)]
pub enum Activation {
    /// A prerequisite of this record has ended.
    Prerequisite(u64, SWTaskStatus),
    /// This record has published.
    Finalize(u64),
}

#[verifier::ext_equal]
pub struct ActivationsView {
    pub draining: bool,
    pub pending: Seq<Activation>,
}

pub struct ActivationQueue {
    draining: bool,
    pending: Vec<Activation>,
}

impl View for ActivationQueue {
    type V = ActivationsView;

    closed spec fn view(&self) -> ActivationsView {
        ActivationsView { draining: self.draining, pending: self.pending@ }
    }
}

impl ActivationQueue {
    pub fn new() -> (queue: Self)
        ensures
            queue@ == (ActivationsView { draining: false, pending: Seq::empty() }),
    {
        let queue = ActivationQueue { draining: false, pending: Vec::new() };
        assert(queue@.pending =~= Seq::empty());
        queue
    }

    /// Queues an activation. Reports whether the caller has to drain.
    pub fn enqueue(&mut self, activation: Activation) -> (start: bool)
        ensures
            start == !old(self)@.draining,
            final(self)@ == (ActivationsView {
                draining: true,
                pending: old(self)@.pending.push(activation),
            }),
    {
        self.pending.push(activation);
        let start = !self.draining;
        self.draining = true;
        start
    }

    /// The oldest pending activation; draining is over when there is none.
    pub fn next(&mut self) -> (next: Option<Activation>)
        requires
            old(self)@.draining,
        ensures
            match next {
                Some(activation) => {
                    &&& old(self)@.pending.len() > 0
                    &&& activation == old(self)@.pending[0]
                    &&& final(self)@ == (ActivationsView {
                        draining: true,
                        pending: old(self)@.pending.skip(1),
                    })
                },
                None => {
                    &&& old(self)@.pending.len() == 0
                    &&& final(self)@ == (ActivationsView { draining: false, ..old(self)@ })
                },
            },
    {
        if self.pending.len() == 0 {
            self.draining = false;
            return None;
        }
        let ghost before = self.pending@;
        let activation = self.pending.remove(0);
        assert(self.pending@ =~= before.skip(1));
        Some(activation)
    }

    /// An unwinding drain gives up its turn; what is pending stays for the next
    /// enqueue on this thread.
    pub fn unwound(&mut self)
        ensures
            final(self)@ == (ActivationsView { draining: false, ..old(self)@ }),
    {
        self.draining = false;
    }
}

} // verus!
