//! The barrier that every worker passes before any of them enters its executor.
use vstd::prelude::*;

verus! {

#[derive(Clone, Copy, Debug, PartialEq, Eq, Structural)]
pub enum StartupPhase {
    Preparing,
    Started,
    Aborted,
}

/// What the builder does next.
#[derive(Clone, Copy, Debug, PartialEq, Eq, Structural)]
pub enum StartStep {
    /// Wait for the remaining workers.
    Wait,
    /// Every worker is ready: all of them enter their executors.
    Started,
    /// Some worker failed: no worker enters its executor.
    Aborted,
}

#[verifier::ext_equal]
pub struct StartupView<E> {
    pub phase: StartupPhase,
    pub ready: int,
    /// The first worker error.
    pub error: Option<E>,
}

impl<E> StartupView<E> {
    pub open spec fn failed(self, error: E) -> StartupView<E> {
        StartupView {
            phase: StartupPhase::Aborted,
            error: if self.error is None {
                Some(error)
            } else {
                self.error
            },
            ..self
        }
    }

    /// What the builder does once it has looked.
    pub open spec fn step(self, expected: int) -> StartStep {
        match self.phase {
            StartupPhase::Aborted => StartStep::Aborted,
            StartupPhase::Started => StartStep::Started,
            StartupPhase::Preparing => if self.ready == expected {
                StartStep::Started
            } else {
                StartStep::Wait
            },
        }
    }

    pub open spec fn stepped(self, expected: int) -> StartupView<E> {
        if self.step(expected) == StartStep::Started {
            StartupView { phase: StartupPhase::Started, ..self }
        } else {
            self
        }
    }

    /// What a worker at the barrier does: wait, run, or leave.
    pub open spec fn passage(self) -> Option<bool> {
        match self.phase {
            StartupPhase::Preparing => None,
            StartupPhase::Started => Some(true),
            StartupPhase::Aborted => Some(false),
        }
    }
}

/// Startup of one runtime's workers.
pub struct Startup<E> {
    phase: StartupPhase,
    ready: usize,
    error: Option<E>,
}

impl<E> View for Startup<E> {
    type V = StartupView<E>;

    closed spec fn view(&self) -> StartupView<E> {
        StartupView { phase: self.phase, ready: self.ready as int, error: self.error }
    }
}

impl<E> Startup<E> {
    pub fn new() -> (startup: Self)
        ensures
            startup@ == (StartupView::<E> {
                phase: StartupPhase::Preparing,
                ready: 0,
                error: None,
            }),
    {
        Startup { phase: StartupPhase::Preparing, ready: 0, error: None }
    }

    pub fn is_aborted(&self) -> (aborted: bool)
        ensures
            aborted == (self@.phase == StartupPhase::Aborted),
    {
        self.phase == StartupPhase::Aborted
    }

    /// A worker could not be created or prepared. The first error is kept; a
    /// later one comes back.
    pub fn fail(&mut self, error: E) -> (loser: Option<E>)
        ensures
            final(self)@ == old(self)@.failed(error),
            loser == (if old(self)@.error is None {
                None
            } else {
                Some(error)
            }),
    {
        self.phase = StartupPhase::Aborted;
        if self.error.is_none() {
            self.error = Some(error);
            None
        } else {
            Some(error)
        }
    }

    /// Releases the barrier without an error, as unwinding construction does.
    pub fn abort(&mut self)
        ensures
            final(self)@ == (StartupView { phase: StartupPhase::Aborted, ..old(self)@ }),
    {
        self.phase = StartupPhase::Aborted;
    }

    /// A worker has completed its setup and waits at the barrier.
    pub fn arrive(&mut self)
        requires
            old(self)@.ready < usize::MAX,
        ensures
            final(self)@ == (StartupView { ready: old(self)@.ready + 1, ..old(self)@ }),
    {
        self.ready = self.ready + 1;
    }

    /// One look of a worker at the barrier: nothing yet, or whether it runs.
    pub fn ready_and_wait(&self) -> (passage: Option<bool>)
        ensures
            passage == self@.passage(),
    {
        match self.phase {
            StartupPhase::Preparing => None,
            StartupPhase::Started => Some(true),
            StartupPhase::Aborted => Some(false),
        }
    }

    /// One look of the builder: it opens the barrier once every worker is ready.
    pub fn start_when_ready(&mut self, expected: usize) -> (step: StartStep)
        ensures
            step == old(self)@.step(expected as int),
            final(self)@ == old(self)@.stepped(expected as int),
    {
        match self.phase {
            StartupPhase::Aborted => StartStep::Aborted,
            StartupPhase::Started => StartStep::Started,
            StartupPhase::Preparing => {
                if self.ready == expected {
                    self.phase = StartupPhase::Started;
                    StartStep::Started
                } else {
                    StartStep::Wait
                }
            },
        }
    }

    /// Only the builder takes the error, once, after a recorded failure.
    pub fn take_error(&mut self) -> (error: Option<E>)
        ensures
            error == old(self)@.error,
            final(self)@ == (StartupView { error: None, ..old(self)@ }),
    {
        self.error.take()
    }
}

/// No worker enters its executor before every worker is ready, and none does
/// once one has failed.
pub proof fn workers_start_together<E>(startup: StartupView<E>, expected: int, error: E)
    requires
        startup.phase == StartupPhase::Preparing,
    ensures
        startup.passage() is None,
        startup.stepped(expected).passage() == Some(true) <==> startup.ready == expected,
        startup.failed(error).passage() == Some(false),
        startup.failed(error).step(expected) == StartStep::Aborted,
        startup.failed(error).stepped(expected).passage() == Some(false),
{
}

/// A failed startup reports its first error, whatever fails afterwards.
pub proof fn first_error_is_reported<E>(startup: StartupView<E>, first: E, later: E)
    requires
        startup.error is None,
    ensures
        startup.failed(first).failed(later).error == Some(first),
{
}

} // verus!
