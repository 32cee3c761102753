//! Retained, classed batches and exact-group helping.
use crate::config::SWExecutionClass;
use crate::context::Context;
use crate::context::SWExecutionError;
use crate::task::SWTaskStatus;
use vstd::prelude::*;

verus! {

/// Membership and settlement of one wave of owned jobs.
#[derive(Clone, Copy, Debug, PartialEq, Eq, Structural)]
pub struct GroupInner {
    pub id: u64,
    pub class: SWExecutionClass,
    pub sealed: bool,
    /// Accepted members whose cleanup has not settled.
    pub pending: usize,
    /// Advances whenever a helping waiter should look again.
    pub generation: u64,
    pub failed: bool,
    /// The terminal status has been handed out for publication.
    pub publishing: bool,
    /// The terminal status, once it is visible.
    pub status: Option<SWTaskStatus>,
    pub public_handles: usize,
}

impl GroupInner {
    /// The wave that a group starts with: open, empty, one handle.
    pub open spec fn fresh(id: u64, class: SWExecutionClass) -> GroupInner {
        GroupInner {
            id,
            class,
            sealed: false,
            pending: 0,
            generation: 0,
            failed: false,
            publishing: false,
            status: None,
            public_handles: 1,
        }
    }

    /// The status that a settled wave publishes.
    pub open spec fn verdict(self) -> SWTaskStatus {
        if self.failed {
            SWTaskStatus::PrerequisiteFailed
        } else {
            SWTaskStatus::Succeeded
        }
    }

    /// A wave publishes only once it is sealed and settled, and what its
    /// members gave.
    pub open spec fn wf(self) -> bool {
        &&& self.publishing ==> self.sealed && self.pending == 0
        &&& self.status is Some ==> self.publishing && self.status == Some(self.verdict())
    }

    /// A helping waiter is told to look again.
    pub open spec fn notified(self) -> GroupInner {
        GroupInner {
            generation: if self.generation == u64::MAX {
                0
            } else {
                (self.generation + 1) as u64
            },
            ..self
        }
    }

    /// The status to publish now, if the wave has just settled.
    pub open spec fn terminal_status(self) -> Option<SWTaskStatus> {
        if !self.sealed || self.pending != 0 || self.publishing {
            None
        } else {
            Some(self.verdict())
        }
    }

    /// The terminal status, if there is one, has been handed out.
    pub open spec fn handed_out(self) -> GroupInner {
        GroupInner { publishing: self.publishing || self.terminal_status() is Some, ..self }
    }

    pub open spec fn joined(self) -> GroupInner {
        GroupInner { pending: (self.pending + 1) as usize, ..self }.notified()
    }

    /// A member has settled. A withdrawn submission has no status and cannot
    /// fail the wave.
    pub open spec fn left(self, status: Option<SWTaskStatus>) -> GroupInner {
        GroupInner {
            pending: (self.pending - 1) as usize,
            failed: self.failed || (status is Some && status->0 != SWTaskStatus::Succeeded),
            ..self
        }.notified()
    }

    pub open spec fn closed_membership(self) -> GroupInner {
        GroupInner { sealed: true, ..self }.notified()
    }

    pub fn new(id: u64, class: SWExecutionClass) -> (group: Self)
        ensures
            group == GroupInner::fresh(id, class),
            group.wf(),
    {
        GroupInner {
            id,
            class,
            sealed: false,
            pending: 0,
            generation: 0,
            failed: false,
            publishing: false,
            status: None,
            public_handles: 1,
        }
    }

    /// Admits a member while the wave is open.
    pub fn add(&mut self) -> (added: bool)
        requires
            old(self).wf(),
            !old(self).sealed ==> old(self).pending < usize::MAX,
        ensures
            final(self).wf(),
            added == !old(self).sealed,
            *final(self) == old(self).after(WaveStep::Add),
    {
        if self.sealed {
            return false;
        }
        self.pending = self.pending + 1;
        self.notify_ready();
        true
    }

    /// Settles a member, and hands out the terminal status if it was the last.
    pub fn finish(&mut self, status: Option<SWTaskStatus>) -> (terminal: Option<SWTaskStatus>)
        requires
            old(self).wf(),
            old(self).pending > 0,
        ensures
            final(self).wf(),
            terminal == old(self).left(status).terminal_status(),
            *final(self) == old(self).after(WaveStep::Finish(status)),
    {
        self.pending = self.pending - 1;
        if let Some(status) = status {
            if !status.is_success() {
                self.failed = true;
            }
        }
        self.notify_ready();
        self.terminal()
    }

    /// Closes membership, and hands out the terminal status if nobody is left.
    pub fn seal(&mut self) -> (terminal: Option<SWTaskStatus>)
        requires
            old(self).wf(),
        ensures
            final(self).wf(),
            terminal == old(self).closed_membership().terminal_status(),
            *final(self) == old(self).after(WaveStep::Seal),
    {
        self.sealed = true;
        self.notify_ready();
        self.terminal()
    }

    fn terminal(&mut self) -> (terminal: Option<SWTaskStatus>)
        requires
            old(self).wf(),
        ensures
            final(self).wf(),
            terminal == old(self).terminal_status(),
            *final(self) == old(self).handed_out(),
    {
        if !self.sealed || self.pending != 0 || self.publishing {
            return None;
        }
        self.publishing = true;
        if self.failed {
            Some(SWTaskStatus::PrerequisiteFailed)
        } else {
            Some(SWTaskStatus::Succeeded)
        }
    }

    /// Makes the handed-out terminal status visible, then wakes helpers.
    pub fn publish(&mut self)
        requires
            old(self).wf(),
            old(self).publishing,
        ensures
            final(self).wf(),
            *final(self) == old(self).after(WaveStep::Publish),
    {
        if self.failed {
            self.status = Some(SWTaskStatus::PrerequisiteFailed);
        } else {
            self.status = Some(SWTaskStatus::Succeeded);
        }
        self.notify_ready();
    }

    pub fn notify_ready(&mut self)
        ensures
            *final(self) == old(self).notified(),
    {
        if self.generation == u64::MAX {
            self.generation = 0;
        } else {
            self.generation = self.generation + 1;
        }
    }

    pub fn is_complete(&self) -> (complete: bool)
        ensures
            complete == (self.status is Some),
    {
        self.status.is_some()
    }

    pub fn generation(&self) -> (generation: u64)
        ensures
            generation == self.generation,
    {
        self.generation
    }

    /// Whether a helper that last looked at `generation` may park.
    pub fn wait_change(&self, generation: u64) -> (park: bool)
        ensures
            park == (self.generation == generation && self.status is None),
    {
        self.generation == generation && !self.is_complete()
    }

    /// Reuses this wave for another only when it has settled and no other
    /// handle or scheduler member can still refer to its old identity.
    /// `exclusive` says that no member does.
    pub fn try_reset(&mut self, id: u64, exclusive: bool) -> (reset: bool)
        requires
            old(self).wf(),
        ensures
            final(self).wf(),
            reset == (exclusive && old(self).public_handles == 1 && old(self).status is Some),
            *final(self) == old(self).after(WaveStep::Reuse(id, exclusive)),
    {
        if !exclusive || self.public_handles != 1 || !self.is_complete() {
            return false;
        }
        *self = GroupInner::new(id, self.class);
        true
    }

    /// Why a caller may not help here, if it may not: inside a host signal, or
    /// taking part in another lane.
    pub open spec fn help_error(
        self,
        runtime: u64,
        context: Option<Context>,
        invoking: bool,
    ) -> Option<SWExecutionError> {
        if invoking {
            Some(SWExecutionError::InvalidContext)
        } else if context matches Some(current) && !(current.runtime == runtime && current.class
            == self.class) {
            Some(SWExecutionError::InvalidContext)
        } else {
            None
        }
    }

    pub fn check_context(&self, runtime: u64, context: Option<Context>, invoking: bool) -> (result:
        Result<(), SWExecutionError>)
        ensures
            match result {
                Ok(()) => self.help_error(runtime, context, invoking) is None,
                Err(error) => self.help_error(runtime, context, invoking) == Some(error),
            },
    {
        if invoking {
            return Err(SWExecutionError::InvalidContext);
        }
        match context {
            Some(current) => if current.runtime == runtime && current.class == self.class {
                Ok(())
            } else {
                Err(SWExecutionError::InvalidContext)
            },
            None => Ok(()),
        }
    }

    /// One turn of a helping wait: done, or help and otherwise park until the
    /// generation moves on. Waiting on the group of the current invocation is
    /// refused.
    pub fn wait_helping(&self, runtime: u64, context: Option<Context>, invoking: bool) -> (step:
        Result<HelpStep, SWExecutionError>)
        ensures
            step == (if self.help_error(runtime, context, invoking) is Some || (
            context matches Some(current) && current.runtime == runtime && current.group == Some(
                self.id,
            )) {
                Err::<HelpStep, SWExecutionError>(SWExecutionError::InvalidContext)
            } else if self.status is Some {
                Ok(HelpStep::Complete)
            } else {
                Ok(HelpStep::Help(self.generation))
            }),
    {
        match self.check_context(runtime, context, invoking) {
            Err(_) => {
                return Err(SWExecutionError::InvalidContext);
            },
            Ok(()) => {},
        }
        if let Some(current) = context {
            if let Some(group) = current.group {
                if current.runtime == runtime && group == self.id {
                    return Err(SWExecutionError::InvalidContext);
                }
            }
        }
        if self.is_complete() {
            return Ok(HelpStep::Complete);
        }
        Ok(HelpStep::Help(self.generation))
    }
}

/// Which wave a submission joins.
#[derive(Clone, Copy, Debug, PartialEq, Eq, Structural)]
pub struct GroupKey {
    pub id: u64,
    pub class: SWExecutionClass,
    pub runtime: u64,
}

/// What a helping waiter does next.
#[derive(Clone, Copy, Debug, PartialEq, Eq, Structural)]
pub enum HelpStep {
    Complete,
    /// Execute one ready member; where there is none, park while the
    /// generation stays.
    Help(u64),
}

/// A wave hands out its terminal status at most once: what follows a settled
/// wave never hands out another.
pub proof fn wave_settles_once(group: GroupInner)
    requires
        group.wf(),
        group.publishing,
    ensures
        group.terminal_status() is None,
        group.closed_membership().terminal_status() is None,
        group.handed_out() == group,
        group.sealed && group.pending == 0,
{
}

/// What can happen to a wave while somebody other than its batch observes it.
pub enum WaveStep {
    Add,
    Finish(Option<SWTaskStatus>),
    Seal,
    Publish,
    Notify,
    /// The number of observers changes.
    Handles(usize),
    /// Its batch asks to reuse it under this identity, with no other accessor
    /// or with some.
    Reuse(u64, bool),
}

impl GroupInner {
    pub open spec fn can(self, step: WaveStep) -> bool {
        match step {
            WaveStep::Add => !self.sealed ==> self.pending < usize::MAX,
            WaveStep::Finish(_) => self.pending > 0,
            WaveStep::Publish => self.publishing,
            _ => true,
        }
    }

    pub open spec fn after(self, step: WaveStep) -> GroupInner {
        match step {
            WaveStep::Add => if self.sealed {
                self
            } else {
                self.joined()
            },
            WaveStep::Finish(status) => self.left(status).handed_out(),
            WaveStep::Seal => self.closed_membership().handed_out(),
            WaveStep::Publish => (GroupInner { status: Some(self.verdict()), ..self }).notified(),
            WaveStep::Notify => self.notified(),
            WaveStep::Handles(public_handles) => GroupInner { public_handles, ..self },
            WaveStep::Reuse(id, exclusive) => if exclusive && self.public_handles == 1 && self.status
                is Some {
                GroupInner::fresh(id, self.class)
            } else {
                self
            },
        }
    }
}

/// The status of a wave, once visible, stays. A batch reuses a wave only while
/// nobody else observes it.
pub proof fn wave_status_stays(group: GroupInner, step: WaveStep)
    requires
        group.wf(),
        group.can(step),
        group.status is Some,
        step is Reuse ==> group.public_handles != 1 || !step->Reuse_1,
    ensures
        group.after(step).wf(),
        group.after(step).status == group.status,
        group.after(step).id == group.id,
{
}

/// An empty wave succeeds, and a wave with a failed member never does.
pub proof fn wave_verdict(group: GroupInner, status: Option<SWTaskStatus>, id: u64)
    requires
        group.pending > 0,
    ensures
        group.left(status).verdict() == SWTaskStatus::Succeeded <==> group.verdict()
            == SWTaskStatus::Succeeded && (status matches Some(status) ==> status
            == SWTaskStatus::Succeeded),
        GroupInner::fresh(id, group.class).closed_membership().terminal_status() == Some(
            SWTaskStatus::Succeeded,
        ),
{
}

/// A wave after these members have settled, one after the other.
pub open spec fn all_left(group: GroupInner, members: Seq<Option<SWTaskStatus>>) -> GroupInner
    decreases members.len(),
{
    if members.len() == 0 {
        group
    } else {
        all_left(group, members.drop_last()).left(members.last())
    }
}

/// A wave succeeds exactly if every accepted member succeeded. Withdrawn
/// submissions have no status and never fail it.
pub proof fn wave_succeeds_with_its_members(
    group: GroupInner,
    members: Seq<Option<SWTaskStatus>>,
)
    requires
        members.len() <= group.pending,
    ensures
        all_left(group, members).verdict() == SWTaskStatus::Succeeded <==> {
            &&& group.verdict() == SWTaskStatus::Succeeded
            &&& forall|i: int|
                0 <= i < members.len() ==> (#[trigger] members[i] matches Some(status) ==> status
                    == SWTaskStatus::Succeeded)
        },
        all_left(group, members).pending == group.pending - members.len(),
    decreases members.len(),
{
    if members.len() > 0 {
        let rest = members.drop_last();
        wave_succeeds_with_its_members(group, rest);
        let last = members.len() - 1;
        assert(forall|i: int| 0 <= i < rest.len() ==> rest[i] == members[i]);
        if all_left(group, members).verdict() == SWTaskStatus::Succeeded {
            assert forall|i: int| 0 <= i < members.len() implies (
            #[trigger] members[i] matches Some(status) ==> status
                == SWTaskStatus::Succeeded) by {
                if i < last {
                    assert(rest[i] == members[i]);
                }
            }
        } else if forall|i: int|
            0 <= i < members.len() ==> (#[trigger] members[i] matches Some(status) ==> status
                == SWTaskStatus::Succeeded) {
            assert(members[last] == members.last());
            assert forall|i: int| 0 <= i < rest.len() implies (
            #[trigger] rest[i] matches Some(status) ==> status == SWTaskStatus::Succeeded) by {
                assert(rest[i] == members[i]);
            }
        }
    }
}

} // verus!
