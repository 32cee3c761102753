//! Execution contexts and what they permit.
use crate::config::SWExecutionClass;
use vstd::prelude::*;

verus! {

/// Why an invocation was refused.
#[derive(Clone, Copy, Debug, PartialEq, Eq, Structural)]
pub enum SWExecutionError {
    /// The runtime no longer admits this invocation.
    Closed,
    /// The caller participates in work that this invocation cannot nest in.
    InvalidContext,
}

/// The invocation that a thread currently takes part in.
#[derive(Clone, Copy, Debug, PartialEq, Eq, Structural)]
pub struct Context {
    pub runtime: u64,
    pub class: SWExecutionClass,
    pub group: Option<u64>,
}

/// A caller that takes part in work of this runtime.
pub open spec fn within_runtime(context: Option<Context>, runtime: u64) -> bool {
    context matches Some(current) && current.runtime == runtime
}

/// A caller that takes part in work of this lane.
pub open spec fn within_lane(
    context: Option<Context>,
    runtime: u64,
    class: SWExecutionClass,
) -> bool {
    context matches Some(current) && current.runtime == runtime && current.class == class
}

pub fn is_within_runtime(context: Option<Context>, runtime: u64) -> (within: bool)
    ensures
        within == within_runtime(context, runtime),
{
    match context {
        Some(current) => current.runtime == runtime,
        None => false,
    }
}

pub fn is_within_lane(context: Option<Context>, runtime: u64, class: SWExecutionClass) -> (within:
    bool)
    ensures
        within == within_lane(context, runtime, class),
{
    match context {
        Some(current) => current.runtime == runtime && current.class == class,
        None => false,
    }
}

/// The context that terminal cleanup of a record enters, if it enters one. A
/// different execution route is preserved: nested scoped calls must still
/// reject cross-pool entry.
pub fn cleanup_context(
    context: Option<Context>,
    runtime: u64,
    class: SWExecutionClass,
    group: Option<u64>,
) -> (entered: Option<Context>)
    ensures
        entered == (if context is None || (within_lane(context, runtime, class) && group is Some) {
            Some(Context { runtime, class, group })
        } else {
            None
        }),
{
    match context {
        None => Some(Context { runtime, class, group }),
        Some(current) => if current.runtime == runtime && current.class == class
            && group.is_some() {
            Some(Context { runtime, class, group })
        } else {
            None
        },
    }
}

} // verus!
