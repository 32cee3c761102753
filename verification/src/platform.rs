//! Platform-specific setup performed by each worker before it reports ready.
use crate::config::SWThreadPriority;
use vstd::prelude::*;

verus! {

/// A requested worker policy could not be established. `S` is the platform's
/// own error.
pub enum SWWorkerSetupError<S> {
    UnsupportedPriority(SWThreadPriority),
    System(S),
}

/// Whether a worker has its requested OS priority. `platform` is how the
/// platform answered, where it supports priorities at all; a worker without a
/// request does not ask.
pub fn apply_worker_priority<S>(
    requested_priority: Option<SWThreadPriority>,
    platform: Option<Result<(), S>>,
) -> (result: Result<(), SWWorkerSetupError<S>>)
    ensures
        match (requested_priority, platform) {
            (None, _) => result is Ok,
            (Some(priority), None) => result == Err::<(), SWWorkerSetupError<S>>(
                SWWorkerSetupError::UnsupportedPriority(priority),
            ),
            (Some(_), Some(Ok(()))) => result is Ok,
            (Some(_), Some(Err(error))) => result == Err::<(), SWWorkerSetupError<S>>(
                SWWorkerSetupError::System(error),
            ),
        },
{
    match requested_priority {
        None => Ok(()),
        Some(priority) => match platform {
            None => Err(SWWorkerSetupError::UnsupportedPriority(priority)),
            Some(Ok(())) => Ok(()),
            Some(Err(error)) => Err(SWWorkerSetupError::System(error)),
        },
    }
}

} // verus!
