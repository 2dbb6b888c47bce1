//! Translating dispatched capability calls into a uniform result type.
//!
//! Every potentially blocking capability call runs on a worker away from the
//! event thread, and the caller gets a future for its outcome. Three things
//! can come back: the engine accepted the call, the engine refused it with a
//! status byte, or the worker pool never ran it at all. The last case is the
//! bridge's own failure and is reported as a reserved status so callers can
//! tell "the engine rejected the operation" from "the bridge could not run
//! it".

use vstd::prelude::*;

verus! {

use crate::engine::STATUS_OK;
use crate::marshal::STATUS_INTERNAL;

/// What running one capability call on a worker produced: the call's own
/// result, or no result because the pool failed to run it.
pub enum DispatchOutcome<T> {
    Completed(Result<T, u8>),
    Failed,
}

/// Resolve a dispatched call for its caller: a completed call resolves to
/// its own result, and a call the pool failed to run resolves to the
/// reserved internal status, never silently.
pub fn resolve_dispatch<T>(outcome: DispatchOutcome<T>) -> (r: Result<T, u8>)
    ensures
        match outcome {
            DispatchOutcome::Completed(inner) => r == inner,
            DispatchOutcome::Failed => r is Err && r->Err_0 == STATUS_INTERNAL,
        },
{
    match outcome {
        DispatchOutcome::Completed(inner) => inner,
        DispatchOutcome::Failed => Err(STATUS_INTERNAL),
    }
}

/// Translate an engine status byte into the uniform result type: zero means
/// success, anything else is handed to the caller untouched — the bridge
/// neither interprets nor retries engine statuses.
pub fn status_to_result(status: u8) -> (r: Result<(), u8>)
    ensures
        r is Ok <==> status == STATUS_OK,
        r is Err ==> r->Err_0 == status,
{
    if status == STATUS_OK {
        Ok(())
    } else {
        Err(status)
    }
}

} // verus!
