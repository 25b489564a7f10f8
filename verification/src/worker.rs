//! The chain-sync worker: one perpetual task that waits for the next
//! chain update, applies it under the guard, registers newly revealed
//! addresses with the gateway, and persists — or terminates when the
//! update channel closes. The waiting, watching and storing are outside
//! effects; this module decides, for every outcome of them, what the
//! worker does and what the state is afterwards.

use vstd::prelude::*;

use crate::chain::{apply_coins, spec_apply};
use crate::guard::Guard;
use crate::state::{total_value, MAX_MONEY_SAT};
use crate::types::ChainUpdate;

verus! {

/// What one turn of the worker's loop decided.
pub enum WorkerStep {
    /// The update channel closed: the worker terminates normally.
    Terminated,
    /// The update was applied, watched and persisted; the loop goes on.
    Applied,
    /// Applying, watching or persisting failed. The worker must not
    /// continue against stale state: the caller escalates to shutdown.
    Fatal,
}

/// One turn of the worker: `update` is what the gateway delivered
/// (`None` when its channel closed), `watch_ok` whether the newly
/// revealed addresses could be registered, `persist_ok` whether the
/// store accepted the write. Anything short of full success leaves the
/// state untouched and is fatal, so no handler ever reads half-applied
/// chain data.
pub fn worker_step(
    guard: &mut Guard,
    update: Option<&ChainUpdate>,
    watch_ok: bool,
    persist_ok: bool,
) -> (r: WorkerStep)
    requires
        old(guard).wf(),
        match update {
            Some(u) => u.wf(),
            None => true,
        },
    ensures
        final(guard).wf(),
        match update {
            None => r is Terminated && *final(guard) == *old(guard),
            Some(u) => {
                &&& (r is Applied <==> (watch_ok && persist_ok && total_value(
                    apply_coins(old(guard).model().coins, u.records@),
                ) <= MAX_MONEY_SAT))
                &&& (r is Applied ==> final(guard).model() == spec_apply(
                    old(guard).model(),
                    u.records@,
                ))
                &&& (r is Fatal ==> *final(guard) == *old(guard))
                &&& !(r is Terminated)
            },
        },
{
    match update {
        None => WorkerStep::Terminated,
        Some(u) => {
            if !watch_ok || !persist_ok {
                return WorkerStep::Fatal;
            }
            match guard.apply_update_section(u, persist_ok) {
                Ok(()) => WorkerStep::Applied,
                Err(_) => WorkerStep::Fatal,
            }
        },
    }
}

} // verus!
