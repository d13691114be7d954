//! The decision logic around the withdrawal processor: what the registry
//! does when a submission returns, and what the confirmation callback does
//! when a withdrawal reaches a terminal outcome.
//!
//! The processor itself is an outside collaborator; the surrounding process
//! calls it and hands its results in as plain values.

use vstd::prelude::*;
use crate::registry::{WithdrawalRegistry, recorded, released};
use crate::types::{Identity, WithdrawalId};

verus! {

/// An instruction to the caller: tell the withdrawal processor to drop its
/// per-id state for `id`. Producing it only after the registry release has
/// completed is what orders release before untrack.
pub struct UntrackRequest {
    pub id: WithdrawalId,
}

/// The confirmation callback's core, run once a withdrawal reaches a
/// terminal outcome: releases `id` from the registry and only then hands
/// back the untrack request for the processor. Safe to run again for the
/// same id — the second release finds nothing and changes nothing.
pub fn confirm_withdrawal(registry: &mut WithdrawalRegistry, id: WithdrawalId) -> (r:
    UntrackRequest)
    requires
        old(registry).wf(),
    ensures
        final(registry).wf(),
        final(registry)@ == released(old(registry)@, id),
        r.id == id,
{
    registry.release(id);
    UntrackRequest { id }
}

/// Applies a submission outcome to the registry: a successful submission's
/// id is recorded for the requesting identity and handed back; a failed
/// submission leaves the registry untouched, so no partial state survives.
pub fn apply_submission(
    registry: &mut WithdrawalRegistry,
    identity: Identity,
    submitted: Option<WithdrawalId>,
) -> (r: Option<WithdrawalId>)
    requires
        old(registry).wf(),
    ensures
        final(registry).wf(),
        submitted is Some ==> final(registry)@ == recorded(
            old(registry)@,
            identity,
            submitted.unwrap(),
        ),
        submitted is None ==> final(registry)@ == old(registry)@,
        r == submitted,
{
    match submitted {
        Some(id) => {
            registry.record(identity, id);
            Some(id)
        },
        None => None,
    }
}

} // verus!
