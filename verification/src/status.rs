//! The per-withdrawal status view the API reports: the confirmation state
//! the withdrawal processor assigned, with the transaction it refers to,
//! and the flattening of a batch of status lookups into the rows a status
//! query renders.

use vstd::prelude::*;
use crate::types::TransactionRef;

verus! {

/// Where a withdrawal stands in the processor's confirmation state machine.
/// This is a view produced by the processor, not state the registry owns.
#[derive(Clone, Copy, PartialEq, Eq, Structural, Debug)]
pub enum WithdrawalStatus {
    /// Waiting in the mempool.
    Pending { transaction: TransactionRef },
    /// Included in a block that is not yet buried deep enough.
    Confirming { transaction: TransactionRef },
    /// Confirmed with enough blocks on top: a terminal outcome.
    Confirmed { transaction: TransactionRef },
    /// Expired unconfirmed: the other terminal outcome.
    Expired { transaction: TransactionRef },
}

/// The label a status renders as.
pub open spec fn status_label(s: WithdrawalStatus) -> Seq<char> {
    match s {
        WithdrawalStatus::Pending { .. } => "pending"@,
        WithdrawalStatus::Confirming { .. } => "confirming"@,
        WithdrawalStatus::Confirmed { .. } => "confirmed"@,
        WithdrawalStatus::Expired { .. } => "expired"@,
    }
}

/// The transaction a status refers to.
pub open spec fn status_transaction(s: WithdrawalStatus) -> TransactionRef {
    match s {
        WithdrawalStatus::Pending { transaction } => transaction,
        WithdrawalStatus::Confirming { transaction } => transaction,
        WithdrawalStatus::Confirmed { transaction } => transaction,
        WithdrawalStatus::Expired { transaction } => transaction,
    }
}

impl WithdrawalStatus {
    /// The label this status renders as.
    pub fn label(&self) -> (r: &'static str)
        ensures
            r@ == status_label(*self),
    {
        match self {
            WithdrawalStatus::Pending { .. } => "pending",
            WithdrawalStatus::Confirming { .. } => "confirming",
            WithdrawalStatus::Confirmed { .. } => "confirmed",
            WithdrawalStatus::Expired { .. } => "expired",
        }
    }

    /// The transaction this status refers to.
    pub fn transaction(&self) -> (r: TransactionRef)
        ensures
            r == status_transaction(*self),
    {
        match self {
            WithdrawalStatus::Pending { transaction } => *transaction,
            WithdrawalStatus::Confirming { transaction } => *transaction,
            WithdrawalStatus::Confirmed { transaction } => *transaction,
            WithdrawalStatus::Expired { transaction } => *transaction,
        }
    }
}

/// The statuses a batch of lookups found, in order, with the absent ones
/// (ids the processor no longer tracks) skipped.
pub open spec fn found_statuses(s: Seq<Option<WithdrawalStatus>>) -> Seq<WithdrawalStatus>
    decreases s.len(),
{
    if s.len() == 0 {
        Seq::empty()
    } else {
        found_statuses(s.drop_last()) + match s.last() {
            Some(w) => seq![w],
            None => Seq::empty(),
        }
    }
}

/// Flattens the status lookups for one identity's in-flight ids into the
/// rows its status query renders: one row per id the processor still
/// tracks, in lookup order, skipping the rest.
pub fn collect_found(lookups: &Vec<Option<WithdrawalStatus>>) -> (r: Vec<WithdrawalStatus>)
    ensures
        r@ == found_statuses(lookups@),
{
    let n: usize = lookups.len();
    let mut r: Vec<WithdrawalStatus> = Vec::new();
    let mut i: usize = 0;
    while i < n
        invariant
            i <= n,
            n == lookups@.len(),
            r@ == found_statuses(lookups@.take(i as int)),
        decreases n - i,
    {
        proof {
            let t = lookups@.take(i as int + 1);
            assert(t.drop_last() =~= lookups@.take(i as int));
            assert(t.last() == lookups@[i as int]);
        }
        match lookups[i] {
            Some(w) => {
                r.push(w);
                proof {
                    assert(r@ =~= found_statuses(lookups@.take(i as int + 1)));
                }
            },
            None => {
                proof {
                    assert(r@ =~= found_statuses(lookups@.take(i as int + 1)));
                }
            },
        }
        i += 1;
    }
    proof {
        assert(lookups@.take(n as int) =~= lookups@);
    }
    r
}

} // verus!
