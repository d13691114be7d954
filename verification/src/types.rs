use vstd::prelude::*;

verus! {

/// A wallet identity: an opaque handle standing for the public key that owns
/// or receives withdrawals. The registry only ever compares identities for
/// equality, so a fixed-width handle carries everything it reads; the
/// process boundary keeps the correspondence to real keys.
#[derive(Clone, Copy, PartialEq, Eq, Structural, Hash, Debug)]
pub struct Identity {
    pub key: u64,
}

/// The identifier the withdrawal processor assigns when a withdrawal is
/// submitted: a 128-bit id, unique for the lifetime of the process.
#[derive(Clone, Copy, PartialEq, Eq, Structural, Hash, Debug)]
pub struct WithdrawalId {
    pub value: u128,
}

/// A reference to an on-chain transaction, again as an opaque handle: the
/// core never looks inside a transaction id, it only carries it through.
#[derive(Clone, Copy, PartialEq, Eq, Structural, Hash, Debug)]
pub struct TransactionRef {
    pub handle: u64,
}

} // verus!
