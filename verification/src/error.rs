use vstd::prelude::*;

verus! {

/// The failures that account and ledger operations report. Every failure is a
/// value returned to the caller; the operation that produced it performed no
/// mutation.
#[derive(Clone, Copy, Debug, PartialEq, Eq, Structural)]
pub enum TransactorError {
    /// A deposit or withdrawal record omitted its amount.
    MissingAmount,
    /// A withdrawal exceeds the available funds in the account.
    WithdrawalExceedsAvailable { available: u64, attempted: u64 },
    /// A dispute exceeds the available funds in the account.
    DisputeExceedsAvailable { available: u64, attempted: u64 },
    /// The account is frozen; no further action may affect it.
    FrozenAccount,
    /// The client identifier does not match an active account.
    NoClient(u16),
    /// The transaction identifier does not match a previous transaction.
    NoTransaction(u32),
    /// A deposit duplicated a transaction identifier.
    DuplicateTxn(u32),
    /// A resolve or chargeback targeted a transaction that is not disputed.
    NonDisputedTxn(u32),
    /// A dispute targeted an already disputed transaction.
    AlreadyDisputedTxn(u32),
}

impl TransactorError {
    /// Construct a `WithdrawalExceedsAvailable` error.
    pub fn withdrawal_exceeds(available: u64, attempted: u64) -> (e: TransactorError)
        ensures
            e == (TransactorError::WithdrawalExceedsAvailable { available, attempted }),
    {
        TransactorError::WithdrawalExceedsAvailable { available, attempted }
    }

    /// Construct a `DisputeExceedsAvailable` error.
    pub fn dispute_exceeds(available: u64, attempted: u64) -> (e: TransactorError)
        ensures
            e == (TransactorError::DisputeExceedsAvailable { available, attempted }),
    {
        TransactorError::DisputeExceedsAvailable { available, attempted }
    }
}

} // verus!
