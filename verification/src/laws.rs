use vstd::prelude::*;

use crate::account::{
    chargeback_spec, deposit_spec, dispute_spec, lemma_held_contrib_le_sum,
    lemma_held_sum_insert_fresh, lemma_held_sum_update, resolve_spec, withdraw_spec, AccountView,
    Deposit,
};
use crate::error::TransactorError;

verus! {

/// Every account operation preserves the accounting invariant: the balances
/// stay within `u64`, and the held funds remain exactly the sum of the
/// disputed deposits' amounts — so `available >= 0`, `held >= 0`, and
/// `total == available + held` hold after every operation.
pub proof fn lemma_ops_preserve_wf(a: AccountView, tx: u32, amt: u64)
    requires
        a.wf(),
        a.total() + amt <= u64::MAX,
    ensures
        deposit_spec(a, tx, amt).0.wf(),
        withdraw_spec(a, amt).0.wf(),
        dispute_spec(a, tx).0.wf(),
        resolve_spec(a, tx).0.wf(),
        chargeback_spec(a, tx).0.wf(),
{
    if !a.frozen && !a.deposits.contains_key(tx) {
        lemma_held_sum_insert_fresh(a.deposits, tx, Deposit { amount: amt, disputed: false });
    }
    if !a.frozen && a.deposits.contains_key(tx) {
        let dep = a.deposits[tx];
        lemma_held_contrib_le_sum(a.deposits, tx);
        if !dep.disputed && a.available >= dep.amount {
            lemma_held_sum_update(a.deposits, tx, Deposit { amount: dep.amount, disputed: true });
        }
        if dep.disputed {
            lemma_held_sum_update(a.deposits, tx, Deposit { amount: dep.amount, disputed: false });
        }
    }
}

/// Depositing under a transaction identifier that already succeeded leaves
/// the account unchanged and returns `DuplicateTxn`; since the state does
/// not change, every further attempt fails the same way.
pub proof fn lemma_duplicate_deposit_rejected(a: AccountView, tx: u32, amt1: u64, amt2: u64)
    requires
        deposit_spec(a, tx, amt1).1 is Ok,
    ensures
        deposit_spec(deposit_spec(a, tx, amt1).0, tx, amt2) == (
            deposit_spec(a, tx, amt1).0,
            Err::<(), TransactorError>(TransactorError::DuplicateTxn(tx)),
        ),
{
}

/// Withdrawing more than the available funds leaves the account unchanged
/// and returns `WithdrawalExceedsAvailable`.
pub proof fn lemma_withdraw_exceeding_rejected(a: AccountView, amt: u64)
    requires
        !a.frozen,
        amt > a.available,
    ensures
        withdraw_spec(a, amt) == (
            a,
            Err::<(), TransactorError>(
                (TransactorError::WithdrawalExceedsAvailable {
                    available: a.available,
                    attempted: amt,
                }),
            ),
        ),
{
}

/// Dispute followed by resolve is balance-neutral: the account returns to
/// exactly its pre-dispute state.
pub proof fn lemma_dispute_resolve_neutral(a: AccountView, tx: u32)
    requires
        a.wf(),
        dispute_spec(a, tx).1 is Ok,
    ensures
        resolve_spec(dispute_spec(a, tx).0, tx) == (a, Ok::<(), TransactorError>(())),
{
    let a1 = dispute_spec(a, tx).0;
    let a2 = resolve_spec(a1, tx).0;
    assert(a2.deposits =~= a.deposits);
    assert(a2 =~= a);
}

/// Dispute followed by chargeback succeeds, freezes the account, and removes
/// the disputed amount from the held and total funds.
pub proof fn lemma_dispute_chargeback_freezes(a: AccountView, tx: u32)
    requires
        a.wf(),
        dispute_spec(a, tx).1 is Ok,
    ensures
        chargeback_spec(dispute_spec(a, tx).0, tx).1 is Ok,
        ({
            let after = chargeback_spec(dispute_spec(a, tx).0, tx).0;
            &&& after.frozen
            &&& after.held == a.held
            &&& after.available == a.available - a.deposits[tx].amount
            &&& after.total() == a.total() - a.deposits[tx].amount
        }),
{
}

/// Once an account is frozen, every operation fails with `FrozenAccount`
/// and has no effect.
pub proof fn lemma_frozen_rejects_all(a: AccountView, tx: u32, amt: u64)
    requires
        a.frozen,
    ensures
        deposit_spec(a, tx, amt) == (a, Err::<(), TransactorError>(TransactorError::FrozenAccount)),
        withdraw_spec(a, amt) == (a, Err::<(), TransactorError>(TransactorError::FrozenAccount)),
        dispute_spec(a, tx) == (a, Err::<(), TransactorError>(TransactorError::FrozenAccount)),
        resolve_spec(a, tx) == (a, Err::<(), TransactorError>(TransactorError::FrozenAccount)),
        chargeback_spec(a, tx) == (a, Err::<(), TransactorError>(TransactorError::FrozenAccount)),
{
}

/// Disputing an already-disputed deposit fails with `AlreadyDisputedTxn` and
/// does not move the funds a second time.
pub proof fn lemma_double_dispute_rejected(a: AccountView, tx: u32)
    requires
        dispute_spec(a, tx).1 is Ok,
    ensures
        dispute_spec(dispute_spec(a, tx).0, tx) == (
            dispute_spec(a, tx).0,
            Err::<(), TransactorError>(TransactorError::AlreadyDisputedTxn(tx)),
        ),
{
}

} // verus!
