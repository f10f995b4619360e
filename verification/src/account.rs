use vstd::prelude::*;

use std::collections::HashMap;

use crate::error::TransactorError;

verus! {

/// A deposit transaction, tracking the amount and whether it is disputed.
#[derive(Clone, Copy, Debug)]
pub struct Deposit {
    pub amount: u64,
    pub disputed: bool,
}

impl Deposit {
    /// Construct a new `Deposit` transaction.
    pub fn new(amount: u64) -> (d: Deposit)
        ensures
            d == (Deposit { amount, disputed: false }),
    {
        Deposit { amount, disputed: false }
    }

    /// Return whether the deposit is disputed.
    pub fn is_disputed(&self) -> (b: bool)
        ensures
            b == self.disputed,
    {
        self.disputed
    }

    /// Get the amount of funds this deposit represents.
    pub fn amount(&self) -> (a: u64)
        ensures
            a == self.amount,
    {
        self.amount
    }

    /// Set the `Deposit` transaction to disputed.
    pub fn dispute(&mut self)
        ensures
            *final(self) == (Deposit { amount: old(self).amount, disputed: true }),
    {
        self.disputed = true;
    }

    /// Set the `Deposit` transaction to resolved.
    pub fn resolve(&mut self)
        ensures
            *final(self) == (Deposit { amount: old(self).amount, disputed: false }),
    {
        self.disputed = false;
    }
}

/// The abstract state of an account: its balances, its frozen flag, and the
/// history of its deposits keyed by transaction identifier.
#[verifier::ext_equal]
pub ghost struct AccountView {
    pub available: u64,
    pub held: u64,
    pub frozen: bool,
    pub deposits: Map<u32, Deposit>,
}

/// The contribution of one deposit to the held balance: its amount while it
/// is disputed, nothing otherwise.
pub open spec fn held_contrib(d: Deposit) -> int {
    if d.disputed {
        d.amount as int
    } else {
        0
    }
}

/// The sum of the amounts of the currently disputed deposits.
pub open spec fn held_sum(m: Map<u32, Deposit>) -> int
    decreases m.dom().len(),
    when m.dom().finite()
{
    if m.dom().len() == 0 {
        0
    } else {
        let k = m.dom().choose();
        held_contrib(m[k]) + held_sum(m.remove(k))
    }
}

/// Any key of the map can be split off the sum, not just the chosen one.
pub proof fn lemma_held_sum_remove(m: Map<u32, Deposit>, k: u32)
    requires
        m.dom().finite(),
        m.contains_key(k),
    ensures
        held_sum(m) == held_contrib(m[k]) + held_sum(m.remove(k)),
    decreases m.dom().len(),
{
    broadcast use vstd::set_lib::group_set_properties;

    let c = m.dom().choose();
    if c != k {
        lemma_held_sum_remove(m.remove(c), k);
        lemma_held_sum_remove(m.remove(k), c);
        assert(m.remove(c).remove(k) =~= m.remove(k).remove(c));
    }
}

/// The held sum is never negative.
pub proof fn lemma_held_sum_nonneg(m: Map<u32, Deposit>)
    requires
        m.dom().finite(),
    ensures
        held_sum(m) >= 0,
    decreases m.dom().len(),
{
    broadcast use vstd::set_lib::group_set_properties;

    if m.dom().len() != 0 {
        lemma_held_sum_nonneg(m.remove(m.dom().choose()));
    }
}

/// A single deposit never contributes more than the whole held sum.
pub proof fn lemma_held_contrib_le_sum(m: Map<u32, Deposit>, k: u32)
    requires
        m.dom().finite(),
        m.contains_key(k),
    ensures
        held_contrib(m[k]) <= held_sum(m),
{
    lemma_held_sum_remove(m, k);
    lemma_held_sum_nonneg(m.remove(k));
}

/// Inserting a deposit under a fresh key adds its contribution to the sum.
pub proof fn lemma_held_sum_insert_fresh(m: Map<u32, Deposit>, k: u32, d: Deposit)
    requires
        m.dom().finite(),
        !m.contains_key(k),
    ensures
        held_sum(m.insert(k, d)) == held_sum(m) + held_contrib(d),
{
    lemma_held_sum_remove(m.insert(k, d), k);
    assert(m.insert(k, d).remove(k) =~= m);
}

/// Overwriting an existing key exchanges the old contribution for the new.
pub proof fn lemma_held_sum_update(m: Map<u32, Deposit>, k: u32, d: Deposit)
    requires
        m.dom().finite(),
        m.contains_key(k),
    ensures
        held_sum(m.insert(k, d)) == held_sum(m) - held_contrib(m[k]) + held_contrib(d),
{
    lemma_held_sum_remove(m.insert(k, d), k);
    lemma_held_sum_remove(m, k);
    assert(m.insert(k, d).remove(k) =~= m.remove(k));
}

impl AccountView {
    /// The total funds of the account.
    pub open spec fn total(self) -> int {
        self.available + self.held
    }

    /// The accounting invariant: the balances never overflow a `u64`, the
    /// deposit history is finite, and the held balance is exactly the sum of
    /// the amounts of the currently disputed deposits.
    pub open spec fn wf(self) -> bool {
        &&& self.available + self.held <= u64::MAX
        &&& self.deposits.dom().finite()
        &&& self.held == held_sum(self.deposits)
    }
}

/// The account created by a first deposit: seeded with that deposit's
/// identifier and amount, nothing held, not frozen.
pub open spec fn new_account_spec(tx: u32, amount: u64) -> AccountView {
    AccountView {
        available: amount,
        held: 0,
        frozen: false,
        deposits: Map::empty().insert(tx, Deposit { amount, disputed: false }),
    }
}

/// The outcome of depositing `amt` under identifier `tx`: the new account
/// state and the result handed to the caller. On any error the state is
/// unchanged.
pub open spec fn deposit_spec(a: AccountView, tx: u32, amt: u64) -> (AccountView, Result<
    (),
    TransactorError,
>) {
    if a.frozen {
        (a, Err(TransactorError::FrozenAccount))
    } else if a.deposits.contains_key(tx) {
        (a, Err(TransactorError::DuplicateTxn(tx)))
    } else {
        (
            AccountView {
                available: (a.available + amt) as u64,
                deposits: a.deposits.insert(tx, Deposit { amount: amt, disputed: false }),
                ..a
            },
            Ok(()),
        )
    }
}

/// The outcome of withdrawing `amt`. On any error the state is unchanged.
pub open spec fn withdraw_spec(a: AccountView, amt: u64) -> (AccountView, Result<
    (),
    TransactorError,
>) {
    if a.frozen {
        (a, Err(TransactorError::FrozenAccount))
    } else if a.available < amt {
        (
            a,
            Err(TransactorError::WithdrawalExceedsAvailable {
                available: a.available,
                attempted: amt,
            }),
        )
    } else {
        (AccountView { available: (a.available - amt) as u64, ..a }, Ok(()))
    }
}

/// The outcome of disputing the deposit `tx`: on success its amount moves
/// from available to held and the deposit is marked disputed. On any error
/// the state is unchanged.
pub open spec fn dispute_spec(a: AccountView, tx: u32) -> (AccountView, Result<
    (),
    TransactorError,
>) {
    if a.frozen {
        (a, Err(TransactorError::FrozenAccount))
    } else if !a.deposits.contains_key(tx) {
        (a, Err(TransactorError::NoTransaction(tx)))
    } else if a.deposits[tx].disputed {
        (a, Err(TransactorError::AlreadyDisputedTxn(tx)))
    } else if a.available < a.deposits[tx].amount {
        (
            a,
            Err(TransactorError::DisputeExceedsAvailable {
                available: a.available,
                attempted: a.deposits[tx].amount,
            }),
        )
    } else {
        let amt = a.deposits[tx].amount;
        (
            AccountView {
                available: (a.available - amt) as u64,
                held: (a.held + amt) as u64,
                deposits: a.deposits.insert(tx, Deposit { amount: amt, disputed: true }),
                ..a
            },
            Ok(()),
        )
    }
}

/// The outcome of resolving the disputed deposit `tx`: on success its amount
/// moves back from held to available and the dispute is cleared. On any
/// error the state is unchanged.
pub open spec fn resolve_spec(a: AccountView, tx: u32) -> (AccountView, Result<
    (),
    TransactorError,
>) {
    if a.frozen {
        (a, Err(TransactorError::FrozenAccount))
    } else if !a.deposits.contains_key(tx) {
        (a, Err(TransactorError::NoTransaction(tx)))
    } else if !a.deposits[tx].disputed {
        (a, Err(TransactorError::NonDisputedTxn(tx)))
    } else {
        let amt = a.deposits[tx].amount;
        (
            AccountView {
                available: (a.available + amt) as u64,
                held: (a.held - amt) as u64,
                deposits: a.deposits.insert(tx, Deposit { amount: amt, disputed: false }),
                ..a
            },
            Ok(()),
        )
    }
}

/// The outcome of charging back the disputed deposit `tx`: on success its
/// amount leaves the held balance (and so the total), the dispute is
/// cleared, and the account freezes. On any error the state is unchanged.
pub open spec fn chargeback_spec(a: AccountView, tx: u32) -> (AccountView, Result<
    (),
    TransactorError,
>) {
    if a.frozen {
        (a, Err(TransactorError::FrozenAccount))
    } else if !a.deposits.contains_key(tx) {
        (a, Err(TransactorError::NoTransaction(tx)))
    } else if !a.deposits[tx].disputed {
        (a, Err(TransactorError::NonDisputedTxn(tx)))
    } else {
        let amt = a.deposits[tx].amount;
        (
            AccountView {
                held: (a.held - amt) as u64,
                frozen: true,
                deposits: a.deposits.insert(tx, Deposit { amount: amt, disputed: false }),
                ..a
            },
            Ok(()),
        )
    }
}

/// A client account that maintains the historical deposits and current funds.
#[derive(Debug)]
pub struct Account {
    available: u64,
    held: u64,
    frozen: bool,
    deposits: HashMap<u32, Deposit>,
}

impl View for Account {
    type V = AccountView;

    closed spec fn view(&self) -> AccountView {
        AccountView {
            available: self.available,
            held: self.held,
            frozen: self.frozen,
            deposits: self.deposits@,
        }
    }
}

impl Account {
    /// Create a new `Account` with an initial deposit.
    pub fn new(tx: u32, available: u64) -> (acct: Account)
        ensures
            acct@ == new_account_spec(tx, available),
            acct@.wf(),
    {
        let mut deposits: HashMap<u32, Deposit> = HashMap::new();
        deposits.insert(tx, Deposit::new(available));
        let acct = Account { available, held: 0, frozen: false, deposits };
        proof {
            let d = Deposit { amount: available, disputed: false };
            lemma_held_sum_insert_fresh(Map::empty(), tx, d);
            assert(acct@ =~= new_account_spec(tx, available));
        }
        acct
    }

    /// Get the available funds.
    pub fn available(&self) -> (r: u64)
        ensures
            r == self@.available,
    {
        self.available
    }

    /// Get the held funds.
    pub fn held(&self) -> (r: u64)
        ensures
            r == self@.held,
    {
        self.held
    }

    /// Get the total funds.
    pub fn total(&self) -> (r: u64)
        requires
            self@.wf(),
        ensures
            r == self@.total(),
    {
        self.available + self.held
    }

    /// Return whether the account is frozen.
    pub fn is_frozen(&self) -> (r: bool)
        ensures
            r == self@.frozen,
    {
        self.frozen
    }

    /// Return whether the deposit `tx` is currently disputed, or `None` if
    /// this account has no deposit with that identifier.
    pub fn deposit_disputed(&self, tx: u32) -> (r: Option<bool>)
        ensures
            r == (if self@.deposits.contains_key(tx) {
                Some(self@.deposits[tx].disputed)
            } else {
                None::<bool>
            }),
    {
        match self.deposits.get(&tx) {
            Some(dep) => Some(dep.is_disputed()),
            None => None,
        }
    }

    /// Deposit funds into the `Account`. If the account is frozen or the
    /// transaction identifier duplicates an earlier deposit, nothing changes.
    pub fn deposit(&mut self, tx: u32, amt: u64) -> (r: Result<(), TransactorError>)
        requires
            old(self)@.wf(),
            old(self)@.total() + amt <= u64::MAX,
        ensures
            final(self)@ == deposit_spec(old(self)@, tx, amt).0,
            r == deposit_spec(old(self)@, tx, amt).1,
            final(self)@.wf(),
    {
        if self.frozen {
            return Err(TransactorError::FrozenAccount);
        }
        if self.deposits.contains_key(&tx) {
            return Err(TransactorError::DuplicateTxn(tx));
        }
        self.deposits.insert(tx, Deposit::new(amt));
        self.available = self.available + amt;
        proof {
            lemma_held_sum_insert_fresh(
                old(self)@.deposits,
                tx,
                Deposit { amount: amt, disputed: false },
            );
            assert(self@ =~= deposit_spec(old(self)@, tx, amt).0);
        }
        Ok(())
    }

    /// Withdraw funds from the `Account`. If the account is frozen or the
    /// available funds fall short, nothing changes.
    pub fn withdraw(&mut self, amt: u64) -> (r: Result<(), TransactorError>)
        requires
            old(self)@.wf(),
        ensures
            final(self)@ == withdraw_spec(old(self)@, amt).0,
            r == withdraw_spec(old(self)@, amt).1,
            final(self)@.wf(),
    {
        if self.frozen {
            return Err(TransactorError::FrozenAccount);
        }
        if self.available < amt {
            return Err(TransactorError::withdrawal_exceeds(self.available, amt));
        }
        self.available = self.available - amt;
        proof {
            assert(self@ =~= withdraw_spec(old(self)@, amt).0);
        }
        Ok(())
    }

    /// Dispute a previously processed deposit, moving its amount from the
    /// available to the held funds. Fails, changing nothing, if the account
    /// is frozen, the deposit is unknown or already disputed, or its amount
    /// exceeds the available funds.
    pub fn dispute(&mut self, tx: u32) -> (r: Result<(), TransactorError>)
        requires
            old(self)@.wf(),
        ensures
            final(self)@ == dispute_spec(old(self)@, tx).0,
            r == dispute_spec(old(self)@, tx).1,
            final(self)@.wf(),
    {
        if self.frozen {
            return Err(TransactorError::FrozenAccount);
        }
        let dep: Deposit = match self.deposits.get(&tx) {
            Some(d) => *d,
            None => {
                return Err(TransactorError::NoTransaction(tx));
            },
        };
        if dep.is_disputed() {
            return Err(TransactorError::AlreadyDisputedTxn(tx));
        }
        let amt: u64 = dep.amount();
        if self.available < amt {
            return Err(TransactorError::dispute_exceeds(self.available, amt));
        }
        let mut updated: Deposit = dep;
        updated.dispute();
        self.deposits.insert(tx, updated);
        self.available = self.available - amt;
        self.held = self.held + amt;
        proof {
            lemma_held_sum_update(old(self)@.deposits, tx, Deposit { amount: amt, disputed: true });
            assert(self@ =~= dispute_spec(old(self)@, tx).0);
        }
        Ok(())
    }

    /// Resolve a disputed deposit, moving its amount from the held funds back
    /// to the available funds. Fails, changing nothing, if the account is
    /// frozen, the deposit is unknown, or it is not currently disputed.
    pub fn resolve(&mut self, tx: u32) -> (r: Result<(), TransactorError>)
        requires
            old(self)@.wf(),
        ensures
            final(self)@ == resolve_spec(old(self)@, tx).0,
            r == resolve_spec(old(self)@, tx).1,
            final(self)@.wf(),
    {
        if self.frozen {
            return Err(TransactorError::FrozenAccount);
        }
        let dep: Deposit = match self.deposits.get(&tx) {
            Some(d) => *d,
            None => {
                return Err(TransactorError::NoTransaction(tx));
            },
        };
        if !dep.is_disputed() {
            return Err(TransactorError::NonDisputedTxn(tx));
        }
        let amt: u64 = dep.amount();
        proof {
            lemma_held_contrib_le_sum(self@.deposits, tx);
        }
        let mut updated: Deposit = dep;
        updated.resolve();
        self.deposits.insert(tx, updated);
        self.held = self.held - amt;
        self.available = self.available + amt;
        proof {
            lemma_held_sum_update(
                old(self)@.deposits,
                tx,
                Deposit { amount: amt, disputed: false },
            );
            assert(self@ =~= resolve_spec(old(self)@, tx).0);
        }
        Ok(())
    }

    /// Charge back a disputed deposit, removing its amount from the held
    /// funds (and so from the total) and freezing the account. Fails,
    /// changing nothing, if the account is frozen, the deposit is unknown,
    /// or it is not currently disputed.
    pub fn chargeback(&mut self, tx: u32) -> (r: Result<(), TransactorError>)
        requires
            old(self)@.wf(),
        ensures
            final(self)@ == chargeback_spec(old(self)@, tx).0,
            r == chargeback_spec(old(self)@, tx).1,
            final(self)@.wf(),
    {
        if self.frozen {
            return Err(TransactorError::FrozenAccount);
        }
        let dep: Deposit = match self.deposits.get(&tx) {
            Some(d) => *d,
            None => {
                return Err(TransactorError::NoTransaction(tx));
            },
        };
        if !dep.is_disputed() {
            return Err(TransactorError::NonDisputedTxn(tx));
        }
        let amt: u64 = dep.amount();
        proof {
            lemma_held_contrib_le_sum(self@.deposits, tx);
        }
        let mut updated: Deposit = dep;
        updated.resolve();
        self.deposits.insert(tx, updated);
        self.held = self.held - amt;
        self.frozen = true;
        proof {
            lemma_held_sum_update(
                old(self)@.deposits,
                tx,
                Deposit { amount: amt, disputed: false },
            );
            assert(self@ =~= chargeback_spec(old(self)@, tx).0);
        }
        Ok(())
    }
}

} // verus!
