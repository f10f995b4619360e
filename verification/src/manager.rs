use vstd::prelude::*;

use std::collections::HashMap;

use crate::account::{
    chargeback_spec, deposit_spec, dispute_spec, new_account_spec, resolve_spec, withdraw_spec,
    Account, AccountView,
};
use crate::error::TransactorError;
use crate::record::{record_of, AccountRecord};

verus! {

/// The ledger invariant: finitely many clients, each with a well-formed
/// account.
pub open spec fn ledger_wf(m: Map<u16, AccountView>) -> bool {
    &&& m.dom().finite()
    &&& forall|c: u16| #[trigger] m.contains_key(c) ==> m[c].wf()
}

/// The outcome of routing a deposit to `client`: an unknown client gets a
/// fresh account seeded with the deposit; a known client's account takes the
/// deposit itself, and on error nothing changes.
pub open spec fn ledger_deposit_spec(m: Map<u16, AccountView>, client: u16, tx: u32, amt: u64) -> (
    Map<u16, AccountView>,
    Result<(), TransactorError>,
) {
    if m.contains_key(client) {
        let (a, r) = deposit_spec(m[client], tx, amt);
        if r is Ok {
            (m.insert(client, a), r)
        } else {
            (m, r)
        }
    } else {
        (m.insert(client, new_account_spec(tx, amt)), Ok(()))
    }
}

/// The outcome of routing a withdrawal to `client`. An unknown client fails
/// with `NoClient`; on any error nothing changes.
pub open spec fn ledger_withdraw_spec(m: Map<u16, AccountView>, client: u16, amt: u64) -> (
    Map<u16, AccountView>,
    Result<(), TransactorError>,
) {
    if m.contains_key(client) {
        let (a, r) = withdraw_spec(m[client], amt);
        if r is Ok {
            (m.insert(client, a), r)
        } else {
            (m, r)
        }
    } else {
        (m, Err(TransactorError::NoClient(client)))
    }
}

/// The outcome of routing a dispute to `client`. An unknown client fails
/// with `NoClient`; on any error nothing changes.
pub open spec fn ledger_dispute_spec(m: Map<u16, AccountView>, client: u16, tx: u32) -> (
    Map<u16, AccountView>,
    Result<(), TransactorError>,
) {
    if m.contains_key(client) {
        let (a, r) = dispute_spec(m[client], tx);
        if r is Ok {
            (m.insert(client, a), r)
        } else {
            (m, r)
        }
    } else {
        (m, Err(TransactorError::NoClient(client)))
    }
}

/// The outcome of routing a resolve to `client`. An unknown client fails
/// with `NoClient`; on any error nothing changes.
pub open spec fn ledger_resolve_spec(m: Map<u16, AccountView>, client: u16, tx: u32) -> (
    Map<u16, AccountView>,
    Result<(), TransactorError>,
) {
    if m.contains_key(client) {
        let (a, r) = resolve_spec(m[client], tx);
        if r is Ok {
            (m.insert(client, a), r)
        } else {
            (m, r)
        }
    } else {
        (m, Err(TransactorError::NoClient(client)))
    }
}

/// The outcome of routing a chargeback to `client`. An unknown client fails
/// with `NoClient`; on any error nothing changes.
pub open spec fn ledger_chargeback_spec(m: Map<u16, AccountView>, client: u16, tx: u32) -> (
    Map<u16, AccountView>,
    Result<(), TransactorError>,
) {
    if m.contains_key(client) {
        let (a, r) = chargeback_spec(m[client], tx);
        if r is Ok {
            (m.insert(client, a), r)
        } else {
            (m, r)
        }
    } else {
        (m, Err(TransactorError::NoClient(client)))
    }
}

/// Account manager associating a client identifier to an account.
#[derive(Debug)]
pub struct Manager {
    accounts: HashMap<u16, Account>,
}

impl View for Manager {
    type V = Map<u16, AccountView>;

    closed spec fn view(&self) -> Map<u16, AccountView> {
        self.accounts@.map_values(|a: Account| a@)
    }
}

impl Manager {
    /// Construct a new `Manager` with no accounts.
    pub fn new() -> (mgr: Manager)
        ensures
            mgr@ == Map::<u16, AccountView>::empty(),
            ledger_wf(mgr@),
    {
        let mgr = Manager { accounts: HashMap::new() };
        proof {
            assert(mgr@ =~= Map::<u16, AccountView>::empty());
        }
        mgr
    }

    /// The number of client accounts.
    pub fn client_count(&self) -> (n: usize)
        ensures
            n == self@.dom().len(),
    {
        proof {
            assert(self@.dom() =~= self.accounts@.dom());
        }
        self.accounts.len()
    }

    /// Look up the account of `client`, if that client has one.
    pub fn account(&self, client: u16) -> (r: Option<&Account>)
        ensures
            match r {
                Some(acct) => self@.contains_key(client) && acct@ == self@[client],
                None => !self@.contains_key(client),
            },
    {
        self.accounts.get(&client)
    }

    /// Deposit funds into the account specified by the client identifier,
    /// creating the account if this client has none yet.
    pub fn deposit(&mut self, client: u16, tx: u32, amt: u64) -> (r: Result<(), TransactorError>)
        requires
            ledger_wf(old(self)@),
            old(self)@.contains_key(client) ==> old(self)@[client].total() + amt <= u64::MAX,
        ensures
            final(self)@ == ledger_deposit_spec(old(self)@, client, tx, amt).0,
            r == ledger_deposit_spec(old(self)@, client, tx, amt).1,
            ledger_wf(final(self)@),
    {
        match self.accounts.remove(&client) {
            Some(mut acct) => {
                let r = acct.deposit(tx, amt);
                self.accounts.insert(client, acct);
                proof {
                    if r is Ok {
                        assert(self@ =~= ledger_deposit_spec(old(self)@, client, tx, amt).0);
                    } else {
                        assert(self@ =~= old(self)@);
                    }
                }
                r
            },
            None => {
                let acct = Account::new(tx, amt);
                self.accounts.insert(client, acct);
                proof {
                    assert(self@ =~= ledger_deposit_spec(old(self)@, client, tx, amt).0);
                }
                Ok(())
            },
        }
    }

    /// Withdraw funds from the account specified by the client identifier.
    pub fn withdraw(&mut self, client: u16, amt: u64) -> (r: Result<(), TransactorError>)
        requires
            ledger_wf(old(self)@),
        ensures
            final(self)@ == ledger_withdraw_spec(old(self)@, client, amt).0,
            r == ledger_withdraw_spec(old(self)@, client, amt).1,
            ledger_wf(final(self)@),
    {
        match self.accounts.remove(&client) {
            Some(mut acct) => {
                let r = acct.withdraw(amt);
                self.accounts.insert(client, acct);
                proof {
                    if r is Ok {
                        assert(self@ =~= ledger_withdraw_spec(old(self)@, client, amt).0);
                    } else {
                        assert(self@ =~= old(self)@);
                    }
                }
                r
            },
            None => Err(TransactorError::NoClient(client)),
        }
    }

    /// Dispute a transaction according to the client and transaction
    /// identifier pair.
    pub fn dispute(&mut self, client: u16, tx: u32) -> (r: Result<(), TransactorError>)
        requires
            ledger_wf(old(self)@),
        ensures
            final(self)@ == ledger_dispute_spec(old(self)@, client, tx).0,
            r == ledger_dispute_spec(old(self)@, client, tx).1,
            ledger_wf(final(self)@),
    {
        match self.accounts.remove(&client) {
            Some(mut acct) => {
                let r = acct.dispute(tx);
                self.accounts.insert(client, acct);
                proof {
                    if r is Ok {
                        assert(self@ =~= ledger_dispute_spec(old(self)@, client, tx).0);
                    } else {
                        assert(self@ =~= old(self)@);
                    }
                }
                r
            },
            None => Err(TransactorError::NoClient(client)),
        }
    }

    /// Resolve a disputed transaction according to the client and transaction
    /// identifier pair.
    pub fn resolve(&mut self, client: u16, tx: u32) -> (r: Result<(), TransactorError>)
        requires
            ledger_wf(old(self)@),
        ensures
            final(self)@ == ledger_resolve_spec(old(self)@, client, tx).0,
            r == ledger_resolve_spec(old(self)@, client, tx).1,
            ledger_wf(final(self)@),
    {
        match self.accounts.remove(&client) {
            Some(mut acct) => {
                let r = acct.resolve(tx);
                self.accounts.insert(client, acct);
                proof {
                    if r is Ok {
                        assert(self@ =~= ledger_resolve_spec(old(self)@, client, tx).0);
                    } else {
                        assert(self@ =~= old(self)@);
                    }
                }
                r
            },
            None => Err(TransactorError::NoClient(client)),
        }
    }

    /// Charge back a disputed transaction according to the client and
    /// transaction identifier pair.
    pub fn chargeback(&mut self, client: u16, tx: u32) -> (r: Result<(), TransactorError>)
        requires
            ledger_wf(old(self)@),
        ensures
            final(self)@ == ledger_chargeback_spec(old(self)@, client, tx).0,
            r == ledger_chargeback_spec(old(self)@, client, tx).1,
            ledger_wf(final(self)@),
    {
        match self.accounts.remove(&client) {
            Some(mut acct) => {
                let r = acct.chargeback(tx);
                self.accounts.insert(client, acct);
                proof {
                    if r is Ok {
                        assert(self@ =~= ledger_chargeback_spec(old(self)@, client, tx).0);
                    } else {
                        assert(self@ =~= old(self)@);
                    }
                }
                r
            },
            None => Err(TransactorError::NoClient(client)),
        }
    }
    /// Enumerate one output record per client account, for the record sink.
    /// The order of the records is arbitrary; every client appears exactly
    /// once, with the state its account has now.
    pub fn snapshot(&self) -> (out: Vec<AccountRecord>)
        requires
            ledger_wf(self@),
        ensures
            out@.len() == self@.dom().len(),
            forall|i: int|
                0 <= i < out@.len() ==> self@.contains_key(#[trigger] out@[i].client) && out@[i]
                    == record_of(out@[i].client, self@[out@[i].client]),
            forall|i: int, j: int|
                0 <= i < out@.len() && 0 <= j < out@.len() && i != j ==> out@[i].client != out@[
                    j
                ].client,
            forall|c: u16|
                #[trigger] self@.contains_key(c) ==> exists|i: int|
                    0 <= i < out@.len() && out@[i].client == c,
    {
        let mut out: Vec<AccountRecord> = Vec::new();
        proof {
            assert(self@.dom() =~= self.accounts@.dom());
        }
        for pair in it: self.accounts.iter()
            invariant
                ledger_wf(self@),
                self@.dom() == self.accounts@.dom(),
                it.seq().len() == self.accounts@.dom().len(),
                forall|i: int|
                    0 <= i < it.seq().len() ==> self.accounts@.contains_key(
                        *(#[trigger] it.seq()[i]).0,
                    ) && *it.seq()[i].1 == self.accounts@[*it.seq()[i].0],
                forall|k: u16|
                    #[trigger] self.accounts@.contains_key(k) ==> exists|i: int|
                        0 <= i < it.seq().len() && *(#[trigger] it.seq()[i]).0 == k,
                it.seq().no_duplicates(),
                out@.len() == it.index(),
                forall|i: int|
                    0 <= i < out@.len() ==> #[trigger] out@[i].client == *it.seq()[i].0,
                forall|i: int|
                    0 <= i < out@.len() ==> self@.contains_key(#[trigger] out@[i].client) && out@[i]
                        == record_of(out@[i].client, self@[out@[i].client]),
                forall|i: int, j: int|
                    0 <= i < out@.len() && 0 <= j < out@.len() && i != j ==> out@[i].client != out@[
                        j
                    ].client,
        {
            let (client, acct) = pair;
            proof {
                let ghost k = out@.len() as int;
                assert(pair == it.seq()[k]);
                assert(self@.contains_key(*client));
                assert(self@[*client] == acct@);
                assert forall|i: int| 0 <= i < k implies out@[i].client != *client by {
                    if out@[i].client == *client {
                        assert(it.seq()[i] == it.seq()[k]);
                    }
                }
            }
            out.push(AccountRecord::from_account(*client, acct));
        }
        proof {
            let clients = out@.map_values(|rec: AccountRecord| rec.client);
            assert(clients.no_duplicates());
            clients.unique_seq_to_set();
            assert forall|c: u16| clients.to_set().contains(c) implies self@.dom().contains(
                c,
            ) by {
                let i = choose|i: int| 0 <= i < clients.len() && clients[i] == c;
                assert(self@.contains_key(out@[i].client));
            }
            vstd::seq_lib::seq_to_set_is_finite(clients);
            vstd::set_lib::lemma_subset_equality(clients.to_set(), self@.dom());
            assert forall|c: u16| #[trigger] self@.contains_key(c) implies exists|i: int|
                0 <= i < out@.len() && out@[i].client == c by {
                assert(clients.to_set().contains(c));
                assert(clients.contains(c));
                let i = choose|i: int| 0 <= i < clients.len() && clients[i] == c;
                assert(out@[i].client == c);
            }
        }
        out
    }
}

impl Default for Manager {
    /// An empty manager.
    fn default() -> (mgr: Manager)
        ensures
            mgr@ == Map::<u16, AccountView>::empty(),
            ledger_wf(mgr@),
    {
        Manager::new()
    }
}

} // verus!
