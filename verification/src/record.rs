use vstd::prelude::*;

use crate::account::{Account, AccountView};
use crate::amount::{
    amount_bytes, ascii, ascii_string, chars_of, dec_digits, lemma_amount_bytes_ascii,
    lemma_ascii_concat, lemma_dec_digits_are_digits, lemma_digits_ascii, push_amount, push_dec,
};
use crate::error::TransactorError;
use crate::manager::{
    ledger_chargeback_spec, ledger_deposit_spec, ledger_dispute_spec, ledger_resolve_spec,
    ledger_wf, ledger_withdraw_spec, Manager,
};

verus! {

/// The set of valid account operations.
#[derive(Clone, Copy, Debug, PartialEq, Eq, Structural)]
pub enum Operation {
    Withdrawal,
    Deposit,
    Dispute,
    Resolve,
    Chargeback,
}

/// One typed transaction record, as handed in by the record source.
#[derive(Clone, Copy, Debug)]
pub struct TransactionRecord {
    pub operation: Operation,
    pub client: u16,
    pub tx: u32,
    pub amount: Option<u64>,
}

/// The outcome of applying one record to the ledger. Account- and
/// ledger-level failures are soft: the offending record is dropped and the
/// ledger keeps the state it had. A deposit or withdrawal without an amount
/// fails with `MissingAmount` before reaching the ledger.
pub open spec fn process_spec(m: Map<u16, AccountView>, rec: TransactionRecord) -> (
    Map<u16, AccountView>,
    Result<(), TransactorError>,
) {
    match rec.operation {
        Operation::Withdrawal => match rec.amount {
            Some(amt) => (ledger_withdraw_spec(m, rec.client, amt).0, Ok(())),
            None => (m, Err(TransactorError::MissingAmount)),
        },
        Operation::Deposit => match rec.amount {
            Some(amt) => (ledger_deposit_spec(m, rec.client, rec.tx, amt).0, Ok(())),
            None => (m, Err(TransactorError::MissingAmount)),
        },
        Operation::Dispute => (ledger_dispute_spec(m, rec.client, rec.tx).0, Ok(())),
        Operation::Resolve => (ledger_resolve_spec(m, rec.client, rec.tx).0, Ok(())),
        Operation::Chargeback => (ledger_chargeback_spec(m, rec.client, rec.tx).0, Ok(())),
    }
}

/// The snapshot of one account, as handed to the record sink.
#[derive(Clone, Copy, Debug, PartialEq, Eq, Structural)]
pub struct AccountRecord {
    pub client: u16,
    pub available: u64,
    pub held: u64,
    pub total: u64,
    pub locked: bool,
}

/// The output record that describes account `a` of `client`.
pub open spec fn record_of(client: u16, a: AccountView) -> AccountRecord {
    AccountRecord {
        client,
        available: a.available,
        held: a.held,
        total: (a.available + a.held) as u64,
        locked: a.frozen,
    }
}

/// The bytes of `true` or `false`.
pub open spec fn bool_bytes(b: bool) -> Seq<u8> {
    if b {
        seq![116u8, 114u8, 117u8, 101u8]
    } else {
        seq![102u8, 97u8, 108u8, 115u8, 101u8]
    }
}

/// One output row: the client, the available, held and total amounts with
/// four fractional digits each, and the locked flag, separated by commas.
pub open spec fn record_bytes(rec: AccountRecord) -> Seq<u8> {
    dec_digits(rec.client as nat) + seq![44u8] + amount_bytes(rec.available) + seq![44u8]
        + amount_bytes(rec.held) + seq![44u8] + amount_bytes(rec.total) + seq![44u8] + bool_bytes(
        rec.locked,
    )
}

/// Every byte of a rendered row is ASCII.
proof fn lemma_record_bytes_ascii(rec: AccountRecord)
    ensures
        ascii(record_bytes(rec)),
{
    lemma_dec_digits_are_digits(rec.client as nat);
    lemma_digits_ascii(dec_digits(rec.client as nat));
    lemma_amount_bytes_ascii(rec.available);
    lemma_amount_bytes_ascii(rec.held);
    lemma_amount_bytes_ascii(rec.total);
    let comma = seq![44u8];
    assert(ascii(comma));
    assert(ascii(bool_bytes(rec.locked)));
    let p1 = dec_digits(rec.client as nat);
    let p2 = p1 + comma;
    let p3 = p2 + amount_bytes(rec.available);
    let p4 = p3 + comma;
    let p5 = p4 + amount_bytes(rec.held);
    let p6 = p5 + comma;
    let p7 = p6 + amount_bytes(rec.total);
    let p8 = p7 + comma;
    lemma_ascii_concat(p1, comma);
    lemma_ascii_concat(p2, amount_bytes(rec.available));
    lemma_ascii_concat(p3, comma);
    lemma_ascii_concat(p4, amount_bytes(rec.held));
    lemma_ascii_concat(p5, comma);
    lemma_ascii_concat(p6, amount_bytes(rec.total));
    lemma_ascii_concat(p7, comma);
    lemma_ascii_concat(p8, bool_bytes(rec.locked));
}

/// The header row naming the output record fields.
pub fn header_row() -> (s: String)
    ensures
        s@ == "client,available,held,total,locked"@,
{
    "client,available,held,total,locked".to_owned()
}

impl AccountRecord {
    /// Render this record as one output row, without a line terminator.
    pub fn render(&self) -> (s: String)
        ensures
            s@ == chars_of(record_bytes(*self)),
    {
        let mut out: Vec<u8> = Vec::new();
        push_dec(&mut out, self.client as u64);
        out.push(44);
        push_amount(&mut out, self.available);
        out.push(44);
        push_amount(&mut out, self.held);
        out.push(44);
        push_amount(&mut out, self.total);
        out.push(44);
        if self.locked {
            out.push(116);
            out.push(114);
            out.push(117);
            out.push(101);
        } else {
            out.push(102);
            out.push(97);
            out.push(108);
            out.push(115);
            out.push(101);
        }
        proof {
            assert(out@ =~= record_bytes(*self));
            lemma_record_bytes_ascii(*self);
        }
        let s = ascii_string(out);
        proof {
            assert(s@ =~= chars_of(record_bytes(*self)));
        }
        s
    }

    /// Build the output record for `client`'s account.
    pub fn from_account(client: u16, acct: &Account) -> (r: AccountRecord)
        requires
            acct@.wf(),
        ensures
            r == record_of(client, acct@),
    {
        AccountRecord {
            client,
            available: acct.available(),
            held: acct.held(),
            total: acct.total(),
            locked: acct.is_frozen(),
        }
    }
}

impl TransactionRecord {
    /// Consume the record and apply it to the `Manager`. Domain errors from
    /// the ledger are soft: they are swallowed and the ledger is left as the
    /// failed operation left it, unchanged.
    pub fn process(self, manager: &mut Manager) -> (r: Result<(), TransactorError>)
        requires
            ledger_wf(old(manager)@),
            (self.operation == Operation::Deposit && self.amount is Some && old(
                manager,
            )@.contains_key(self.client)) ==> old(manager)@[self.client].total()
                + self.amount.unwrap() <= u64::MAX,
        ensures
            final(manager)@ == process_spec(old(manager)@, self).0,
            r == process_spec(old(manager)@, self).1,
            ledger_wf(final(manager)@),
    {
        match self.operation {
            Operation::Withdrawal => {
                let amt: u64 = match self.amount {
                    Some(a) => a,
                    None => {
                        return Err(TransactorError::MissingAmount);
                    },
                };
                let _ = manager.withdraw(self.client, amt);
                Ok(())
            },
            Operation::Deposit => {
                let amt: u64 = match self.amount {
                    Some(a) => a,
                    None => {
                        return Err(TransactorError::MissingAmount);
                    },
                };
                let _ = manager.deposit(self.client, self.tx, amt);
                Ok(())
            },
            Operation::Dispute => {
                let _ = manager.dispute(self.client, self.tx);
                Ok(())
            },
            Operation::Resolve => {
                let _ = manager.resolve(self.client, self.tx);
                Ok(())
            },
            Operation::Chargeback => {
                let _ = manager.chargeback(self.client, self.tx);
                Ok(())
            },
        }
    }
}

} // verus!
