use transactor::account::Account;
use transactor::error::TransactorError;

fn check_account(acct: &Account, avail: u64, held: u64, frozen: bool) {
    assert_eq!(acct.available(), avail);
    assert_eq!(acct.held(), held);
    assert_eq!(acct.is_frozen(), frozen);
    assert_eq!(acct.total(), avail + held);
}

fn check_deposit(acct: &Account, tx: u32, disputed: bool) {
    assert_eq!(acct.deposit_disputed(tx), Some(disputed));
}

#[test]
fn deposit() {
    let mut acct = Account::new(1, 0);
    let result = acct.deposit(1, 100);

    assert!(matches!(result, Err(TransactorError::DuplicateTxn(1))));

    check_account(&acct, 0, 0, false);

    acct.deposit(2, 100).expect("Failed to deposit");

    check_account(&acct, 100, 0, false);
}

#[test]
fn withdraw() {
    let mut acct = Account::new(1, 100);
    acct.withdraw(99).expect("Failed to withdraw");

    check_account(&acct, 1, 0, false)
}

#[test]
fn account_dispute_resolve() {
    let mut acct = Account::new(1, 100);
    acct.dispute(1).unwrap();

    check_account(&acct, 0, 100, false);
    check_deposit(&acct, 1, true);

    acct.resolve(1).unwrap();

    check_account(&acct, 100, 0, false);
}

#[test]
fn chargeback() {
    let mut acct = Account::new(1, 100);
    acct.dispute(1).unwrap();
    acct.chargeback(1).unwrap();

    check_account(&acct, 0, 0, true);
    check_deposit(&acct, 1, false);
}

#[test]
fn double_dispute() {
    let mut acct = Account::new(1, 100);
    acct.dispute(1).unwrap();
    let result = acct.dispute(1);

    assert!(matches!(
        result,
        Err(TransactorError::AlreadyDisputedTxn(1))
    ));
    check_account(&acct, 0, 100, false);
    check_deposit(&acct, 1, true);
}

#[test]
fn locked_account() {
    let mut acct = Account::new(1, 100);
    acct.dispute(1).unwrap();
    acct.chargeback(1).unwrap();
    let result = acct.deposit(2, 50);

    assert!(matches!(result, Err(TransactorError::FrozenAccount)));
    check_account(&acct, 0, 0, true);
    check_deposit(&acct, 1, false);
}

#[test]
fn frozen_account_rejects_every_operation() {
    let mut acct = Account::new(1, 100);
    acct.dispute(1).unwrap();
    acct.chargeback(1).unwrap();

    assert!(matches!(acct.deposit(2, 50), Err(TransactorError::FrozenAccount)));
    assert!(matches!(acct.withdraw(1), Err(TransactorError::FrozenAccount)));
    assert!(matches!(acct.dispute(1), Err(TransactorError::FrozenAccount)));
    assert!(matches!(acct.resolve(1), Err(TransactorError::FrozenAccount)));
    assert!(matches!(acct.chargeback(1), Err(TransactorError::FrozenAccount)));
    check_account(&acct, 0, 0, true);
}

#[test]
fn withdraw_exceeding_available_fails() {
    let mut acct = Account::new(1, 100);
    let result = acct.withdraw(150);

    assert!(matches!(
        result,
        Err(TransactorError::WithdrawalExceedsAvailable {
            available: 100,
            attempted: 150,
        })
    ));
    check_account(&acct, 100, 0, false);
}

#[test]
fn dispute_exceeding_available_fails() {
    let mut acct = Account::new(1, 100);
    acct.withdraw(60).expect("Failed to withdraw");
    let result = acct.dispute(1);

    assert!(matches!(
        result,
        Err(TransactorError::DisputeExceedsAvailable {
            available: 40,
            attempted: 100,
        })
    ));
    check_account(&acct, 40, 0, false);
    check_deposit(&acct, 1, false);
}

#[test]
fn unknown_transaction_fails() {
    let mut acct = Account::new(1, 100);

    assert!(matches!(acct.dispute(9), Err(TransactorError::NoTransaction(9))));
    assert!(matches!(acct.resolve(9), Err(TransactorError::NoTransaction(9))));
    assert!(matches!(acct.chargeback(9), Err(TransactorError::NoTransaction(9))));
    check_account(&acct, 100, 0, false);
}

#[test]
fn resolve_undisputed_fails() {
    let mut acct = Account::new(1, 100);

    assert!(matches!(acct.resolve(1), Err(TransactorError::NonDisputedTxn(1))));
    assert!(matches!(acct.chargeback(1), Err(TransactorError::NonDisputedTxn(1))));
    check_account(&acct, 100, 0, false);
}

#[test]
fn error_constructors() {
    assert!(matches!(
        TransactorError::withdrawal_exceeds(1, 2),
        TransactorError::WithdrawalExceedsAvailable {
            available: 1,
            attempted: 2,
        }
    ));
    assert!(matches!(
        TransactorError::dispute_exceeds(3, 4),
        TransactorError::DisputeExceedsAvailable {
            available: 3,
            attempted: 4,
        }
    ));
}
