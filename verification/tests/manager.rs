use transactor::error::TransactorError;
use transactor::manager::Manager;

fn validate_accounts(mgr: &Manager, clients: &[u16]) {
    assert_eq!(mgr.client_count(), clients.len());

    for client in clients {
        assert!(mgr.account(*client).is_some());
    }
}

#[test]
fn registration() {
    let mut mgr = Manager::new();
    mgr.deposit(1, 1, 100).expect("Failed to deposit");
    mgr.deposit(2, 2, 200).expect("Failed to deposit");
    mgr.deposit(3, 3, 300).expect("Failed to deposit");
    mgr.deposit(4, 4, 400).expect("Failed to deposit");
    validate_accounts(&mgr, &[1, 2, 3, 4]);
}

#[test]
fn deposit_withdrawal() {
    let mut mgr = Manager::new();
    mgr.deposit(1, 1, 100).expect("Failed to deposit");
    mgr.deposit(2, 2, 200).expect("Failed to deposit");
    mgr.withdraw(1, 50).expect("Failed to withdrawal");
    mgr.withdraw(2, 100).expect("Failed to withdrawal");
    mgr.deposit(1, 5, 100).expect("Failed to deposit");
    validate_accounts(&mgr, &[1, 2]);

    assert_eq!(mgr.account(1).unwrap().available(), 150);
    assert_eq!(mgr.account(1).unwrap().held(), 0);
    assert_eq!(mgr.account(2).unwrap().available(), 100);
    assert_eq!(mgr.account(2).unwrap().held(), 0);
}

#[test]
fn manager_dispute_resolve() {
    let mut mgr = Manager::new();
    mgr.deposit(1, 1, 100).expect("Failed to deposit");
    mgr.deposit(1, 3, 100).expect("Failed to deposit");
    mgr.deposit(2, 2, 200).expect("Failed to deposit");
    mgr.dispute(1, 3).expect("Failed to dispute");

    validate_accounts(&mgr, &[1, 2]);

    // Validate client 1
    assert_eq!(mgr.account(1).unwrap().available(), 100);
    assert_eq!(mgr.account(1).unwrap().held(), 100);
    assert_eq!(mgr.account(1).unwrap().total(), 200);

    // Validate client 2
    assert_eq!(mgr.account(2).unwrap().available(), 200);
    assert_eq!(mgr.account(2).unwrap().held(), 0);
    assert_eq!(mgr.account(2).unwrap().total(), 200);

    // Resolve transaction 3
    mgr.resolve(1, 3).expect("Failed to resolve");

    // Validate client 1 and transaction 3
    assert_eq!(mgr.account(1).unwrap().available(), 200);
    assert_eq!(mgr.account(1).unwrap().held(), 0);
    assert_eq!(mgr.account(1).unwrap().total(), 200);
}

#[test]
fn dispute_chargeback() {
    let mut mgr = Manager::new();

    mgr.deposit(1, 1, 100).expect("Failed to deposit");
    mgr.deposit(1, 3, 100).expect("Failed to deposit");
    mgr.deposit(2, 2, 200).expect("Failed to deposit");
    mgr.dispute(1, 3).expect("Failed to dispute");

    validate_accounts(&mgr, &[1, 2]);

    // Validate client 1
    assert_eq!(mgr.account(1).unwrap().available(), 100);
    assert_eq!(mgr.account(1).unwrap().held(), 100);
    assert_eq!(mgr.account(1).unwrap().total(), 200);
    assert!(!mgr.account(1).unwrap().is_frozen());

    // Validate client 2
    assert_eq!(mgr.account(2).unwrap().available(), 200);
    assert_eq!(mgr.account(2).unwrap().held(), 0);
    assert_eq!(mgr.account(2).unwrap().total(), 200);

    // Chargeback transaction 3
    mgr.chargeback(1, 3).expect("Failed to chargeback");

    // Validate client 1 and transaction 3
    assert_eq!(mgr.account(1).unwrap().available(), 100);
    assert_eq!(mgr.account(1).unwrap().held(), 0);
    assert_eq!(mgr.account(1).unwrap().total(), 100);
    assert!(mgr.account(1).unwrap().is_frozen());

    // Attempt to interact with client 1
    let result = mgr.withdraw(1, 50);
    assert!(matches!(result, Err(TransactorError::FrozenAccount)))
}

#[test]
fn unknown_client_fails() {
    let mut mgr = Manager::new();
    mgr.deposit(1, 1, 100).expect("Failed to deposit");

    assert!(matches!(mgr.withdraw(9, 1), Err(TransactorError::NoClient(9))));
    assert!(matches!(mgr.dispute(9, 1), Err(TransactorError::NoClient(9))));
    assert!(matches!(mgr.resolve(9, 1), Err(TransactorError::NoClient(9))));
    assert!(matches!(mgr.chargeback(9, 1), Err(TransactorError::NoClient(9))));
    validate_accounts(&mgr, &[1]);
}

#[test]
fn chargeback_scenario() {
    let mut mgr = Manager::new();
    mgr.deposit(1, 1, 100).expect("Failed to deposit");
    mgr.deposit(1, 2, 50).expect("Failed to deposit");
    mgr.dispute(1, 1).expect("Failed to dispute");
    mgr.chargeback(1, 1).expect("Failed to chargeback");

    let acct = mgr.account(1).unwrap();
    assert_eq!(acct.available(), 50);
    assert_eq!(acct.held(), 0);
    assert_eq!(acct.total(), 50);
    assert!(acct.is_frozen());
}

#[test]
fn failed_withdrawal_scenario() {
    let mut mgr = Manager::new();
    mgr.deposit(1, 1, 100).expect("Failed to deposit");
    let result = mgr.withdraw(1, 150);

    assert!(matches!(
        result,
        Err(TransactorError::WithdrawalExceedsAvailable {
            available: 100,
            attempted: 150,
        })
    ));
    assert_eq!(mgr.account(1).unwrap().available(), 100);
}

#[test]
fn snapshot_lists_every_account() {
    let mut mgr = Manager::new();
    mgr.deposit(1, 1, 100).expect("Failed to deposit");
    mgr.deposit(2, 2, 200).expect("Failed to deposit");
    mgr.dispute(2, 2).expect("Failed to dispute");

    let mut records = mgr.snapshot();
    records.sort_by_key(|rec| rec.client);

    assert_eq!(records.len(), 2);
    assert_eq!(records[0].client, 1);
    assert_eq!(records[0].available, 100);
    assert_eq!(records[0].held, 0);
    assert_eq!(records[0].total, 100);
    assert!(!records[0].locked);
    assert_eq!(records[1].client, 2);
    assert_eq!(records[1].available, 0);
    assert_eq!(records[1].held, 200);
    assert_eq!(records[1].total, 200);
    assert!(!records[1].locked);
}
