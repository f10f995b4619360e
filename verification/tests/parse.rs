use transactor::amount::{parse_amount, render_amount};
use transactor::error::TransactorError;
use transactor::manager::Manager;
use transactor::record::{header_row, AccountRecord, Operation, TransactionRecord};

#[test]
fn parse_whole_amount() {
    assert_eq!(parse_amount("100"), Some(1_000_000));
    assert_eq!(parse_amount("0"), Some(0));
    assert_eq!(parse_amount("1"), Some(10_000));
}

#[test]
fn parse_fractional_amount() {
    assert_eq!(parse_amount("0.5"), Some(5_000));
    assert_eq!(parse_amount("1.5"), Some(15_000));
    assert_eq!(parse_amount("100.1234"), Some(1_001_234));
    assert_eq!(parse_amount("2."), Some(20_000));
    assert_eq!(parse_amount("0.0001"), Some(1));
}

#[test]
fn truncate_long_dec() {
    assert_eq!(parse_amount("100.1234567"), Some(1001234));
}

#[test]
fn truncation_never_rounds() {
    assert_eq!(parse_amount("1.00009"), Some(10_000));
    assert_eq!(parse_amount("0.99999"), Some(9_999));
}

#[test]
fn negative_amount() {
    assert_eq!(parse_amount("-100"), None);
}

#[test]
fn malformed_amount() {
    assert_eq!(parse_amount(""), None);
    assert_eq!(parse_amount("."), None);
    assert_eq!(parse_amount(".5"), None);
    assert_eq!(parse_amount("1.2.3"), None);
    assert_eq!(parse_amount("12a"), None);
    assert_eq!(parse_amount("a12"), None);
    assert_eq!(parse_amount("1,5"), None);
}

#[test]
fn oversized_amount() {
    // just above u64::MAX once scaled by 10,000
    assert_eq!(parse_amount("1844674407370955.1616"), None);
    assert_eq!(parse_amount("1844674407370955.1615"), Some(u64::MAX));
    assert_eq!(parse_amount("99999999999999999999999999"), None);
}

#[test]
fn render_fixed_point() {
    assert_eq!(render_amount(0), "0.0000");
    assert_eq!(render_amount(1), "0.0001");
    assert_eq!(render_amount(10_000), "1.0000");
    assert_eq!(render_amount(15_000), "1.5000");
    assert_eq!(render_amount(1_001_234), "100.1234");
}

#[test]
fn render_parse_round_trip() {
    for x in [0u64, 1, 9_999, 10_000, 123_456_789, u64::MAX] {
        assert_eq!(parse_amount(&render_amount(x)), Some(x));
    }
}

#[test]
fn process_missing_amount() {
    let record = TransactionRecord {
        operation: Operation::Deposit,
        client: 1,
        tx: 1,
        amount: None,
    };

    let mut mgr = Manager::new();
    let result = record.process(&mut mgr);

    assert!(matches!(result, Err(TransactorError::MissingAmount)));
}

#[test]
fn process_missing_withdrawal_amount() {
    let mut mgr = Manager::new();
    let deposit = TransactionRecord {
        operation: Operation::Deposit,
        client: 1,
        tx: 1,
        amount: Some(100),
    };
    deposit.process(&mut mgr).expect("Failed to process");

    let withdrawal = TransactionRecord {
        operation: Operation::Withdrawal,
        client: 1,
        tx: 2,
        amount: None,
    };
    let result = withdrawal.process(&mut mgr);

    assert!(matches!(result, Err(TransactorError::MissingAmount)));
    assert_eq!(mgr.account(1).unwrap().available(), 100);
}

#[test]
fn process_swallows_domain_errors() {
    let mut mgr = Manager::new();
    // a withdrawal for a client that does not exist is a soft error
    let withdrawal = TransactionRecord {
        operation: Operation::Withdrawal,
        client: 1,
        tx: 1,
        amount: Some(100),
    };
    withdrawal.process(&mut mgr).expect("Failed to process");
    assert_eq!(mgr.client_count(), 0);

    // records route to the accounts they name
    for (op, client, tx, amount) in [
        (Operation::Deposit, 1u16, 1u32, Some(100u64)),
        (Operation::Deposit, 2, 2, Some(50)),
        (Operation::Dispute, 1, 1, None),
        (Operation::Resolve, 1, 1, None),
        (Operation::Dispute, 2, 2, None),
        (Operation::Chargeback, 2, 2, None),
    ] {
        let record = TransactionRecord {
            operation: op,
            client,
            tx,
            amount,
        };
        record.process(&mut mgr).expect("Failed to process");
    }

    assert_eq!(mgr.account(1).unwrap().available(), 100);
    assert_eq!(mgr.account(1).unwrap().held(), 0);
    assert!(!mgr.account(1).unwrap().is_frozen());
    assert_eq!(mgr.account(2).unwrap().total(), 0);
    assert!(mgr.account(2).unwrap().is_frozen());
}

#[test]
fn serilaize() {
    let record = AccountRecord {
        client: 1,
        available: 10000,
        held: 5000,
        total: 15000,
        locked: false,
    };

    let row = format!("{}\n{}\n", header_row(), record.render());
    assert_eq!(
        row,
        "client,available,held,total,locked\n1,1.0000,0.5000,1.5000,false\n"
    )
}

#[test]
fn render_locked_record() {
    let record = AccountRecord {
        client: 7,
        available: 0,
        held: 0,
        total: 0,
        locked: true,
    };

    assert_eq!(record.render(), "7,0.0000,0.0000,0.0000,true");
}
