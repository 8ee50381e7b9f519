use txledger::transaction::{Transaction, TransactionType};

#[test]
fn new_deposit() {
    let t = Transaction::new_deposit(500, 600, 1_000_000, false);

    assert_eq!(t.typ, TransactionType::Deposit);
    assert_eq!(t.client, 500);
    assert_eq!(t.id, 600);
    assert_eq!(t.amount, Some(1_000_000));
    assert_eq!(t.in_dispute, false);
    assert!(t.validate());
}

#[test]
fn new_withdrawl() {
    let t = Transaction::new_withdrawl(500, 600, 1_000_000, true);

    assert_eq!(t.typ, TransactionType::Withdrawal);
    assert_eq!(t.client, 500);
    assert_eq!(t.id, 600);
    assert_eq!(t.amount, Some(1_000_000));
    assert_eq!(t.in_dispute, true);
    assert!(t.validate());
}

#[test]
fn new_dispute() {
    let t = Transaction::new_dispute(500, 600);

    assert_eq!(t.typ, TransactionType::Dispute);
    assert_eq!(t.client, 500);
    assert_eq!(t.id, 600);
    assert_eq!(t.amount, None);
    assert_eq!(t.in_dispute, false);
    assert!(t.validate());
}

#[test]
fn new_resolve() {
    let t = Transaction::new_resolve(500, 600);

    assert_eq!(t.typ, TransactionType::Resolve);
    assert_eq!(t.client, 500);
    assert_eq!(t.id, 600);
    assert_eq!(t.amount, None);
    assert_eq!(t.in_dispute, false);
    assert!(t.validate());
}

#[test]
fn new_chargeback() {
    let t = Transaction::new_chargeback(500, 600);

    assert_eq!(t.typ, TransactionType::Chargeback);
    assert_eq!(t.client, 500);
    assert_eq!(t.id, 600);
    assert_eq!(t.amount, None);
    assert_eq!(t.in_dispute, false);
    assert!(t.validate());
}

#[test]
fn fail_validate() {
    let t1 = Transaction {
        typ: TransactionType::Deposit,
        client: 500,
        id: 600,
        amount: None,
        in_dispute: false,
    };
    let t2 = Transaction {
        typ: TransactionType::Dispute,
        client: 500,
        id: 600,
        amount: Some(1_000_000),
        in_dispute: true,
    };

    assert_eq!(t1.validate(), false);
    assert_eq!(t2.validate(), false);
}

#[test]
fn set_disputed() {
    let mut t = Transaction::new_deposit(500, 600, 1_000_000, false);

    assert_eq!(t.in_dispute, false);
    assert!(!t.is_disputed());
    t.set_disputed();
    assert!(t.in_dispute);
    assert!(t.is_disputed());
}

#[test]
fn clear_disputed() {
    let mut t = Transaction::new_deposit(500, 600, 1_000_000, true);

    assert!(t.in_dispute);
    assert!(t.is_disputed());
    t.clear_disputed();
    assert_eq!(t.in_dispute, false);
    assert!(!t.is_disputed());
}

#[test]
fn transaction_getters() {
    let t = Transaction::new_deposit(500, 600, 1_000_000, false);

    assert_eq!(t.get_type(), t.typ);
    assert_eq!(t.get_client_id(), t.client);
    assert_eq!(t.get_id(), t.id);
    assert_eq!(t.get_amount(), t.amount);
    assert_eq!(t.is_disputed(), t.in_dispute);
}

#[test]
fn dispute_flag_is_noop_on_control_records() {
    let mut t = Transaction::new_dispute(500, 600);
    t.set_disputed();
    assert!(!t.is_disputed());
    let mut r = Transaction::new_resolve(500, 600);
    r.set_disputed();
    r.clear_disputed();
    assert!(!r.is_disputed());
}
