use txledger::client::Client;

#[test]
fn add_funds() {
    let mut c = Client::new(500);
    let amount = 1_000_000;
    let add_amount = 100_000;

    c.available = amount;
    c.total = amount;

    assert!(c.add_funds(add_amount));

    assert_eq!(c.available, amount + add_amount);
    assert_eq!(c.total, amount + add_amount);
}

#[test]
fn remove_funds_success() {
    let mut c = Client::new(500);
    let amount = 1_000_000;
    let remove_amount = 100_000;

    c.available = amount;
    c.total = amount;

    assert!(c.remove_funds(remove_amount));

    assert_eq!(c.available, amount - remove_amount);
    assert_eq!(c.total, amount - remove_amount);
}

#[test]
fn remove_funds_fail() {
    let mut c = Client::new(500);
    let amount = 1_000_000;

    c.available = amount;
    c.total = amount;

    assert_eq!(c.remove_funds(amount + 10_000), false);
    assert_eq!(c.available, amount);
    assert_eq!(c.total, amount);
}

#[test]
fn hold_funds() {
    let mut c = Client::new(500);
    let amount = 1_000_000;
    let hold_amount = 100_000;

    c.available = amount;
    c.total = amount;

    assert!(c.hold_funds(hold_amount));
    assert_eq!(c.held, hold_amount);
    assert_eq!(c.available, amount - hold_amount);
    assert_eq!(c.total, amount);
}

#[test]
fn restore_funds() {
    let mut c = Client::new(500);
    let amount = 1_000_000;
    let hold_amount = 100_000;

    c.available = amount - hold_amount;
    c.total = amount;
    c.held = hold_amount;

    assert!(c.restore_funds(hold_amount));
    assert_eq!(c.held, 0);
    assert_eq!(c.available, amount);
    assert_eq!(c.total, amount);
}

#[test]
fn client_getters() {
    let mut c = Client::new(500);
    let amount = 1_000_000;
    let hold_amount = 100_000;

    c.available = amount - hold_amount;
    c.total = amount;
    c.held = hold_amount;

    assert_eq!(c.get_held_funds(), c.held);
    assert_eq!(c.get_available_funds(), c.available);
    assert_eq!(c.get_total_funds(), c.total);
    assert_eq!(c.get_client_id(), c.id);
    assert_eq!(c.is_locked(), c.locked);
}

#[test]
fn lock() {
    let mut c = Client::new(500);

    assert!(!c.locked);
    assert!(!c.is_locked());
    c.lock();
    assert!(c.locked);
    assert!(c.is_locked());
}

#[test]
fn unlock() {
    let mut c = Client::new(500);

    c.lock();
    assert!(c.locked);
    assert!(c.is_locked());
    c.unlock();
    assert!(!c.locked);
    assert!(!c.is_locked());
}

#[test]
fn locked_account_rejects_operations() {
    let mut c = Client::new(500);
    c.available = 1_000_000;
    c.total = 1_000_000;
    c.lock();

    assert!(!c.add_funds(10_000));
    assert!(!c.remove_funds(10_000));
    assert!(!c.hold_funds(10_000));
    assert!(!c.restore_funds(0));
    assert_eq!(c.available, 1_000_000);
    assert_eq!(c.held, 0);
    assert_eq!(c.total, 1_000_000);
}

#[test]
fn hold_may_go_negative() {
    let mut c = Client::new(7);
    assert!(c.hold_funds(50_000));
    assert_eq!(c.available, -50_000);
    assert_eq!(c.held, 50_000);
    assert_eq!(c.total, 0);
}
