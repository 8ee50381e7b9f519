use txledger::client::Client;
use txledger::processor::{TransactionProcessor, TransactionProcessorErr};
use txledger::transaction::Transaction;

fn run_stream(input: &str) -> Result<TransactionProcessor, TransactionProcessorErr> {
    let mut tp = TransactionProcessor::new();
    tp.process_csv_stream(&input.as_bytes().to_vec())?;
    Ok(tp)
}

fn output_of(tp: &TransactionProcessor) -> String {
    String::from_utf8(tp.write_csv_to_stream()).unwrap()
}

#[test]
fn in_out_basic() {
    let input = "type, client, tx, amount\n\
         deposit, 1, 1, 1.0\n\
         deposit, 1, 3, 2.0\n\
         withdrawal, 1, 4, 1.5";
    let expected_out = "client,available,held,total,locked\n\
         1,1.5000,0.0000,1.5000,false\n";

    let tp = run_stream(input).unwrap();
    assert_eq!(output_of(&tp), expected_out);
}

#[test]
fn in_out_resolve() {
    let input = "type, client, tx, amount\n\
         deposit, 1, 1, 100.0\n\
         dispute, 1, 1,\n\
         resolve, 1, 1,";
    let expected_out = "client,available,held,total,locked\n\
         1,100.0000,0.0000,100.0000,false\n";

    let tp = run_stream(input).unwrap();
    assert_eq!(output_of(&tp), expected_out);
}

#[test]
fn in_out_chargeback() {
    let input = "type, client, tx, amount\n\
         deposit, 1, 1, 100.0\n\
         dispute, 1, 1,\n\
         chargeback, 1, 1,";
    let expected_out = "client,available,held,total,locked\n\
         1,0.0000,0.0000,0.0000,true\n";

    let tp = run_stream(input).unwrap();
    assert_eq!(output_of(&tp), expected_out);
}

#[test]
fn bad_input1() {
    let input = "type, client, tx, amount\n\
         deposit, 1, 1, 1.0\n\
         deposit, 1, 3,\n\
         withdrawal, 1, 4, 1.5";

    let result = run_stream(input).unwrap_err();
    match result {
        TransactionProcessorErr::TransactionValidateError(_) => (),
        _ => panic!("incorrect result"),
    }
}

#[test]
fn bad_input2() {
    let input = "type, client, tx, amount\n\
         deposit, 1, 1, 1.0\n\
         deposit,\n\
         withdrawal, 1, 4, 1.5";

    let result = run_stream(input).unwrap_err();
    match result {
        TransactionProcessorErr::CSVError(_) => (),
        _ => panic!("incorrect result"),
    }
}

#[test]
fn deposit() {
    let c_id = 500;
    let t_id = 600;
    let amount = 1_000_000;

    let mut tp = TransactionProcessor::new();
    let t = Transaction::new_deposit(c_id, t_id, amount, false);

    tp.process_transaction(t);

    let c = tp.clients.iter().find(|c| c.get_client_id() == c_id);
    assert!(c.is_some()); // ensure client was created
    assert_eq!(c.unwrap().get_available_funds(), amount);
    assert!(tp.transactions.iter().any(|t| t.get_id() == t_id));
}

#[test]
fn withdrawal() {
    let c_id = 500;
    let t_id = 600;
    let amount = 1_000_000;
    let wothdraw_amount = 100_000;

    let mut tp = TransactionProcessor::new();
    let mut c = Client::new(c_id);
    c.add_funds(amount);
    tp.clients.push(c);

    let t = Transaction::new_withdrawl(c_id, t_id, wothdraw_amount, false);

    tp.process_transaction(t);

    let ec = tp.clients.iter().find(|c| c.get_client_id() == c_id).unwrap();
    assert_eq!(ec.get_available_funds(), amount - wothdraw_amount);
}

#[test]
fn dispute() {
    let c_id = 500;
    let t_id = 600;
    let amount = 1_000_000;

    let mut tp = TransactionProcessor::new();
    let c = Client::new(c_id);
    tp.clients.push(c);

    let t1 = Transaction::new_deposit(c_id, t_id, amount, false);
    let t2 = Transaction::new_dispute(c_id, t_id);

    tp.process_transaction(t1);
    tp.process_transaction(t2);

    let ec = tp.clients.iter().find(|c| c.get_client_id() == c_id).unwrap();
    assert_eq!(ec.get_held_funds(), amount);

    let et = tp.transactions.iter().find(|t| t.get_id() == t_id).unwrap();
    assert!(et.is_disputed());
}

#[test]
fn resolve() {
    let c_id = 500;
    let t_id = 600;
    let amount = 1_000_000;

    let mut tp = TransactionProcessor::new();
    let c = Client::new(c_id);
    tp.clients.push(c);

    let t1 = Transaction::new_deposit(c_id, t_id, amount, false);
    let t2 = Transaction::new_dispute(c_id, t_id);
    let t3 = Transaction::new_resolve(c_id, t_id);

    tp.process_transaction(t1);
    tp.process_transaction(t2);
    tp.process_transaction(t3);

    let ec = tp.clients.iter().find(|c| c.get_client_id() == c_id).unwrap();
    assert_eq!(ec.get_available_funds(), amount);

    let et = tp.transactions.iter().find(|t| t.get_id() == t_id).unwrap();
    assert!(!et.is_disputed());
}

#[test]
fn chargeback() {
    let c_id = 500;
    let t_id = 600;
    let amount = 1_000_000;

    let mut tp = TransactionProcessor::new();
    let c = Client::new(c_id);
    tp.clients.push(c);

    let t1 = Transaction::new_deposit(c_id, t_id, amount, false);
    let t2 = Transaction::new_dispute(c_id, t_id);
    let t3 = Transaction::new_chargeback(c_id, t_id);

    tp.process_transaction(t1);
    tp.process_transaction(t2);
    tp.process_transaction(t3);

    let ec = tp.clients.iter().find(|c| c.get_client_id() == c_id).unwrap();
    assert_eq!(ec.get_available_funds(), 0);
    assert!(ec.is_locked());

    let et = tp.transactions.iter().find(|t| t.get_id() == t_id).unwrap();
    assert!(!et.is_disputed());
}

#[test]
fn withdrawal_insufficient_is_dropped() {
    let input = "type, client, tx, amount\n\
         deposit, 1, 1, 100.0\n\
         withdrawal, 1, 2, 200.0";
    let expected_out = "client,available,held,total,locked\n\
         1,100.0000,0.0000,100.0000,false\n";

    let tp = run_stream(input).unwrap();
    assert_eq!(output_of(&tp), expected_out);
    // the dropped withdrawal is not stored, so a later dispute of it
    // finds nothing
    assert!(!tp.transactions.iter().any(|t| t.get_id() == 2));
}

#[test]
fn second_resolve_has_no_effect() {
    let input = "type, client, tx, amount\n\
         deposit, 1, 1, 100.0\n\
         dispute, 1, 1,\n\
         resolve, 1, 1,\n\
         resolve, 1, 1,\n\
         chargeback, 1, 1,";
    let expected_out = "client,available,held,total,locked\n\
         1,100.0000,0.0000,100.0000,false\n";

    let tp = run_stream(input).unwrap();
    assert_eq!(output_of(&tp), expected_out);
}

#[test]
fn dispute_of_unknown_transaction_is_ignored() {
    let input = "type, client, tx, amount\n\
         deposit, 1, 1, 100.0\n\
         dispute, 1, 9,";
    let expected_out = "client,available,held,total,locked\n\
         1,100.0000,0.0000,100.0000,false\n";

    let tp = run_stream(input).unwrap();
    assert_eq!(output_of(&tp), expected_out);
}

#[test]
fn type_names_are_case_insensitive() {
    let input = "type, client, tx, amount\n\
         Deposit, 1, 1, 2.5\n\
         WITHDRAWAL, 1, 2, 1.0";
    let expected_out = "client,available,held,total,locked\n\
         1,1.5000,0.0000,1.5000,false\n";

    let tp = run_stream(input).unwrap();
    assert_eq!(output_of(&tp), expected_out);
}

#[test]
fn header_only_gives_empty_output() {
    let input = "type, client, tx, amount";
    let expected_out = "client,available,held,total,locked\n";

    let tp = run_stream(input).unwrap();
    assert_eq!(output_of(&tp), expected_out);
}

#[test]
fn unknown_type_name_is_a_decode_error() {
    let input = "type, client, tx, amount\n\
         transfer, 1, 1, 1.0";

    let result = run_stream(input).unwrap_err();
    match result {
        TransactionProcessorErr::CSVError(_) => (),
        _ => panic!("incorrect result"),
    }
}
