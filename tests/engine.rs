use payments_engine::account::LedgerError;
use payments_engine::decimal::PositiveDecimal;
use payments_engine::payment_engine::{InMemoryPaymentEngine, PaymentEngine};
use payments_engine::types::TxnEvent;
use payments_engine::util::to_csv_string;

/// Reads the rows of a CSV text (with a header line) as events; a row that is not an
/// event gives an error message.
fn read_csv_contents(contents: &str) -> Vec<Result<TxnEvent, String>> {
    let mut reader = csv::ReaderBuilder::new()
        .has_headers(true)
        .trim(csv::Trim::All)
        .from_reader(contents.as_bytes());
    let mut out = Vec::new();
    for record in reader.records() {
        match record {
            Ok(r) => {
                let f = |i: usize| r.get(i).unwrap_or("").to_string();
                let event = TxnEvent::from_row(&f(0), &f(1), &f(2), &f(3))
                    .map_err(|e| format!("{e:?}"));
                out.push(event);
            }
            Err(err) => out.push(Err(err.to_string())),
        }
    }
    out
}

fn add_csv_events_to_engine<PE: PaymentEngine>(engine: &mut PE, contents: &str) -> String {
    for event in read_csv_contents(contents).into_iter().flatten() {
        let _ = engine.add_event(event);
    }
    to_csv_string(&engine.snapshots())
}

fn amount(mantissa: i128, scale: u32) -> PositiveDecimal {
    PositiveDecimal::from_parts(mantissa, scale).unwrap()
}

#[test]
fn test_deposit() {
    let mut engine = InMemoryPaymentEngine::default();
    let events_csv = "type,client,tx,amount
deposit,1,101,100.456789";

    assert_eq!(
        add_csv_events_to_engine(&mut engine, events_csv),
        "client,available,held,total,locked
1,100.4568,0,100.4568,false"
    );
}

#[test]
fn test_withdrawal() {
    let mut engine = InMemoryPaymentEngine::default();
    let events_csv = "type,client,tx,amount
deposit,1,101,100.456789
withdrawal,1,102,100
";

    assert_eq!(
        add_csv_events_to_engine(&mut engine, events_csv),
        "client,available,held,total,locked
1,0.4568,0,0.4568,false"
    );
}

#[test]
fn test_dispute_resolve() {
    let mut engine = InMemoryPaymentEngine::default();
    let events_csv = "type,client,tx,amount
deposit,1,101,100
deposit,1,102,20";
    assert_eq!(
        add_csv_events_to_engine(&mut engine, events_csv),
        "client,available,held,total,locked
1,120,0,120,false"
    );

    let events_csv = "type,client,tx,amount
dispute,1,102,";
    assert_eq!(
        add_csv_events_to_engine(&mut engine, events_csv),
        "client,available,held,total,locked
1,100,20,120,false"
    );

    let events_csv = "type,client,tx,amount
resolve,1,102,";
    assert_eq!(
        add_csv_events_to_engine(&mut engine, events_csv),
        "client,available,held,total,locked
1,120,0,120,false"
    );
}

#[test]
fn test_dispute_resolve_withdrawal() {
    let mut engine = InMemoryPaymentEngine::default();
    let events_csv = "type,client,tx,amount
deposit,1,101,100
withdrawal,1,102,20";
    assert_eq!(
        add_csv_events_to_engine(&mut engine, events_csv),
        "client,available,held,total,locked
1,80,0,80,false"
    );

    let events_csv = "type,client,tx,amount
dispute,1,102,";
    assert_eq!(
        add_csv_events_to_engine(&mut engine, events_csv),
        "client,available,held,total,locked
1,100,-20,80,false"
    );

    let events_csv = "type,client,tx,amount
resolve,1,102,";
    assert_eq!(
        add_csv_events_to_engine(&mut engine, events_csv),
        "client,available,held,total,locked
1,80,0,80,false"
    );
}

#[test]
fn test_dispute_chargeback() {
    let mut engine = InMemoryPaymentEngine::default();
    let events_csv = "type,client,tx,amount
deposit,1,101,100
deposit,1,102,20";
    assert_eq!(
        add_csv_events_to_engine(&mut engine, events_csv),
        "client,available,held,total,locked
1,120,0,120,false"
    );

    let events_csv = "type,client,tx,amount
dispute,1,102,";
    assert_eq!(
        add_csv_events_to_engine(&mut engine, events_csv),
        "client,available,held,total,locked
1,100,20,120,false"
    );

    let events_csv = "type,client,tx,amount
chargeback,1,102,";
    assert_eq!(
        add_csv_events_to_engine(&mut engine, events_csv),
        "client,available,held,total,locked
1,100,0,100,true"
    );

    let events_csv = "type,client,tx,amount
deposit,1,103,111
withdrawal,1,103,11";
    assert_eq!(
        add_csv_events_to_engine(&mut engine, events_csv),
        "client,available,held,total,locked
1,211,0,211,true"
    );
}

#[test]
fn test_multi_client() {
    let mut engine = InMemoryPaymentEngine::default();
    let events_csv = "type,client,tx,amount
deposit,1,101,1000
deposit,2,102,100
deposit,3,103,10
withdrawal,1,201,100
withdrawal,2,202,10
withdrawal,3,203,1
";

    assert_eq!(
        add_csv_events_to_engine(&mut engine, events_csv),
        "client,available,held,total,locked
1,900,0,900,false
2,90,0,90,false
3,9,0,9,false"
    );
}

#[test]
fn test_invalid_records() {
    let mut engine = InMemoryPaymentEngine::default();
    let events_csv = "type,client,tx,amount
deposit,1,101,
deposit,1,102,20,
deposit,1,abc,def
__BOGUS__,1,103,3";

    assert!(add_csv_events_to_engine(&mut engine, events_csv).is_empty());
}

#[test]
fn test_large_csv_feed() {
    let mut engine = InMemoryPaymentEngine::default();

    let events_csv = [
        "type,client,tx,amount",
        "deposit,1,101,123.45",
        "deposit,2,102,77.89",
        "withdrawal,2,103,67.89",
        "__BOGUS__,1,2,3",
        "deposit,1,104,123.45",
        "dispute,1,101,",
        "resolve,1,101,",
        "withdrawal,1,105,46.90",
        "deposit,3,3,-5",
        "withdrawal,3,3,-5",
    ]
    .join("\n");
    assert_eq!(
        add_csv_events_to_engine(&mut engine, &events_csv),
        "client,available,held,total,locked
1,200,0,200,false
2,10,0,10,false"
    );

    let events_csv = "type,client,tx,amount
withdrawal,2,106,10
deposit,1,107,100";
    assert_eq!(
        add_csv_events_to_engine(&mut engine, events_csv),
        "client,available,held,total,locked
1,300,0,300,false
2,0,0,0,false"
    );

    let events_csv = [
        "type,client,tx,amount",
        "dispute,2,102,",
        "chargeback,2,102,",
        "withdrawal,2,105,10000",
    ]
    .join("\n");
    assert_eq!(
        add_csv_events_to_engine(&mut engine, &events_csv),
        "client,available,held,total,locked
1,300,0,300,false
2,-77.89,0,-77.89,true"
    );

    let events_csv = "type,client,tx,amount
deposit,1,201,50
deposit,1,202,60
dispute,1,201,
dispute,1,202,";
    assert_eq!(
        add_csv_events_to_engine(&mut engine, events_csv),
        "client,available,held,total,locked
1,300,110,410,false
2,-77.89,0,-77.89,true"
    );

    let events_csv = "type,client,tx,amount
resolve,1,202,";
    assert_eq!(
        add_csv_events_to_engine(&mut engine, events_csv),
        "client,available,held,total,locked
1,360,50,410,false
2,-77.89,0,-77.89,true"
    );

    let events_csv = "type,client,tx,amount
chargeback,1,201,";
    assert_eq!(
        add_csv_events_to_engine(&mut engine, events_csv),
        "client,available,held,total,locked
1,360,0,360,true
2,-77.89,0,-77.89,true"
    );
}

#[test]
fn deposits_only_sum_up_per_client() {
    let mut engine = InMemoryPaymentEngine::default();
    engine.deposit(1, 1, amount(15, 1)).unwrap();
    engine.deposit(1, 2, amount(25, 1)).unwrap();
    engine.deposit(2, 3, amount(7, 0)).unwrap();
    engine.deposit(1, 4, amount(1, 4)).unwrap();
    let snaps = engine.snapshots();
    assert_eq!(
        to_csv_string(&snaps),
        "client,available,held,total,locked
1,4.0001,0,4.0001,false
2,7,0,7,false"
    );
}

#[test]
fn snapshots_are_ordered_by_client() {
    let mut engine = InMemoryPaymentEngine::default();
    for client in [900u16, 3, 65535, 0, 41] {
        engine.deposit(client, 1, amount(client as i128 + 1, 0)).unwrap();
    }
    let clients: Vec<u16> = engine.snapshots().iter().map(|s| s.client_id).collect();
    assert_eq!(clients, vec![0, 3, 41, 900, 65535]);
}

#[test]
fn dispute_then_resolve_restores_balances() {
    let mut engine = InMemoryPaymentEngine::default();
    engine.deposit(5, 1, amount(1000, 2)).unwrap();
    engine.withdraw(5, 2, amount(250, 2)).unwrap();
    let before = to_csv_string(&engine.snapshots());
    assert_eq!(engine.dispute(5, 2), Ok(()));
    assert_eq!(
        to_csv_string(&engine.snapshots()),
        "client,available,held,total,locked
5,10,-2.5,7.5,false"
    );
    assert_eq!(engine.resolve(5, 2), Ok(()));
    assert_eq!(to_csv_string(&engine.snapshots()), before);
}

#[test]
fn dispute_then_chargeback_locks_and_removes_funds() {
    let mut engine = InMemoryPaymentEngine::default();
    engine.deposit(1, 101, amount(100, 0)).unwrap();
    engine.deposit(1, 102, amount(20, 0)).unwrap();
    engine.dispute(1, 102).unwrap();
    engine.chargeback(1, 102).unwrap();
    let s = engine.snapshots();
    assert!(s[0].locked);
    assert_eq!(
        to_csv_string(&s),
        "client,available,held,total,locked
1,100,0,100,true"
    );
    assert_eq!(engine.resolve(1, 102), Err(LedgerError::AccountLocked));
}

#[test]
fn locked_account_takes_deposits_only() {
    let mut engine = InMemoryPaymentEngine::default();
    engine.deposit(1, 1, amount(50, 0)).unwrap();
    engine.deposit(1, 2, amount(5, 0)).unwrap();
    engine.dispute(1, 1).unwrap();
    engine.chargeback(1, 1).unwrap();
    assert_eq!(engine.withdraw(1, 3, amount(1, 0)), Err(LedgerError::AccountLocked));
    assert_eq!(engine.dispute(1, 2), Err(LedgerError::AccountLocked));
    assert_eq!(engine.resolve(1, 2), Err(LedgerError::AccountLocked));
    assert_eq!(engine.chargeback(1, 2), Err(LedgerError::AccountLocked));
    assert_eq!(engine.deposit(1, 4, amount(3, 0)), Ok(()));
    assert_eq!(
        to_csv_string(&engine.snapshots()),
        "client,available,held,total,locked
1,8,0,8,true"
    );
}

#[test]
fn each_ledger_error_has_an_input() {
    let mut engine = InMemoryPaymentEngine::default();
    assert_eq!(engine.withdraw(1, 1, amount(1, 0)), Err(LedgerError::UnknownClient));
    assert_eq!(engine.dispute(1, 1), Err(LedgerError::UnknownClient));
    assert_eq!(engine.resolve(1, 1), Err(LedgerError::UnknownClient));
    assert_eq!(engine.chargeback(1, 1), Err(LedgerError::UnknownClient));
    engine.deposit(1, 1, amount(10, 0)).unwrap();
    assert_eq!(engine.withdraw(1, 2, amount(11, 0)), Err(LedgerError::InsufficientFunds));
    assert_eq!(engine.dispute(1, 9), Err(LedgerError::TransactionNotFound));
    assert_eq!(engine.resolve(1, 1), Err(LedgerError::TransactionNotFound));
    assert_eq!(engine.chargeback(1, 1), Err(LedgerError::TransactionNotFound));
    let max = (1i128 << 96) - 1;
    engine.deposit(2, 1, amount(max, 0)).unwrap();
    assert_eq!(engine.deposit(2, 2, amount(1, 0)), Err(LedgerError::Overflow));
    assert_eq!(engine.snapshots().len(), 2);
}

#[test]
fn refused_deposit_opens_no_account() {
    let mut engine = InMemoryPaymentEngine::default();
    let max = (1i128 << 96) - 1;
    engine.deposit(1, 1, amount(max, 0)).unwrap();
    assert_eq!(engine.deposit(1, 2, amount(1, 28)), Err(LedgerError::Overflow));
    assert_eq!(engine.snapshots().len(), 1);
}
