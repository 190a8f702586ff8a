use payments_engine::decimal::{Amount, InvalidAmount, PositiveDecimal};
use payments_engine::txn::{Txn, TxnType};
use payments_engine::types::{RowError, TxnEvent, TxnEventDetail};

fn read_rows(contents: &str) -> Vec<Result<TxnEvent, RowError>> {
    let mut reader = csv::ReaderBuilder::new()
        .has_headers(true)
        .trim(csv::Trim::All)
        .from_reader(contents.as_bytes());
    reader
        .records()
        .map(|r| {
            let r = r.unwrap();
            TxnEvent::from_row(&r[0], &r[1], &r[2], &r[3])
        })
        .collect()
}

#[test]
fn decimal_test_deserialize_ok() {
    let res = PositiveDecimal::parse("1.23").unwrap();
    assert_eq!(res, PositiveDecimal::from_parts(123, 2).unwrap());
}

#[test]
fn deserialize_positive_decimal_fail() {
    assert!(PositiveDecimal::parse("-1").is_err());
    assert!(PositiveDecimal::parse("0").is_err());
}

#[test]
fn types_test_deserialize_ok() {
    let events = read_rows(
        "type,client,tx,amount
deposit,1,101,123.45
withdrawal,2,102,67.89
dispute,1,101,
dispute,2,102,
resolve,1,101,
chargeback,2,102,",
    )
    .into_iter()
    .collect::<Result<Vec<TxnEvent>, _>>()
    .unwrap();

    assert_eq!(
        vec![
            TxnEvent {
                client_id: 1,
                txn_id: 101,
                detail: TxnEventDetail::Deposit {
                    amount: PositiveDecimal::from_parts(12345, 2).unwrap(),
                },
            },
            TxnEvent {
                client_id: 2,
                txn_id: 102,
                detail: TxnEventDetail::Withdrawal {
                    amount: PositiveDecimal::from_parts(6789, 2).unwrap(),
                },
            },
            TxnEvent { client_id: 1, txn_id: 101, detail: TxnEventDetail::Dispute },
            TxnEvent { client_id: 2, txn_id: 102, detail: TxnEventDetail::Dispute },
            TxnEvent { client_id: 1, txn_id: 101, detail: TxnEventDetail::Resolve },
            TxnEvent { client_id: 2, txn_id: 102, detail: TxnEventDetail::Chargeback },
        ],
        events
    );
}

#[test]
fn row_errors_come_field_by_field() {
    assert_eq!(TxnEvent::from_row("BOGUS_TYPE", "1", "101", "123.45"), Err(RowError::UnknownType));
    assert_eq!(TxnEvent::from_row("Deposit", "1", "101", "1"), Err(RowError::UnknownType));
    assert_eq!(TxnEvent::from_row("deposit", "65536", "101", "1"), Err(RowError::InvalidClient));
    assert_eq!(TxnEvent::from_row("deposit", "-1", "101", "1"), Err(RowError::InvalidClient));
    assert_eq!(TxnEvent::from_row("deposit", "1", "abc", "def"), Err(RowError::InvalidTxn));
    assert_eq!(TxnEvent::from_row("deposit", "1", "4294967296", "1"), Err(RowError::InvalidTxn));
    assert_eq!(TxnEvent::from_row("deposit", "1", "101", "-123.45"), Err(RowError::InvalidAmount));
    assert_eq!(TxnEvent::from_row("deposit", "1", "101", "0"), Err(RowError::InvalidAmount));
    assert_eq!(TxnEvent::from_row("dispute", "1", "101", "x"), Err(RowError::InvalidAmount));
    assert_eq!(TxnEvent::from_row("deposit", "1", "101", ""), Err(RowError::MissingAmount));
    assert_eq!(TxnEvent::from_row("withdrawal", "1", "101", ""), Err(RowError::MissingAmount));
}

#[test]
fn rows_with_edge_identifiers() {
    let e = TxnEvent::from_row("withdrawal", "65535", "+4294967295", "0.5").unwrap();
    assert_eq!(e.client_id, 65535);
    assert_eq!(e.txn_id, 4294967295);
    assert_eq!(
        e.detail,
        TxnEventDetail::Withdrawal { amount: PositiveDecimal::from_parts(5, 1).unwrap() }
    );
    let e = TxnEvent::from_row("resolve", "007", "0", "").unwrap();
    assert_eq!(e.client_id, 7);
    assert_eq!(e.detail, TxnEventDetail::Resolve);
}

#[test]
fn decode_row_takes_what_was_read() {
    let e = TxnEvent::decode_row("deposit", "3", "4", "anything", Some((250, 1))).unwrap();
    assert_eq!(
        e.detail,
        TxnEventDetail::Deposit { amount: PositiveDecimal::from_parts(250, 1).unwrap() }
    );
    assert_eq!(
        TxnEvent::decode_row("deposit", "3", "4", "anything", None),
        Err(RowError::InvalidAmount)
    );
    assert_eq!(
        TxnEvent::decode_row("deposit", "3", "4", "x", Some((-1, 0))),
        Err(RowError::InvalidAmount)
    );
}

#[test]
fn positive_decimal_guard() {
    assert_eq!(PositiveDecimal::try_new(Amount::zero()), Err(InvalidAmount));
    assert_eq!(PositiveDecimal::from_parts(-5, 2), Err(InvalidAmount));
    assert_eq!(PositiveDecimal::from_parts(1, 29), Err(InvalidAmount));
    assert_eq!(PositiveDecimal::from_parts(1i128 << 96, 0), Err(InvalidAmount));
    let p = PositiveDecimal::from_parts(42, 3).unwrap();
    assert_eq!(p.amount(), Amount { mantissa: 42, scale: 3 });
    assert_eq!(
        PositiveDecimal::parse("100.456789").unwrap().amount(),
        Amount { mantissa: 100456789, scale: 6 }
    );
}

#[test]
fn type_adjusted_amount_signs() {
    let a = Amount { mantissa: 1234, scale: 2 };
    let d = Txn { txn_type: TxnType::Deposit, amount: a };
    let w = Txn { txn_type: TxnType::Withdrawal, amount: a };
    assert_eq!(d.type_adjusted_amount(), a);
    assert_eq!(w.type_adjusted_amount(), Amount { mantissa: -1234, scale: 2 });
}
