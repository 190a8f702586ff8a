//! Transaction events and the decoding of an input row into one.

use crate::decimal::{decimal_from_str, positive_amount, read_decimal, Amount, PositiveDecimal};
use crate::text::{parse_uint, text_eq, uint_value};
use vstd::prelude::*;

verus! {

pub type ClientId = u16;

pub type TxnId = u32;

/// A validated event for one client and one transaction.
#[derive(Clone, Copy, Debug, PartialEq, Eq)]
pub struct TxnEvent {
    pub client_id: ClientId,
    pub txn_id: TxnId,
    pub detail: TxnEventDetail,
}

/// What an event does; deposits and withdrawals carry a positive amount.
#[derive(Clone, Copy, Debug, PartialEq, Eq)]
pub enum TxnEventDetail {
    Deposit { amount: PositiveDecimal },
    Withdrawal { amount: PositiveDecimal },
    Dispute,
    Resolve,
    Chargeback,
}

/// Why an input row is not an event.
#[derive(Clone, Copy, Debug, PartialEq, Eq, Structural)]
pub enum RowError {
    /// The type is none of `deposit`, `withdrawal`, `dispute`, `resolve`, `chargeback`.
    UnknownType,
    /// The client is not an integer from 0 to 65535.
    InvalidClient,
    /// The transaction is not an integer from 0 to 4294967295.
    InvalidTxn,
    /// The amount is given but is not a decimal number above zero.
    InvalidAmount,
    /// A deposit or withdrawal without an amount.
    MissingAmount,
}

pub open spec fn is_event_type(kind: Seq<char>) -> bool {
    kind == "deposit"@ || kind == "withdrawal"@ || kind == "dispute"@ || kind == "resolve"@
        || kind == "chargeback"@
}

/// The amount field: empty, or the positive decimal read from it (`parsed`), or invalid.
pub open spec fn amount_field(amount: Seq<char>, parsed: Option<(i128, u32)>) -> Result<
    Option<Amount>,
    RowError,
> {
    if amount.len() == 0 {
        Ok(None)
    } else {
        match positive_amount(parsed) {
            Some(a) => Ok(Some(a)),
            None => Err(RowError::InvalidAmount),
        }
    }
}

/// The first failing check of a row, field by field, or `Ok` where it is an event.
pub open spec fn row_check(
    kind: Seq<char>,
    client: Seq<char>,
    tx: Seq<char>,
    amount: Seq<char>,
    parsed: Option<(i128, u32)>,
) -> Result<(), RowError> {
    if !is_event_type(kind) {
        Err(RowError::UnknownType)
    } else if uint_value(client, 0xffff) is None {
        Err(RowError::InvalidClient)
    } else if uint_value(tx, 0xffff_ffff) is None {
        Err(RowError::InvalidTxn)
    } else if amount_field(amount, parsed) is Err {
        Err(RowError::InvalidAmount)
    } else if (kind == "deposit"@ || kind == "withdrawal"@) && amount.len() == 0 {
        Err(RowError::MissingAmount)
    } else {
        Ok(())
    }
}

/// Whether `d` is the event detail that a row of type `kind` with amount `amount` names.
pub open spec fn detail_is(d: TxnEventDetail, kind: Seq<char>, amount: Option<Amount>) -> bool {
    match d {
        TxnEventDetail::Deposit { amount: a } => kind == "deposit"@ && amount == Some(a@),
        TxnEventDetail::Withdrawal { amount: a } => kind == "withdrawal"@ && amount == Some(a@),
        TxnEventDetail::Dispute => kind == "dispute"@,
        TxnEventDetail::Resolve => kind == "resolve"@,
        TxnEventDetail::Chargeback => kind == "chargeback"@,
    }
}

/// The event that a row names, given what was read from its amount field.
pub open spec fn row_event(
    e: TxnEvent,
    kind: Seq<char>,
    client: Seq<char>,
    tx: Seq<char>,
    amount: Seq<char>,
    parsed: Option<(i128, u32)>,
) -> bool {
    &&& e.client_id as nat == uint_value(client, 0xffff)->0
    &&& e.txn_id as nat == uint_value(tx, 0xffff_ffff)->0
    &&& detail_is(e.detail, kind, amount_field(amount, parsed)->Ok_0)
}

impl TxnEvent {
    /// Decodes a row from its four fields (`type`, `client`, `tx`, `amount`), where
    /// `parsed` is what was read as a decimal from `amount`.
    pub fn decode_row(
        kind: &str,
        client: &str,
        tx: &str,
        amount: &str,
        parsed: Option<(i128, u32)>,
    ) -> (r: Result<TxnEvent, RowError>)
        ensures
            r is Ok <==> row_check(kind@, client@, tx@, amount@, parsed) is Ok,
            r matches Err(e) ==> row_check(kind@, client@, tx@, amount@, parsed) == Err::<(), _>(e),
            r matches Ok(e) ==> row_event(e, kind@, client@, tx@, amount@, parsed),
    {
        let is_deposit = text_eq(kind, "deposit");
        let is_withdrawal = text_eq(kind, "withdrawal");
        let is_dispute = text_eq(kind, "dispute");
        let is_resolve = text_eq(kind, "resolve");
        let is_chargeback = text_eq(kind, "chargeback");
        if !(is_deposit || is_withdrawal || is_dispute || is_resolve || is_chargeback) {
            return Err(RowError::UnknownType);
        }
        let client_id = match parse_uint(client, 0xffff) {
            Some(v) => v as u16,
            None => return Err(RowError::InvalidClient),
        };
        let txn_id = match parse_uint(tx, 0xffff_ffff) {
            Some(v) => v as u32,
            None => return Err(RowError::InvalidTxn),
        };
        let value: Option<PositiveDecimal> = if amount.unicode_len() == 0 {
            None
        } else {
            match parsed {
                Some((m, s)) => match PositiveDecimal::from_parts(m, s) {
                    Ok(p) => Some(p),
                    Err(_) => return Err(RowError::InvalidAmount),
                },
                None => return Err(RowError::InvalidAmount),
            }
        };
        let detail = if is_deposit {
            match value {
                Some(p) => TxnEventDetail::Deposit { amount: p },
                None => return Err(RowError::MissingAmount),
            }
        } else if is_withdrawal {
            match value {
                Some(p) => TxnEventDetail::Withdrawal { amount: p },
                None => return Err(RowError::MissingAmount),
            }
        } else if is_dispute {
            TxnEventDetail::Dispute
        } else if is_resolve {
            TxnEventDetail::Resolve
        } else {
            TxnEventDetail::Chargeback
        };
        Ok(TxnEvent { client_id, txn_id, detail })
    }

    /// Decodes a row from its four fields (`type`, `client`, `tx`, `amount`), reading the
    /// amount as a decimal with `rust_decimal`.
    pub fn from_row(kind: &str, client: &str, tx: &str, amount: &str) -> (r: Result<
        TxnEvent,
        RowError,
    >)
        ensures
            r is Ok <==> row_check(kind@, client@, tx@, amount@, decimal_from_str(amount@)) is Ok,
            r matches Err(e) ==> row_check(kind@, client@, tx@, amount@, decimal_from_str(amount@))
                == Err::<(), _>(e),
            r matches Ok(e) ==> row_event(e, kind@, client@, tx@, amount@, decimal_from_str(amount@)),
    {
        let parsed = read_decimal(amount);
        TxnEvent::decode_row(kind, client, tx, amount, parsed)
    }
}

} // verus!
