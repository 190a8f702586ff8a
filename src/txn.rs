//! The record kept of each deposit and withdrawal, for later disputes.

use crate::decimal::Amount;
use vstd::prelude::*;

verus! {

/// The kind of a transaction that moved funds.
#[derive(Clone, Copy, Debug, PartialEq, Eq, Structural)]
pub enum TxnType {
    Deposit,
    Withdrawal,
}

/// A transaction kept for disputes: its kind and its (positive) amount.
#[derive(Clone, Copy, Debug, PartialEq, Eq, Structural)]
pub struct Txn {
    pub txn_type: TxnType,
    pub amount: Amount,
}

impl Txn {
    /// A well-formed record: a representable amount above zero.
    pub open spec fn wf(self) -> bool {
        self.amount.wf() && self.amount.value() > 0
    }

    /// The amount moved between available and held funds when the transaction is
    /// disputed: the amount of a deposit, the negated amount of a withdrawal.
    pub open spec fn adjusted(self) -> Amount {
        match self.txn_type {
            TxnType::Deposit => self.amount,
            TxnType::Withdrawal => self.amount.neg_spec(),
        }
    }

    /// The type-adjusted amount: `+amount` for a deposit, `-amount` for a withdrawal.
    pub fn type_adjusted_amount(&self) -> (r: Amount)
        requires
            self.amount.wf(),
        ensures
            r == self.adjusted(),
            r.wf(),
            r.value() == (match self.txn_type {
                TxnType::Deposit => self.amount.value(),
                TxnType::Withdrawal => -self.amount.value(),
            }),
    {
        match self.txn_type {
            TxnType::Deposit => self.amount,
            TxnType::Withdrawal => self.amount.neg(),
        }
    }
}

} // verus!
