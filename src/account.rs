//! One client's account: balances, lock, and the transactions open to dispute.

use crate::decimal::{diff_spec, sum_spec, Amount, PositiveDecimal};
use crate::txn::{Txn, TxnType};
use crate::types::{ClientId, TxnId};
use std::collections::HashMap;
use vstd::prelude::*;

verus! {

broadcast use vstd::std_specs::hash::group_hash_axioms;

/// Why an operation on the ledger was not applied. The ledger is left unchanged.
#[derive(Clone, Copy, Debug, PartialEq, Eq, Structural)]
pub enum LedgerError {
    /// No account exists for the client.
    UnknownClient,
    /// The account was locked by a chargeback.
    AccountLocked,
    /// The transaction is not open to dispute, or not under dispute.
    TransactionNotFound,
    /// The available funds are below the amount to withdraw.
    InsufficientFunds,
    /// A balance would leave the range of representable decimals.
    Overflow,
}

/// The balances of an account at a point in time. `available` and `held` may be
/// negative after a disputed withdrawal.
#[derive(Clone, Copy, Debug, PartialEq, Eq, Structural)]
pub struct AccountSnapshot {
    pub available: Amount,
    pub held: Amount,
    pub locked: bool,
}

/// The summary of one client's account, as written out.
#[derive(Clone, Copy, Debug, PartialEq, Eq, Structural)]
pub struct ClientAccountSnapshot {
    pub client_id: ClientId,
    pub available: Amount,
    pub held: Amount,
    pub total: Amount,
    pub locked: bool,
}

impl AccountSnapshot {
    /// Representable balances whose total is representable too.
    pub open spec fn wf(self) -> bool {
        &&& self.available.wf()
        &&& self.held.wf()
        &&& sum_spec(self.available, self.held) is Some
    }

    pub open spec fn empty_spec() -> AccountSnapshot {
        AccountSnapshot {
            available: Amount::zero_spec(),
            held: Amount::zero_spec(),
            locked: false,
        }
    }

    /// `available + held`.
    pub open spec fn total_spec(self) -> Amount {
        sum_spec(self.available, self.held)->0
    }

    /// The snapshot with new balances, where both are given and their total fits.
    pub open spec fn with_balances_spec(
        self,
        available: Option<Amount>,
        held: Option<Amount>,
    ) -> Option<AccountSnapshot> {
        match (available, held) {
            (Some(a), Some(h)) => if sum_spec(a, h) is Some {
                Some(AccountSnapshot { available: a, held: h, locked: self.locked })
            } else {
                None
            },
            _ => None,
        }
    }

    /// The summary written out for this account under `client_id`.
    pub fn for_client(&self, client_id: ClientId) -> (r: ClientAccountSnapshot)
        requires
            self.wf(),
        ensures
            r == client_snapshot_spec(client_id, *self),
            r.available.wf() && r.held.wf() && r.total.wf(),
            r.total.value() == r.available.value() + r.held.value(),
    {
        ClientAccountSnapshot {
            client_id,
            available: self.available,
            held: self.held,
            total: self.total(),
            locked: self.locked,
        }
    }

    /// Zero balances, unlocked.
    pub fn empty() -> (r: AccountSnapshot)
        ensures
            r == AccountSnapshot::empty_spec(),
            r.wf(),
    {
        let r = AccountSnapshot { available: Amount::zero(), held: Amount::zero(), locked: false };
        assert(crate::decimal::pow10(0) == 1);
        r
    }

    /// `available + held`.
    pub fn total(&self) -> (r: Amount)
        requires
            self.wf(),
        ensures
            r == self.total_spec(),
            r.wf(),
            r.value() == self.available.value() + self.held.value(),
    {
        self.available.checked_add(&self.held).unwrap()
    }

    fn with_balances(&self, available: Option<Amount>, held: Option<Amount>) -> (r: Option<
        AccountSnapshot,
    >)
        requires
            available matches Some(a) ==> a.wf(),
            held matches Some(h) ==> h.wf(),
        ensures
            r == self.with_balances_spec(available, held),
            r matches Some(s) ==> s.wf(),
    {
        match (available, held) {
            (Some(a), Some(h)) => match a.checked_add(&h) {
                Some(_) => Some(AccountSnapshot { available: a, held: h, locked: self.locked }),
                None => None,
            },
            _ => None,
        }
    }
}

/// A client's account: balances, and the deposits and withdrawals kept for disputes,
/// those open to dispute (`txns`) apart from those under dispute (`held_txns`).
#[derive(Debug)]
pub struct Account {
    pub txns: HashMap<TxnId, Txn>,
    pub held_txns: HashMap<TxnId, Txn>,
    pub snapshot: AccountSnapshot,
}

/// The contents of an account.
pub ghost struct AccountView {
    pub txns: Map<TxnId, Txn>,
    pub held_txns: Map<TxnId, Txn>,
    pub snapshot: AccountSnapshot,
}

impl View for Account {
    type V = AccountView;

    open spec fn view(&self) -> AccountView {
        AccountView { txns: self.txns@, held_txns: self.held_txns@, snapshot: self.snapshot }
    }
}

/// Whether an operation went as `expected` says: applied, with `after` the new
/// contents, or refused with its error and nothing changed.
pub open spec fn applied<T>(
    before: T,
    after: T,
    r: Result<(), LedgerError>,
    expected: Result<T, LedgerError>,
) -> bool {
    match expected {
        Ok(v) => r is Ok && after == v,
        Err(e) => r == Err::<(), LedgerError>(e) && after == before,
    }
}

impl AccountView {
    /// Well-formed balances, and well-formed records.
    pub open spec fn wf(self) -> bool {
        &&& self.snapshot.wf()
        &&& forall|t: TxnId| #[trigger] self.txns.contains_key(t) ==> self.txns[t].wf()
        &&& forall|t: TxnId| #[trigger] self.held_txns.contains_key(t) ==> self.held_txns[t].wf()
    }

    /// A new account: zero balances, no records, unlocked.
    pub open spec fn empty() -> AccountView {
        AccountView {
            txns: Map::empty(),
            held_txns: Map::empty(),
            snapshot: AccountSnapshot::empty_spec(),
        }
    }

    /// A deposit: applied even to a locked account; the record under `t` is replaced.
    pub open spec fn deposit_spec(self, t: TxnId, amount: Amount) -> Result<
        AccountView,
        LedgerError,
    > {
        let s = self.snapshot;
        match s.with_balances_spec(sum_spec(s.available, amount), Some(s.held)) {
            None => Err(LedgerError::Overflow),
            Some(n) => Ok(
                AccountView {
                    txns: self.txns.insert(t, Txn { txn_type: TxnType::Deposit, amount }),
                    snapshot: n,
                    ..self
                },
            ),
        }
    }

    /// A withdrawal: refused on a locked account or where the available funds fall
    /// short of `amount`.
    pub open spec fn withdraw_spec(self, t: TxnId, amount: Amount) -> Result<
        AccountView,
        LedgerError,
    > {
        let s = self.snapshot;
        if s.locked {
            Err(LedgerError::AccountLocked)
        } else if s.available.value() < amount.value() {
            Err(LedgerError::InsufficientFunds)
        } else {
            match s.with_balances_spec(diff_spec(s.available, amount), Some(s.held)) {
                None => Err(LedgerError::Overflow),
                Some(n) => Ok(
                    AccountView {
                        txns: self.txns.insert(t, Txn { txn_type: TxnType::Withdrawal, amount }),
                        snapshot: n,
                        ..self
                    },
                ),
            }
        }
    }

    /// A dispute: the record moves from open to held, and its type-adjusted amount from
    /// available to held funds.
    pub open spec fn dispute_spec(self, t: TxnId) -> Result<AccountView, LedgerError> {
        let s = self.snapshot;
        if s.locked {
            Err(LedgerError::AccountLocked)
        } else if !self.txns.contains_key(t) {
            Err(LedgerError::TransactionNotFound)
        } else {
            let rec = self.txns[t];
            let x = rec.adjusted();
            match s.with_balances_spec(diff_spec(s.available, x), sum_spec(s.held, x)) {
                None => Err(LedgerError::Overflow),
                Some(n) => Ok(
                    AccountView {
                        txns: self.txns.remove(t),
                        held_txns: self.held_txns.insert(t, rec),
                        snapshot: n,
                    },
                ),
            }
        }
    }

    /// A resolve: the record moves back from held to open, and its type-adjusted amount
    /// from held back to available funds.
    pub open spec fn resolve_spec(self, t: TxnId) -> Result<AccountView, LedgerError> {
        let s = self.snapshot;
        if s.locked {
            Err(LedgerError::AccountLocked)
        } else if !self.held_txns.contains_key(t) {
            Err(LedgerError::TransactionNotFound)
        } else {
            let rec = self.held_txns[t];
            let x = rec.adjusted();
            match s.with_balances_spec(sum_spec(s.available, x), diff_spec(s.held, x)) {
                None => Err(LedgerError::Overflow),
                Some(n) => Ok(
                    AccountView {
                        txns: self.txns.insert(t, rec),
                        held_txns: self.held_txns.remove(t),
                        snapshot: n,
                    },
                ),
            }
        }
    }

    /// A chargeback: the record is dropped, its type-adjusted amount leaves the held
    /// funds for good, and the account is locked.
    pub open spec fn chargeback_spec(self, t: TxnId) -> Result<AccountView, LedgerError> {
        let s = self.snapshot;
        if s.locked {
            Err(LedgerError::AccountLocked)
        } else if !self.held_txns.contains_key(t) {
            Err(LedgerError::TransactionNotFound)
        } else {
            let x = self.held_txns[t].adjusted();
            match s.with_balances_spec(Some(s.available), diff_spec(s.held, x)) {
                None => Err(LedgerError::Overflow),
                Some(n) => Ok(
                    AccountView {
                        held_txns: self.held_txns.remove(t),
                        snapshot: AccountSnapshot { locked: true, ..n },
                        ..self
                    },
                ),
            }
        }
    }
}

impl Account {
    /// A new account: zero balances, no records, unlocked.
    pub fn new() -> (r: Account)
        ensures
            r@ == AccountView::empty(),
            r@.wf(),
    {
        Account { txns: HashMap::new(), held_txns: HashMap::new(), snapshot: AccountSnapshot::empty() }
    }

    /// Adds a deposit: always applied, also to a locked account (unless a balance would
    /// leave the representable range); a record under the same id is replaced.
    pub fn deposit(&mut self, txn_id: TxnId, amount: PositiveDecimal) -> (r: Result<(), LedgerError>)
        requires
            old(self)@.wf(),
        ensures
            final(self)@.wf(),
            applied(old(self)@, final(self)@, r, old(self)@.deposit_spec(txn_id, amount@)),
    {
        let a = amount.amount();
        let s = self.snapshot;
        match s.with_balances(s.available.checked_add(&a), Some(s.held)) {
            None => Err(LedgerError::Overflow),
            Some(n) => {
                self.txns.insert(txn_id, Txn { txn_type: TxnType::Deposit, amount: a });
                self.snapshot = n;
                Ok(())
            },
        }
    }

    /// Withdraws funds, where the account is not locked and has at least `amount`
    /// available.
    pub fn withdraw(&mut self, txn_id: TxnId, amount: PositiveDecimal) -> (r: Result<(), LedgerError>)
        requires
            old(self)@.wf(),
        ensures
            final(self)@.wf(),
            applied(old(self)@, final(self)@, r, old(self)@.withdraw_spec(txn_id, amount@)),
    {
        let a = amount.amount();
        let s = self.snapshot;
        if s.locked {
            return Err(LedgerError::AccountLocked);
        }
        if !s.available.ge(&a) {
            return Err(LedgerError::InsufficientFunds);
        }
        match s.with_balances(s.available.checked_sub(&a), Some(s.held)) {
            None => Err(LedgerError::Overflow),
            Some(n) => {
                self.txns.insert(txn_id, Txn { txn_type: TxnType::Withdrawal, amount: a });
                self.snapshot = n;
                Ok(())
            },
        }
    }

    /// Puts an open transaction under dispute: its type-adjusted amount moves from
    /// available to held funds.
    pub fn dispute(&mut self, txn_id: TxnId) -> (r: Result<(), LedgerError>)
        requires
            old(self)@.wf(),
        ensures
            final(self)@.wf(),
            applied(old(self)@, final(self)@, r, old(self)@.dispute_spec(txn_id)),
    {
        let s = self.snapshot;
        if s.locked {
            return Err(LedgerError::AccountLocked);
        }
        let rec = match self.txns.get(&txn_id) {
            Some(rec) => *rec,
            None => return Err(LedgerError::TransactionNotFound),
        };
        let x = rec.type_adjusted_amount();
        match s.with_balances(s.available.checked_sub(&x), s.held.checked_add(&x)) {
            None => Err(LedgerError::Overflow),
            Some(n) => {
                self.txns.remove(&txn_id);
                self.held_txns.insert(txn_id, rec);
                self.snapshot = n;
                assert(self@.txns =~= old(self)@.txns.remove(txn_id));
                Ok(())
            },
        }
    }

    /// Ends the dispute of a transaction: its type-adjusted amount moves back to the
    /// available funds, and the record is open to dispute again.
    pub fn resolve(&mut self, txn_id: TxnId) -> (r: Result<(), LedgerError>)
        requires
            old(self)@.wf(),
        ensures
            final(self)@.wf(),
            applied(old(self)@, final(self)@, r, old(self)@.resolve_spec(txn_id)),
    {
        let s = self.snapshot;
        if s.locked {
            return Err(LedgerError::AccountLocked);
        }
        let rec = match self.held_txns.get(&txn_id) {
            Some(rec) => *rec,
            None => return Err(LedgerError::TransactionNotFound),
        };
        let x = rec.type_adjusted_amount();
        match s.with_balances(s.available.checked_add(&x), s.held.checked_sub(&x)) {
            None => Err(LedgerError::Overflow),
            Some(n) => {
                self.held_txns.remove(&txn_id);
                self.txns.insert(txn_id, rec);
                self.snapshot = n;
                assert(self@.held_txns =~= old(self)@.held_txns.remove(txn_id));
                Ok(())
            },
        }
    }

    /// Charges back a disputed transaction: its type-adjusted amount leaves the held
    /// funds, the record is dropped, and the account is locked.
    pub fn chargeback(&mut self, txn_id: TxnId) -> (r: Result<(), LedgerError>)
        requires
            old(self)@.wf(),
        ensures
            final(self)@.wf(),
            applied(old(self)@, final(self)@, r, old(self)@.chargeback_spec(txn_id)),
    {
        let s = self.snapshot;
        if s.locked {
            return Err(LedgerError::AccountLocked);
        }
        let rec = match self.held_txns.get(&txn_id) {
            Some(rec) => *rec,
            None => return Err(LedgerError::TransactionNotFound),
        };
        let x = rec.type_adjusted_amount();
        match s.with_balances(Some(s.available), s.held.checked_sub(&x)) {
            None => Err(LedgerError::Overflow),
            Some(n) => {
                self.held_txns.remove(&txn_id);
                self.snapshot = AccountSnapshot { locked: true, ..n };
                assert(self@.held_txns =~= old(self)@.held_txns.remove(txn_id));
                Ok(())
            },
        }
    }
}

/// The summary of an account: its balances, their total, and its lock.
pub open spec fn client_snapshot_spec(client_id: ClientId, s: AccountSnapshot) -> ClientAccountSnapshot {
    ClientAccountSnapshot {
        client_id,
        available: s.available,
        held: s.held,
        total: s.total_spec(),
        locked: s.locked,
    }
}

} // verus!
