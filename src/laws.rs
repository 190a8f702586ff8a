//! Laws of the ledger, stated over the operations' own specifications and proved.

use crate::account::{AccountView, LedgerError};
use crate::decimal::{lemma_neg_value, lemma_sum_value, sum_spec, Amount};
use crate::payment_engine::{
    apply_spec, chargeback_ledger, deposit_ledger, dispute_ledger, ledger_wf, resolve_ledger,
    withdraw_ledger,
};
use crate::types::{ClientId, TxnEvent, TxnEventDetail, TxnId};
use vstd::prelude::*;

verus! {

/// Events applied in order to a ledger, each refused event skipped.
pub open spec fn run(l: Map<ClientId, AccountView>, es: Seq<TxnEvent>) -> Map<ClientId, AccountView>
    decreases es.len(),
{
    if es.len() == 0 {
        l
    } else {
        let prev = run(l, es.drop_last());
        match apply_spec(prev, es.last()) {
            Ok(next) => next,
            Err(_) => prev,
        }
    }
}

/// Every event is a deposit, of a representable amount above zero.
pub open spec fn all_deposits(es: Seq<TxnEvent>) -> bool {
    forall|i: int|
        0 <= i < es.len() ==> match #[trigger] es[i].detail {
            TxnEventDetail::Deposit { amount } => amount@.wf() && amount@.value() > 0,
            _ => false,
        }
}

/// Every event is applied where it comes, none refused.
pub open spec fn none_refused(l: Map<ClientId, AccountView>, es: Seq<TxnEvent>) -> bool {
    forall|i: int| 0 <= i < es.len() ==> apply_spec(run(l, es.take(i)), #[trigger] es[i]) is Ok
}

/// The amount of a deposit event (zero for any other).
pub open spec fn deposit_amount(e: TxnEvent) -> int {
    match e.detail {
        TxnEventDetail::Deposit { amount } => amount@.value(),
        _ => 0,
    }
}

/// The sum of the deposits of client `c`.
pub open spec fn deposits_of(es: Seq<TxnEvent>, c: ClientId) -> int
    decreases es.len(),
{
    if es.len() == 0 {
        0
    } else {
        deposits_of(es.drop_last(), c) + if es.last().client_id == c {
            deposit_amount(es.last())
        } else {
            0
        }
    }
}

/// After deposits alone on a new ledger, none refused, a client has an account exactly
/// where one of the deposits was theirs; its available funds and its total are the sum
/// of those deposits, nothing is held, and it is not locked.
pub proof fn lemma_deposits_only(es: Seq<TxnEvent>, c: ClientId)
    requires
        all_deposits(es),
        none_refused(Map::empty(), es),
    ensures
        run(Map::empty(), es).contains_key(c) <==> exists|i: int|
            0 <= i < es.len() && #[trigger] es[i].client_id == c,
        run(Map::empty(), es).contains_key(c) ==> {
            let s = run(Map::empty(), es)[c].snapshot;
            &&& s.available.value() == deposits_of(es, c)
            &&& s.held.value() == 0
            &&& s.total_spec().value() == deposits_of(es, c)
            &&& !s.locked
        },
    decreases es.len(),
{
    let l0 = Map::<ClientId, AccountView>::empty();
    if es.len() > 0 {
        let pre = es.drop_last();
        assert(all_deposits(pre)) by {
            assert forall|i: int| 0 <= i < pre.len() implies match #[trigger] pre[i].detail {
                TxnEventDetail::Deposit { amount } => amount@.wf() && amount@.value() > 0,
                _ => false,
            } by {
                assert(pre[i] == es[i]);
            }
        }
        assert(none_refused(l0, pre)) by {
            assert forall|i: int| 0 <= i < pre.len() implies apply_spec(
                run(l0, pre.take(i)),
                #[trigger] pre[i],
            ) is Ok by {
                assert(pre.take(i) =~= es.take(i));
                assert(pre[i] == es[i]);
            }
        }
        lemma_deposits_only(pre, c);
        lemma_run_wf(l0, pre);
        let prev = run(l0, pre);
        let e = es.last();
        assert(es.take(es.len() - 1) =~= pre);
        assert(apply_spec(prev, es[es.len() - 1]) is Ok);
        assert(all_deposits(es));
        let i_last = es.len() - 1;
        assert(match es[i_last].detail {
            TxnEventDetail::Deposit { amount } => amount@.wf() && amount@.value() > 0,
            _ => false,
        });
        if let TxnEventDetail::Deposit { amount } = e.detail {
            let a = if prev.contains_key(e.client_id) {
                prev[e.client_id]
            } else {
                AccountView::empty()
            };
            assert(a.wf()) by {
                if !prev.contains_key(e.client_id) {
                    assert(crate::decimal::pow10(0) == 1);
                }
            }
            lemma_sum_value(a.snapshot.available, amount@);
            let next = run(l0, es);
            if e.client_id == c {
                let s = next[c].snapshot;
                assert(s.available == sum_spec(a.snapshot.available, amount@)->0);
                if !prev.contains_key(c) {
                    assert(a.snapshot.available.value() == 0);
                    assert(a.snapshot.held.value() == 0);
                    assert(deposits_of(pre, c) == 0) by {
                        lemma_no_deposits(pre, c);
                    }
                }
                lemma_sum_value(s.available, s.held);
                assert(es[i_last].client_id == c);
            } else {
                assert(next == prev.insert(e.client_id, next[e.client_id]));
                if run(l0, es).contains_key(c) {
                    let i = choose|i: int| 0 <= i < pre.len() && #[trigger] pre[i].client_id == c;
                    assert(es[i].client_id == c);
                }
                if exists|i: int| 0 <= i < es.len() && #[trigger] es[i].client_id == c {
                    let i = choose|i: int| 0 <= i < es.len() && #[trigger] es[i].client_id == c;
                    assert(i != i_last);
                    assert(pre[i].client_id == c);
                }
                let s = prev[c].snapshot;
                if prev.contains_key(c) {
                    lemma_sum_value(s.available, s.held);
                }
            }
        }
    }
}

proof fn lemma_no_deposits(es: Seq<TxnEvent>, c: ClientId)
    requires
        !exists|i: int| 0 <= i < es.len() && #[trigger] es[i].client_id == c,
    ensures
        deposits_of(es, c) == 0,
    decreases es.len(),
{
    if es.len() > 0 {
        let pre = es.drop_last();
        assert forall|i: int| 0 <= i < pre.len() implies #[trigger] pre[i].client_id != c by {
            assert(pre[i] == es[i]);
        }
        lemma_no_deposits(pre, c);
        assert(es[es.len() - 1].client_id != c);
    }
}

/// Every ledger that events lead to from a well-formed one is well-formed.
pub proof fn lemma_run_wf(l: Map<ClientId, AccountView>, es: Seq<TxnEvent>)
    requires
        ledger_wf(l),
        forall|i: int| 0 <= i < es.len() ==> event_valid(#[trigger] es[i]),
    ensures
        ledger_wf(run(l, es)),
    decreases es.len(),
{
    if es.len() > 0 {
        let pre = es.drop_last();
        assert forall|i: int| 0 <= i < pre.len() implies event_valid(#[trigger] pre[i]) by {
            assert(pre[i] == es[i]);
        }
        lemma_run_wf(l, pre);
        assert(event_valid(es[es.len() - 1]));
        lemma_apply_wf(run(l, pre), es.last());
    }
}

/// The amount of a deposit or withdrawal event is representable and above zero.
pub open spec fn event_valid(e: TxnEvent) -> bool {
    match e.detail {
        TxnEventDetail::Deposit { amount } => amount@.wf() && amount@.value() > 0,
        TxnEventDetail::Withdrawal { amount } => amount@.wf() && amount@.value() > 0,
        _ => true,
    }
}

/// An applied event keeps the ledger well-formed.
pub proof fn lemma_apply_wf(l: Map<ClientId, AccountView>, e: TxnEvent)
    requires
        ledger_wf(l),
        event_valid(e),
    ensures
        apply_spec(l, e) matches Ok(n) ==> ledger_wf(n),
{
    let c = e.client_id;
    let t = e.txn_id;
    let a = if l.contains_key(c) {
        l[c]
    } else {
        AccountView::empty()
    };
    assert(a.wf()) by {
        assert(crate::decimal::pow10(0) == 1);
    }
    let s = a.snapshot;
    match e.detail {
        TxnEventDetail::Deposit { amount } => {
            if let Some(v) = sum_spec(s.available, amount@) {
                lemma_sum_value(s.available, amount@);
            }
            if let Ok(n) = apply_spec(l, e) {
                assert(n == l.insert(c, n[c]));
            }
        },
        TxnEventDetail::Withdrawal { amount } => {
            lemma_neg_value(amount@);
            if let Some(v) = sum_spec(s.available, amount@.neg_spec()) {
                lemma_sum_value(s.available, amount@.neg_spec());
            }
            if let Ok(n) = apply_spec(l, e) {
                assert(n == l.insert(c, n[c]));
            }
        },
        TxnEventDetail::Dispute => {
            if l.contains_key(c) && a.txns.contains_key(t) {
                let x = a.txns[t].adjusted();
                lemma_adjusted_wf(a.txns[t].txn_type, a.txns[t].amount);
                lemma_neg_value(x);
                if let Some(v) = sum_spec(s.available, x.neg_spec()) {
                    lemma_sum_value(s.available, x.neg_spec());
                }
                if let Some(v) = sum_spec(s.held, x) {
                    lemma_sum_value(s.held, x);
                }
            }
            if let Ok(n) = apply_spec(l, e) {
                assert(n == l.insert(c, n[c]));
            }
        },
        TxnEventDetail::Resolve => {
            if l.contains_key(c) && a.held_txns.contains_key(t) {
                let x = a.held_txns[t].adjusted();
                lemma_adjusted_wf(a.held_txns[t].txn_type, a.held_txns[t].amount);
                lemma_neg_value(x);
                if let Some(v) = sum_spec(s.available, x) {
                    lemma_sum_value(s.available, x);
                }
                if let Some(v) = sum_spec(s.held, x.neg_spec()) {
                    lemma_sum_value(s.held, x.neg_spec());
                }
            }
            if let Ok(n) = apply_spec(l, e) {
                assert(n == l.insert(c, n[c]));
            }
        },
        TxnEventDetail::Chargeback => {
            if l.contains_key(c) && a.held_txns.contains_key(t) {
                let x = a.held_txns[t].adjusted();
                lemma_adjusted_wf(a.held_txns[t].txn_type, a.held_txns[t].amount);
                lemma_neg_value(x);
                if let Some(v) = sum_spec(s.held, x.neg_spec()) {
                    lemma_sum_value(s.held, x.neg_spec());
                }
            }
            if let Ok(n) = apply_spec(l, e) {
                assert(n == l.insert(c, n[c]));
            }
        },
    }
}

/// The type-adjusted amount of a well-formed record is representable, with the value
/// of the amount, negated for a withdrawal.
pub proof fn lemma_adjusted_wf(kind: crate::txn::TxnType, amount: Amount)
    requires
        amount.wf(),
    ensures
        (crate::txn::Txn { txn_type: kind, amount }).adjusted().wf(),
        (crate::txn::Txn { txn_type: kind, amount }).adjusted().value() == (match kind {
            crate::txn::TxnType::Deposit => amount.value(),
            crate::txn::TxnType::Withdrawal => -amount.value(),
        }),
{
    lemma_neg_value(amount);
}


/// A dispute followed by a resolve of the same transaction gives the account back the
/// available and held funds it had before the dispute, whatever the kind of the
/// transaction, and puts the record back among those open to dispute. The resolve is
/// refused only where a balance leaves the representable range.
pub proof fn lemma_dispute_then_resolve(l: Map<ClientId, AccountView>, c: ClientId, t: TxnId)
    requires
        ledger_wf(l),
        dispute_ledger(l, c, t) is Ok,
    ensures
        match resolve_ledger(dispute_ledger(l, c, t)->Ok_0, c, t) {
            Ok(n) => {
                &&& n[c].snapshot.available.value() == l[c].snapshot.available.value()
                &&& n[c].snapshot.held.value() == l[c].snapshot.held.value()
                &&& n[c].snapshot.locked == l[c].snapshot.locked
                &&& n[c].txns == l[c].txns
            },
            Err(e) => e == LedgerError::Overflow,
        },
{
    let a = l[c];
    let s = a.snapshot;
    let rec = a.txns[t];
    let x = rec.adjusted();
    lemma_adjusted_wf(rec.txn_type, rec.amount);
    lemma_neg_value(x);
    lemma_sum_value(s.available, x.neg_spec());
    lemma_sum_value(s.held, x);
    let l1 = dispute_ledger(l, c, t)->Ok_0;
    let s1 = l1[c].snapshot;
    assert(l1[c].held_txns.contains_key(t) && l1[c].held_txns[t] == rec);
    if let Ok(n) = resolve_ledger(l1, c, t) {
        lemma_sum_value(s1.available, x);
        lemma_sum_value(s1.held, x.neg_spec());
        assert(n[c].txns =~= a.txns);
    }
}

/// A dispute followed by a chargeback of the same transaction locks the account, takes
/// the type-adjusted amount out of the funds for good (the available funds keep the
/// loss that the dispute made, the held funds return to what they were), and drops the
/// record. The chargeback is refused only where a balance leaves the representable range.
pub proof fn lemma_dispute_then_chargeback(l: Map<ClientId, AccountView>, c: ClientId, t: TxnId)
    requires
        ledger_wf(l),
        dispute_ledger(l, c, t) is Ok,
    ensures
        match chargeback_ledger(dispute_ledger(l, c, t)->Ok_0, c, t) {
            Ok(n) => {
                &&& n[c].snapshot.locked
                &&& n[c].snapshot.available.value() == l[c].snapshot.available.value()
                    - l[c].txns[t].adjusted().value()
                &&& n[c].snapshot.held.value() == l[c].snapshot.held.value()
                &&& n[c].snapshot.total_spec().value() == l[c].snapshot.total_spec().value()
                    - l[c].txns[t].adjusted().value()
                &&& !n[c].txns.contains_key(t)
                &&& !n[c].held_txns.contains_key(t)
            },
            Err(e) => e == LedgerError::Overflow,
        },
{
    let a = l[c];
    let s = a.snapshot;
    let rec = a.txns[t];
    let x = rec.adjusted();
    lemma_adjusted_wf(rec.txn_type, rec.amount);
    lemma_neg_value(x);
    lemma_sum_value(s.available, x.neg_spec());
    lemma_sum_value(s.held, x);
    lemma_sum_value(s.available, s.held);
    let l1 = dispute_ledger(l, c, t)->Ok_0;
    let s1 = l1[c].snapshot;
    assert(l1[c].held_txns.contains_key(t) && l1[c].held_txns[t] == rec);
    if let Ok(n) = chargeback_ledger(l1, c, t) {
        lemma_sum_value(s1.held, x.neg_spec());
        let s2 = n[c].snapshot;
        lemma_sum_value(s2.available, s2.held);
    }
}

/// Disputes and resolves move funds between available and held and leave the total of
/// the account unchanged; a chargeback changes the total by the type-adjusted amount of
/// the transaction, taken away.
pub proof fn lemma_total_under_disputes(l: Map<ClientId, AccountView>, c: ClientId, t: TxnId)
    requires
        ledger_wf(l),
    ensures
        dispute_ledger(l, c, t) matches Ok(n) ==> n[c].snapshot.total_spec().value()
            == l[c].snapshot.total_spec().value(),
        resolve_ledger(l, c, t) matches Ok(n) ==> n[c].snapshot.total_spec().value()
            == l[c].snapshot.total_spec().value(),
        chargeback_ledger(l, c, t) matches Ok(n) ==> n[c].snapshot.total_spec().value()
            == l[c].snapshot.total_spec().value() - l[c].held_txns[t].adjusted().value(),
{
    if l.contains_key(c) {
        let a = l[c];
        let s = a.snapshot;
        lemma_sum_value(s.available, s.held);
        if a.txns.contains_key(t) {
            let x = a.txns[t].adjusted();
            lemma_adjusted_wf(a.txns[t].txn_type, a.txns[t].amount);
            lemma_neg_value(x);
            if let Ok(n) = dispute_ledger(l, c, t) {
                lemma_sum_value(s.available, x.neg_spec());
                lemma_sum_value(s.held, x);
                lemma_sum_value(n[c].snapshot.available, n[c].snapshot.held);
            }
        }
        if a.held_txns.contains_key(t) {
            let x = a.held_txns[t].adjusted();
            lemma_adjusted_wf(a.held_txns[t].txn_type, a.held_txns[t].amount);
            lemma_neg_value(x);
            if let Ok(n) = resolve_ledger(l, c, t) {
                lemma_sum_value(s.available, x);
                lemma_sum_value(s.held, x.neg_spec());
                lemma_sum_value(n[c].snapshot.available, n[c].snapshot.held);
            }
            if let Ok(n) = chargeback_ledger(l, c, t) {
                lemma_sum_value(s.held, x.neg_spec());
                lemma_sum_value(n[c].snapshot.available, n[c].snapshot.held);
            }
        }
    }
}

/// On a locked account, withdrawals, disputes, resolves and chargebacks are refused with
/// `AccountLocked` and change nothing; a deposit is still applied (unless a balance
/// leaves the representable range), adds its amount to the available funds, and leaves
/// the account locked.
pub proof fn lemma_locked_account(
    l: Map<ClientId, AccountView>,
    c: ClientId,
    t: TxnId,
    amount: Amount,
)
    requires
        ledger_wf(l),
        l.contains_key(c),
        l[c].snapshot.locked,
        amount.wf(),
        amount.value() > 0,
    ensures
        withdraw_ledger(l, c, t, amount) == Err::<Map<ClientId, AccountView>, _>(
            LedgerError::AccountLocked,
        ),
        dispute_ledger(l, c, t) == Err::<Map<ClientId, AccountView>, _>(LedgerError::AccountLocked),
        resolve_ledger(l, c, t) == Err::<Map<ClientId, AccountView>, _>(LedgerError::AccountLocked),
        chargeback_ledger(l, c, t) == Err::<Map<ClientId, AccountView>, _>(
            LedgerError::AccountLocked,
        ),
        match deposit_ledger(l, c, t, amount) {
            Ok(n) => {
                &&& n[c].snapshot.locked
                &&& n[c].snapshot.available.value() == l[c].snapshot.available.value()
                    + amount.value()
                &&& n[c].snapshot.held == l[c].snapshot.held
            },
            Err(e) => e == LedgerError::Overflow,
        },
{
    let s = l[c].snapshot;
    if let Ok(n) = deposit_ledger(l, c, t, amount) {
        lemma_sum_value(s.available, amount);
    }
}

/// A lock is never lifted: whatever event comes, a locked account stays locked.
pub proof fn lemma_lock_persists(l: Map<ClientId, AccountView>, e: TxnEvent, c: ClientId)
    requires
        l.contains_key(c),
        l[c].snapshot.locked,
    ensures
        apply_spec(l, e) matches Ok(n) ==> n.contains_key(c) && n[c].snapshot.locked,
{
}

} // verus!
