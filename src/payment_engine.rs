//! The ledger store: accounts by client, the five operations, and snapshots.

use crate::account::{
    applied, client_snapshot_spec, Account, AccountSnapshot, AccountView, ClientAccountSnapshot,
    LedgerError,
};
use crate::decimal::{Amount, PositiveDecimal};
use crate::types::{ClientId, TxnEvent, TxnEventDetail, TxnId};
use dashmap::DashMap;
use itertools::Itertools;
use vstd::prelude::*;

verus! {

#[verifier::external_type_specification]
#[verifier::external_body]
#[verifier::reject_recursive_types(K)]
#[verifier::reject_recursive_types(V)]
#[verifier::reject_recursive_types(S)]
pub struct ExDashMap<K, V, S>(DashMap<K, V, S>);

/// The table of accounts, by client.
pub type AccountTable = DashMap<ClientId, Account>;

/// The accounts that a table holds, by client.
pub uninterp spec fn table_contents(m: AccountTable) -> Map<ClientId, Account>;

/// Relies on `dashmap::DashMap::new`: a new map holds no entry.
#[verifier::external_body]
fn table_new() -> (r: AccountTable)
    ensures
        table_contents(r) =~= Map::empty(),
{
    DashMap::new()
}

/// Relies on `dashmap::DashMap::remove`: the entry of `client` leaves the map, and its
/// value is handed back; `None` where there was none.
#[verifier::external_body]
fn table_remove(m: &mut AccountTable, client: ClientId) -> (r: Option<Account>)
    ensures
        table_contents(*final(m)) == table_contents(*old(m)).remove(client),
        r == table_contents(*old(m)).get(client),
{
    m.remove(&client).map(|(_, acc)| acc)
}

/// Relies on `dashmap::DashMap::insert`: `client` maps to `acc` afterwards, the other
/// entries unchanged.
#[verifier::external_body]
fn table_insert(m: &mut AccountTable, client: ClientId, acc: Account)
    ensures
        table_contents(*final(m)) == table_contents(*old(m)).insert(client, acc),
{
    m.insert(client, acc);
}

/// Relies on `dashmap::DashMap::iter`: it visits every entry of the map once, in an order
/// that the map does not state; each entry gives its client and its balances.
#[verifier::external_body]
fn table_balances(m: &AccountTable) -> (r: Vec<(ClientId, AccountSnapshot)>)
    ensures
        r@.len() == table_contents(*m).dom().len(),
        forall|i: int|
            0 <= i < r@.len() ==> table_contents(*m).contains_key(#[trigger] r@[i].0) && r@[i].1
                == table_contents(*m)[r@[i].0].snapshot,
        forall|c: ClientId| #[trigger]
            table_contents(*m).contains_key(c) ==> exists|i: int| 0 <= i < r@.len() && r@[i].0 == c,
        forall|i: int, j: int| 0 <= i < j < r@.len() ==> r@[i].0 != r@[j].0,
{
    m.iter().map(|e| (*e.key(), e.value().snapshot)).collect()
}

/// Relies on `itertools::Itertools::sorted_unstable_by_key`: the same items, ordered by
/// client.
#[verifier::external_body]
fn sort_by_client(v: Vec<(ClientId, AccountSnapshot)>) -> (r: Vec<(ClientId, AccountSnapshot)>)
    ensures
        r@.to_multiset() == v@.to_multiset(),
        forall|i: int, j: int| 0 <= i <= j < r@.len() ==> r@[i].0 <= r@[j].0,
{
    v.into_iter().sorted_unstable_by_key(|x| x.0).collect()
}

/// Every account of a ledger well-formed.
pub open spec fn ledger_wf(l: Map<ClientId, AccountView>) -> bool {
    forall|c: ClientId| #[trigger] l.contains_key(c) ==> l[c].wf()
}

/// The account of `c`, or a new one.
pub open spec fn account_or_new(l: Map<ClientId, AccountView>, c: ClientId) -> AccountView {
    if l.contains_key(c) {
        l[c]
    } else {
        AccountView::empty()
    }
}

/// The ledger with the outcome of an operation on the account of `c`.
pub open spec fn with_account(
    l: Map<ClientId, AccountView>,
    c: ClientId,
    r: Result<AccountView, LedgerError>,
) -> Result<Map<ClientId, AccountView>, LedgerError> {
    match r {
        Ok(a) => Ok(l.insert(c, a)),
        Err(e) => Err(e),
    }
}

/// A deposit, which opens the account of a new client.
pub open spec fn deposit_ledger(
    l: Map<ClientId, AccountView>,
    c: ClientId,
    t: TxnId,
    amount: Amount,
) -> Result<Map<ClientId, AccountView>, LedgerError> {
    with_account(l, c, account_or_new(l, c).deposit_spec(t, amount))
}

pub open spec fn withdraw_ledger(
    l: Map<ClientId, AccountView>,
    c: ClientId,
    t: TxnId,
    amount: Amount,
) -> Result<Map<ClientId, AccountView>, LedgerError> {
    if !l.contains_key(c) {
        Err(LedgerError::UnknownClient)
    } else {
        with_account(l, c, l[c].withdraw_spec(t, amount))
    }
}

pub open spec fn dispute_ledger(l: Map<ClientId, AccountView>, c: ClientId, t: TxnId) -> Result<
    Map<ClientId, AccountView>,
    LedgerError,
> {
    if !l.contains_key(c) {
        Err(LedgerError::UnknownClient)
    } else {
        with_account(l, c, l[c].dispute_spec(t))
    }
}

pub open spec fn resolve_ledger(l: Map<ClientId, AccountView>, c: ClientId, t: TxnId) -> Result<
    Map<ClientId, AccountView>,
    LedgerError,
> {
    if !l.contains_key(c) {
        Err(LedgerError::UnknownClient)
    } else {
        with_account(l, c, l[c].resolve_spec(t))
    }
}

pub open spec fn chargeback_ledger(l: Map<ClientId, AccountView>, c: ClientId, t: TxnId) -> Result<
    Map<ClientId, AccountView>,
    LedgerError,
> {
    if !l.contains_key(c) {
        Err(LedgerError::UnknownClient)
    } else {
        with_account(l, c, l[c].chargeback_spec(t))
    }
}

/// An event, by its kind.
pub open spec fn apply_spec(l: Map<ClientId, AccountView>, e: TxnEvent) -> Result<
    Map<ClientId, AccountView>,
    LedgerError,
> {
    match e.detail {
        TxnEventDetail::Deposit { amount } => deposit_ledger(l, e.client_id, e.txn_id, amount@),
        TxnEventDetail::Withdrawal { amount } => withdraw_ledger(l, e.client_id, e.txn_id, amount@),
        TxnEventDetail::Dispute => dispute_ledger(l, e.client_id, e.txn_id),
        TxnEventDetail::Resolve => resolve_ledger(l, e.client_id, e.txn_id),
        TxnEventDetail::Chargeback => chargeback_ledger(l, e.client_id, e.txn_id),
    }
}

/// One summary per client of the ledger, in ascending order of client.
pub open spec fn is_snapshot_list(l: Map<ClientId, AccountView>, s: Seq<ClientAccountSnapshot>) -> bool {
    &&& forall|i: int, j: int| 0 <= i < j < s.len() ==> s[i].client_id < s[j].client_id
    &&& forall|i: int|
        0 <= i < s.len() ==> l.contains_key(#[trigger] s[i].client_id) && s[i]
            == client_snapshot_spec(s[i].client_id, l[s[i].client_id].snapshot)
    &&& forall|c: ClientId| #[trigger]
        l.contains_key(c) ==> exists|i: int| 0 <= i < s.len() && s[i].client_id == c
}

/// A ledger of client accounts. Each operation is applied whole or not at all: a refused
/// one returns its `LedgerError` and leaves every account as it was.
pub trait PaymentEngine {
    /// The accounts, by client.
    spec fn ledger(&self) -> Map<ClientId, AccountView>;

    /// Deposits into the account of `client_id`, opening it where it is new.
    fn deposit(&mut self, client_id: ClientId, txn_id: TxnId, amount: PositiveDecimal) -> (r:
        Result<(), LedgerError>)
        requires
            ledger_wf(old(self).ledger()),
        ensures
            ledger_wf(final(self).ledger()),
            applied(
                old(self).ledger(),
                final(self).ledger(),
                r,
                deposit_ledger(old(self).ledger(), client_id, txn_id, amount@),
            ),
    ;

    /// Withdraws from the account of `client_id`.
    fn withdraw(&mut self, client_id: ClientId, txn_id: TxnId, amount: PositiveDecimal) -> (r:
        Result<(), LedgerError>)
        requires
            ledger_wf(old(self).ledger()),
        ensures
            ledger_wf(final(self).ledger()),
            applied(
                old(self).ledger(),
                final(self).ledger(),
                r,
                withdraw_ledger(old(self).ledger(), client_id, txn_id, amount@),
            ),
    ;

    /// Disputes transaction `txn_id` of client `client_id`.
    fn dispute(&mut self, client_id: ClientId, txn_id: TxnId) -> (r: Result<(), LedgerError>)
        requires
            ledger_wf(old(self).ledger()),
        ensures
            ledger_wf(final(self).ledger()),
            applied(
                old(self).ledger(),
                final(self).ledger(),
                r,
                dispute_ledger(old(self).ledger(), client_id, txn_id),
            ),
    ;

    /// Resolves the dispute of transaction `txn_id` of client `client_id`.
    fn resolve(&mut self, client_id: ClientId, txn_id: TxnId) -> (r: Result<(), LedgerError>)
        requires
            ledger_wf(old(self).ledger()),
        ensures
            ledger_wf(final(self).ledger()),
            applied(
                old(self).ledger(),
                final(self).ledger(),
                r,
                resolve_ledger(old(self).ledger(), client_id, txn_id),
            ),
    ;

    /// Charges back transaction `txn_id` of client `client_id`, locking the account.
    fn chargeback(&mut self, client_id: ClientId, txn_id: TxnId) -> (r: Result<(), LedgerError>)
        requires
            ledger_wf(old(self).ledger()),
        ensures
            ledger_wf(final(self).ledger()),
            applied(
                old(self).ledger(),
                final(self).ledger(),
                r,
                chargeback_ledger(old(self).ledger(), client_id, txn_id),
            ),
    ;

    /// One summary per client, in ascending order of client.
    fn snapshots(&self) -> (r: Vec<ClientAccountSnapshot>)
        requires
            ledger_wf(self.ledger()),
        ensures
            is_snapshot_list(self.ledger(), r@),
            forall|i: int| 0 <= i < r@.len() ==> (#[trigger] r@[i]).wf(),
    ;

    /// Applies an event by its kind.
    fn add_event(&mut self, event: TxnEvent) -> (r: Result<(), LedgerError>)
        requires
            ledger_wf(old(self).ledger()),
        ensures
            ledger_wf(final(self).ledger()),
            applied(old(self).ledger(), final(self).ledger(), r, apply_spec(old(self).ledger(), event)),
    {
        match event.detail {
            TxnEventDetail::Deposit { amount } => self.deposit(event.client_id, event.txn_id, amount),
            TxnEventDetail::Withdrawal { amount } => self.withdraw(event.client_id, event.txn_id, amount),
            TxnEventDetail::Dispute => self.dispute(event.client_id, event.txn_id),
            TxnEventDetail::Resolve => self.resolve(event.client_id, event.txn_id),
            TxnEventDetail::Chargeback => self.chargeback(event.client_id, event.txn_id),
        }
    }
}


/// The contents of a table, account by account.
pub open spec fn accounts_view(m: Map<ClientId, Account>) -> Map<ClientId, AccountView> {
    m.map_values(|a: Account| a@)
}

proof fn lemma_view_put_back(m: Map<ClientId, Account>, c: ClientId, acc: Account)
    ensures
        accounts_view(m.remove(c).insert(c, acc)) == accounts_view(m).insert(c, acc@),
        !m.contains_key(c) ==> m.remove(c) == m && !accounts_view(m).contains_key(c),
        m.contains_key(c) ==> accounts_view(m).contains_key(c) && accounts_view(m)[c] == m[c]@,
        m.contains_key(c) && acc@ == m[c]@ ==> accounts_view(m.remove(c).insert(c, acc))
            == accounts_view(m),
{
    assert(accounts_view(m.remove(c).insert(c, acc)) =~= accounts_view(m).insert(c, acc@));
    if !m.contains_key(c) {
        assert(m.remove(c) =~= m);
    }
    if m.contains_key(c) && acc@ == m[c]@ {
        assert(accounts_view(m).insert(c, acc@) =~= accounts_view(m));
    }
}

proof fn lemma_remove_absent(m: Map<ClientId, Account>, c: ClientId)
    requires
        !m.contains_key(c),
    ensures
        m.remove(c) == m,
        !accounts_view(m).contains_key(c),
{
    assert(m.remove(c) =~= m);
}

/// What comes out of sorting the balances of a table: distinct clients in ascending
/// order, each with its balances, and every client of the table.
proof fn lemma_sorted_balances(
    m: Map<ClientId, Account>,
    v: Seq<(ClientId, AccountSnapshot)>,
    r: Seq<(ClientId, AccountSnapshot)>,
)
    requires
        forall|i: int|
            0 <= i < v.len() ==> m.contains_key(#[trigger] v[i].0) && v[i].1 == m[v[i].0].snapshot,
        forall|c: ClientId| #[trigger]
            m.contains_key(c) ==> exists|i: int| 0 <= i < v.len() && v[i].0 == c,
        forall|i: int, j: int| 0 <= i < j < v.len() ==> v[i].0 != v[j].0,
        r.to_multiset() == v.to_multiset(),
        forall|i: int, j: int| 0 <= i <= j < r.len() ==> r[i].0 <= r[j].0,
    ensures
        forall|i: int, j: int| 0 <= i < j < r.len() ==> r[i].0 < r[j].0,
        forall|i: int|
            0 <= i < r.len() ==> m.contains_key(#[trigger] r[i].0) && r[i].1 == m[r[i].0].snapshot,
        forall|c: ClientId| #[trigger]
            m.contains_key(c) ==> exists|i: int| 0 <= i < r.len() && r[i].0 == c,
{
    broadcast use vstd::seq_lib::group_to_multiset_ensures;

    assert(v.no_duplicates()) by {
        assert forall|i: int, j: int| 0 <= i < v.len() && 0 <= j < v.len() && i != j implies v[i]
            != v[j] by {
            if i < j {
                assert(v[i].0 != v[j].0);
            } else {
                assert(v[j].0 != v[i].0);
            }
        }
    }
    v.lemma_multiset_has_no_duplicates();
    r.lemma_multiset_has_no_duplicates_conv();
    assert forall|i: int| 0 <= i < r.len() implies v.contains(r[i]) by {
        assert(r.contains(r[i]));
        assert(r.to_multiset().count(r[i]) > 0);
    }
    assert forall|i: int, j: int| 0 <= i < j < r.len() implies r[i].0 < r[j].0 by {
        assert(r[i].0 <= r[j].0);
        if r[i].0 == r[j].0 {
            assert(v.contains(r[i]));
            assert(v.contains(r[j]));
            let a = choose|a: int| 0 <= a < v.len() && v[a] == r[i];
            let b = choose|b: int| 0 <= b < v.len() && v[b] == r[j];
            if a < b {
                assert(v[a].0 != v[b].0);
            } else if b < a {
                assert(v[b].0 != v[a].0);
            }
            assert(r[i] == r[j]);
        }
    }
    assert forall|i: int| 0 <= i < r.len() implies m.contains_key(#[trigger] r[i].0) && r[i].1
        == m[r[i].0].snapshot by {
        assert(v.contains(r[i]));
        let a = choose|a: int| 0 <= a < v.len() && v[a] == r[i];
        assert(m.contains_key(v[a].0));
    }
    assert forall|c: ClientId| #[trigger] m.contains_key(c) implies exists|i: int|
        0 <= i < r.len() && r[i].0 == c by {
        let a = choose|a: int| 0 <= a < v.len() && v[a].0 == c;
        assert(v.contains(v[a]));
        assert(v.to_multiset().count(v[a]) > 0);
        assert(r.contains(v[a]));
        let k = choose|k: int| 0 <= k < r.len() && r[k] == v[a];
        assert(r[k].0 == c);
    }
}

/// A ledger held in memory, in a concurrent map of accounts by client.
pub struct InMemoryPaymentEngine {
    accs: AccountTable,
}

impl InMemoryPaymentEngine {
    /// An empty ledger.
    pub fn new() -> (r: InMemoryPaymentEngine)
        ensures
            r.ledger() == Map::<ClientId, AccountView>::empty(),
            ledger_wf(r.ledger()),
    {
        let r = InMemoryPaymentEngine { accs: table_new() };
        assert(r.ledger() =~= Map::<ClientId, AccountView>::empty());
        r
    }
}

impl Default for InMemoryPaymentEngine {
    fn default() -> (r: InMemoryPaymentEngine)
        ensures
            r.ledger() == Map::<ClientId, AccountView>::empty(),
            ledger_wf(r.ledger()),
    {
        InMemoryPaymentEngine::new()
    }
}

impl PaymentEngine for InMemoryPaymentEngine {
    closed spec fn ledger(&self) -> Map<ClientId, AccountView> {
        accounts_view(table_contents(self.accs))
    }

    fn deposit(&mut self, client_id: ClientId, txn_id: TxnId, amount: PositiveDecimal) -> (r:
        Result<(), LedgerError>) {
        let ghost before = table_contents(self.accs);
        let existing = table_remove(&mut self.accs, client_id);
        let had = existing.is_some();
        let mut acc = match existing {
            Some(a) => a,
            None => Account::new(),
        };
        let r = acc.deposit(txn_id, amount);
        if had || r.is_ok() {
            table_insert(&mut self.accs, client_id, acc);
        }
        proof {
            lemma_view_put_back(before, client_id, acc);
        }
        r
    }

    fn withdraw(&mut self, client_id: ClientId, txn_id: TxnId, amount: PositiveDecimal) -> (r:
        Result<(), LedgerError>) {
        let ghost before = table_contents(self.accs);
        match table_remove(&mut self.accs, client_id) {
            None => {
                proof {
                    lemma_remove_absent(before, client_id);
                }
                Err(LedgerError::UnknownClient)
            },
            Some(mut acc) => {
                let r = acc.withdraw(txn_id, amount);
                table_insert(&mut self.accs, client_id, acc);
                proof {
                    lemma_view_put_back(before, client_id, acc);
                }
                r
            },
        }
    }

    fn dispute(&mut self, client_id: ClientId, txn_id: TxnId) -> (r: Result<(), LedgerError>) {
        let ghost before = table_contents(self.accs);
        match table_remove(&mut self.accs, client_id) {
            None => {
                proof {
                    lemma_remove_absent(before, client_id);
                }
                Err(LedgerError::UnknownClient)
            },
            Some(mut acc) => {
                let r = acc.dispute(txn_id);
                table_insert(&mut self.accs, client_id, acc);
                proof {
                    lemma_view_put_back(before, client_id, acc);
                }
                r
            },
        }
    }

    fn resolve(&mut self, client_id: ClientId, txn_id: TxnId) -> (r: Result<(), LedgerError>) {
        let ghost before = table_contents(self.accs);
        match table_remove(&mut self.accs, client_id) {
            None => {
                proof {
                    lemma_remove_absent(before, client_id);
                }
                Err(LedgerError::UnknownClient)
            },
            Some(mut acc) => {
                let r = acc.resolve(txn_id);
                table_insert(&mut self.accs, client_id, acc);
                proof {
                    lemma_view_put_back(before, client_id, acc);
                }
                r
            },
        }
    }

    fn chargeback(&mut self, client_id: ClientId, txn_id: TxnId) -> (r: Result<(), LedgerError>) {
        let ghost before = table_contents(self.accs);
        match table_remove(&mut self.accs, client_id) {
            None => {
                proof {
                    lemma_remove_absent(before, client_id);
                }
                Err(LedgerError::UnknownClient)
            },
            Some(mut acc) => {
                let r = acc.chargeback(txn_id);
                table_insert(&mut self.accs, client_id, acc);
                proof {
                    lemma_view_put_back(before, client_id, acc);
                }
                r
            },
        }
    }

    fn snapshots(&self) -> (r: Vec<ClientAccountSnapshot>) {
        let pairs = table_balances(&self.accs);
        let sorted = sort_by_client(pairs);
        proof {
            lemma_sorted_balances(table_contents(self.accs), pairs@, sorted@);
        }
        let mut out: Vec<ClientAccountSnapshot> = Vec::new();
        let mut i: usize = 0;
        while i < sorted.len()
            invariant
                i <= sorted@.len(),
                out@.len() == i,
                ledger_wf(self.ledger()),
                forall|k: int|
                    0 <= k < sorted@.len() ==> table_contents(self.accs).contains_key(
                        #[trigger] sorted@[k].0,
                    ) && sorted@[k].1 == table_contents(self.accs)[sorted@[k].0].snapshot,
                forall|k: int, j: int| 0 <= k < j < sorted@.len() ==> sorted@[k].0 < sorted@[j].0,
                forall|c: ClientId| #[trigger]
                    table_contents(self.accs).contains_key(c) ==> exists|k: int|
                        0 <= k < sorted@.len() && sorted@[k].0 == c,
                forall|k: int|
                    0 <= k < i ==> #[trigger] out@[k] == client_snapshot_spec(
                        sorted@[k].0,
                        sorted@[k].1,
                    ) && out@[k].wf(),
            decreases sorted@.len() - i,
        {
            let (c, s) = sorted[i];
            assert(self.ledger().contains_key(c));
            out.push(s.for_client(c));
            i = i + 1;
        }
        proof {
            let l = self.ledger();
            let m = table_contents(self.accs);
            assert forall|k: int| 0 <= k < out@.len() implies l.contains_key(
                #[trigger] out@[k].client_id,
            ) && out@[k] == client_snapshot_spec(out@[k].client_id, l[out@[k].client_id].snapshot) by {
                assert(m.contains_key(sorted@[k].0));
            }
            assert forall|c: ClientId| #[trigger] l.contains_key(c) implies exists|k: int|
                0 <= k < out@.len() && out@[k].client_id == c by {
                assert(m.contains_key(c));
                let k = choose|k: int| 0 <= k < sorted@.len() && sorted@[k].0 == c;
                assert(out@[k].client_id == c);
            }
            assert forall|k: int, j: int| 0 <= k < j < out@.len() implies out@[k].client_id
                < out@[j].client_id by {
                assert(out@[k] == client_snapshot_spec(sorted@[k].0, sorted@[k].1));
                assert(out@[j] == client_snapshot_spec(sorted@[j].0, sorted@[j].1));
            }
        }
        out
    }
}

} // verus!
