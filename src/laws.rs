//! Laws of the ledger: what holds of every ledger and every run of records.

use crate::behaviors::{deposit_spec, dispute_spec, referenced_deposit, resolve_spec};
use crate::processor::{ClientId, Ledger, Transaction, TransactionData, MAX_BALANCE};
use vstd::prelude::*;

verus! {

/// The ledger after the records `ts`, applied to `l` in order.
pub open spec fn replay(l: Ledger, ts: Seq<Transaction>) -> Ledger
    decreases ts.len(),
{
    if ts.len() == 0 {
        l
    } else {
        replay(l, ts.drop_last()).apply(ts.last())
    }
}

/// What the record `t` says.
pub open spec fn data_of(t: Transaction) -> TransactionData {
    match t {
        Transaction::Deposit(d) => d,
        Transaction::Withdrawal(d) => d,
        Transaction::Dispute(d) => d,
        Transaction::Resolve(d) => d,
        Transaction::Chargeback(d) => d,
    }
}

/// The amount of `t` in ten-thousandths; zero where it has none.
pub open spec fn amount_of(t: Transaction) -> int {
    match data_of(t).amount {
        Some(a) => a.units as int,
        None => 0,
    }
}

/// The sum of the amounts of `ts`.
pub open spec fn sum_of_amounts(ts: Seq<Transaction>) -> int
    decreases ts.len(),
{
    if ts.len() == 0 {
        0
    } else {
        sum_of_amounts(ts.drop_last()) + amount_of(ts.last())
    }
}

/// The funds available to `c` in `l`; zero where `c` has no account.
pub open spec fn available_of(l: Ledger, c: ClientId) -> int {
    if l.accounts.contains_key(c) {
        l.accounts[c].available.units as int
    } else {
        0
    }
}

/// The funds of `c` held in `l`; zero where `c` has no account.
pub open spec fn held_of(l: Ledger, c: ClientId) -> int {
    if l.accounts.contains_key(c) {
        l.accounts[c].held.units as int
    } else {
        0
    }
}

/// Whether `c` has a frozen account in `l`.
pub open spec fn is_frozen(l: Ledger, c: ClientId) -> bool {
    l.accounts.contains_key(c) && l.accounts[c].frozen
}

/// `ts` are deposits to `c` of non-negative amounts, under distinct ids that
/// `l` has not recorded.
pub open spec fn fresh_deposits_to(l: Ledger, c: ClientId, ts: Seq<Transaction>) -> bool {
    &&& forall|k: int|
        0 <= k < ts.len() ==> {
            &&& #[trigger] ts[k] is Deposit
            &&& data_of(ts[k]).client == c
            &&& data_of(ts[k]).amount is Some
            &&& amount_of(ts[k]) >= 0
            &&& !l.transactions.contains_key(data_of(ts[k]).transaction)
        }
    &&& forall|j: int, k: int|
        #![trigger ts[j], ts[k]]
        0 <= j < k < ts.len() ==> data_of(ts[j]).transaction != data_of(ts[k]).transaction
}

proof fn lemma_deposits_accumulate(l: Ledger, c: ClientId, ts: Seq<Transaction>)
    requires
        l.wf(),
        fresh_deposits_to(l, c, ts),
        !is_frozen(l, c),
        available_of(l, c) + held_of(l, c) + sum_of_amounts(ts) <= MAX_BALANCE,
    ensures
        sum_of_amounts(ts) >= 0,
        available_of(replay(l, ts), c) == available_of(l, c) + sum_of_amounts(ts),
        held_of(replay(l, ts), c) == held_of(l, c),
        !is_frozen(replay(l, ts), c),
        replay(l, ts).accounts.contains_key(c) ==> replay(l, ts).accounts[c].wf(),
        forall|k: int|
            0 <= k < ts.len() ==> #[trigger] replay(l, ts).transactions.contains_key(
                data_of(ts[k]).transaction,
            ),
        forall|id: u32|
            #[trigger] replay(l, ts).transactions.contains_key(id) ==> l.transactions.contains_key(
                id,
            ) || exists|k: int| 0 <= k < ts.len() && data_of(ts[k]).transaction == id,
    decreases ts.len(),
{
    if ts.len() > 0 {
        let prefix = ts.drop_last();
        let last = ts.last();
        assert forall|k: int| 0 <= k < prefix.len() implies #[trigger] prefix[k] == ts[k] by {}
        assert(fresh_deposits_to(l, c, prefix)) by {
            assert forall|j: int, k: int|
                #![trigger prefix[j], prefix[k]]
                0 <= j < k < prefix.len() implies data_of(prefix[j]).transaction != data_of(
                    prefix[k],
                ).transaction by {
                assert(prefix[j] == ts[j]);
                assert(prefix[k] == ts[k]);
            }
        }
        assert(ts[ts.len() - 1] is Deposit);
        lemma_deposits_accumulate(l, c, prefix);
        let before = replay(l, prefix);
        let id = data_of(last).transaction;
        assert(!before.transactions.contains_key(id)) by {
            if before.transactions.contains_key(id) {
                assert(!l.transactions.contains_key(data_of(ts[ts.len() - 1]).transaction));
                let k = choose|k: int| 0 <= k < prefix.len() && data_of(prefix[k]).transaction == id;
                assert(ts[k] == prefix[k]);
            }
        }
        assert forall|k: int|
            0 <= k < ts.len() implies #[trigger] replay(l, ts).transactions.contains_key(
            data_of(ts[k]).transaction,
        ) by {
            if k < prefix.len() {
                assert(ts[k] == prefix[k]);
                assert(before.transactions.contains_key(data_of(prefix[k]).transaction));
            }
        }
        assert forall|i: u32| #[trigger]
            replay(l, ts).transactions.contains_key(i) implies l.transactions.contains_key(i)
            || exists|k: int| 0 <= k < ts.len() && data_of(ts[k]).transaction == i by {
            if i != id {
                assert(before.transactions.contains_key(i));
                if !l.transactions.contains_key(i) {
                    let k = choose|k: int|
                        0 <= k < prefix.len() && data_of(prefix[k]).transaction == i;
                    assert(ts[k] == prefix[k]);
                }
            } else {
                assert(data_of(ts[ts.len() - 1]).transaction == i);
            }
        }
    }
}

/// Deposits add up: after deposits to one client, of non-negative amounts and
/// under fresh, distinct ids, the client's available funds have grown by the
/// sum of the amounts, provided the account, if any, is not frozen and the
/// balance stays within `MAX_BALANCE`.
pub proof fn lemma_deposits_add_up(l: Ledger, c: ClientId, ts: Seq<Transaction>)
    requires
        l.wf(),
        fresh_deposits_to(l, c, ts),
        !is_frozen(l, c),
        available_of(l, c) + held_of(l, c) + sum_of_amounts(ts) <= MAX_BALANCE,
    ensures
        available_of(replay(l, ts), c) == available_of(l, c) + sum_of_amounts(ts),
{
    lemma_deposits_accumulate(l, c, ts);
}

/// A deposit followed by a withdrawal of the same amount by the same client
/// leaves the client's funds as they were, and an account that already
/// existed exactly as it was. The deposit is of a non-negative amount under a
/// fresh id, to an account that is not frozen and can take it.
pub proof fn lemma_deposit_then_withdrawal(l: Ledger, d: TransactionData, w: TransactionData)
    requires
        l.wf(),
        d.amount is Some,
        d.amount->0.units >= 0,
        w.client == d.client,
        w.amount == d.amount,
        !l.transactions.contains_key(d.transaction),
        !is_frozen(l, d.client),
        available_of(l, d.client) + held_of(l, d.client) + d.amount->0.units <= MAX_BALANCE,
    ensures
        ({
            let after = l.apply(Transaction::Deposit(d)).apply(Transaction::Withdrawal(w));
            &&& available_of(after, d.client) == available_of(l, d.client)
            &&& held_of(after, d.client) == held_of(l, d.client)
            &&& l.accounts.contains_key(d.client) ==> after.accounts == l.accounts
        }),
{
    let c = d.client;
    let mid = l.apply(Transaction::Deposit(d));
    let after = mid.apply(Transaction::Withdrawal(w));
    assert(deposit_spec(d, l.accounts).0 is Ok);
    assert(mid.accounts.contains_key(c));
    if l.accounts.contains_key(c) {
        assert(after.accounts[c] == l.accounts[c]);
        assert(after.accounts =~= l.accounts);
    }
}

/// Disputing a deposit that is not under dispute and then resolving it leaves
/// the ledger as it was; a second resolve of it is then rejected.
pub proof fn lemma_dispute_then_resolve(
    l: Ledger,
    d: TransactionData,
    r1: TransactionData,
    r2: TransactionData,
)
    requires
        l.wf(),
        r1.transaction == d.transaction,
        r2.transaction == d.transaction,
        !(l.transactions.contains_key(d.transaction) && l.transactions[d.transaction].1),
    ensures
        ({
            let after = l.apply(Transaction::Dispute(d)).apply(Transaction::Resolve(r1));
            &&& after == l
            &&& resolve_spec(r2, after.accounts, after.transactions).0 is Err
            &&& after.apply(Transaction::Resolve(r2)) == after
        }),
{
    let id = d.transaction;
    let mid = l.apply(Transaction::Dispute(d));
    let after = mid.apply(Transaction::Resolve(r1));
    if let Ok((dd, a, disputed)) = referenced_deposit(l.transactions, id) {
        let c = dd.client;
        if l.accounts.contains_key(c) && l.accounts[c].available.units >= a.units {
            assert(mid.accounts[c].held.units >= a.units);
            assert(after.accounts[c] == l.accounts[c]);
            assert(after.accounts =~= l.accounts);
            assert(after.transactions[id] == l.transactions[id]);
            assert(after.transactions =~= l.transactions);
        }
    }
}

/// Whether `t` is a deposit or a withdrawal by `c`.
pub open spec fn moves_funds_of(t: Transaction, c: ClientId) -> bool {
    (t is Deposit || t is Withdrawal) && data_of(t).client == c
}

proof fn lemma_frozen_step(l: Ledger, c: ClientId, t: Transaction)
    requires
        is_frozen(l, c),
    ensures
        is_frozen(l.apply(t), c),
        moves_funds_of(t, c) ==> l.apply(t) == l,
{
}

proof fn lemma_stays_frozen(l: Ledger, c: ClientId, ts: Seq<Transaction>)
    requires
        is_frozen(l, c),
    ensures
        is_frozen(replay(l, ts), c),
    decreases ts.len(),
{
    if ts.len() > 0 {
        lemma_stays_frozen(l, c, ts.drop_last());
        lemma_frozen_step(replay(l, ts.drop_last()), c, ts.last());
    }
}

/// A frozen account stays frozen whatever records follow, and each deposit
/// or withdrawal by its client among them changes nothing.
pub proof fn lemma_frozen_account_is_final(l: Ledger, c: ClientId, ts: Seq<Transaction>)
    requires
        is_frozen(l, c),
    ensures
        is_frozen(replay(l, ts), c),
        forall|k: int|
            0 <= k < ts.len() && moves_funds_of(#[trigger] ts[k], c) ==> replay(l, ts.take(k + 1))
                == replay(l, ts.take(k)),
{
    lemma_stays_frozen(l, c, ts);
    assert forall|k: int|
        0 <= k < ts.len() && moves_funds_of(#[trigger] ts[k], c) implies replay(l, ts.take(k + 1))
        == replay(l, ts.take(k)) by {
        assert(ts.take(k + 1).drop_last() =~= ts.take(k));
        assert(ts.take(k + 1).last() == ts[k]);
        lemma_stays_frozen(l, c, ts.take(k));
        lemma_frozen_step(replay(l, ts.take(k)), c, ts[k]);
    }
}

/// A dispute that is accepted, followed by a chargeback of the same deposit,
/// takes the deposit's amount out of the client's funds for good: its held
/// funds are back where they were, its available funds are short of the
/// amount, and the account is frozen.
pub proof fn lemma_dispute_then_chargeback(l: Ledger, d: TransactionData, cb: TransactionData)
    requires
        l.wf(),
        cb.transaction == d.transaction,
        dispute_spec(d, l.accounts, l.transactions).0 is Ok,
    ensures
        ({
            let (dep, amount, _) = referenced_deposit(l.transactions, d.transaction)->Ok_0;
            let after = l.apply(Transaction::Dispute(d)).apply(Transaction::Chargeback(cb));
            &&& is_frozen(after, dep.client)
            &&& available_of(after, dep.client) == available_of(l, dep.client) - amount.units
            &&& held_of(after, dep.client) == held_of(l, dep.client)
        }),
{
}

} // verus!
