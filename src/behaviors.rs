//! The five rules that apply one record to the accounts and to the recorded
//! deposits. A rule that rejects its record changes nothing and says why.

use crate::amount::Amount;
use crate::processor::{
    accounts_wf, Account, Accounts, ClientId, Disputed, LedgerError, Transaction, TransactionData,
    TransactionId, Transactions, MAX_BALANCE,
};
use vstd::prelude::*;

verus! {

broadcast use vstd::std_specs::hash::group_hash_axioms;

/// The recorded deposit that `id` names, with its amount and dispute flag.
pub open spec fn referenced_deposit(
    transactions: Map<TransactionId, (Transaction, Disputed)>,
    id: TransactionId,
) -> Result<(TransactionData, Amount, Disputed), LedgerError> {
    if !transactions.contains_key(id) {
        Err(LedgerError::ReferenceNotFound)
    } else {
        match transactions[id].0 {
            Transaction::Deposit(d) => match d.amount {
                None => Err(LedgerError::MissingAmount),
                Some(a) => if a.units < 0 {
                    Err(LedgerError::NegativeAmount)
                } else {
                    Ok((d, a, transactions[id].1))
                },
            },
            _ => Err(LedgerError::ReferenceNotFound),
        }
    }
}

fn find_deposit(transactions: &Transactions, id: TransactionId) -> (r: Result<
    (TransactionData, Amount, Disputed),
    LedgerError,
>)
    ensures
        r == referenced_deposit(transactions@, id),
{
    match transactions.get(&id) {
        None => Err(LedgerError::ReferenceNotFound),
        Some(entry) => {
            let disputed = entry.1;
            match entry.0 {
                Transaction::Deposit(d) => match d.amount {
                    None => Err(LedgerError::MissingAmount),
                    Some(a) => {
                        if a.units < 0 {
                            Err(LedgerError::NegativeAmount)
                        } else {
                            Ok((d, a, disputed))
                        }
                    },
                },
                _ => Err(LedgerError::ReferenceNotFound),
            }
        },
    }
}

/// What a resolve of `data.transaction` does: a disputed deposit whose
/// client holds at least its amount has that amount released to available
/// and is no longer disputed.
pub open spec fn resolve_spec(
    data: TransactionData,
    accounts: Map<ClientId, Account>,
    transactions: Map<TransactionId, (Transaction, Disputed)>,
) -> (Result<(), LedgerError>, Map<ClientId, Account>, Map<TransactionId, (Transaction, Disputed)>) {
    match referenced_deposit(transactions, data.transaction) {
        Err(e) => (Err(e), accounts, transactions),
        Ok((d, a, disputed)) => if !disputed {
            (Err(LedgerError::InvalidState), accounts, transactions)
        } else if !accounts.contains_key(d.client) {
            (Err(LedgerError::UnknownClient), accounts, transactions)
        } else if accounts[d.client].held.units < a.units {
            (Err(LedgerError::InsufficientFunds), accounts, transactions)
        } else {
            (
                Ok(()),
                accounts.insert(d.client, accounts[d.client].releasing(a.units as int)),
                transactions.insert(data.transaction, (Transaction::Deposit(d), false)),
            )
        },
    }
}

/// Resolves the dispute of the deposit that `data` names.
pub fn resolve(
    data: &TransactionData,
    accounts: &mut Accounts,
    transactions: &mut Transactions,
) -> (r: Result<(), LedgerError>)
    requires
        accounts_wf(old(accounts)@),
    ensures
        (r, final(accounts)@, final(transactions)@) == resolve_spec(
            *data,
            old(accounts)@,
            old(transactions)@,
        ),
        accounts_wf(final(accounts)@),
{
    let (deposit, amount, disputed) = match find_deposit(transactions, data.transaction) {
        Err(e) => return Err(e),
        Ok(found) => found,
    };
    if !disputed {
        return Err(LedgerError::InvalidState);
    }
    let account = match accounts.get(&deposit.client) {
        None => return Err(LedgerError::UnknownClient),
        Some(account) => *account,
    };
    if account.held.units < amount.units {
        return Err(LedgerError::InsufficientFunds);
    }
    let updated = Account {
        available: Amount { units: account.available.units + amount.units },
        held: Amount { units: account.held.units - amount.units },
        frozen: account.frozen,
    };
    accounts.insert(deposit.client, updated);
    transactions.insert(data.transaction, (Transaction::Deposit(deposit), false));
    Ok(())
}

/// What a chargeback of `data.transaction` does: a disputed deposit whose
/// client holds at least its amount has that amount taken from held, and the
/// account is frozen. The deposit stays recorded and disputed.
pub open spec fn chargeback_spec(
    data: TransactionData,
    accounts: Map<ClientId, Account>,
    transactions: Map<TransactionId, (Transaction, Disputed)>,
) -> (Result<(), LedgerError>, Map<ClientId, Account>, Map<TransactionId, (Transaction, Disputed)>) {
    match referenced_deposit(transactions, data.transaction) {
        Err(e) => (Err(e), accounts, transactions),
        Ok((d, a, disputed)) => if !disputed {
            (Err(LedgerError::InvalidState), accounts, transactions)
        } else if !accounts.contains_key(d.client) {
            (Err(LedgerError::UnknownClient), accounts, transactions)
        } else if accounts[d.client].held.units < a.units {
            (Err(LedgerError::InsufficientFunds), accounts, transactions)
        } else {
            (
                Ok(()),
                accounts.insert(d.client, accounts[d.client].charged_back(a.units as int)),
                transactions,
            )
        },
    }
}

/// Charges back the disputed deposit that `data` names.
pub fn chargeback(
    data: &TransactionData,
    accounts: &mut Accounts,
    transactions: &mut Transactions,
) -> (r: Result<(), LedgerError>)
    requires
        accounts_wf(old(accounts)@),
    ensures
        (r, final(accounts)@, final(transactions)@) == chargeback_spec(
            *data,
            old(accounts)@,
            old(transactions)@,
        ),
        accounts_wf(final(accounts)@),
{
    let (deposit, amount, disputed) = match find_deposit(transactions, data.transaction) {
        Err(e) => return Err(e),
        Ok(found) => found,
    };
    if !disputed {
        return Err(LedgerError::InvalidState);
    }
    let account = match accounts.get(&deposit.client) {
        None => return Err(LedgerError::UnknownClient),
        Some(account) => *account,
    };
    if account.held.units < amount.units {
        return Err(LedgerError::InsufficientFunds);
    }
    let updated = Account {
        available: account.available,
        held: Amount { units: account.held.units - amount.units },
        frozen: true,
    };
    accounts.insert(deposit.client, updated);
    Ok(())
}

/// What a dispute of `data.transaction` does: an undisputed deposit whose
/// client has at least its amount available has that amount moved to held
/// and becomes disputed.
pub open spec fn dispute_spec(
    data: TransactionData,
    accounts: Map<ClientId, Account>,
    transactions: Map<TransactionId, (Transaction, Disputed)>,
) -> (Result<(), LedgerError>, Map<ClientId, Account>, Map<TransactionId, (Transaction, Disputed)>) {
    match referenced_deposit(transactions, data.transaction) {
        Err(e) => (Err(e), accounts, transactions),
        Ok((d, a, disputed)) => if disputed {
            (Err(LedgerError::InvalidState), accounts, transactions)
        } else if !accounts.contains_key(d.client) {
            (Err(LedgerError::UnknownClient), accounts, transactions)
        } else if accounts[d.client].available.units < a.units {
            (Err(LedgerError::InsufficientFunds), accounts, transactions)
        } else {
            (
                Ok(()),
                accounts.insert(d.client, accounts[d.client].holding(a.units as int)),
                transactions.insert(data.transaction, (Transaction::Deposit(d), true)),
            )
        },
    }
}

/// Disputes the deposit that `data` names.
pub fn dispute(
    data: &TransactionData,
    accounts: &mut Accounts,
    transactions: &mut Transactions,
) -> (r: Result<(), LedgerError>)
    requires
        accounts_wf(old(accounts)@),
    ensures
        (r, final(accounts)@, final(transactions)@) == dispute_spec(
            *data,
            old(accounts)@,
            old(transactions)@,
        ),
        accounts_wf(final(accounts)@),
{
    let (deposit, amount, disputed) = match find_deposit(transactions, data.transaction) {
        Err(e) => return Err(e),
        Ok(found) => found,
    };
    if disputed {
        return Err(LedgerError::InvalidState);
    }
    let account = match accounts.get(&deposit.client) {
        None => return Err(LedgerError::UnknownClient),
        Some(account) => *account,
    };
    if account.available.units < amount.units {
        return Err(LedgerError::InsufficientFunds);
    }
    let updated = Account {
        available: Amount { units: account.available.units - amount.units },
        held: Amount { units: account.held.units + amount.units },
        frozen: account.frozen,
    };
    accounts.insert(deposit.client, updated);
    transactions.insert(data.transaction, (Transaction::Deposit(deposit), true));
    Ok(())
}

/// What a withdrawal does: an account that is not frozen and has at least
/// the amount available has it taken from available.
pub open spec fn withdrawal_spec(data: TransactionData, accounts: Map<ClientId, Account>) -> (
    Result<(), LedgerError>,
    Map<ClientId, Account>,
) {
    match data.amount {
        None => (Err(LedgerError::MissingAmount), accounts),
        Some(a) => if a.units < 0 {
            (Err(LedgerError::NegativeAmount), accounts)
        } else if !accounts.contains_key(data.client) {
            (Err(LedgerError::UnknownClient), accounts)
        } else if accounts[data.client].frozen {
            (Err(LedgerError::FrozenAccount), accounts)
        } else if accounts[data.client].available.units < a.units {
            (Err(LedgerError::InsufficientFunds), accounts)
        } else {
            (Ok(()), accounts.insert(data.client, accounts[data.client].debited(a.units as int)))
        },
    }
}

/// Withdraws `data.amount` from the client's account.
pub fn withdrawal(data: &TransactionData, accounts: &mut Accounts) -> (r: Result<(), LedgerError>)
    requires
        accounts_wf(old(accounts)@),
    ensures
        (r, final(accounts)@) == withdrawal_spec(*data, old(accounts)@),
        accounts_wf(final(accounts)@),
{
    let amount = match data.amount {
        None => return Err(LedgerError::MissingAmount),
        Some(amount) => amount,
    };
    if amount.units < 0 {
        return Err(LedgerError::NegativeAmount);
    }
    let account = match accounts.get(&data.client) {
        None => return Err(LedgerError::UnknownClient),
        Some(account) => *account,
    };
    if account.frozen {
        return Err(LedgerError::FrozenAccount);
    }
    if account.available.units < amount.units {
        return Err(LedgerError::InsufficientFunds);
    }
    let updated = Account {
        available: Amount { units: account.available.units - amount.units },
        held: account.held,
        frozen: account.frozen,
    };
    accounts.insert(data.client, updated);
    Ok(())
}

/// What a deposit does: a client without an account gets one holding the
/// amount; an account that is not frozen has the amount added to available,
/// unless that would take it beyond `MAX_BALANCE`.
pub open spec fn deposit_spec(data: TransactionData, accounts: Map<ClientId, Account>) -> (
    Result<(), LedgerError>,
    Map<ClientId, Account>,
) {
    match data.amount {
        None => (Err(LedgerError::MissingAmount), accounts),
        Some(a) => if a.units < 0 {
            (Err(LedgerError::NegativeAmount), accounts)
        } else if !accounts.contains_key(data.client) {
            if a.units > MAX_BALANCE {
                (Err(LedgerError::OutOfRange), accounts)
            } else {
                (
                    Ok(()),
                    accounts.insert(
                        data.client,
                        Account { available: a, held: Amount { units: 0 }, frozen: false },
                    ),
                )
            }
        } else if accounts[data.client].frozen {
            (Err(LedgerError::FrozenAccount), accounts)
        } else if accounts[data.client].total_spec() + a.units > MAX_BALANCE {
            (Err(LedgerError::OutOfRange), accounts)
        } else {
            (Ok(()), accounts.insert(data.client, accounts[data.client].credited(a.units as int)))
        },
    }
}

/// Deposits `data.amount` into the client's account, opening it if needed.
pub fn deposit(data: &TransactionData, accounts: &mut Accounts) -> (r: Result<(), LedgerError>)
    requires
        accounts_wf(old(accounts)@),
    ensures
        (r, final(accounts)@) == deposit_spec(*data, old(accounts)@),
        accounts_wf(final(accounts)@),
{
    let amount = match data.amount {
        None => return Err(LedgerError::MissingAmount),
        Some(amount) => amount,
    };
    if amount.units < 0 {
        return Err(LedgerError::NegativeAmount);
    }
    match accounts.get(&data.client) {
        None => {
            if amount.units > MAX_BALANCE {
                return Err(LedgerError::OutOfRange);
            }
            accounts.insert(
                data.client,
                Account { available: amount, held: Amount::zero(), frozen: false },
            );
        },
        Some(account) => {
            let account = *account;
            if account.frozen {
                return Err(LedgerError::FrozenAccount);
            }
            if amount.units > MAX_BALANCE - account.available.units - account.held.units {
                return Err(LedgerError::OutOfRange);
            }
            let updated = Account {
                available: Amount { units: account.available.units + amount.units },
                held: account.held,
                frozen: account.frozen,
            };
            accounts.insert(data.client, updated);
        },
    }
    Ok(())
}

} // verus!
