//! Records, accounts and the ledger that applies records to them.

use crate::amount::{units_of, Amount, RawAmount, MAX_MANTISSA};
use crate::behaviors::{
    chargeback, chargeback_spec, deposit, deposit_spec, dispute, dispute_spec, resolve,
    resolve_spec, withdrawal, withdrawal_spec,
};
use std::collections::HashMap;
use vstd::prelude::*;

verus! {

pub type ClientId = u16;

pub type TransactionId = u32;

/// Whether a recorded deposit is under dispute.
pub type Disputed = bool;

/// Largest balance an account may hold, in ten-thousandths.
pub const MAX_BALANCE: i128 = MAX_MANTISSA;

/// The kind of an incoming record.
#[derive(Clone, Copy, Debug, PartialEq, Eq, Structural)]
pub enum MessageType {
    Deposit,
    Withdrawal,
    Dispute,
    Resolve,
    Chargeback,
}

/// An incoming record: kind, client, transaction id and, for deposits and
/// withdrawals, the amount as written.
pub struct Message(pub MessageType, pub ClientId, pub TransactionId, pub Option<RawAmount>);

/// What a record says: the client, the transaction it is or refers to, and
/// its amount rounded to four fractional digits.
#[derive(Clone, Copy, Debug, PartialEq, Eq, Structural)]
pub struct TransactionData {
    pub client: ClientId,
    pub transaction: TransactionId,
    pub amount: Option<Amount>,
}

/// A record, by kind.
#[derive(Clone, Copy, Debug, PartialEq, Eq, Structural)]
pub enum Transaction {
    Deposit(TransactionData),
    Withdrawal(TransactionData),
    Dispute(TransactionData),
    Resolve(TransactionData),
    Chargeback(TransactionData),
}

/// A client's balances. `held` is money under dispute; a frozen account
/// takes no more deposits or withdrawals.
#[derive(Clone, Copy, Debug, PartialEq, Eq, Structural)]
pub struct Account {
    pub available: Amount,
    pub held: Amount,
    pub frozen: bool,
}

impl Account {
    /// Balances are never negative and their sum stays within `MAX_BALANCE`.
    pub open spec fn wf(self) -> bool {
        &&& 0 <= self.available.units
        &&& 0 <= self.held.units
        &&& self.available.units + self.held.units <= MAX_BALANCE
    }

    /// Available plus held, in ten-thousandths.
    pub open spec fn total_spec(self) -> int {
        self.available.units + self.held.units
    }

    /// The account's total: available plus held.
    pub fn total(&self) -> (r: Amount)
        requires
            i128::MIN <= self.total_spec() <= i128::MAX,
        ensures
            r.units == self.total_spec(),
    {
        Amount { units: self.available.units + self.held.units }
    }

    /// The account with `units` more available.
    pub open spec fn credited(self, units: int) -> Account {
        Account { available: Amount { units: (self.available.units + units) as i128 }, ..self }
    }

    /// The account with `units` less available.
    pub open spec fn debited(self, units: int) -> Account {
        Account { available: Amount { units: (self.available.units - units) as i128 }, ..self }
    }

    /// The account with `units` moved from available to held.
    pub open spec fn holding(self, units: int) -> Account {
        Account {
            available: Amount { units: (self.available.units - units) as i128 },
            held: Amount { units: (self.held.units + units) as i128 },
            ..self
        }
    }

    /// The account with `units` moved from held back to available.
    pub open spec fn releasing(self, units: int) -> Account {
        Account {
            available: Amount { units: (self.available.units + units) as i128 },
            held: Amount { units: (self.held.units - units) as i128 },
            ..self
        }
    }

    /// The account with `units` taken from held, and frozen.
    pub open spec fn charged_back(self, units: int) -> Account {
        Account { held: Amount { units: (self.held.units - units) as i128 }, frozen: true, ..self }
    }
}

pub type Accounts = HashMap<ClientId, Account>;

pub type Transactions = HashMap<TransactionId, (Transaction, Disputed)>;

/// Why a record was not applied.
#[derive(Clone, Copy, Debug, PartialEq, Eq, Structural)]
pub enum LedgerError {
    /// A deposit or withdrawal without an amount, or a recorded deposit
    /// without one.
    MissingAmount,
    /// A negative amount.
    NegativeAmount,
    /// A withdrawal for a client without an account, or a recorded deposit
    /// whose client has none.
    UnknownClient,
    /// A dispute, resolve or chargeback that names no recorded deposit.
    ReferenceNotFound,
    /// A dispute of a disputed deposit, or a resolve or chargeback of an
    /// undisputed one.
    InvalidState,
    /// Not enough available (withdrawal, dispute) or held (resolve,
    /// chargeback) funds.
    InsufficientFunds,
    /// A deposit into, or a withdrawal from, a frozen account.
    FrozenAccount,
    /// A deposit that would take the account beyond `MAX_BALANCE`.
    OutOfRange,
}

/// Every account in `accounts` is well formed.
pub open spec fn accounts_wf(accounts: Map<ClientId, Account>) -> bool {
    forall|c: ClientId| #[trigger] accounts.contains_key(c) ==> accounts[c].wf()
}

/// The record `message` stands for, with its amount rounded to four
/// fractional digits.
pub open spec fn transaction_of(message: Message) -> Transaction {
    let data = TransactionData {
        client: message.1,
        transaction: message.2,
        amount: match message.3 {
            None => None,
            Some(d) => Some(Amount { units: units_of(d@) as i128 }),
        },
    };
    match message.0 {
        MessageType::Deposit => Transaction::Deposit(data),
        MessageType::Withdrawal => Transaction::Withdrawal(data),
        MessageType::Dispute => Transaction::Dispute(data),
        MessageType::Resolve => Transaction::Resolve(data),
        MessageType::Chargeback => Transaction::Chargeback(data),
    }
}

impl From<Message> for Transaction {
    fn from(message: Message) -> Transaction {
        let Message(message_type, client, transaction, raw) = message;
        let amount = match raw {
            None => None,
            Some(d) => Some(Amount::from_decimal(&d)),
        };
        let data = TransactionData { client, transaction, amount };
        match message_type {
            MessageType::Deposit => Transaction::Deposit(data),
            MessageType::Withdrawal => Transaction::Withdrawal(data),
            MessageType::Dispute => Transaction::Dispute(data),
            MessageType::Resolve => Transaction::Resolve(data),
            MessageType::Chargeback => Transaction::Chargeback(data),
        }
    }
}

impl vstd::std_specs::convert::FromSpecImpl<Message> for Transaction {
    open spec fn obeys_from_spec() -> bool {
        true
    }

    open spec fn from_spec(message: Message) -> Transaction {
        transaction_of(message)
    }
}

/// The state of a ledger: the accounts, the recorded deposits with their
/// dispute flags, and the clients in the order their accounts were opened.
pub struct Ledger {
    pub accounts: Map<ClientId, Account>,
    pub transactions: Map<TransactionId, (Transaction, Disputed)>,
    pub clients: Seq<ClientId>,
}

impl Ledger {
    /// The ledger before any record.
    pub open spec fn empty() -> Ledger {
        Ledger { accounts: Map::empty(), transactions: Map::empty(), clients: Seq::empty() }
    }

    /// Accounts are well formed, and `clients` lists each client with an
    /// account exactly once.
    pub open spec fn wf(self) -> bool {
        &&& accounts_wf(self.accounts)
        &&& self.clients.no_duplicates()
        &&& forall|c: ClientId| self.accounts.contains_key(c) <==> #[trigger] self.clients.contains(c)
    }

    /// The ledger after `t`. A rejected record leaves it as it is; a deposit
    /// that is applied is recorded under its id, undisputed, and a deposit
    /// whose id is already recorded is rejected.
    pub open spec fn apply(self, t: Transaction) -> Ledger {
        match t {
            Transaction::Deposit(d) => if self.transactions.contains_key(d.transaction) {
                self
            } else {
                let (r, accounts) = deposit_spec(d, self.accounts);
                if r is Ok {
                    Ledger {
                        accounts,
                        transactions: self.transactions.insert(d.transaction, (t, false)),
                        clients: if self.accounts.contains_key(d.client) {
                            self.clients
                        } else {
                            self.clients.push(d.client)
                        },
                    }
                } else {
                    self
                }
            },
            Transaction::Withdrawal(d) => Ledger {
                accounts: withdrawal_spec(d, self.accounts).1,
                ..self
            },
            Transaction::Dispute(d) => {
                let (_, accounts, transactions) = dispute_spec(d, self.accounts, self.transactions);
                Ledger { accounts, transactions, ..self }
            },
            Transaction::Resolve(d) => {
                let (_, accounts, transactions) = resolve_spec(d, self.accounts, self.transactions);
                Ledger { accounts, transactions, ..self }
            },
            Transaction::Chargeback(d) => {
                let (_, accounts, transactions) = chargeback_spec(
                    d,
                    self.accounts,
                    self.transactions,
                );
                Ledger { accounts, transactions, ..self }
            },
        }
    }
}

/// Appending a client that `s` lacks keeps `s` free of duplicates and adds
/// exactly that client.
proof fn lemma_push_fresh(s: Seq<ClientId>, c: ClientId)
    requires
        s.no_duplicates(),
        !s.contains(c),
    ensures
        s.push(c).no_duplicates(),
        forall|x: ClientId| #[trigger] s.push(c).contains(x) <==> s.contains(x) || x == c,
{
    let t = s.push(c);
    assert forall|x: ClientId| #[trigger] t.contains(x) <==> s.contains(x) || x == c by {
        if t.contains(x) {
            let i = choose|i: int| 0 <= i < t.len() && t[i] == x;
            if i < s.len() {
                assert(s[i] == x);
            }
        }
        if s.contains(x) {
            let i = choose|i: int| 0 <= i < s.len() && s[i] == x;
            assert(t[i] == x);
        }
        assert(t[s.len() as int] == c);
    }
    assert forall|i: int, j: int| 0 <= i < t.len() && 0 <= j < t.len() && i != j implies t[i]
        != t[j] by {
        if i < s.len() {
            assert(t[i] == s[i]);
        }
        if j < s.len() {
            assert(t[j] == s[j]);
        }
    }
}

/// Applies records, one at a time and in order, to the accounts.
pub struct Processor {
    accounts: Accounts,
    transactions: Transactions,
    clients: Vec<ClientId>,
}

/// A processor is seen as the ledger it holds.
impl View for Processor {
    type V = Ledger;

    closed spec fn view(&self) -> Ledger {
        Ledger {
            accounts: self.accounts@,
            transactions: self.transactions@,
            clients: self.clients@,
        }
    }
}

impl Processor {
    /// The ledger held is well formed.
    pub open spec fn wf(&self) -> bool {
        self@.wf()
    }

    /// A processor with no accounts and no recorded deposits.
    pub fn new() -> (r: Processor)
        ensures
            r.wf(),
            r@ == Ledger::empty(),
    {
        let r = Processor { accounts: HashMap::new(), transactions: HashMap::new(), clients: Vec::new() };
        assert(r@.accounts =~= Map::empty());
        assert(r@.transactions =~= Map::empty());
        assert(r@.clients =~= Seq::empty());
        r
    }

    /// Applies `message`. A record that its rule rejects changes nothing.
    pub fn process(&mut self, message: Message)
        requires
            old(self).wf(),
        ensures
            final(self).wf(),
            final(self)@ == old(self)@.apply(transaction_of(message)),
    {
        let transaction_id = message.2;
        let transaction = Transaction::from(message);
        match transaction {
            Transaction::Deposit(data) => {
                if self.transactions.contains_key(&transaction_id) {
                    return;
                }
                let known = self.accounts.contains_key(&data.client);
                let ghost before = self.clients@;
                if deposit(&data, &mut self.accounts).is_ok() {
                    if !known {
                        self.clients.push(data.client);
                        proof {
                            lemma_push_fresh(before, data.client);
                        }
                    }
                    self.transactions.insert(transaction_id, (transaction, false));
                }
            },
            Transaction::Withdrawal(data) => {
                let _ = withdrawal(&data, &mut self.accounts);
            },
            Transaction::Dispute(data) => {
                let _ = dispute(&data, &mut self.accounts, &mut self.transactions);
            },
            Transaction::Resolve(data) => {
                let _ = resolve(&data, &mut self.accounts, &mut self.transactions);
            },
            Transaction::Chargeback(data) => {
                let _ = chargeback(&data, &mut self.accounts, &mut self.transactions);
            },
        }
    }

    /// Every account with its client, in the order the accounts were opened.
    pub fn snapshot(&self) -> (r: Vec<(ClientId, Account)>)
        requires
            self.wf(),
        ensures
            r@.len() == self@.clients.len(),
            forall|i: int|
                0 <= i < r@.len() ==> #[trigger] r@[i] == (
                    self@.clients[i],
                    self@.accounts[self@.clients[i]],
                ),
    {
        let mut r: Vec<(ClientId, Account)> = Vec::new();
        let mut i: usize = 0;
        while i < self.clients.len()
            invariant
                self.wf(),
                i <= self@.clients.len(),
                r@.len() == i,
                forall|k: int|
                    0 <= k < i ==> #[trigger] r@[k] == (
                        self@.clients[k],
                        self@.accounts[self@.clients[k]],
                    ),
            decreases self@.clients.len() - i,
        {
            let client = self.clients[i];
            assert(self@.clients.contains(client));
            let account = *self.accounts.get(&client).unwrap();
            r.push((client, account));
            i = i + 1;
        }
        r
    }

    /// The account of `client`, if it has one.
    pub fn account(&self, client: ClientId) -> (r: Option<Account>)
        ensures
            r == (if self@.accounts.contains_key(client) {
                Some(self@.accounts[client])
            } else {
                None
            }),
    {
        match self.accounts.get(&client) {
            None => None,
            Some(account) => Some(*account),
        }
    }
}

} // verus!
