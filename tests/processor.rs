use txs::amount::{Amount, RawAmount};
use txs::processor::MessageType::{Chargeback, Deposit, Dispute, Resolve, Withdrawal};
use txs::processor::{Account, Message, MessageType, Processor, Transaction, TransactionData};

fn dec(n: i64) -> Amount {
    Amount::from_decimal(&RawAmount::new(n as i128, 0).unwrap())
}

fn raw(n: i64) -> Option<RawAmount> {
    RawAmount::new(n as i128, 0)
}

fn get_processed_snapshot(messages: Vec<Message>) -> Processor {
    let mut processor = Processor::new();

    messages.into_iter().for_each(|message| processor.process(message));

    processor
}

fn account_of(processor: &Processor, client: u16) -> Account {
    processor.account(client).unwrap()
}

#[test]
fn deposits() {
    let messages = vec![
            Message(Deposit, 1, 1, raw(10)),
            Message(Deposit, 2, 2, raw(5)),
            Message(Deposit, 1, 3, raw(3)),
        ];

    let snapshot = get_processed_snapshot(messages);

    let account1 = account_of(&snapshot, 1);
    assert_eq!(account1.available, dec(13));

    let account2 = account_of(&snapshot, 2);
    assert_eq!(account2.available, dec(5));
}

#[test]
fn withdrawals() {
    let messages = vec![Message(Deposit, 1, 1, raw(10)), Message(Withdrawal, 1, 2, raw(3))];

    let snapshot = get_processed_snapshot(messages);

    let account1 = account_of(&snapshot, 1);
    assert_eq!(account1.available, dec(7));
}

#[test]
fn dispute() {
    let messages = vec![
            Message(Deposit, 1, 1, raw(10)),
            Message(Deposit, 1, 2, raw(5)),
            Message(Dispute, 1, 2, None),
        ];

    let snapshot = get_processed_snapshot(messages);

    let account1 = account_of(&snapshot, 1);
    assert_eq!(account1.available, dec(10));
    assert_eq!(account1.held, dec(5));
}

#[test]
fn resolves() {
    let messages = vec![
            Message(Deposit, 1, 1, raw(10)),
            Message(Deposit, 1, 2, raw(5)),
            Message(Dispute, 1, 2, None),
            Message(Resolve, 1, 2, None),
        ];

    let snapshot = get_processed_snapshot(messages);

    let account1 = account_of(&snapshot, 1);
    assert_eq!(account1.available, dec(15));
    assert_eq!(account1.held, dec(0));
}

#[test]
fn chargebacks() {
    let messages = vec![
            Message(Deposit, 1, 1, raw(10)),
            Message(Deposit, 1, 2, raw(5)),
            Message(Dispute, 1, 2, None),
            Message(Chargeback, 1, 2, None),
        ];

    let snapshot = get_processed_snapshot(messages);

    let account1 = account_of(&snapshot, 1);
    assert_eq!(account1.available, dec(10));
    assert_eq!(account1.held, dec(0));
    assert!(account1.frozen);
}

// Scenarios.

#[test]
fn scenario_deposits_to_two_clients() {
    let processor = get_processed_snapshot(vec![
        Message(Deposit, 1, 1, raw(10)),
        Message(Deposit, 2, 2, raw(5)),
        Message(Deposit, 1, 3, raw(3)),
    ]);
    let one = account_of(&processor, 1);
    assert_eq!(one.available, Amount { units: 130_000 });
    assert_eq!(one.held, Amount { units: 0 });
    assert_eq!(account_of(&processor, 2).available, Amount { units: 50_000 });
}

#[test]
fn scenario_withdrawal() {
    let processor =
        get_processed_snapshot(vec![Message(Deposit, 1, 1, raw(10)), Message(Withdrawal, 1, 2, raw(3))]);
    assert_eq!(account_of(&processor, 1).available, Amount { units: 70_000 });
}

fn scenario_dispute_messages() -> Vec<Message> {
    vec![
        Message(Deposit, 1, 1, raw(10)),
        Message(Deposit, 1, 2, raw(5)),
        Message(Dispute, 1, 2, None),
    ]
}

#[test]
fn scenario_dispute_holds_funds() {
    let processor = get_processed_snapshot(scenario_dispute_messages());
    let one = account_of(&processor, 1);
    assert_eq!(one.available, dec(10));
    assert_eq!(one.held, dec(5));
    assert_eq!(one.total(), dec(15));
    assert!(!one.frozen);
}

#[test]
fn scenario_resolve_releases_funds() {
    let mut messages = scenario_dispute_messages();
    messages.push(Message(MessageType::Resolve, 1, 2, None));
    let processor = get_processed_snapshot(messages);
    let one = account_of(&processor, 1);
    assert_eq!(one.available, dec(15));
    assert_eq!(one.held, dec(0));
}

#[test]
fn scenario_chargeback_freezes() {
    let mut messages = scenario_dispute_messages();
    messages.push(Message(MessageType::Chargeback, 1, 2, None));
    let processor = get_processed_snapshot(messages);
    let one = account_of(&processor, 1);
    assert_eq!(one.available, dec(10));
    assert_eq!(one.held, dec(0));
    assert!(one.frozen);
}

#[test]
fn scenario_withdrawal_by_unknown_client_opens_no_account() {
    let processor = get_processed_snapshot(vec![Message(MessageType::Withdrawal, 1, 1, raw(5))]);
    assert!(processor.account(1).is_none());
    assert!(processor.snapshot().is_empty());
}

// General properties, on concrete records.

#[test]
fn deposits_add_up_in_any_order() {
    let amounts = [(15, 1), (225, 2), (3, 0)];
    let forward = get_processed_snapshot(
        amounts
            .iter()
            .enumerate()
            .map(|(i, (m, s))| Message(Deposit, 1, i as u32, RawAmount::new(*m, *s)))
            .collect(),
    );
    let backward = get_processed_snapshot(
        amounts
            .iter()
            .enumerate()
            .rev()
            .map(|(i, (m, s))| Message(Deposit, 1, i as u32, RawAmount::new(*m, *s)))
            .collect(),
    );
    assert_eq!(account_of(&forward, 1).available, Amount { units: 67_500 });
    assert_eq!(account_of(&backward, 1).available, Amount { units: 67_500 });
}

#[test]
fn deposit_then_equal_withdrawal_restores_available() {
    let processor = get_processed_snapshot(vec![
        Message(Deposit, 1, 1, raw(4)),
        Message(Deposit, 1, 2, RawAmount::new(25, 1)),
        Message(Withdrawal, 1, 3, RawAmount::new(25, 1)),
    ]);
    assert_eq!(account_of(&processor, 1).available, dec(4));
}

#[test]
fn dispute_then_resolve_round_trip_and_second_resolve_rejected() {
    let mut messages = vec![
        Message(Deposit, 1, 1, raw(10)),
        Message(Deposit, 1, 2, raw(5)),
        Message(Dispute, 1, 2, None),
        Message(Resolve, 1, 2, None),
    ];
    let once = account_of(&get_processed_snapshot(vec![
        Message(Deposit, 1, 1, raw(10)),
        Message(Deposit, 1, 2, raw(5)),
    ]), 1);
    let after = account_of(&get_processed_snapshot(scenario_dispute_messages()), 1);
    assert_ne!(after, once);
    messages.push(Message(Resolve, 1, 2, None));
    let twice = account_of(&get_processed_snapshot(messages), 1);
    assert_eq!(twice, once);
    assert_eq!(twice.available, dec(15));
    assert_eq!(twice.held, dec(0));
}

#[test]
fn chargeback_is_final() {
    let mut messages = scenario_dispute_messages();
    messages.push(Message(MessageType::Chargeback, 1, 2, None));
    messages.push(Message(MessageType::Deposit, 1, 3, raw(100)));
    messages.push(Message(MessageType::Withdrawal, 1, 4, raw(1)));
    let processor = get_processed_snapshot(messages);
    let one = account_of(&processor, 1);
    assert_eq!(one.available, dec(10));
    assert_eq!(one.held, dec(0));
    assert!(one.frozen);
}

// Edge cases.

#[test]
fn reused_deposit_id_is_rejected() {
    let processor = get_processed_snapshot(vec![
        Message(Deposit, 1, 1, raw(10)),
        Message(Deposit, 1, 1, raw(7)),
        Message(Deposit, 2, 1, raw(7)),
    ]);
    assert_eq!(account_of(&processor, 1).available, dec(10));
    assert!(processor.account(2).is_none());
}

#[test]
fn rejected_deposit_is_not_disputable() {
    let processor = get_processed_snapshot(vec![
        Message(Deposit, 1, 1, raw(10)),
        Message(Dispute, 1, 1, None),
        Message(Chargeback, 1, 1, None),
        Message(Deposit, 1, 2, raw(5)),
        Message(Dispute, 1, 2, None),
    ]);
    let one = account_of(&processor, 1);
    assert_eq!(one.available, dec(0));
    assert_eq!(one.held, dec(0));
    assert!(one.frozen);
}

#[test]
fn dispute_of_a_withdrawal_is_ignored() {
    let processor = get_processed_snapshot(vec![
        Message(Deposit, 1, 1, raw(10)),
        Message(Withdrawal, 1, 2, raw(4)),
        Message(Dispute, 1, 2, None),
    ]);
    let one = account_of(&processor, 1);
    assert_eq!(one.available, dec(6));
    assert_eq!(one.held, dec(0));
}

#[test]
fn dispute_beyond_available_funds_is_rejected() {
    let processor = get_processed_snapshot(vec![
        Message(Deposit, 1, 1, raw(10)),
        Message(Withdrawal, 1, 2, raw(8)),
        Message(Dispute, 1, 1, None),
        Message(Resolve, 1, 1, None),
    ]);
    let one = account_of(&processor, 1);
    assert_eq!(one.available, dec(2));
    assert_eq!(one.held, dec(0));
}

#[test]
fn snapshot_lists_accounts_in_order_of_opening() {
    let processor = get_processed_snapshot(vec![
        Message(Deposit, 3, 1, raw(1)),
        Message(Deposit, 1, 2, raw(2)),
        Message(Withdrawal, 9, 3, raw(1)),
        Message(Deposit, 3, 4, raw(1)),
        Message(Deposit, 2, 5, raw(0)),
    ]);
    let snapshot = processor.snapshot();
    let clients: Vec<u16> = snapshot.iter().map(|(c, _)| *c).collect();
    assert_eq!(clients, vec![3, 1, 2]);
    assert_eq!(snapshot[0].1.available, dec(2));
    assert_eq!(snapshot[2].1.available, dec(0));
}

#[test]
fn amounts_are_rounded_to_four_digits() {
    let message = Message(MessageType::Deposit, 1, 1, RawAmount::new(123456, 5));
    let transaction = Transaction::from(message);
    assert_eq!(
        transaction,
        Transaction::Deposit(TransactionData {
            client: 1,
            transaction: 1,
            amount: Some(Amount { units: 12346 })
        })
    );
    let down = Amount::from_decimal(&RawAmount::new(123454, 5).unwrap());
    assert_eq!(down, Amount { units: 12345 });
    let negative = Amount::from_decimal(&RawAmount::new(-123455, 5).unwrap());
    assert_eq!(negative, Amount { units: -12346 });
    let widened = Amount::from_decimal(&RawAmount::new(15, 1).unwrap());
    assert_eq!(widened, Amount { units: 15_000 });
}

#[test]
fn message_kinds_map_to_records() {
    let kinds = [
        MessageType::Deposit,
        MessageType::Withdrawal,
        MessageType::Dispute,
        MessageType::Resolve,
        MessageType::Chargeback,
    ];
    let records: Vec<Transaction> =
        kinds.iter().map(|k| Transaction::from(Message(*k, 2, 3, None))).collect();
    let data = TransactionData { client: 2, transaction: 3, amount: None };
    assert_eq!(
        records,
        vec![
            Transaction::Deposit(data),
            Transaction::Withdrawal(data),
            Transaction::Dispute(data),
            Transaction::Resolve(data),
            Transaction::Chargeback(data),
        ]
    );
}

#[test]
fn decimals_outside_range_are_refused() {
    assert!(RawAmount::new(79228162514264337593543950336, 0).is_none());
    assert!(RawAmount::new(-79228162514264337593543950336, 0).is_none());
    assert!(RawAmount::new(1, 29).is_none());
    let d = RawAmount::new(-79228162514264337593543950335, 28).unwrap();
    assert_eq!(d.mantissa(), -79228162514264337593543950335);
    assert_eq!(d.scale(), 28);
}

#[test]
fn total_adds_available_and_held() {
    let account = Account { available: dec(2), held: Amount { units: 5 }, frozen: false };
    assert_eq!(account.total(), Amount { units: 20_005 });
}
