use transaction_engine::ClientFunds;
use transaction_engine::State;
use transaction_engine::TransactionEngine;
use transaction_engine::TransactionRaw;
use transaction_engine::TransactionTypeRaw;

fn record(
    transaction_type: TransactionTypeRaw,
    client: u16,
    tx: u32,
    amount: Option<i64>,
) -> TransactionRaw {
    TransactionRaw { transaction_type, client, tx, amount }
}

#[test]
fn deposit_credits_available() {
    let mut engine = TransactionEngine::default();
    engine.load_transactions(vec![record(TransactionTypeRaw::Deposit, 1, 1, Some(100))]);

    let rows = engine.clients();
    assert_eq!(rows.len(), 1);
    assert_eq!(rows[0].client_id, 1);
    assert_eq!(rows[0].available, 100);
    assert_eq!(rows[0].held, 0);
    assert_eq!(rows[0].total, 100);
    assert_eq!(rows[0].locked, false);
}

#[test]
fn withdrawal_beyond_available_is_rejected() {
    let mut engine = TransactionEngine::default();
    engine.load_transactions(vec![
        record(TransactionTypeRaw::Deposit, 1, 1, Some(100)),
        record(TransactionTypeRaw::Withdrawal, 1, 2, Some(150)),
    ]);

    let rows = engine.clients();
    assert_eq!(rows.len(), 1);
    assert_eq!(rows[0].available, 100);
    assert_eq!(rows[0].held, 0);
}

#[test]
fn withdrawal_of_exact_funds_empties_account() {
    let mut client_funds = ClientFunds::default();
    client_funds.load_deposit(100, 1);
    client_funds.load_withdrawal(1, 100, 2);

    assert_eq!(client_funds.available, 0);
    assert_eq!(client_funds.held, 0);
}

#[test]
fn withdrawal_cannot_be_disputed() {
    let mut client_funds = ClientFunds::default();
    client_funds.load_deposit(100, 1);
    client_funds.load_withdrawal(1, 50, 2);
    client_funds.load_dispute(1, 2);

    assert_eq!(client_funds.available, 50);
    assert_eq!(client_funds.held, 0);
    assert_eq!(client_funds.transactions.get(&2).unwrap().state, State::Normal);
}

#[test]
fn dispute_after_resolve_is_allowed_again() {
    let mut client_funds = ClientFunds::default();
    client_funds.load_deposit(100, 1);
    client_funds.load_dispute(1, 1);
    client_funds.load_resolve(1, 1);
    client_funds.load_dispute(1, 1);

    assert_eq!(client_funds.available, 0);
    assert_eq!(client_funds.held, 100);
    assert_eq!(client_funds.transactions.get(&1).unwrap().state, State::Disputed);
}

#[test]
fn chargeback_after_resolve_is_rejected() {
    let mut client_funds = ClientFunds::default();
    client_funds.load_deposit(100, 1);
    client_funds.load_dispute(1, 1);
    client_funds.load_resolve(1, 1);
    client_funds.load_chargeback(1, 1);

    assert_eq!(client_funds.available, 100);
    assert_eq!(client_funds.held, 0);
    assert_eq!(client_funds.locked, false);
}

#[test]
fn unknown_tx_reference_creates_no_ledger_entry() {
    let mut client_funds = ClientFunds::default();
    client_funds.load_deposit(100, 1);
    client_funds.load_dispute(1, 7);
    client_funds.load_resolve(1, 7);
    client_funds.load_chargeback(1, 7);

    assert!(client_funds.transactions.get(&7).is_none());
    assert_eq!(client_funds.available, 100);
    assert_eq!(client_funds.held, 0);
}

#[test]
fn dispute_for_unknown_client_creates_empty_account() {
    let mut engine = TransactionEngine::default();
    engine.load_transactions(vec![record(TransactionTypeRaw::Dispute, 9, 1, None)]);

    let rows = engine.clients();
    assert_eq!(rows.len(), 1);
    assert_eq!(rows[0].client_id, 9);
    assert_eq!(rows[0].available, 0);
    assert_eq!(rows[0].held, 0);
    assert_eq!(rows[0].total, 0);
    assert_eq!(rows[0].locked, false);
}

#[test]
fn malformed_amounts_are_skipped() {
    let mut engine = TransactionEngine::default();
    engine.load_transactions(vec![
        record(TransactionTypeRaw::Deposit, 1, 1, None),
        record(TransactionTypeRaw::Deposit, 1, 2, Some(-5)),
        record(TransactionTypeRaw::Withdrawal, 1, 3, Some(-5)),
        record(TransactionTypeRaw::Deposit, 1, 4, Some(30)),
    ]);

    let rows = engine.clients();
    assert_eq!(rows.len(), 1);
    assert_eq!(rows[0].available, 30);
    assert_eq!(rows[0].held, 0);
}

#[test]
fn deposit_overflowing_available_is_skipped() {
    let mut client_funds = ClientFunds::default();
    client_funds.load_deposit(i64::MAX, 1);
    client_funds.load_deposit(1, 2);

    assert_eq!(client_funds.available, i64::MAX);
    assert!(client_funds.transactions.get(&2).is_none());
}

#[test]
fn total_is_available_plus_held_on_every_row() {
    let mut engine = TransactionEngine::default();
    engine.load_transactions(vec![
        record(TransactionTypeRaw::Deposit, 1, 1, Some(100)),
        record(TransactionTypeRaw::Deposit, 1, 2, Some(40)),
        record(TransactionTypeRaw::Dispute, 1, 1, None),
        record(TransactionTypeRaw::Deposit, 2, 3, Some(7)),
        record(TransactionTypeRaw::Withdrawal, 2, 4, Some(3)),
    ]);

    let rows = engine.clients();
    assert_eq!(rows.len(), 2);
    for row in &rows {
        assert_eq!(row.total, row.available as i128 + row.held as i128);
    }
    assert_eq!(rows[0].client_id, 1);
    assert_eq!(rows[0].available, 40);
    assert_eq!(rows[0].held, 100);
    assert_eq!(rows[0].total, 140);
    assert_eq!(rows[1].client_id, 2);
    assert_eq!(rows[1].available, 4);
    assert_eq!(rows[1].total, 4);
}

#[test]
fn snapshot_lists_clients_in_order_of_first_appearance() {
    let mut engine = TransactionEngine::default();
    engine.load_transactions(vec![
        record(TransactionTypeRaw::Deposit, 5, 1, Some(10)),
        record(TransactionTypeRaw::Deposit, 2, 2, Some(20)),
        record(TransactionTypeRaw::Deposit, 5, 3, Some(30)),
    ]);

    let rows = engine.clients();
    assert_eq!(rows.len(), 2);
    assert_eq!(rows[0].client_id, 5);
    assert_eq!(rows[0].available, 40);
    assert_eq!(rows[1].client_id, 2);
    assert_eq!(rows[1].available, 20);
}
