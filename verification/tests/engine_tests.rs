use transaction_engine::ClientFunds;
use transaction_engine::TransactionEngine;
use transaction_engine::TransactionRaw;
use transaction_engine::TransactionTypeRaw;

#[test]
fn test_dispute_valid() {
    let mut client_funds = ClientFunds::default();
    client_funds.load_deposit(100, 1);
    client_funds.load_dispute(1, 1);

    assert_eq!(client_funds.available, 0);
    assert_eq!(client_funds.held, 100);
    assert_eq!(client_funds.locked, false);
}

#[test]
fn test_dispute_invalid_after_withdrawal() {
    let mut client_funds = ClientFunds::default();
    client_funds.load_deposit(100, 1);
    client_funds.load_withdrawal(1, 50, 2);
    client_funds.load_dispute(1, 1);

    assert_eq!(client_funds.available, 50);
    assert_eq!(client_funds.held, 0);
    assert_eq!(client_funds.locked, false);
}

#[test]
fn test_dispute_invalid_transaction() {
    let mut client_funds = ClientFunds::default();
    client_funds.load_deposit(100, 1);
    client_funds.load_dispute(1, 2);

    assert_eq!(client_funds.available, 100);
    assert_eq!(client_funds.held, 0);
    assert_eq!(client_funds.locked, false);
}

#[test]
fn test_dispute_invalid_state() {
    let mut client_funds = ClientFunds::default();
    client_funds.load_deposit(100, 1);
    client_funds.load_dispute(1, 1);
    client_funds.load_dispute(1, 1);

    assert_eq!(client_funds.available, 0);
    assert_eq!(client_funds.held, 100);
    assert_eq!(client_funds.locked, false);
}

#[test]
fn test_resolve_valid() {
    let mut client_funds = ClientFunds::default();
    client_funds.load_deposit(100, 1);
    client_funds.load_dispute(1, 1);
    client_funds.load_resolve(1, 1);

    assert_eq!(client_funds.available, 100);
    assert_eq!(client_funds.held, 0);
    assert_eq!(client_funds.locked, false);
}

#[test]
fn test_resolve_invalid_transaction() {
    let mut client_funds = ClientFunds::default();
    client_funds.load_deposit(100, 1);
    client_funds.load_dispute(1, 1);
    client_funds.load_resolve(1, 2);

    assert_eq!(client_funds.available, 0);
    assert_eq!(client_funds.held, 100);
    assert_eq!(client_funds.locked, false);
}

#[test]
fn test_resolve_invalid_state() {
    let mut client_funds = ClientFunds::default();
    client_funds.load_deposit(100, 1);
    client_funds.load_resolve(1, 1);

    assert_eq!(client_funds.available, 100);
    assert_eq!(client_funds.held, 0);
    assert_eq!(client_funds.locked, false);
}

#[test]
fn test_chargeback_valid() {
    let mut client_funds = ClientFunds::default();
    client_funds.load_deposit(100, 1);
    client_funds.load_dispute(1, 1);
    client_funds.load_chargeback(1, 1);

    assert_eq!(client_funds.available, 0);
    assert_eq!(client_funds.held, 0);
    assert_eq!(client_funds.locked, true);
}

#[test]
fn test_chargeback_invalid_transaction() {
    let mut client_funds = ClientFunds::default();
    client_funds.load_deposit(100, 1);
    client_funds.load_dispute(1, 1);
    client_funds.load_chargeback(1, 2);

    assert_eq!(client_funds.available, 0);
    assert_eq!(client_funds.held, 100);
    assert_eq!(client_funds.locked, false);
}

#[test]
fn test_chargeback_invalid_state() {
    let mut client_funds = ClientFunds::default();
    client_funds.load_deposit(100, 1);
    client_funds.load_chargeback(1, 1);

    assert_eq!(client_funds.available, 100);
    assert_eq!(client_funds.held, 0);
    assert_eq!(client_funds.locked, false);
}

#[test]
fn test_locked_account_blocks_transactions() {
    let mut engine = TransactionEngine::default();

    // Create transactions for client 1
    let transactions = vec![
        TransactionRaw {
            transaction_type: TransactionTypeRaw::Deposit,
            client: 1,
            tx: 1,
            amount: Some(100),
        },
        TransactionRaw {
            transaction_type: TransactionTypeRaw::Dispute,
            client: 1,
            tx: 1,
            amount: None,
        },
        TransactionRaw {
            transaction_type: TransactionTypeRaw::Chargeback,
            client: 1,
            tx: 1,
            amount: None,
        },
        // These should be blocked because account is locked
        TransactionRaw {
            transaction_type: TransactionTypeRaw::Deposit,
            client: 1,
            tx: 2,
            amount: Some(50),
        },
        TransactionRaw {
            transaction_type: TransactionTypeRaw::Withdrawal,
            client: 1,
            tx: 3,
            amount: Some(25),
        },
    ];

    engine.load_transactions(transactions);

    // Get client info
    let client_info = engine.clients();
    assert_eq!(client_info.len(), 1);

    let client = &client_info[0];
    assert_eq!(client.client_id, 1);
    assert_eq!(client.available, 0); // Should remain 0 after chargeback
    assert_eq!(client.held, 0);
    assert_eq!(client.total, 0);
    assert_eq!(client.locked, true);
}
