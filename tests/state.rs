use ledger::accounts::AccountPerfomErr;
use ledger::state::State;
use ledger::transactions::{Transaction, TransactionType};

fn deposit(client: u16, tx: u32, amount: i64) -> Transaction {
    Transaction::new(TransactionType::Deposit, client, tx, Some(amount))
}

fn withdrawal(client: u16, tx: u32, amount: i64) -> Transaction {
    Transaction::new(TransactionType::Withdrawal, client, tx, Some(amount))
}

fn lifecycle(kind: TransactionType, client: u16, tx: u32) -> Transaction {
    Transaction::new(kind, client, tx, None)
}

#[test]
fn test_accounts_receive_deposit() {
    let mut state = State::default();
    let transaction = deposit(1, 1, 11234);
    let performed_correctly = state.perform(&transaction).is_ok();
    let account = state.get_account(1);
    assert!(performed_correctly);
    assert_eq!(account.available, 11234);
}

#[test]
fn test_accounts_receive_withdrawal() {
    let mut state = State::default();
    let transaction = withdrawal(1, 1, 11234);
    let performed_correctly = state.perform(&transaction).is_ok();
    let account = state.get_account(1);
    assert!(performed_correctly);
    assert_eq!(account.available, -11234);
}

#[test]
fn test_accounts_receive_dispute() {
    let mut state = State::default();
    let transaction = deposit(1, 1, 11234);
    let performed_correctly = state.perform(&transaction).is_ok();
    let dispute = lifecycle(TransactionType::Dispute, 1, 1);
    let dispute_accepted = state.perform(&dispute).is_ok();
    let account = state.get_account(1);
    assert!(performed_correctly);
    assert!(dispute_accepted);
    assert_eq!(account.available, 0);
    assert_eq!(account.held, 11234);
    assert_eq!(account.total(), 11234);
}

#[test]
fn test_accounts_receive_resolve() {
    let mut state = State::default();
    let transaction = deposit(1, 1, 11234);
    let performed_correctly = state.perform(&transaction).is_ok();
    let dispute = lifecycle(TransactionType::Dispute, 1, 1);
    let dispute_accepted = state.perform(&dispute).is_ok();
    let resolution = lifecycle(TransactionType::Resolve, 1, 1);
    let resolution_accepted = state.perform(&resolution).is_ok();
    let account = state.get_account(1);
    assert!(performed_correctly);
    assert!(dispute_accepted);
    assert!(resolution_accepted);
    assert_eq!(account.available, 11234);
    assert_eq!(account.held, 0);
    assert_eq!(account.total(), 11234);
}

#[test]
fn test_accounts_receive_resolve_with_no_dispute() {
    let mut state = State::default();
    let transaction = deposit(1, 1, 11234);
    let performed_correctly = state.perform(&transaction).is_ok();
    let resolution = lifecycle(TransactionType::Resolve, 1, 1);
    let resolution_accepted = state.perform(&resolution).is_ok();
    let account = state.get_account(1);
    assert!(performed_correctly);
    assert!(resolution_accepted);
    assert_eq!(account.available, 11234);
    assert_eq!(account.held, 0);
    assert_eq!(account.total(), 11234);
}

#[test]
fn scenario_single_deposit() {
    let mut state = State::default();
    assert!(state.perform(&deposit(1, 1, 10000)).is_ok());
    let a = state.get_account(1);
    assert_eq!((a.available, a.held, a.total, a.locked), (10000, 0, 10000, false));
}

#[test]
fn scenario_deposit_then_withdrawal() {
    let mut state = State::default();
    assert!(state.perform(&deposit(1, 1, 11234)).is_ok());
    assert!(state.perform(&withdrawal(1, 2, 1234)).is_ok());
    let a = state.get_account(1);
    assert_eq!(a.available, 10000);
    assert_eq!(a.total, 10000);
}

#[test]
fn scenario_dispute_holds_funds() {
    let mut state = State::default();
    assert!(state.perform(&deposit(1, 1, 11234)).is_ok());
    assert!(state.perform(&lifecycle(TransactionType::Dispute, 1, 1)).is_ok());
    let a = state.get_account(1);
    assert_eq!((a.available, a.held, a.total), (0, 11234, 11234));
}

#[test]
fn scenario_resolve_releases_funds() {
    let mut state = State::default();
    assert!(state.perform(&deposit(1, 1, 11234)).is_ok());
    assert!(state.perform(&lifecycle(TransactionType::Dispute, 1, 1)).is_ok());
    assert!(state.perform(&lifecycle(TransactionType::Resolve, 1, 1)).is_ok());
    let a = state.get_account(1);
    assert_eq!((a.available, a.held, a.total), (11234, 0, 11234));
}

#[test]
fn scenario_chargeback_locks_account() {
    let mut state = State::default();
    assert!(state.perform(&deposit(1, 1, 11234)).is_ok());
    assert!(state.perform(&lifecycle(TransactionType::Dispute, 1, 1)).is_ok());
    assert!(state.perform(&lifecycle(TransactionType::Chargeback, 1, 1)).is_ok());
    let a = state.get_account(1);
    assert_eq!((a.available, a.held, a.total, a.locked), (0, 0, 0, true));
}

#[test]
fn scenario_resolve_of_unknown_transaction() {
    let mut state = State::default();
    assert!(state.perform(&lifecycle(TransactionType::Resolve, 1, 99)).is_ok());
    assert!(state.snapshot().is_empty());
    assert!(state.perform(&deposit(2, 1, 500)).is_ok());
    assert_eq!(state.get_account(2).available, 500);
}

#[test]
fn unknown_dispute_creates_no_account() {
    let mut state = State::default();
    assert!(state.perform(&lifecycle(TransactionType::Dispute, 4, 8)).is_ok());
    assert!(state.perform(&lifecycle(TransactionType::Chargeback, 4, 8)).is_ok());
    assert!(state.snapshot().is_empty());
}

#[test]
fn undisputed_resolve_and_chargeback_change_nothing() {
    let mut state = State::default();
    assert!(state.perform(&deposit(1, 1, 30000)).is_ok());
    assert!(state.perform(&lifecycle(TransactionType::Chargeback, 1, 1)).is_ok());
    assert!(state.perform(&lifecycle(TransactionType::Resolve, 1, 1)).is_ok());
    let a = state.get_account(1);
    assert_eq!((a.available, a.held, a.total, a.locked), (30000, 0, 30000, false));
}

#[test]
fn dispute_then_resolve_restores_balances() {
    let mut state = State::default();
    assert!(state.perform(&deposit(1, 1, 20000)).is_ok());
    assert!(state.perform(&withdrawal(1, 2, 5000)).is_ok());
    let before = *state.get_account(1);
    assert!(state.perform(&lifecycle(TransactionType::Dispute, 1, 2)).is_ok());
    assert_eq!(state.get_account(1).held, 5000);
    assert_eq!(state.get_account(1).available, 10000);
    assert!(state.perform(&lifecycle(TransactionType::Resolve, 1, 2)).is_ok());
    let after = *state.get_account(1);
    assert_eq!((after.available, after.held, after.total), (before.available, before.held, before.total));
}

#[test]
fn dispute_applies_to_journaled_client() {
    let mut state = State::default();
    assert!(state.perform(&deposit(1, 1, 10000)).is_ok());
    assert!(state.perform(&deposit(2, 2, 5000)).is_ok());
    assert!(state.perform(&lifecycle(TransactionType::Dispute, 2, 1)).is_ok());
    let one = state.get_account(1);
    assert_eq!((one.available, one.held), (0, 10000));
    let two = state.get_account(2);
    assert_eq!((two.available, two.held), (5000, 0));
}

#[test]
fn duplicate_transaction_id_keeps_first_journal_entry() {
    let mut state = State::default();
    assert!(state.perform(&deposit(1, 1, 10000)).is_ok());
    assert!(state.perform(&deposit(1, 1, 3000)).is_ok());
    assert_eq!(state.get_account(1).available, 13000);
    assert!(state.perform(&lifecycle(TransactionType::Dispute, 1, 1)).is_ok());
    let a = state.get_account(1);
    assert_eq!((a.available, a.held, a.total), (3000, 10000, 13000));
}

#[test]
fn chargeback_leaves_dispute_open() {
    let mut state = State::default();
    assert!(state.perform(&deposit(1, 1, 10000)).is_ok());
    assert!(state.perform(&deposit(1, 2, 10000)).is_ok());
    assert!(state.perform(&lifecycle(TransactionType::Dispute, 1, 1)).is_ok());
    assert!(state.perform(&lifecycle(TransactionType::Chargeback, 1, 1)).is_ok());
    assert!(state.perform(&lifecycle(TransactionType::Chargeback, 1, 1)).is_ok());
    let a = state.get_account(1);
    assert_eq!((a.available, a.held, a.total, a.locked), (10000, -10000, 0, true));
}

#[test]
fn overflow_is_reported_and_stream_continues() {
    let mut state = State::default();
    assert!(state.perform(&deposit(1, 1, i64::MAX)).is_ok());
    assert_eq!(state.perform(&deposit(1, 2, 1)), Err(AccountPerfomErr::Overflow));
    assert_eq!(state.get_account(1).available, i64::MAX);
    assert!(state.perform(&withdrawal(1, 3, 7)).is_ok());
    assert_eq!(state.get_account(1).available, i64::MAX - 7);
}

#[test]
fn snapshot_is_ordered_by_client() {
    let mut state = State::default();
    assert!(state.perform(&deposit(9, 1, 100)).is_ok());
    assert!(state.perform(&deposit(2, 2, 200)).is_ok());
    assert!(state.perform(&deposit(65535, 3, 300)).is_ok());
    assert!(state.perform(&deposit(0, 4, 400)).is_ok());
    let clients: Vec<u16> = state.snapshot().iter().map(|a| a.client).collect();
    assert_eq!(clients, vec![0, 2, 9, 65535]);
    for a in state.snapshot() {
        assert_eq!(a.total, a.available + a.held);
    }
}
