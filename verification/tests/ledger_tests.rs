//! Block application: connect, disconnect, dry runs, and the error cases.
use drivechain_engine::Error;
use drivechain_engine::deposits::SubmitOutcome;
use drivechain_engine::deposits::interpret_submission;
use drivechain_engine::ledger::Drivechain;
use drivechain_engine::types::Deposit;
use drivechain_engine::types::Refund;
use drivechain_engine::types::Withdrawal;
use drivechain_engine::types::WithdrawalAddress;
use drivechain_engine::types::WithdrawalRequest;

fn deposit(outpoint: &[u8], address: &str, amount: u64) -> Deposit {
    Deposit { outpoint: outpoint.to_vec(), address: address.to_string(), amount }
}

fn request(id: &[u8], dest: u8, amount: u64, fee: u64) -> WithdrawalRequest {
    WithdrawalRequest {
        id: id.to_vec(),
        dest: WithdrawalAddress { address: [dest; 20] },
        amount,
        mainchain_fee: fee,
    }
}

fn withdrawals_of(engine: &Drivechain) -> Vec<(Vec<u8>, Withdrawal)> {
    engine.get_unspent_withdrawals()
}

#[test]
fn connect_marks_deposits_and_records_withdrawals() {
    let mut engine = Drivechain::new(2, 10);
    let deposits = vec![deposit(b"op-1", "addr-a", 500), deposit(b"op-2", "addr-b", 700)];
    let withdrawals = vec![request(b"wid-1", 7, 1_000, 10)];
    let refunds: Vec<Refund> = vec![];
    assert_eq!(engine.connect_block(&deposits, &withdrawals, &refunds, false), Ok(()));
    assert!(engine.is_outpoint_spent(&b"op-1".to_vec()));
    assert!(engine.is_outpoint_spent(&b"op-2".to_vec()));
    assert!(!engine.is_outpoint_spent(&b"op-3".to_vec()));
    assert_eq!(engine.side_height, 1);
    let ws = withdrawals_of(&engine);
    assert_eq!(ws.len(), 1);
    assert_eq!(ws[0].0, b"wid-1".to_vec());
    assert_eq!(ws[0].1.amount, 1_000);
    assert_eq!(ws[0].1.mainchain_fee, 10);
    assert_eq!(ws[0].1.height, 1);
    assert_eq!(ws[0].1.dest.address, [7u8; 20]);
}

#[test]
fn inverse_law_disconnect_restores_pre_connect_state() {
    let mut engine = Drivechain::new(2, 10);
    // A first block establishes some prior state, including a withdrawal
    // that the second block refunds.
    let base_deposits = vec![deposit(b"op-base", "addr-0", 100)];
    let base_withdrawals = vec![request(b"wid-base", 3, 900, 25)];
    assert_eq!(engine.connect_block(&base_deposits, &base_withdrawals, &vec![], false), Ok(()));

    let deposits = vec![deposit(b"op-x", "addr-1", 500)];
    let withdrawals = vec![request(b"wid-new", 9, 400, 5)];
    let refunds = vec![Refund { id: b"wid-base".to_vec(), amount: 900 }];
    let before_ws = withdrawals_of(&engine);
    let before_height = engine.side_height;

    assert_eq!(engine.connect_block(&deposits, &withdrawals, &refunds, false), Ok(()));
    assert!(engine.is_outpoint_spent(&b"op-x".to_vec()));
    assert_eq!(engine.side_height, 2);
    // The refunded withdrawal left the active set; the new one entered it.
    let mid_ws = withdrawals_of(&engine);
    assert_eq!(mid_ws.len(), 1);
    assert_eq!(mid_ws[0].0, b"wid-new".to_vec());

    let withdrawal_ids = vec![b"wid-new".to_vec()];
    let refund_ids = vec![b"wid-base".to_vec()];
    assert_eq!(engine.disconnect_block(&deposits, &withdrawal_ids, &refund_ids, false), Ok(()));

    // Everything the block changed is back to its pre-connect value.
    assert!(!engine.is_outpoint_spent(&b"op-x".to_vec()));
    assert!(engine.is_outpoint_spent(&b"op-base".to_vec()));
    assert_eq!(engine.side_height, before_height);
    let after_ws = withdrawals_of(&engine);
    assert_eq!(after_ws.len(), before_ws.len());
    assert_eq!(after_ws[0].0, b"wid-base".to_vec());
    assert_eq!(after_ws[0].1.amount, 900);
    assert_eq!(after_ws[0].1.mainchain_fee, 25);
    assert_eq!(after_ws[0].1.height, 1);
}

#[test]
fn dry_run_connect_changes_nothing() {
    let mut engine = Drivechain::new(2, 10);
    let deposits = vec![deposit(b"op-1", "addr-a", 500)];
    let withdrawals = vec![request(b"wid-1", 7, 1_000, 10)];
    assert_eq!(engine.connect_block(&deposits, &withdrawals, &vec![], true), Ok(()));
    assert!(!engine.is_outpoint_spent(&b"op-1".to_vec()));
    assert_eq!(engine.side_height, 0);
    assert_eq!(withdrawals_of(&engine).len(), 0);
    assert_eq!(engine.flush(), 0);
}

#[test]
fn dry_run_failing_connect_changes_nothing() {
    let mut engine = Drivechain::new(2, 10);
    assert_eq!(engine.connect_block(&vec![deposit(b"op-1", "a", 1)], &vec![], &vec![], false), Ok(()));
    let again = vec![deposit(b"op-1", "a", 1)];
    assert_eq!(
        engine.connect_block(&again, &vec![], &vec![], true),
        Err(Error::DuplicateDeposit)
    );
    assert!(engine.is_outpoint_spent(&b"op-1".to_vec()));
    assert_eq!(engine.side_height, 1);
}

#[test]
fn double_spend_is_refused() {
    let mut engine = Drivechain::new(2, 10);
    let block1 = vec![deposit(b"op-dup", "addr-a", 500)];
    let block2 = vec![deposit(b"op-dup", "addr-b", 700), deposit(b"op-other", "addr-c", 10)];
    assert_eq!(engine.connect_block(&block1, &vec![], &vec![], false), Ok(()));
    assert_eq!(
        engine.connect_block(&block2, &vec![], &vec![], false),
        Err(Error::DuplicateDeposit)
    );
    // The failed block left nothing behind.
    assert!(!engine.is_outpoint_spent(&b"op-other".to_vec()));
    assert_eq!(engine.side_height, 1);
}

#[test]
fn withdrawal_fee_above_amount_is_refused() {
    let mut engine = Drivechain::new(2, 10);
    let withdrawals = vec![request(b"wid-1", 7, 10, 11)];
    assert_eq!(
        engine.connect_block(&vec![], &withdrawals, &vec![], false),
        Err(Error::InvalidWithdrawal)
    );
    assert_eq!(engine.side_height, 0);
}

#[test]
fn refund_of_unknown_withdrawal_is_refused() {
    let mut engine = Drivechain::new(2, 10);
    let refunds = vec![Refund { id: b"nobody".to_vec(), amount: 1 }];
    assert_eq!(
        engine.connect_block(&vec![], &vec![], &refunds, false),
        Err(Error::UnknownWithdrawal)
    );
}

#[test]
fn disconnect_of_unspent_outpoint_is_refused() {
    let mut engine = Drivechain::new(2, 10);
    assert_eq!(engine.connect_block(&vec![], &vec![], &vec![], false), Ok(()));
    let deposits = vec![deposit(b"never-spent", "a", 1)];
    assert_eq!(
        engine.disconnect_block(&deposits, &vec![], &vec![], false),
        Err(Error::NotSpent)
    );
}

#[test]
fn disconnect_of_unknown_withdrawal_is_refused() {
    let mut engine = Drivechain::new(2, 10);
    assert_eq!(engine.connect_block(&vec![], &vec![], &vec![], false), Ok(()));
    assert_eq!(
        engine.disconnect_block(&vec![], &vec![b"ghost".to_vec()], &vec![], false),
        Err(Error::UnknownWithdrawal)
    );
}

#[test]
fn flush_reports_and_resets_pending_mutations() {
    let mut engine = Drivechain::new(2, 10);
    let deposits = vec![deposit(b"op-1", "a", 1), deposit(b"op-2", "b", 2)];
    let withdrawals = vec![request(b"wid-1", 7, 100, 1)];
    assert_eq!(engine.connect_block(&deposits, &withdrawals, &vec![], false), Ok(()));
    // Two deposits, one withdrawal, no refunds, plus the height record.
    assert_eq!(engine.flush(), 4);
    assert_eq!(engine.flush(), 0);
}

#[test]
fn empty_block_advances_height_and_counts_one_record() {
    let mut engine = Drivechain::new(2, 10);
    assert_eq!(engine.connect_block(&vec![], &vec![], &vec![], false), Ok(()));
    assert_eq!(engine.side_height, 1);
    assert_eq!(engine.flush(), 1);
    assert_eq!(engine.disconnect_block(&vec![], &vec![], &vec![], false), Ok(()));
    assert_eq!(engine.side_height, 0);
}

#[test]
fn reconnecting_a_withdrawal_id_updates_its_record() {
    let mut engine = Drivechain::new(2, 10);
    let first = vec![request(b"wid-1", 1, 1_000, 10)];
    let second = vec![request(b"wid-1", 2, 2_000, 20)];
    assert_eq!(engine.connect_block(&vec![], &first, &vec![], false), Ok(()));
    assert_eq!(engine.connect_block(&vec![], &second, &vec![], false), Ok(()));
    let ws = withdrawals_of(&engine);
    assert_eq!(ws.len(), 1);
    assert_eq!(ws[0].1.amount, 2_000);
    assert_eq!(ws[0].1.mainchain_fee, 20);
    assert_eq!(ws[0].1.dest.address, [2u8; 20]);
    assert_eq!(ws[0].1.height, 2);
}

#[test]
fn submission_outcomes_map_to_their_errors() {
    assert_eq!(interpret_submission(&SubmitOutcome::Accepted), Ok(()));
    assert_eq!(
        interpret_submission(&SubmitOutcome::InsufficientFunds),
        Err(Error::InsufficientFunds)
    );
    assert_eq!(interpret_submission(&SubmitOutcome::Rejected), Err(Error::MainchainRejected));
}
