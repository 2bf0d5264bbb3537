//! Deposit tracking and withdrawal bundles.
use drivechain_engine::Error;
use drivechain_engine::ledger::Drivechain;
use drivechain_engine::outpoints::OutpointSet;
use drivechain_engine::types::Deposit;
use drivechain_engine::types::Refund;
use drivechain_engine::types::WithdrawalAddress;
use drivechain_engine::types::WithdrawalRequest;

fn deposit(outpoint: &[u8], address: &str, amount: u64) -> Deposit {
    Deposit { outpoint: outpoint.to_vec(), address: address.to_string(), amount }
}

fn request(id: &[u8], dest: u8, amount: u64, fee: u64) -> WithdrawalRequest {
    WithdrawalRequest {
        id: id.to_vec(),
        dest: WithdrawalAddress { address: [dest; 20] },
        amount,
        mainchain_fee: fee,
    }
}

#[test]
fn created_deposit_appears_once_and_never_after_consumption() {
    let mut engine = Drivechain::new(2, 10);
    let req = engine.create_deposit(&"sidechain-addr-1".to_string(), 5_000_000, 1_000);
    assert_eq!(req.address, "sidechain-addr-1");
    assert_eq!(req.amount, 5_000_000);
    assert_eq!(req.fee, 1_000);
    // After mainchain confirmation a scan observes the mined deposit.
    let scanned = vec![deposit(b"op-mined", "sidechain-addr-1", 5_000_000)];
    let outputs = engine.get_deposit_outputs(&scanned);
    assert_eq!(outputs.len(), 1);
    assert_eq!(outputs[0].address, "sidechain-addr-1");
    assert_eq!(outputs[0].amount, 5_000_000);
    // Consumed by a connected block, it is never returned again.
    assert_eq!(engine.connect_block(&scanned, &vec![], &vec![], false), Ok(()));
    let outputs = engine.get_deposit_outputs(&scanned);
    assert_eq!(outputs.len(), 0);
}

#[test]
fn deposit_scan_keeps_order_and_drops_only_spent_outpoints() {
    let mut engine = Drivechain::new(2, 10);
    let consumed = vec![deposit(b"op-a", "addr-1", 10)];
    assert_eq!(engine.connect_block(&consumed, &vec![], &vec![], false), Ok(()));
    let scanned = vec![
        deposit(b"op-a", "addr-1", 10),
        deposit(b"op-b", "addr-2", 20),
        deposit(b"op-c", "addr-3", 30),
    ];
    let outputs = engine.get_deposit_outputs(&scanned);
    assert_eq!(outputs.len(), 2);
    assert_eq!(outputs[0].outpoint, b"op-b".to_vec());
    assert_eq!(outputs[1].outpoint, b"op-c".to_vec());
}

#[test]
fn bundle_pays_each_destination_amount_minus_fee() {
    let mut engine = Drivechain::new(2, 10);
    let withdrawals = vec![request(b"wid-1", 1, 1_000, 10), request(b"wid-2", 2, 500, 500)];
    assert_eq!(engine.connect_block(&vec![], &withdrawals, &vec![], false), Ok(()));
    let bundle = engine.attempt_bundle_broadcast().unwrap();
    assert_eq!(bundle.payments.len(), 2);
    assert_eq!(bundle.payments[0].dest.address, [1u8; 20]);
    assert_eq!(bundle.payments[0].amount, 990);
    assert_eq!(bundle.payments[1].dest.address, [2u8; 20]);
    assert_eq!(bundle.payments[1].amount, 0);
}

#[test]
fn second_bundle_while_pending_is_a_benign_refusal() {
    let mut engine = Drivechain::new(2, 10);
    let withdrawals = vec![request(b"wid-1", 1, 1_000, 10)];
    assert_eq!(engine.connect_block(&vec![], &withdrawals, &vec![], false), Ok(()));
    assert!(engine.attempt_bundle_broadcast().is_ok());
    assert!(matches!(engine.attempt_bundle_broadcast(), Err(Error::BundleAlreadyPending)));
    // The withdrawals are still outstanding, not double-spent.
    assert_eq!(engine.get_unspent_withdrawals().len(), 1);
}

#[test]
fn failed_bundle_yields_refunds_that_reenter_by_block() {
    let mut engine = Drivechain::new(2, 10);
    let withdrawals = vec![request(b"wid-1", 1, 1_000, 10)];
    assert_eq!(engine.connect_block(&vec![], &withdrawals, &vec![], false), Ok(()));
    assert!(engine.attempt_bundle_broadcast().is_ok());
    let refunds = engine.record_bundle_failure().unwrap();
    assert_eq!(refunds.len(), 1);
    assert_eq!(refunds[0].id, b"wid-1".to_vec());
    assert_eq!(refunds[0].amount, 1_000);
    // Applied on the next block, the refund clears the pending withdrawal.
    assert_eq!(engine.connect_block(&vec![], &vec![], &refunds, false), Ok(()));
    assert_eq!(engine.get_unspent_withdrawals().len(), 0);
    // A new bundle may be attempted afterwards.
    assert!(engine.attempt_bundle_broadcast().is_ok());
}

#[test]
fn confirmed_bundle_retires_its_withdrawals() {
    let mut engine = Drivechain::new(2, 10);
    let withdrawals = vec![request(b"wid-1", 1, 1_000, 10), request(b"wid-2", 2, 700, 7)];
    assert_eq!(engine.connect_block(&vec![], &withdrawals, &vec![], false), Ok(()));
    assert!(engine.attempt_bundle_broadcast().is_ok());
    assert_eq!(engine.record_bundle_confirmation(), Ok(()));
    assert_eq!(engine.get_unspent_withdrawals().len(), 0);
}

#[test]
fn bundle_events_without_a_bundle_are_refused() {
    let mut engine = Drivechain::new(2, 10);
    assert!(matches!(engine.record_bundle_failure(), Err(Error::NoBundlePending)));
    assert!(matches!(engine.record_bundle_confirmation(), Err(Error::NoBundlePending)));
}

#[test]
fn refund_to_unknown_id_among_valid_refunds_retains_nothing() {
    let mut engine = Drivechain::new(2, 10);
    let withdrawals = vec![request(b"wid-1", 1, 1_000, 10)];
    assert_eq!(engine.connect_block(&vec![], &withdrawals, &vec![], false), Ok(()));
    let refunds = vec![
        Refund { id: b"wid-1".to_vec(), amount: 1_000 },
        Refund { id: b"ghost".to_vec(), amount: 5 },
    ];
    assert_eq!(
        engine.connect_block(&vec![], &vec![], &refunds, false),
        Err(Error::UnknownWithdrawal)
    );
    // All-or-nothing: the valid refund was not applied either.
    assert_eq!(engine.get_unspent_withdrawals().len(), 1);
}

#[test]
fn outpoint_ledger_marks_once_and_unmarks_once() {
    let mut set = OutpointSet::new();
    let op = b"op-1".to_vec();
    assert!(!set.is_spent(&op));
    assert_eq!(set.mark_spent(&op), Ok(()));
    assert!(set.is_spent(&op));
    // Marking twice is a loud data-integrity failure.
    assert_eq!(set.mark_spent(&op), Err(Error::AlreadySpent));
    assert_eq!(set.unmark_spent(&op), Ok(()));
    assert!(!set.is_spent(&op));
    assert_eq!(set.unmark_spent(&op), Err(Error::NotSpent));
}
