//! The blind-merged-mining protocol: attempt, confirm, verify.
use drivechain_engine::Error;
use drivechain_engine::bmm::BmmPoll;
use drivechain_engine::bmm::BmmState;
use drivechain_engine::bmm::MainBlockInfo;
use drivechain_engine::bmm::get_prev_main_block_hash;
use drivechain_engine::bmm::verify_bmm;
use drivechain_engine::ledger::Drivechain;

fn hash(tag: u8) -> Vec<u8> {
    vec![tag; 32]
}

#[test]
fn attempt_succeeds_against_matching_tip() {
    let mut engine = Drivechain::new(2, 10);
    let commitment = engine.attempt_bmm(&hash(0xaa), &hash(0x01), 1000, &hash(0x01)).unwrap();
    assert_eq!(commitment.critical_hash, hash(0xaa));
    assert_eq!(commitment.prev_main_block_hash, hash(0x01));
    assert_eq!(commitment.amount, 1000);
    assert!(engine.bmm_pending());
}

#[test]
fn attempt_against_stale_tip_is_refused() {
    let mut engine = Drivechain::new(2, 10);
    let r = engine.attempt_bmm(&hash(0xaa), &hash(0x01), 1000, &hash(0x02));
    assert!(matches!(r, Err(Error::StaleTip)));
    assert!(!engine.bmm_pending());
}

#[test]
fn second_attempt_while_pending_is_refused() {
    let mut engine = Drivechain::new(2, 10);
    assert!(engine.attempt_bmm(&hash(0xaa), &hash(0x01), 1000, &hash(0x01)).is_ok());
    let r = engine.attempt_bmm(&hash(0xbb), &hash(0x02), 2000, &hash(0x02));
    assert!(matches!(r, Err(Error::AttemptInProgress)));
}

#[test]
fn confirm_without_attempt_is_refused() {
    let mut engine = Drivechain::new(2, 10);
    let r = engine.confirm_bmm(&BmmPoll::BranchAbandoned);
    assert!(matches!(r, Err(Error::NoAttemptPending)));
}

#[test]
fn commitment_confirms_once_deep_enough_with_matching_hash() {
    let mut engine = Drivechain::new(2, 10);
    assert!(engine.attempt_bmm(&hash(0xaa), &hash(0x01), 1000, &hash(0x01)).is_ok());
    // Mined but still short of the required depth: pending.
    let r = engine.confirm_bmm(&BmmPoll::Included { confirmations: 1, committed_hash: hash(0xaa) });
    assert_eq!(r, Ok(BmmState::Pending));
    assert!(engine.bmm_pending());
    // One block past the threshold with the hash embedded: succeeded.
    let r = engine.confirm_bmm(&BmmPoll::Included { confirmations: 2, committed_hash: hash(0xaa) });
    assert_eq!(r, Ok(BmmState::Succeeded));
    assert!(!engine.bmm_pending());
}

#[test]
fn abandoned_branch_fails_attempt_and_frees_the_slot() {
    let mut engine = Drivechain::new(2, 10);
    assert!(engine.attempt_bmm(&hash(0xaa), &hash(0x01), 1000, &hash(0x01)).is_ok());
    // The branch holding the commitment is replaced before reaching depth.
    assert_eq!(engine.confirm_bmm(&BmmPoll::BranchAbandoned), Ok(BmmState::Failed));
    // A new attempt against the new tip succeeds.
    assert!(engine.attempt_bmm(&hash(0xcc), &hash(0x02), 1000, &hash(0x02)).is_ok());
}

#[test]
fn unmined_attempt_fails_after_the_wait_bound() {
    let mut engine = Drivechain::new(2, 3);
    assert!(engine.attempt_bmm(&hash(0xaa), &hash(0x01), 1000, &hash(0x01)).is_ok());
    assert_eq!(
        engine.confirm_bmm(&BmmPoll::NotIncluded { blocks_elapsed: 2 }),
        Ok(BmmState::Pending)
    );
    assert_eq!(
        engine.confirm_bmm(&BmmPoll::NotIncluded { blocks_elapsed: 3 }),
        Ok(BmmState::Failed)
    );
    assert!(!engine.bmm_pending());
}

#[test]
fn foreign_commitment_at_depth_fails_the_attempt() {
    let mut engine = Drivechain::new(2, 10);
    assert!(engine.attempt_bmm(&hash(0xaa), &hash(0x01), 1000, &hash(0x01)).is_ok());
    let r = engine.confirm_bmm(&BmmPoll::Included { confirmations: 5, committed_hash: hash(0xdd) });
    assert_eq!(r, Ok(BmmState::Failed));
}

#[test]
fn rejected_submission_resets_the_slot() {
    let mut engine = Drivechain::new(2, 10);
    assert!(engine.attempt_bmm(&hash(0xaa), &hash(0x01), 1000, &hash(0x01)).is_ok());
    assert_eq!(engine.record_bmm_rejection(), Ok(()));
    assert!(!engine.bmm_pending());
    assert!(matches!(engine.record_bmm_rejection(), Err(Error::NoAttemptPending)));
}

#[test]
fn verification_depends_only_on_the_block_data() {
    let block = MainBlockInfo {
        hash: hash(0x10),
        prev_main_block_hash: hash(0x0f),
        commitment: Some(hash(0xaa)),
    };
    // True exactly when the identified block carries the critical hash.
    assert!(verify_bmm(&hash(0x10), &hash(0xaa), &block));
    assert!(!verify_bmm(&hash(0x10), &hash(0xbb), &block));
    assert!(!verify_bmm(&hash(0x11), &hash(0xaa), &block));
    let bare = MainBlockInfo {
        hash: hash(0x10),
        prev_main_block_hash: hash(0x0f),
        commitment: None,
    };
    assert!(!verify_bmm(&hash(0x10), &hash(0xaa), &bare));
    // The verdict is the same whatever any engine's ledger holds: the
    // function takes no engine state at all, only public mainchain data.
    assert!(verify_bmm(&hash(0x10), &hash(0xaa), &block));
}

#[test]
fn prev_hash_lookup_follows_the_mainchain_answer() {
    let block = MainBlockInfo {
        hash: hash(0x10),
        prev_main_block_hash: hash(0x0f),
        commitment: None,
    };
    assert_eq!(get_prev_main_block_hash(&hash(0x10), Some(&block)), Ok(hash(0x0f)));
    assert_eq!(get_prev_main_block_hash(&hash(0x10), None), Err(Error::UnknownBlock));
    // An answer for a different hash is not recognized either.
    assert_eq!(get_prev_main_block_hash(&hash(0x11), Some(&block)), Err(Error::UnknownBlock));
}
