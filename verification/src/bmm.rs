//! Blind-merged-mining coordinator: drives the commit/confirm/verify protocol
//! for per-block critical hashes against a chosen mainchain tip. One attempt
//! may be outstanding at a time; confirmation is caller-driven polling, and
//! verification is a pure function of public mainchain data.
use vstd::prelude::*;

use crate::Error;
use crate::bytes::bytes_eq;
use crate::bytes::clone_bytes;
use crate::ledger::Drivechain;

verus! {

/// Lifecycle answer of one polled commitment attempt.
#[derive(Clone, Copy, PartialEq, Eq, Structural, Debug)]
pub enum BmmState {
    Pending,
    Succeeded,
    Failed,
}

/// The coordinator's slot for the one outstanding attempt.
pub enum BmmSlot {
    Idle,
    Pending { critical_hash: Vec<u8>, prev_main_block_hash: Vec<u8> },
}

/// Mathematical model of a [`BmmSlot`].
pub ghost enum BmmSlotModel {
    Idle,
    Pending { critical_hash: Seq<u8>, prev_main_block_hash: Seq<u8> },
}

impl View for BmmSlot {
    type V = BmmSlotModel;

    open spec fn view(&self) -> BmmSlotModel {
        match self {
            BmmSlot::Idle => BmmSlotModel::Idle,
            BmmSlot::Pending { critical_hash, prev_main_block_hash } => (BmmSlotModel::Pending {
                critical_hash: critical_hash@,
                prev_main_block_hash: prev_main_block_hash@,
            }),
        }
    }
}

/// The commitment the caller must submit to the mainchain: a transaction
/// paying `amount` that embeds `critical_hash`, anchored to the assumed tip.
pub struct BmmCommitment {
    pub critical_hash: Vec<u8>,
    pub prev_main_block_hash: Vec<u8>,
    pub amount: u64,
}

/// Mathematical model of a [`BmmCommitment`].
pub ghost struct BmmCommitmentModel {
    pub critical_hash: Seq<u8>,
    pub prev_main_block_hash: Seq<u8>,
    pub amount: u64,
}

impl View for BmmCommitment {
    type V = BmmCommitmentModel;

    open spec fn view(&self) -> BmmCommitmentModel {
        BmmCommitmentModel {
            critical_hash: self.critical_hash@,
            prev_main_block_hash: self.prev_main_block_hash@,
            amount: self.amount,
        }
    }
}

/// What a poll of the mainchain observed about the pending commitment.
pub enum BmmPoll {
    /// The commitment transaction is not mined on the active branch; this
    /// many mainchain blocks have elapsed since the attempt.
    NotIncluded { blocks_elapsed: u64 },
    /// The commitment is mined: its confirmation depth so far and the
    /// critical hash found at the commitment location.
    Included { confirmations: u64, committed_hash: Vec<u8> },
    /// The mainchain branch holding the commitment was abandoned.
    BranchAbandoned,
}

/// Mathematical model of a [`BmmPoll`].
pub ghost enum BmmPollModel {
    NotIncluded { blocks_elapsed: u64 },
    Included { confirmations: u64, committed_hash: Seq<u8> },
    BranchAbandoned,
}

impl View for BmmPoll {
    type V = BmmPollModel;

    open spec fn view(&self) -> BmmPollModel {
        match self {
            BmmPoll::NotIncluded { blocks_elapsed } => (BmmPollModel::NotIncluded {
                blocks_elapsed: *blocks_elapsed,
            }),
            BmmPoll::Included { confirmations, committed_hash } => (BmmPollModel::Included {
                confirmations: *confirmations,
                committed_hash: committed_hash@,
            }),
            BmmPoll::BranchAbandoned => BmmPollModel::BranchAbandoned,
        }
    }
}

/// What a lookup of a mainchain block observed: its hash, its parent, and
/// the critical-hash commitment found at the expected location, if any.
pub struct MainBlockInfo {
    pub hash: Vec<u8>,
    pub prev_main_block_hash: Vec<u8>,
    pub commitment: Option<Vec<u8>>,
}

/// Mathematical model of a [`MainBlockInfo`].
pub ghost struct MainBlockInfoModel {
    pub hash: Seq<u8>,
    pub prev_main_block_hash: Seq<u8>,
    pub commitment: Option<Seq<u8>>,
}

impl View for MainBlockInfo {
    type V = MainBlockInfoModel;

    open spec fn view(&self) -> MainBlockInfoModel {
        MainBlockInfoModel {
            hash: self.hash@,
            prev_main_block_hash: self.prev_main_block_hash@,
            commitment: match self.commitment {
                Option::Some(c) => Option::Some(c@),
                Option::None => Option::None,
            },
        }
    }
}

/// Transition taken by `attempt_bmm`: only from an idle slot, and only
/// against the tip the attempt is anchored to.
pub open spec fn spec_attempt(
    slot: BmmSlotModel,
    critical_hash: Seq<u8>,
    prev_main_block_hash: Seq<u8>,
    amount: u64,
    observed_tip: Seq<u8>,
) -> (BmmSlotModel, Result<BmmCommitmentModel, Error>) {
    if slot is Pending {
        (slot, Err(Error::AttemptInProgress))
    } else if observed_tip != prev_main_block_hash {
        (slot, Err(Error::StaleTip))
    } else {
        (
            BmmSlotModel::Pending { critical_hash, prev_main_block_hash },
            Ok(BmmCommitmentModel { critical_hash, prev_main_block_hash, amount }),
        )
    }
}

/// Transition taken by `confirm_bmm` for one poll observation.
pub open spec fn spec_confirm(
    slot: BmmSlotModel,
    poll: BmmPollModel,
    conf_depth: u64,
    max_wait: u64,
) -> (BmmSlotModel, Result<BmmState, Error>) {
    match slot {
        BmmSlotModel::Idle => (slot, Err(Error::NoAttemptPending)),
        BmmSlotModel::Pending { critical_hash, prev_main_block_hash } => match poll {
            BmmPollModel::BranchAbandoned => (BmmSlotModel::Idle, Ok(BmmState::Failed)),
            BmmPollModel::NotIncluded { blocks_elapsed } => if blocks_elapsed >= max_wait {
                (BmmSlotModel::Idle, Ok(BmmState::Failed))
            } else {
                (slot, Ok(BmmState::Pending))
            },
            BmmPollModel::Included { confirmations, committed_hash } => if confirmations
                < conf_depth {
                (slot, Ok(BmmState::Pending))
            } else if committed_hash == critical_hash {
                (BmmSlotModel::Idle, Ok(BmmState::Succeeded))
            } else {
                (BmmSlotModel::Idle, Ok(BmmState::Failed))
            },
        },
    }
}

/// Whether the mainchain block identified by `main_block_hash` carries a
/// commitment equal to `critical_hash`.
pub open spec fn spec_verify_bmm(
    block: MainBlockInfoModel,
    main_block_hash: Seq<u8>,
    critical_hash: Seq<u8>,
) -> bool {
    block.hash == main_block_hash && block.commitment == Option::Some(critical_hash)
}

/// Everything of the engine but the coordinator slot is preserved.
pub open spec fn bmm_frame(pre: Drivechain, post: Drivechain) -> bool {
    &&& post.lm() == pre.lm()
    &&& post.pending_bundle == pre.pending_bundle
    &&& post.unflushed == pre.unflushed
    &&& post.conf_depth == pre.conf_depth
    &&& post.max_wait == pre.max_wait
}

impl Drivechain {
    /// Whether a blind-merged-mining attempt is outstanding.
    pub fn bmm_pending(&self) -> (r: bool)
        ensures
            r == (self.bmm@ is Pending),
    {
        match &self.bmm {
            BmmSlot::Idle => false,
            BmmSlot::Pending { .. } => true,
        }
    }

    /// Starts a commitment attempt for `critical_hash`, anchored to
    /// `prev_main_block_hash` and paying `amount`. `observed_tip` is the
    /// mainchain tip the caller just read. Fails with `AttemptInProgress`
    /// while an attempt is outstanding, and with `StaleTip` when the observed
    /// tip no longer matches the anchor; on success the returned commitment
    /// is what the caller must submit to the mainchain.
    pub fn attempt_bmm(
        &mut self,
        critical_hash: &Vec<u8>,
        prev_main_block_hash: &Vec<u8>,
        amount: u64,
        observed_tip: &Vec<u8>,
    ) -> (r: Result<BmmCommitment, Error>)
        ensures
            final(self).wf() == old(self).wf(),
            bmm_frame(*old(self), *final(self)),
            ({
                let (s1, rr) = spec_attempt(
                    old(self).bmm@,
                    critical_hash@,
                    prev_main_block_hash@,
                    amount,
                    observed_tip@,
                );
                &&& final(self).bmm@ == s1
                &&& match (r, rr) {
                    (Ok(c), Ok(cm)) => c@ == cm,
                    (Err(e), Err(em)) => e == em,
                    _ => false,
                }
            }),
    {
        if self.bmm_pending() {
            return Err(Error::AttemptInProgress);
        }
        if !bytes_eq(observed_tip, prev_main_block_hash) {
            return Err(Error::StaleTip);
        }
        self.bmm = BmmSlot::Pending {
            critical_hash: clone_bytes(critical_hash),
            prev_main_block_hash: clone_bytes(prev_main_block_hash),
        };
        Ok(
            BmmCommitment {
                critical_hash: clone_bytes(critical_hash),
                prev_main_block_hash: clone_bytes(prev_main_block_hash),
                amount,
            },
        )
    }

    /// Applies one poll of the mainchain to the outstanding attempt. Returns
    /// `Pending` while the commitment is unmined or short of the required
    /// depth; `Succeeded` once the depth is reached and the on-chain critical
    /// hash matches exactly; `Failed` when the branch was abandoned, the wait
    /// bound elapsed, or a foreign hash is committed at depth. A terminal
    /// answer resets the slot, permitting a new attempt.
    pub fn confirm_bmm(&mut self, poll: &BmmPoll) -> (r: Result<BmmState, Error>)
        ensures
            final(self).wf() == old(self).wf(),
            bmm_frame(*old(self), *final(self)),
            ({
                let (s1, rr) = spec_confirm(
                    old(self).bmm@,
                    poll@,
                    old(self).conf_depth,
                    old(self).max_wait,
                );
                &&& final(self).bmm@ == s1
                &&& r == rr
            }),
    {
        let verdict: BmmState;
        match &self.bmm {
            BmmSlot::Idle => {
                return Err(Error::NoAttemptPending);
            },
            BmmSlot::Pending { critical_hash, prev_main_block_hash } => {
                match poll {
                    BmmPoll::BranchAbandoned => {
                        verdict = BmmState::Failed;
                    },
                    BmmPoll::NotIncluded { blocks_elapsed } => {
                        if *blocks_elapsed >= self.max_wait {
                            verdict = BmmState::Failed;
                        } else {
                            return Ok(BmmState::Pending);
                        }
                    },
                    BmmPoll::Included { confirmations, committed_hash } => {
                        if *confirmations < self.conf_depth {
                            return Ok(BmmState::Pending);
                        } else if bytes_eq(committed_hash, critical_hash) {
                            verdict = BmmState::Succeeded;
                        } else {
                            verdict = BmmState::Failed;
                        }
                    },
                }
            },
        }
        self.bmm = BmmSlot::Idle;
        Ok(verdict)
    }

    /// Records that the mainchain rejected the submitted commitment
    /// transaction: the attempt is abandoned and the slot reset, since
    /// nothing of it can be mined.
    pub fn record_bmm_rejection(&mut self) -> (r: Result<(), Error>)
        ensures
            final(self).wf() == old(self).wf(),
            bmm_frame(*old(self), *final(self)),
            final(self).bmm@ is Idle,
            match r {
                Ok(()) => old(self).bmm@ is Pending,
                Err(e) => e == Error::NoAttemptPending && old(self).bmm@ is Idle,
            },
    {
        if !self.bmm_pending() {
            return Err(Error::NoAttemptPending);
        }
        self.bmm = BmmSlot::Idle;
        Ok(())
    }
}

/// Checks whether the mainchain block identified by `main_block_hash`
/// contains a commitment equal to `critical_hash`. `block` is what a lookup
/// of that block on the mainchain observed. A pure function of its
/// arguments: any node reaches the same verdict from the same public data,
/// whatever its own ledger holds.
pub fn verify_bmm(main_block_hash: &Vec<u8>, critical_hash: &Vec<u8>, block: &MainBlockInfo) -> (r:
    bool)
    ensures
        r == spec_verify_bmm(block@, main_block_hash@, critical_hash@),
{
    if !bytes_eq(&block.hash, main_block_hash) {
        return false;
    }
    match &block.commitment {
        Option::Some(c) => bytes_eq(c, critical_hash),
        Option::None => false,
    }
}

/// Reads the parent hash out of a mainchain block lookup. `lookup` is the
/// mainchain's answer for `main_block_hash`, `None` when the hash is not
/// recognized; an answer for a different hash is likewise not recognized.
pub fn get_prev_main_block_hash(main_block_hash: &Vec<u8>, lookup: Option<&MainBlockInfo>) -> (r:
    Result<Vec<u8>, Error>)
    ensures
        match r {
            Ok(h) => lookup matches Some(b) && b@.hash == main_block_hash@ && h@
                == b@.prev_main_block_hash,
            Err(e) => e == Error::UnknownBlock && !(lookup matches Some(b) && b@.hash
                == main_block_hash@),
        },
{
    match lookup {
        Option::Some(b) => {
            if bytes_eq(&b.hash, main_block_hash) {
                Ok(clone_bytes(&b.prev_main_block_hash))
            } else {
                Err(Error::UnknownBlock)
            }
        },
        Option::None => Err(Error::UnknownBlock),
    }
}

} // verus!
