//! Sidechain-side engine for a two-way peg coordinated through blind merged
//! mining: it tracks pegged-in deposit outpoints, aggregates pegged-out
//! withdrawals into bundles, drives the commit/confirm/verify protocol for
//! per-block critical hashes, and applies or reverts sidechain blocks against
//! the ledger with reorg-safe, all-or-nothing semantics.
use vstd::prelude::*;

pub mod bytes;
pub mod outpoints;
pub mod types;
pub mod withdrawals;
pub mod ledger;
pub mod bmm;
pub mod deposits;
pub mod bundle;
pub mod laws;

verus! {

/// Failure taxonomy of the engine. Every failure is scoped to one operation;
/// nothing here is fatal to the caller's process.
#[derive(Clone, Copy, PartialEq, Eq, Structural, Debug)]
pub enum Error {
    /// The mainchain interface could not be reached (transient; retry).
    MainchainUnavailable,
    /// The attempt was anchored to a tip the mainchain has moved past.
    StaleTip,
    /// A blind-merged-mining attempt is already outstanding.
    AttemptInProgress,
    /// No blind-merged-mining attempt is outstanding.
    NoAttemptPending,
    /// A block referenced a deposit outpoint that is already spent.
    DuplicateDeposit,
    /// The outpoint ledger was asked to mark an already spent outpoint.
    AlreadySpent,
    /// The outpoint ledger was asked to unmark an outpoint that is not spent.
    NotSpent,
    /// A withdrawal bundle is already pending confirmation.
    BundleAlreadyPending,
    /// No withdrawal bundle is pending confirmation.
    NoBundlePending,
    /// The mainchain does not recognize the given block hash.
    UnknownBlock,
    /// A refund referenced a withdrawal id that is not outstanding.
    UnknownWithdrawal,
    /// A withdrawal's mainchain fee exceeds its amount.
    InvalidWithdrawal,
    /// The mainchain wallet lacks the funds for the request.
    InsufficientFunds,
    /// The mainchain refused a submitted transaction.
    MainchainRejected,
}

} // verus!
