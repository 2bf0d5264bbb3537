//! Deposit tracker: filters the deposit-shaped outputs a mainchain scan
//! found down to the ones not yet consumed, and builds peg-in requests. The
//! scan itself is a mainchain read performed by the caller; its result is
//! handed in as plain values.
use vstd::prelude::*;

use crate::Error;
use crate::bytes::clone_bytes;
use crate::ledger::Drivechain;
use crate::ledger::deposits_view;
use crate::types::Deposit;
use crate::types::DepositModel;

verus! {

/// The deposits of a scan whose outpoints are not in the spent set, in scan
/// order.
pub open spec fn unspent_of(spent: Set<Seq<u8>>, ds: Seq<DepositModel>) -> Seq<DepositModel>
    decreases ds.len(),
{
    if ds.len() == 0 {
        Seq::empty()
    } else {
        let rest = unspent_of(spent, ds.drop_last());
        if spent.contains(ds.last().outpoint) {
            rest
        } else {
            rest.push(ds.last())
        }
    }
}

/// A peg-in request to be submitted to the mainchain: a transaction paying
/// `amount` into the sidechain's deposit script for `address`, spending
/// `fee` on top.
pub struct DepositRequest {
    pub address: String,
    pub amount: u64,
    pub fee: u64,
}

/// Mathematical model of a [`DepositRequest`].
pub ghost struct DepositRequestModel {
    pub address: Seq<char>,
    pub amount: u64,
    pub fee: u64,
}

impl View for DepositRequest {
    type V = DepositRequestModel;

    open spec fn view(&self) -> DepositRequestModel {
        DepositRequestModel { address: self.address@, amount: self.amount, fee: self.fee }
    }
}

/// The mainchain's answer to a submitted request.
#[derive(Clone, Copy, PartialEq, Eq, Structural, Debug)]
pub enum SubmitOutcome {
    /// The transaction was accepted into the mainchain's mempool.
    Accepted,
    /// The wallet lacks the funds to pay it.
    InsufficientFunds,
    /// The mainchain refused it for any other reason.
    Rejected,
}

/// The operation result that a submission outcome stands for.
pub open spec fn spec_submission_result(outcome: SubmitOutcome) -> Result<(), Error> {
    match outcome {
        SubmitOutcome::Accepted => Ok(()),
        SubmitOutcome::InsufficientFunds => Err(Error::InsufficientFunds),
        SubmitOutcome::Rejected => Err(Error::MainchainRejected),
    }
}

/// Maps what the mainchain answered to a submitted transaction onto the
/// operation's result: acceptance succeeds, missing funds and refusal each
/// surface their own error, never retried silently.
pub fn interpret_submission(outcome: &SubmitOutcome) -> (r: Result<(), Error>)
    ensures
        r == spec_submission_result(*outcome),
{
    match outcome {
        SubmitOutcome::Accepted => Ok(()),
        SubmitOutcome::InsufficientFunds => Err(Error::InsufficientFunds),
        SubmitOutcome::Rejected => Err(Error::MainchainRejected),
    }
}

impl Drivechain {
    /// Filters the deposits a mainchain scan observed down to the ones whose
    /// outpoint is not yet consumed by a connected block, in scan order. A
    /// deposit consumed via `connect_block` is never returned again.
    pub fn get_deposit_outputs(&self, scanned: &Vec<Deposit>) -> (r: Vec<Deposit>)
        ensures
            deposits_view(r@) == unspent_of(self.lm().spent, deposits_view(scanned@)),
    {
        let ghost dv = deposits_view(scanned@);
        let mut out: Vec<Deposit> = Vec::new();
        let mut i: usize = 0;
        while i < scanned.len()
            invariant
                i <= scanned.len(),
                dv == deposits_view(scanned@),
                deposits_view(out@) == unspent_of(self.lm().spent, dv.take(i as int)),
            decreases scanned.len() - i,
        {
            proof {
                assert(dv.take(i + 1).drop_last() =~= dv.take(i as int));
                assert(dv.take(i + 1).last() == dv[i as int]);
                assert(dv[i as int] == scanned@[i as int]@);
            }
            let ghost pre = deposits_view(out@);
            if !self.spent_outpoints.is_spent(&scanned[i].outpoint) {
                let d = Deposit {
                    outpoint: clone_bytes(&scanned[i].outpoint),
                    address: scanned[i].address.clone(),
                    amount: scanned[i].amount,
                };
                proof {
                    assert(d@ == dv[i as int]);
                }
                out.push(d);
                proof {
                    assert(deposits_view(out@) =~= pre.push(dv[i as int]));
                }
            }
            i += 1;
        }
        proof {
            assert(dv.take(dv.len() as int) =~= dv);
        }
        out
    }

    /// Builds the peg-in request for `address`, `amount` and `fee`. The
    /// caller submits it to the mainchain; nothing of the sidechain ledger
    /// changes until the deposit is mined and later observed by a scan.
    pub fn create_deposit(&self, address: &String, amount: u64, fee: u64) -> (r: DepositRequest)
        ensures
            r@.address == address@,
            r@.amount == amount,
            r@.fee == fee,
    {
        DepositRequest { address: address.clone(), amount, fee }
    }
}

} // verus!
