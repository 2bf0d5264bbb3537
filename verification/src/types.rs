//! Entities of the two-way peg: deposits flowing in from the mainchain,
//! withdrawals flowing back out, refunds for failed withdrawal bundles, and
//! the mathematical models the contracts are stated over.
use vstd::prelude::*;

verus! {

/// A 20-byte mainchain address hash, the destination of a withdrawal.
#[derive(Clone, Copy)]
pub struct WithdrawalAddress {
    pub address: [u8; 20],
}

impl View for WithdrawalAddress {
    type V = Seq<u8>;

    open spec fn view(&self) -> Seq<u8> {
        self.address@
    }
}

/// A mainchain-confirmed peg-in not yet spent on the sidechain: the outpoint
/// that funded it, the sidechain address it credits, and its amount.
pub struct Deposit {
    pub outpoint: Vec<u8>,
    pub address: String,
    pub amount: u64,
}

/// Mathematical model of a [`Deposit`].
pub ghost struct DepositModel {
    pub outpoint: Seq<u8>,
    pub address: Seq<char>,
    pub amount: u64,
}

impl View for Deposit {
    type V = DepositModel;

    open spec fn view(&self) -> DepositModel {
        DepositModel { outpoint: self.outpoint@, address: self.address@, amount: self.amount }
    }
}

/// A withdrawal as recorded by the ledger. `height` is the sidechain height
/// at which the withdrawal entered the active bundle (assigned at connect
/// time).
#[derive(Clone, Copy)]
pub struct Withdrawal {
    pub dest: WithdrawalAddress,
    pub amount: u64,
    pub mainchain_fee: u64,
    pub height: u64,
}

/// Mathematical model of a [`Withdrawal`].
pub ghost struct WithdrawalModel {
    pub dest: Seq<u8>,
    pub amount: u64,
    pub mainchain_fee: u64,
    pub height: u64,
}

impl View for Withdrawal {
    type V = WithdrawalModel;

    open spec fn view(&self) -> WithdrawalModel {
        WithdrawalModel {
            dest: self.dest@,
            amount: self.amount,
            mainchain_fee: self.mainchain_fee,
            height: self.height,
        }
    }
}

/// A withdrawal as a sidechain block carries it: the ledger assigns the
/// height itself when the block is connected.
pub struct WithdrawalRequest {
    pub id: Vec<u8>,
    pub dest: WithdrawalAddress,
    pub amount: u64,
    pub mainchain_fee: u64,
}

/// Mathematical model of a [`WithdrawalRequest`].
pub ghost struct WithdrawalRequestModel {
    pub id: Seq<u8>,
    pub dest: Seq<u8>,
    pub amount: u64,
    pub mainchain_fee: u64,
}

impl View for WithdrawalRequest {
    type V = WithdrawalRequestModel;

    open spec fn view(&self) -> WithdrawalRequestModel {
        WithdrawalRequestModel {
            id: self.id@,
            dest: self.dest@,
            amount: self.amount,
            mainchain_fee: self.mainchain_fee,
        }
    }
}

impl WithdrawalRequestModel {
    /// The ledger record this request becomes when it is connected at the
    /// given sidechain height.
    pub open spec fn stamped(self, height: u64) -> WithdrawalModel {
        WithdrawalModel {
            dest: self.dest,
            amount: self.amount,
            mainchain_fee: self.mainchain_fee,
            height,
        }
    }
}

/// A previously bundled withdrawal that failed to confirm on the mainchain
/// and must be credited back to its sidechain originator.
pub struct Refund {
    pub id: Vec<u8>,
    pub amount: u64,
}

/// Mathematical model of a [`Refund`].
pub ghost struct RefundModel {
    pub id: Seq<u8>,
    pub amount: u64,
}

impl View for Refund {
    type V = RefundModel;

    open spec fn view(&self) -> RefundModel {
        RefundModel { id: self.id@, amount: self.amount }
    }
}

} // verus!
