//! Withdrawal bundle manager: aggregates the outstanding withdrawals into
//! one mainchain transaction paying each destination its amount minus its
//! mainchain fee, keeps at most one bundle outstanding, and converts a
//! failed bundle's withdrawals into refunds for the next block.
use vstd::prelude::*;

use crate::Error;
use crate::bytes::clone_bytes;
use crate::ledger::Drivechain;
use crate::ledger::fees_ok;
use crate::ledger::ids_view;
use crate::ledger::refunds_view;
use crate::types::Refund;
use crate::types::RefundModel;
use crate::types::WithdrawalAddress;
use crate::types::WithdrawalModel;
use crate::withdrawals::WithdrawalTable;
use crate::withdrawals::key_seq;
use crate::withdrawals::lemma_wmap_get;
use crate::withdrawals::wmap_of;

verus! {

/// One output of a withdrawal bundle: a mainchain address hash and the
/// amount paid to it.
#[derive(Clone, Copy)]
pub struct BundlePayment {
    pub dest: WithdrawalAddress,
    pub amount: u64,
}

/// Mathematical model of a [`BundlePayment`].
pub ghost struct BundlePaymentModel {
    pub dest: Seq<u8>,
    pub amount: u64,
}

impl View for BundlePayment {
    type V = BundlePaymentModel;

    open spec fn view(&self) -> BundlePaymentModel {
        BundlePaymentModel { dest: self.dest@, amount: self.amount }
    }
}

/// The single mainchain transaction a bundle broadcast submits.
pub struct WithdrawalBundle {
    pub payments: Vec<BundlePayment>,
}

pub open spec fn payments_view(ps: Seq<BundlePayment>) -> Seq<BundlePaymentModel> {
    ps.map_values(|p: BundlePayment| p@)
}

/// The payments a set of table entries induces: each destination receives
/// its amount minus its mainchain fee, in table order.
pub open spec fn spec_payments(s: Seq<(Seq<u8>, WithdrawalModel)>) -> Seq<BundlePaymentModel> {
    s.map_values(
        |e: (Seq<u8>, WithdrawalModel)|
            BundlePaymentModel {
                dest: e.1.dest,
                amount: (e.1.amount - e.1.mainchain_fee) as u64,
            },
    )
}

/// The refunds owed for the given bundled ids: one per id still
/// outstanding, carrying the withdrawal's amount, in bundle order.
pub open spec fn refunds_for(active: Map<Seq<u8>, WithdrawalModel>, ids: Seq<Seq<u8>>) -> Seq<
    RefundModel,
>
    decreases ids.len(),
{
    if ids.len() == 0 {
        Seq::empty()
    } else {
        let rest = refunds_for(active, ids.drop_last());
        let id = ids.last();
        if active.contains_key(id) {
            rest.push(RefundModel { id, amount: active[id].amount })
        } else {
            rest
        }
    }
}

/// What retiring the given bundled ids leaves of the active set.
pub open spec fn retire_ids(active: Map<Seq<u8>, WithdrawalModel>, ids: Seq<Seq<u8>>) -> Map<
    Seq<u8>,
    WithdrawalModel,
>
    decreases ids.len(),
{
    if ids.len() == 0 {
        active
    } else {
        retire_ids(active, ids.drop_last()).remove(ids.last())
    }
}

fn refunds_of(active: &WithdrawalTable, ids: &Vec<Vec<u8>>) -> (r: Vec<Refund>)
    requires
        active.wf(),
    ensures
        refunds_view(r@) == refunds_for(active@, ids_view(ids@)),
{
    let ghost iv = ids_view(ids@);
    let mut out: Vec<Refund> = Vec::new();
    let mut i: usize = 0;
    while i < ids.len()
        invariant
            i <= ids.len(),
            active.wf(),
            iv == ids_view(ids@),
            refunds_view(out@) == refunds_for(active@, iv.take(i as int)),
        decreases ids.len() - i,
    {
        proof {
            assert(iv.take(i + 1).drop_last() =~= iv.take(i as int));
            assert(iv.take(i + 1).last() == iv[i as int]);
            assert(iv[i as int] == ids@[i as int]@);
        }
        let ghost pre = refunds_view(out@);
        match active.get(&ids[i]) {
            Some(w) => {
                let rf = Refund { id: clone_bytes(&ids[i]), amount: w.amount };
                proof {
                    assert(rf@ == (RefundModel { id: iv[i as int], amount: active@[iv[i as int]].amount }));
                }
                out.push(rf);
                proof {
                    assert(refunds_view(out@) =~= pre.push(rf@));
                }
            },
            None => {},
        }
        i += 1;
    }
    proof {
        assert(iv.take(iv.len() as int) =~= iv);
    }
    out
}

impl Drivechain {
    /// Selects the outstanding withdrawals and builds the single mainchain
    /// transaction paying each destination its amount minus its mainchain
    /// fee; the caller submits it. At most one bundle may be outstanding:
    /// while one is pending confirmation this reports `BundleAlreadyPending`
    /// and changes nothing, rather than double-spending funds.
    pub fn attempt_bundle_broadcast(&mut self) -> (r: Result<WithdrawalBundle, Error>)
        requires
            old(self).wf(),
        ensures
            final(self).wf(),
            final(self).lm() == old(self).lm(),
            final(self).bmm == old(self).bmm,
            final(self).unflushed == old(self).unflushed,
            final(self).conf_depth == old(self).conf_depth,
            final(self).max_wait == old(self).max_wait,
            match r {
                Ok(b) => old(self).pending_bundle is None && payments_view(b.payments@)
                    == spec_payments(old(self).active_withdrawals.sview()) && (final(self)
                    .pending_bundle matches Some(ids) && ids_view(ids@) == key_seq(
                    old(self).active_withdrawals.sview(),
                )),
                Err(e) => e == Error::BundleAlreadyPending && old(self).pending_bundle is Some
                    && *final(self) == *old(self),
            },
    {
        if self.pending_bundle.is_some() {
            return Err(Error::BundleAlreadyPending);
        }
        let ghost sv = self.active_withdrawals.sview();
        let snap = self.active_withdrawals.snapshot();
        let mut payments: Vec<BundlePayment> = Vec::new();
        let mut ids: Vec<Vec<u8>> = Vec::new();
        let mut i: usize = 0;
        while i < snap.len()
            invariant
                i <= snap.len(),
                sv == self.active_withdrawals.sview(),
                key_seq(sv).no_duplicates(),
                fees_ok(wmap_of(sv)),
                snap@.len() == sv.len(),
                forall|j: int|
                    0 <= j < snap@.len() ==> (#[trigger] snap@[j].0@, snap@[j].1@) == sv[j],
                payments@.len() == i,
                forall|j: int| 0 <= j < i ==> (#[trigger] payments@[j])@ == spec_payments(sv)[j],
                ids@.len() == i,
                forall|j: int| 0 <= j < i ==> (#[trigger] ids@[j])@ == sv[j].0,
            decreases snap.len() - i,
        {
            proof {
                lemma_wmap_get(sv, i as int);
                assert(wmap_of(sv)[sv[i as int].0].mainchain_fee <= wmap_of(
                    sv,
                )[sv[i as int].0].amount);
                assert((snap@[i as int].0@, snap@[i as int].1@) == sv[i as int]);
                assert(snap@[i as int].1@ == sv[i as int].1);
            }
            let amount = snap[i].1.amount - snap[i].1.mainchain_fee;
            payments.push(BundlePayment { dest: snap[i].1.dest, amount });
            ids.push(clone_bytes(&snap[i].0));
            i += 1;
        }
        proof {
            assert(payments_view(payments@) =~= spec_payments(sv));
            assert(ids_view(ids@) =~= key_seq(sv));
        }
        self.pending_bundle = Some(ids);
        Ok(WithdrawalBundle { payments })
    }

    /// Records that the broadcast bundle was invalidated — dropped by a
    /// mainchain reorganization or expired unconfirmed — and returns the
    /// refunds owed, one per bundled withdrawal still outstanding, for the
    /// ledger to apply on the next block. The bundle slot is cleared so a
    /// new bundle may be attempted.
    pub fn record_bundle_failure(&mut self) -> (r: Result<Vec<Refund>, Error>)
        requires
            old(self).wf(),
        ensures
            final(self).wf(),
            final(self).lm() == old(self).lm(),
            final(self).bmm == old(self).bmm,
            final(self).unflushed == old(self).unflushed,
            final(self).conf_depth == old(self).conf_depth,
            final(self).max_wait == old(self).max_wait,
            final(self).pending_bundle is None,
            match r {
                Ok(rf) => (old(self).pending_bundle matches Some(ids) && refunds_view(rf@)
                    == refunds_for(old(self).active_withdrawals@, ids_view(ids@))),
                Err(e) => e == Error::NoBundlePending && old(self).pending_bundle is None
                    && *final(self) == *old(self),
            },
    {
        let out = match &self.pending_bundle {
            None => {
                return Err(Error::NoBundlePending);
            },
            Some(ids) => refunds_of(&self.active_withdrawals, ids),
        };
        self.pending_bundle = None;
        Ok(out)
    }

    /// Records that the broadcast bundle confirmed on the mainchain: every
    /// bundled withdrawal still outstanding becomes terminally spent and
    /// leaves the active set, and the bundle slot is cleared.
    pub fn record_bundle_confirmation(&mut self) -> (r: Result<(), Error>)
        requires
            old(self).wf(),
        ensures
            final(self).wf(),
            final(self).lm().spent == old(self).lm().spent,
            final(self).lm().refunded == old(self).lm().refunded,
            final(self).lm().height == old(self).lm().height,
            final(self).bmm == old(self).bmm,
            final(self).unflushed == old(self).unflushed,
            final(self).conf_depth == old(self).conf_depth,
            final(self).max_wait == old(self).max_wait,
            final(self).pending_bundle is None,
            match r {
                Ok(()) => (old(self).pending_bundle matches Some(ids) && final(self)
                    .active_withdrawals@ == retire_ids(
                    old(self).active_withdrawals@,
                    ids_view(ids@),
                )),
                Err(e) => e == Error::NoBundlePending && old(self).pending_bundle is None
                    && *final(self) == *old(self),
            },
    {
        let ghost a0 = self.active_withdrawals@;
        let ids = match &self.pending_bundle {
            None => {
                return Err(Error::NoBundlePending);
            },
            Some(ids) => {
                let mut copy: Vec<Vec<u8>> = Vec::new();
                let mut i: usize = 0;
                while i < ids.len()
                    invariant
                        i <= ids.len(),
                        copy@.len() == i,
                        forall|j: int| 0 <= j < i ==> (#[trigger] copy@[j])@ == ids@[j]@,
                    decreases ids.len() - i,
                {
                    copy.push(clone_bytes(&ids[i]));
                    i += 1;
                }
                proof {
                    assert(ids_view(copy@) =~= ids_view(ids@));
                }
                copy
            },
        };
        let ghost iv = ids_view(ids@);
        let mut i: usize = 0;
        while i < ids.len()
            invariant
                i <= ids.len(),
                iv == ids_view(ids@),
                self.active_withdrawals.wf(),
                self.active_withdrawals@ == retire_ids(a0, iv.take(i as int)),
                self.spent_outpoints == old(self).spent_outpoints,
                self.refunded_withdrawals == old(self).refunded_withdrawals,
                self.side_height == old(self).side_height,
                self.bmm == old(self).bmm,
                self.pending_bundle == old(self).pending_bundle,
                self.unflushed == old(self).unflushed,
                self.conf_depth == old(self).conf_depth,
                self.max_wait == old(self).max_wait,
                fees_ok(self.active_withdrawals@),
                self.spent_outpoints.wf(),
                self.refunded_withdrawals.wf(),
                fees_ok(self.refunded_withdrawals@),
            decreases ids.len() - i,
        {
            proof {
                assert(iv.take(i + 1).drop_last() =~= iv.take(i as int));
                assert(iv.take(i + 1).last() == iv[i as int]);
                assert(iv[i as int] == ids@[i as int]@);
            }
            let ghost pre = self.active_withdrawals@;
            match self.active_withdrawals.remove(&ids[i]) {
                Some(_) => {},
                None => {
                    proof {
                        assert(self.active_withdrawals@ =~= pre.remove(iv[i as int]));
                    }
                },
            }
            proof {
                assert forall|k: Seq<u8>| #[trigger]
                    self.active_withdrawals@.contains_key(
                        k,
                    ) implies self.active_withdrawals@[k].mainchain_fee
                    <= self.active_withdrawals@[k].amount by {
                    assert(pre.contains_key(k));
                }
            }
            i += 1;
        }
        proof {
            assert(iv.take(iv.len() as int) =~= iv);
        }
        self.pending_bundle = None;
        Ok(())
    }
}

} // verus!
