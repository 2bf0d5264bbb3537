//! Chain state ledger: one engine instance owns the spent-outpoint set, the
//! outstanding and refunded withdrawals, the sidechain height, and the
//! blind-merged-mining slot. Blocks are applied and reverted atomically:
//! every mutation runs against a scratch copy that is either committed whole
//! or discarded, so a failing or dry-run application never leaves a partial
//! state behind.
use vstd::prelude::*;

use crate::Error;
use crate::bmm::BmmSlot;
use crate::outpoints::OutpointSet;
use crate::types::Deposit;
use crate::types::DepositModel;
use crate::types::Refund;
use crate::types::RefundModel;
use crate::types::Withdrawal;
use crate::types::WithdrawalModel;
use crate::types::WithdrawalRequest;
use crate::types::WithdrawalRequestModel;
use crate::withdrawals::WithdrawalTable;

verus! {

/// The sidechain-side engine of the two-way peg.
pub struct Drivechain {
    /// Deposit outpoints already consumed by connected blocks.
    pub spent_outpoints: OutpointSet,
    /// Withdrawals not yet in a confirmed bundle nor refunded.
    pub active_withdrawals: WithdrawalTable,
    /// Withdrawals credited back after their bundle failed.
    pub refunded_withdrawals: WithdrawalTable,
    /// Number of connected sidechain blocks.
    pub side_height: u64,
    /// The one slot for an outstanding blind-merged-mining attempt.
    pub bmm: BmmSlot,
    /// Ids of the withdrawals in the bundle pending confirmation, if any.
    pub pending_bundle: Option<Vec<Vec<u8>>>,
    /// Ledger mutations not yet flushed to durable storage.
    pub unflushed: u64,
    /// Confirmation depth a commitment must reach to succeed.
    pub conf_depth: u64,
    /// Mainchain blocks an attempt may wait unmined before it fails.
    pub max_wait: u64,
}

/// Mathematical model of the ledger state a block application acts on.
#[verifier::ext_equal]
pub ghost struct LedgerModel {
    pub spent: Set<Seq<u8>>,
    pub active: Map<Seq<u8>, WithdrawalModel>,
    pub refunded: Map<Seq<u8>, WithdrawalModel>,
    pub height: u64,
}

/// Every recorded withdrawal can pay its mainchain fee out of its amount.
pub open spec fn fees_ok(m: Map<Seq<u8>, WithdrawalModel>) -> bool {
    forall|k: Seq<u8>| #[trigger] m.contains_key(k) ==> m[k].mainchain_fee <= m[k].amount
}

pub open spec fn deposits_view(ds: Seq<Deposit>) -> Seq<DepositModel> {
    ds.map_values(|d: Deposit| d@)
}

pub open spec fn requests_view(ws: Seq<WithdrawalRequest>) -> Seq<WithdrawalRequestModel> {
    ws.map_values(|w: WithdrawalRequest| w@)
}

pub open spec fn refunds_view(rs: Seq<Refund>) -> Seq<RefundModel> {
    rs.map_values(|r: Refund| r@)
}

pub open spec fn ids_view(ids: Seq<Vec<u8>>) -> Seq<Seq<u8>> {
    ids.map_values(|o: Vec<u8>| o@)
}

/// Applies one step per element, left to right, failing as soon as a step
/// fails.
pub open spec fn step_fold<St, E>(init: St, s: Seq<E>, f: spec_fn(St, E) -> Option<St>) -> Option<
    St,
>
    decreases s.len(),
{
    if s.len() == 0 {
        Option::Some(init)
    } else {
        match step_fold(init, s.drop_last(), f) {
            Option::None => Option::None,
            Option::Some(st) => f(st, s.last()),
        }
    }
}

pub proof fn lemma_step_fold_take_succ<St, E>(
    init: St,
    s: Seq<E>,
    f: spec_fn(St, E) -> Option<St>,
    i: int,
)
    requires
        0 <= i < s.len(),
    ensures
        step_fold(init, s.take(i + 1), f) == (match step_fold(init, s.take(i), f) {
            Option::None => Option::<St>::None,
            Option::Some(st) => f(st, s[i]),
        }),
{
    assert(s.take(i + 1).drop_last() =~= s.take(i));
    assert(s.take(i + 1).last() == s[i]);
}

pub proof fn lemma_step_fold_none_persists<St, E>(
    init: St,
    s: Seq<E>,
    f: spec_fn(St, E) -> Option<St>,
    i: int,
)
    requires
        0 <= i <= s.len(),
        step_fold(init, s.take(i), f) is None,
    ensures
        step_fold(init, s, f) is None,
    decreases s.len() - i,
{
    if i == s.len() {
        assert(s.take(i) =~= s);
    } else {
        lemma_step_fold_take_succ(init, s, f, i);
        lemma_step_fold_none_persists(init, s, f, i + 1);
    }
}

/// Marking one deposit's outpoint spent; fails when it already is.
pub open spec fn dep_step() -> spec_fn(Set<Seq<u8>>, DepositModel) -> Option<Set<Seq<u8>>> {
    |s: Set<Seq<u8>>, d: DepositModel|
        if s.contains(d.outpoint) {
            Option::None
        } else {
            Option::Some(s.insert(d.outpoint))
        }
}

/// Recording one withdrawal at the connecting height; fails when its fee
/// exceeds its amount.
pub open spec fn wreq_step(height: u64) -> spec_fn(
    Map<Seq<u8>, WithdrawalModel>,
    WithdrawalRequestModel,
) -> Option<Map<Seq<u8>, WithdrawalModel>> {
    |m: Map<Seq<u8>, WithdrawalModel>, w: WithdrawalRequestModel|
        if w.mainchain_fee > w.amount {
            Option::None
        } else {
            Option::Some(m.insert(w.id, w.stamped(height)))
        }
}

/// Moving one refunded withdrawal out of the active set; fails when the id
/// is not outstanding.
pub open spec fn refund_step() -> spec_fn(
    (Map<Seq<u8>, WithdrawalModel>, Map<Seq<u8>, WithdrawalModel>),
    RefundModel,
) -> Option<(Map<Seq<u8>, WithdrawalModel>, Map<Seq<u8>, WithdrawalModel>)> {
    |mm: (Map<Seq<u8>, WithdrawalModel>, Map<Seq<u8>, WithdrawalModel>), r: RefundModel|
        if mm.0.contains_key(r.id) {
            Option::Some((mm.0.remove(r.id), mm.1.insert(r.id, mm.0[r.id])))
        } else {
            Option::None
        }
}

/// Moving one refunded withdrawal back into the active set.
pub open spec fn undo_refund_step() -> spec_fn(
    (Map<Seq<u8>, WithdrawalModel>, Map<Seq<u8>, WithdrawalModel>),
    Seq<u8>,
) -> Option<(Map<Seq<u8>, WithdrawalModel>, Map<Seq<u8>, WithdrawalModel>)> {
    |mm: (Map<Seq<u8>, WithdrawalModel>, Map<Seq<u8>, WithdrawalModel>), rid: Seq<u8>|
        if mm.1.contains_key(rid) {
            Option::Some((mm.0.insert(rid, mm.1[rid]), mm.1.remove(rid)))
        } else {
            Option::None
        }
}

/// Dropping one withdrawal added by the block being reverted.
pub open spec fn undo_wreq_step() -> spec_fn(Map<Seq<u8>, WithdrawalModel>, Seq<u8>) -> Option<
    Map<Seq<u8>, WithdrawalModel>,
> {
    |m: Map<Seq<u8>, WithdrawalModel>, wid: Seq<u8>|
        if m.contains_key(wid) {
            Option::Some(m.remove(wid))
        } else {
            Option::None
        }
}

/// Unmarking one deposit's outpoint; fails when it is not marked.
pub open spec fn undo_dep_step() -> spec_fn(Set<Seq<u8>>, DepositModel) -> Option<Set<Seq<u8>>> {
    |s: Set<Seq<u8>>, d: DepositModel|
        if s.contains(d.outpoint) {
            Option::Some(s.remove(d.outpoint))
        } else {
            Option::None
        }
}

pub open spec fn connect_deposits(spent: Set<Seq<u8>>, ds: Seq<DepositModel>) -> Option<
    Set<Seq<u8>>,
> {
    step_fold(spent, ds, dep_step())
}

pub open spec fn connect_withdrawals(
    active: Map<Seq<u8>, WithdrawalModel>,
    ws: Seq<WithdrawalRequestModel>,
    height: u64,
) -> Option<Map<Seq<u8>, WithdrawalModel>> {
    step_fold(active, ws, wreq_step(height))
}

pub open spec fn connect_refunds(
    active: Map<Seq<u8>, WithdrawalModel>,
    refunded: Map<Seq<u8>, WithdrawalModel>,
    rs: Seq<RefundModel>,
) -> Option<(Map<Seq<u8>, WithdrawalModel>, Map<Seq<u8>, WithdrawalModel>)> {
    step_fold((active, refunded), rs, refund_step())
}

pub open spec fn disconnect_refunds(
    active: Map<Seq<u8>, WithdrawalModel>,
    refunded: Map<Seq<u8>, WithdrawalModel>,
    rids: Seq<Seq<u8>>,
) -> Option<(Map<Seq<u8>, WithdrawalModel>, Map<Seq<u8>, WithdrawalModel>)> {
    step_fold((active, refunded), rids, undo_refund_step())
}

pub open spec fn disconnect_withdrawals(
    active: Map<Seq<u8>, WithdrawalModel>,
    wids: Seq<Seq<u8>>,
) -> Option<Map<Seq<u8>, WithdrawalModel>> {
    step_fold(active, wids, undo_wreq_step())
}

pub open spec fn disconnect_deposits(spent: Set<Seq<u8>>, ds: Seq<DepositModel>) -> Option<
    Set<Seq<u8>>,
> {
    step_fold(spent, ds, undo_dep_step())
}

/// What connecting a block does to the ledger: mark the deposits' outpoints
/// spent, record the withdrawals at the new height, move the refunded
/// withdrawals out of the active set, and advance the height; or the error
/// of the first step that fails.
pub open spec fn spec_connect(
    m: LedgerModel,
    ds: Seq<DepositModel>,
    ws: Seq<WithdrawalRequestModel>,
    rs: Seq<RefundModel>,
) -> Result<LedgerModel, Error>
    recommends
        m.height < u64::MAX,
{
    let h = (m.height + 1) as u64;
    match connect_deposits(m.spent, ds) {
        Option::None => Err(Error::DuplicateDeposit),
        Option::Some(spent) => match connect_withdrawals(m.active, ws, h) {
            Option::None => Err(Error::InvalidWithdrawal),
            Option::Some(active1) => match connect_refunds(active1, m.refunded, rs) {
                Option::None => Err(Error::UnknownWithdrawal),
                Option::Some(mm) => Ok(
                    LedgerModel { spent, active: mm.0, refunded: mm.1, height: h },
                ),
            },
        },
    }
}

/// What disconnecting a block does to the ledger: the exact inverse of
/// connecting it, phase by phase in reverse order.
pub open spec fn spec_disconnect(
    m: LedgerModel,
    ds: Seq<DepositModel>,
    wids: Seq<Seq<u8>>,
    rids: Seq<Seq<u8>>,
) -> Result<LedgerModel, Error>
    recommends
        m.height >= 1,
{
    let h = (m.height - 1) as u64;
    match disconnect_refunds(m.active, m.refunded, rids) {
        Option::None => Err(Error::UnknownWithdrawal),
        Option::Some(mm) => match disconnect_withdrawals(mm.0, wids) {
            Option::None => Err(Error::UnknownWithdrawal),
            Option::Some(active1) => match disconnect_deposits(m.spent, ds) {
                Option::None => Err(Error::NotSpent),
                Option::Some(spent) => Ok(
                    LedgerModel { spent, active: active1, refunded: mm.1, height: h },
                ),
            },
        },
    }
}

/// Mutation records a block application adds to the unflushed count.
pub open spec fn record_count(d: int, w: int, r: int) -> int {
    d + w + r + 1
}

/// Addition on the unflushed counter, saturating at the counter's limit.
pub open spec fn sat_add64(a: u64, b: int) -> u64 {
    if a + b > u64::MAX {
        u64::MAX
    } else {
        (a + b) as u64
    }
}

/// Contract of `connect_block`, relating the engine before and after.
pub open spec fn connect_post(
    pre: Drivechain,
    post: Drivechain,
    r: Result<(), Error>,
    ds: Seq<DepositModel>,
    ws: Seq<WithdrawalRequestModel>,
    rs: Seq<RefundModel>,
    just_check: bool,
) -> bool {
    let c = spec_connect(pre.lm(), ds, ws, rs);
    match r {
        Ok(()) => c is Ok && (if just_check {
            post == pre
        } else {
            &&& post.lm() == c->Ok_0
            &&& post.bmm == pre.bmm
            &&& post.pending_bundle == pre.pending_bundle
            &&& post.conf_depth == pre.conf_depth
            &&& post.max_wait == pre.max_wait
            &&& post.unflushed == sat_add64(
                pre.unflushed,
                record_count(ds.len() as int, ws.len() as int, rs.len() as int),
            )
        }),
        Err(e) => c is Err && e == c->Err_0 && post == pre,
    }
}

/// Contract of `disconnect_block`, relating the engine before and after.
pub open spec fn disconnect_post(
    pre: Drivechain,
    post: Drivechain,
    r: Result<(), Error>,
    ds: Seq<DepositModel>,
    wids: Seq<Seq<u8>>,
    rids: Seq<Seq<u8>>,
    just_check: bool,
) -> bool {
    let c = spec_disconnect(pre.lm(), ds, wids, rids);
    match r {
        Ok(()) => c is Ok && (if just_check {
            post == pre
        } else {
            &&& post.lm() == c->Ok_0
            &&& post.bmm == pre.bmm
            &&& post.pending_bundle == pre.pending_bundle
            &&& post.conf_depth == pre.conf_depth
            &&& post.max_wait == pre.max_wait
            &&& post.unflushed == sat_add64(
                pre.unflushed,
                record_count(ds.len() as int, wids.len() as int, rids.len() as int),
            )
        }),
        Err(e) => c is Err && e == c->Err_0 && post == pre,
    }
}

fn apply_deposits(spent: &mut OutpointSet, deposits: &Vec<Deposit>) -> (r: Result<(), Error>)
    requires
        old(spent).wf(),
    ensures
        final(spent).wf(),
        match r {
            Ok(()) => connect_deposits(old(spent)@, deposits_view(deposits@)) == Option::Some(
                final(spent)@,
            ),
            Err(e) => e == Error::DuplicateDeposit && connect_deposits(
                old(spent)@,
                deposits_view(deposits@),
            ) is None,
        },
{
    let ghost s0 = old(spent)@;
    let ghost dv = deposits_view(deposits@);
    let mut i: usize = 0;
    while i < deposits.len()
        invariant
            i <= deposits.len(),
            spent.wf(),
            s0 == old(spent)@,
            dv == deposits_view(deposits@),
            connect_deposits(s0, dv.take(i as int)) == Option::Some(spent@),
        decreases deposits.len() - i,
    {
        let ghost pre = spent@;
        proof {
            lemma_step_fold_take_succ(s0, dv, dep_step(), i as int);
            assert(dv[i as int] == deposits@[i as int]@);
        }
        match spent.mark_spent(&deposits[i].outpoint) {
            Ok(()) => {
                proof {
                    assert(dep_step()(pre, dv[i as int]) == Option::Some(spent@));
                }
                i += 1;
            },
            Err(_) => {
                proof {
                    assert(dep_step()(pre, dv[i as int]) is None);
                    assert(connect_deposits(s0, dv.take(i + 1)) is None);
                    lemma_step_fold_none_persists(s0, dv, dep_step(), i + 1);
                }
                return Err(Error::DuplicateDeposit);
            },
        }
    }
    proof {
        assert(dv.take(dv.len() as int) =~= dv);
    }
    Ok(())
}

fn apply_requests(active: &mut WithdrawalTable, withdrawals: &Vec<WithdrawalRequest>, height: u64)
    -> (r: Result<(), Error>)
    requires
        old(active).wf(),
    ensures
        final(active).wf(),
        match r {
            Ok(()) => connect_withdrawals(old(active)@, requests_view(withdrawals@), height)
                == Option::Some(final(active)@),
            Err(e) => e == Error::InvalidWithdrawal && connect_withdrawals(
                old(active)@,
                requests_view(withdrawals@),
                height,
            ) is None,
        },
{
    let ghost a0 = old(active)@;
    let ghost wv = requests_view(withdrawals@);
    let mut i: usize = 0;
    while i < withdrawals.len()
        invariant
            i <= withdrawals.len(),
            active.wf(),
            a0 == old(active)@,
            wv == requests_view(withdrawals@),
            connect_withdrawals(a0, wv.take(i as int), height) == Option::Some(active@),
        decreases withdrawals.len() - i,
    {
        let ghost pre = active@;
        proof {
            lemma_step_fold_take_succ(a0, wv, wreq_step(height), i as int);
            assert(wv[i as int] == withdrawals@[i as int]@);
        }
        let wreq = &withdrawals[i];
        if wreq.mainchain_fee > wreq.amount {
            proof {
                assert(wreq_step(height)(pre, wv[i as int]) is None);
                assert(connect_withdrawals(a0, wv.take(i + 1), height) is None);
                lemma_step_fold_none_persists(a0, wv, wreq_step(height), i + 1);
            }
            return Err(Error::InvalidWithdrawal);
        }
        let w = Withdrawal {
            dest: wreq.dest,
            amount: wreq.amount,
            mainchain_fee: wreq.mainchain_fee,
            height,
        };
        active.insert(&wreq.id, w);
        proof {
            assert(w@ == wv[i as int].stamped(height));
            assert(wreq_step(height)(pre, wv[i as int]) == Option::Some(active@));
        }
        i += 1;
    }
    proof {
        assert(wv.take(wv.len() as int) =~= wv);
    }
    Ok(())
}

fn apply_refunds(
    active: &mut WithdrawalTable,
    refunded: &mut WithdrawalTable,
    refunds: &Vec<Refund>,
) -> (r: Result<(), Error>)
    requires
        old(active).wf(),
        old(refunded).wf(),
    ensures
        final(active).wf(),
        final(refunded).wf(),
        match r {
            Ok(()) => connect_refunds(old(active)@, old(refunded)@, refunds_view(refunds@))
                == Option::Some((final(active)@, final(refunded)@)),
            Err(e) => e == Error::UnknownWithdrawal && connect_refunds(
                old(active)@,
                old(refunded)@,
                refunds_view(refunds@),
            ) is None,
        },
{
    let ghost a0 = old(active)@;
    let ghost f0 = old(refunded)@;
    let ghost rv = refunds_view(refunds@);
    let mut i: usize = 0;
    while i < refunds.len()
        invariant
            i <= refunds.len(),
            active.wf(),
            refunded.wf(),
            a0 == old(active)@,
            f0 == old(refunded)@,
            rv == refunds_view(refunds@),
            connect_refunds(a0, f0, rv.take(i as int)) == Option::Some((active@, refunded@)),
        decreases refunds.len() - i,
    {
        let ghost pre = (active@, refunded@);
        proof {
            lemma_step_fold_take_succ((a0, f0), rv, refund_step(), i as int);
            assert(rv[i as int] == refunds@[i as int]@);
        }
        match active.remove(&refunds[i].id) {
            Some(w) => {
                refunded.insert(&refunds[i].id, w);
                proof {
                    assert(refund_step()(pre, rv[i as int]) == Option::Some(
                        (active@, refunded@),
                    ));
                }
                i += 1;
            },
            None => {
                proof {
                    assert(refund_step()(pre, rv[i as int]) is None);
                    assert(connect_refunds(a0, f0, rv.take(i + 1)) is None);
                    lemma_step_fold_none_persists((a0, f0), rv, refund_step(), i + 1);
                }
                return Err(Error::UnknownWithdrawal);
            },
        }
    }
    proof {
        assert(rv.take(rv.len() as int) =~= rv);
    }
    Ok(())
}

fn undo_refunds(
    active: &mut WithdrawalTable,
    refunded: &mut WithdrawalTable,
    refund_ids: &Vec<Vec<u8>>,
) -> (r: Result<(), Error>)
    requires
        old(active).wf(),
        old(refunded).wf(),
    ensures
        final(active).wf(),
        final(refunded).wf(),
        match r {
            Ok(()) => disconnect_refunds(old(active)@, old(refunded)@, ids_view(refund_ids@))
                == Option::Some((final(active)@, final(refunded)@)),
            Err(e) => e == Error::UnknownWithdrawal && disconnect_refunds(
                old(active)@,
                old(refunded)@,
                ids_view(refund_ids@),
            ) is None,
        },
{
    let ghost a0 = old(active)@;
    let ghost f0 = old(refunded)@;
    let ghost rv = ids_view(refund_ids@);
    let mut i: usize = 0;
    while i < refund_ids.len()
        invariant
            i <= refund_ids.len(),
            active.wf(),
            refunded.wf(),
            a0 == old(active)@,
            f0 == old(refunded)@,
            rv == ids_view(refund_ids@),
            disconnect_refunds(a0, f0, rv.take(i as int)) == Option::Some((active@, refunded@)),
        decreases refund_ids.len() - i,
    {
        let ghost pre = (active@, refunded@);
        proof {
            lemma_step_fold_take_succ((a0, f0), rv, undo_refund_step(), i as int);
            assert(rv[i as int] == refund_ids@[i as int]@);
        }
        match refunded.remove(&refund_ids[i]) {
            Some(w) => {
                active.insert(&refund_ids[i], w);
                proof {
                    assert(undo_refund_step()(pre, rv[i as int]) == Option::Some(
                        (active@, refunded@),
                    ));
                }
                i += 1;
            },
            None => {
                proof {
                    assert(undo_refund_step()(pre, rv[i as int]) is None);
                    assert(disconnect_refunds(a0, f0, rv.take(i + 1)) is None);
                    lemma_step_fold_none_persists((a0, f0), rv, undo_refund_step(), i + 1);
                }
                return Err(Error::UnknownWithdrawal);
            },
        }
    }
    proof {
        assert(rv.take(rv.len() as int) =~= rv);
    }
    Ok(())
}

fn undo_requests(active: &mut WithdrawalTable, withdrawal_ids: &Vec<Vec<u8>>) -> (r: Result<
    (),
    Error,
>)
    requires
        old(active).wf(),
    ensures
        final(active).wf(),
        match r {
            Ok(()) => disconnect_withdrawals(old(active)@, ids_view(withdrawal_ids@))
                == Option::Some(final(active)@),
            Err(e) => e == Error::UnknownWithdrawal && disconnect_withdrawals(
                old(active)@,
                ids_view(withdrawal_ids@),
            ) is None,
        },
{
    let ghost a0 = old(active)@;
    let ghost wv = ids_view(withdrawal_ids@);
    let mut i: usize = 0;
    while i < withdrawal_ids.len()
        invariant
            i <= withdrawal_ids.len(),
            active.wf(),
            a0 == old(active)@,
            wv == ids_view(withdrawal_ids@),
            disconnect_withdrawals(a0, wv.take(i as int)) == Option::Some(active@),
        decreases withdrawal_ids.len() - i,
    {
        let ghost pre = active@;
        proof {
            lemma_step_fold_take_succ(a0, wv, undo_wreq_step(), i as int);
            assert(wv[i as int] == withdrawal_ids@[i as int]@);
        }
        match active.remove(&withdrawal_ids[i]) {
            Some(_) => {
                proof {
                    assert(undo_wreq_step()(pre, wv[i as int]) == Option::Some(active@));
                }
                i += 1;
            },
            None => {
                proof {
                    assert(undo_wreq_step()(pre, wv[i as int]) is None);
                    assert(disconnect_withdrawals(a0, wv.take(i + 1)) is None);
                    lemma_step_fold_none_persists(a0, wv, undo_wreq_step(), i + 1);
                }
                return Err(Error::UnknownWithdrawal);
            },
        }
    }
    proof {
        assert(wv.take(wv.len() as int) =~= wv);
    }
    Ok(())
}

fn undo_deposits(spent: &mut OutpointSet, deposits: &Vec<Deposit>) -> (r: Result<(), Error>)
    requires
        old(spent).wf(),
    ensures
        final(spent).wf(),
        match r {
            Ok(()) => disconnect_deposits(old(spent)@, deposits_view(deposits@)) == Option::Some(
                final(spent)@,
            ),
            Err(e) => e == Error::NotSpent && disconnect_deposits(
                old(spent)@,
                deposits_view(deposits@),
            ) is None,
        },
{
    let ghost s0 = old(spent)@;
    let ghost dv = deposits_view(deposits@);
    let mut i: usize = 0;
    while i < deposits.len()
        invariant
            i <= deposits.len(),
            spent.wf(),
            s0 == old(spent)@,
            dv == deposits_view(deposits@),
            disconnect_deposits(s0, dv.take(i as int)) == Option::Some(spent@),
        decreases deposits.len() - i,
    {
        let ghost pre = spent@;
        proof {
            lemma_step_fold_take_succ(s0, dv, undo_dep_step(), i as int);
            assert(dv[i as int] == deposits@[i as int]@);
        }
        match spent.unmark_spent(&deposits[i].outpoint) {
            Ok(()) => {
                proof {
                    assert(undo_dep_step()(pre, dv[i as int]) == Option::Some(spent@));
                }
                i += 1;
            },
            Err(_) => {
                proof {
                    assert(undo_dep_step()(pre, dv[i as int]) is None);
                    assert(disconnect_deposits(s0, dv.take(i + 1)) is None);
                    lemma_step_fold_none_persists(s0, dv, undo_dep_step(), i + 1);
                }
                return Err(Error::NotSpent);
            },
        }
    }
    proof {
        assert(dv.take(dv.len() as int) =~= dv);
    }
    Ok(())
}

/// A successful withdrawal phase leaves every recorded fee within its
/// amount.
pub proof fn lemma_connect_withdrawals_fees(
    m: Map<Seq<u8>, WithdrawalModel>,
    ws: Seq<WithdrawalRequestModel>,
    height: u64,
)
    requires
        fees_ok(m),
        connect_withdrawals(m, ws, height) is Some,
    ensures
        fees_ok(connect_withdrawals(m, ws, height)->Some_0),
    decreases ws.len(),
{
    if ws.len() > 0 {
        lemma_connect_withdrawals_fees(m, ws.drop_last(), height);
        let mid = connect_withdrawals(m, ws.drop_last(), height)->Some_0;
        let w = ws.last();
        assert forall|k: Seq<u8>| #[trigger]
            mid.insert(w.id, w.stamped(height)).contains_key(k) implies mid.insert(
            w.id,
            w.stamped(height),
        )[k].mainchain_fee <= mid.insert(w.id, w.stamped(height))[k].amount by {
            if k != w.id {
                assert(mid.contains_key(k));
            }
        }
    }
}

/// A successful refund phase leaves every fee within its amount on both
/// sides of the move.
pub proof fn lemma_connect_refunds_fees(
    a: Map<Seq<u8>, WithdrawalModel>,
    f: Map<Seq<u8>, WithdrawalModel>,
    rs: Seq<RefundModel>,
)
    requires
        fees_ok(a),
        fees_ok(f),
        connect_refunds(a, f, rs) is Some,
    ensures
        fees_ok(connect_refunds(a, f, rs)->Some_0.0),
        fees_ok(connect_refunds(a, f, rs)->Some_0.1),
    decreases rs.len(),
{
    if rs.len() > 0 {
        lemma_connect_refunds_fees(a, f, rs.drop_last());
        let mid = connect_refunds(a, f, rs.drop_last())->Some_0;
        let r = rs.last();
        let a1 = mid.0.remove(r.id);
        let f1 = mid.1.insert(r.id, mid.0[r.id]);
        assert forall|k: Seq<u8>| #[trigger] a1.contains_key(k) implies a1[k].mainchain_fee
            <= a1[k].amount by {
            assert(mid.0.contains_key(k));
        }
        assert forall|k: Seq<u8>| #[trigger] f1.contains_key(k) implies f1[k].mainchain_fee
            <= f1[k].amount by {
            if k != r.id {
                assert(mid.1.contains_key(k));
            } else {
                assert(mid.0.contains_key(r.id));
            }
        }
    }
}

/// Undoing refunds likewise keeps every fee within its amount.
pub proof fn lemma_disconnect_refunds_fees(
    a: Map<Seq<u8>, WithdrawalModel>,
    f: Map<Seq<u8>, WithdrawalModel>,
    rids: Seq<Seq<u8>>,
)
    requires
        fees_ok(a),
        fees_ok(f),
        disconnect_refunds(a, f, rids) is Some,
    ensures
        fees_ok(disconnect_refunds(a, f, rids)->Some_0.0),
        fees_ok(disconnect_refunds(a, f, rids)->Some_0.1),
    decreases rids.len(),
{
    if rids.len() > 0 {
        lemma_disconnect_refunds_fees(a, f, rids.drop_last());
        let mid = disconnect_refunds(a, f, rids.drop_last())->Some_0;
        let rid = rids.last();
        let a1 = mid.0.insert(rid, mid.1[rid]);
        let f1 = mid.1.remove(rid);
        assert forall|k: Seq<u8>| #[trigger] a1.contains_key(k) implies a1[k].mainchain_fee
            <= a1[k].amount by {
            if k != rid {
                assert(mid.0.contains_key(k));
            } else {
                assert(mid.1.contains_key(rid));
            }
        }
        assert forall|k: Seq<u8>| #[trigger] f1.contains_key(k) implies f1[k].mainchain_fee
            <= f1[k].amount by {
            assert(mid.1.contains_key(k));
        }
    }
}

/// Dropping withdrawals keeps every fee within its amount.
pub proof fn lemma_disconnect_withdrawals_fees(
    a: Map<Seq<u8>, WithdrawalModel>,
    wids: Seq<Seq<u8>>,
)
    requires
        fees_ok(a),
        disconnect_withdrawals(a, wids) is Some,
    ensures
        fees_ok(disconnect_withdrawals(a, wids)->Some_0),
    decreases wids.len(),
{
    if wids.len() > 0 {
        lemma_disconnect_withdrawals_fees(a, wids.drop_last());
        let mid = disconnect_withdrawals(a, wids.drop_last())->Some_0;
        let wid = wids.last();
        let a1 = mid.remove(wid);
        assert forall|k: Seq<u8>| #[trigger] a1.contains_key(k) implies a1[k].mainchain_fee
            <= a1[k].amount by {
            assert(mid.contains_key(k));
        }
    }
}

fn count_records(d: usize, w: usize, r: usize) -> (c: u64)
    ensures
        c as int == if record_count(d as int, w as int, r as int) > u64::MAX {
            u64::MAX as int
        } else {
            record_count(d as int, w as int, r as int)
        },
{
    let c1 = (d as u64).saturating_add(w as u64);
    let c2 = c1.saturating_add(r as u64);
    c2.saturating_add(1)
}

impl Drivechain {
    /// The ledger state a block application acts on.
    pub open spec fn lm(&self) -> LedgerModel {
        LedgerModel {
            spent: self.spent_outpoints@,
            active: self.active_withdrawals@,
            refunded: self.refunded_withdrawals@,
            height: self.side_height,
        }
    }

    /// Well-formed engine: the stores keep no duplicate keys, and every
    /// recorded withdrawal can pay its mainchain fee out of its amount.
    pub open spec fn wf(&self) -> bool {
        &&& self.spent_outpoints.wf()
        &&& self.active_withdrawals.wf()
        &&& self.refunded_withdrawals.wf()
        &&& fees_ok(self.active_withdrawals@)
        &&& fees_ok(self.refunded_withdrawals@)
    }

    /// A fresh engine: empty ledger at height zero, idle coordinator, no
    /// pending bundle, and the given confirmation policy.
    pub fn new(conf_depth: u64, max_wait: u64) -> (r: Drivechain)
        ensures
            r.wf(),
            r.lm().spent == Set::<Seq<u8>>::empty(),
            r.lm().active == Map::<Seq<u8>, WithdrawalModel>::empty(),
            r.lm().refunded == Map::<Seq<u8>, WithdrawalModel>::empty(),
            r.lm().height == 0,
            r.bmm@ is Idle,
            r.pending_bundle is None,
            r.unflushed == 0,
            r.conf_depth == conf_depth,
            r.max_wait == max_wait,
    {
        Drivechain {
            spent_outpoints: OutpointSet::new(),
            active_withdrawals: WithdrawalTable::new(),
            refunded_withdrawals: WithdrawalTable::new(),
            side_height: 0,
            bmm: BmmSlot::Idle,
            pending_bundle: None,
            unflushed: 0,
            conf_depth,
            max_wait,
        }
    }

    /// Whether the deposit outpoint has been consumed by a connected block.
    pub fn is_outpoint_spent(&self, outpoint: &Vec<u8>) -> (r: bool)
        ensures
            r == self.lm().spent.contains(outpoint@),
    {
        self.spent_outpoints.is_spent(outpoint)
    }

    /// The withdrawals not yet in a confirmed bundle nor refunded, as pairs
    /// of id and record, in the ledger's storage order.
    pub fn get_unspent_withdrawals(&self) -> (r: Vec<(Vec<u8>, Withdrawal)>)
        ensures
            r@.len() == self.active_withdrawals.sview().len(),
            forall|j: int|
                0 <= j < r@.len() ==> (#[trigger] r@[j].0@, r@[j].1@)
                    == self.active_withdrawals.sview()[j],
    {
        self.active_withdrawals.snapshot()
    }

    /// Durably persists all pending mutations and returns how many records
    /// were flushed.
    pub fn flush(&mut self) -> (r: u64)
        ensures
            r == old(self).unflushed,
            final(self).unflushed == 0,
            final(self).lm() == old(self).lm(),
            final(self).bmm == old(self).bmm,
            final(self).pending_bundle == old(self).pending_bundle,
            final(self).conf_depth == old(self).conf_depth,
            final(self).max_wait == old(self).max_wait,
    {
        let r = self.unflushed;
        self.unflushed = 0;
        r
    }

    /// Atomically applies one sidechain block: marks each deposit's outpoint
    /// spent (`DuplicateDeposit` if one already is), records each withdrawal
    /// at the connecting height (`InvalidWithdrawal` if a fee exceeds its
    /// amount), and moves each refunded withdrawal out of the active set
    /// (`UnknownWithdrawal` if one is not outstanding). With `just_check`
    /// the same steps run against a scratch copy that is then discarded. On
    /// any failure nothing is retained.
    pub fn connect_block(
        &mut self,
        deposits: &Vec<Deposit>,
        withdrawals: &Vec<WithdrawalRequest>,
        refunds: &Vec<Refund>,
        just_check: bool,
    ) -> (r: Result<(), Error>)
        requires
            old(self).wf(),
            old(self).side_height < u64::MAX,
        ensures
            final(self).wf(),
            connect_post(
                *old(self),
                *final(self),
                r,
                deposits_view(deposits@),
                requests_view(withdrawals@),
                refunds_view(refunds@),
                just_check,
            ),
    {
        let ghost m0 = self.lm();
        let mut spent = self.spent_outpoints.duplicate();
        let mut active = self.active_withdrawals.duplicate();
        let mut refunded = self.refunded_withdrawals.duplicate();
        let new_height = self.side_height + 1;
        match apply_deposits(&mut spent, deposits) {
            Ok(()) => {},
            Err(e) => {
                return Err(e);
            },
        }
        match apply_requests(&mut active, withdrawals, new_height) {
            Ok(()) => {},
            Err(e) => {
                return Err(e);
            },
        }
        match apply_refunds(&mut active, &mut refunded, refunds) {
            Ok(()) => {},
            Err(e) => {
                return Err(e);
            },
        }
        if just_check {
            return Ok(());
        }
        let records = count_records(deposits.len(), withdrawals.len(), refunds.len());
        proof {
            lemma_connect_withdrawals_fees(m0.active, requests_view(withdrawals@), new_height);
            lemma_connect_refunds_fees(
                connect_withdrawals(m0.active, requests_view(withdrawals@), new_height)->Some_0,
                m0.refunded,
                refunds_view(refunds@),
            );
        }
        self.spent_outpoints = spent;
        self.active_withdrawals = active;
        self.refunded_withdrawals = refunded;
        self.side_height = new_height;
        self.unflushed = self.unflushed.saturating_add(records);
        Ok(())
    }

    /// Atomically reverts one sidechain block: the exact inverse of
    /// `connect_block`, phase by phase in reverse order — refunded
    /// withdrawals move back to the active set, the block's withdrawals are
    /// dropped, its deposit outpoints are unmarked, and the height steps
    /// back. With `just_check` the steps run against a scratch copy that is
    /// then discarded. On any failure nothing is retained.
    pub fn disconnect_block(
        &mut self,
        deposits: &Vec<Deposit>,
        withdrawal_ids: &Vec<Vec<u8>>,
        refund_ids: &Vec<Vec<u8>>,
        just_check: bool,
    ) -> (r: Result<(), Error>)
        requires
            old(self).wf(),
            old(self).side_height >= 1,
        ensures
            final(self).wf(),
            disconnect_post(
                *old(self),
                *final(self),
                r,
                deposits_view(deposits@),
                ids_view(withdrawal_ids@),
                ids_view(refund_ids@),
                just_check,
            ),
    {
        let ghost m0 = self.lm();
        let mut spent = self.spent_outpoints.duplicate();
        let mut active = self.active_withdrawals.duplicate();
        let mut refunded = self.refunded_withdrawals.duplicate();
        let new_height = self.side_height - 1;
        match undo_refunds(&mut active, &mut refunded, refund_ids) {
            Ok(()) => {},
            Err(e) => {
                return Err(e);
            },
        }
        match undo_requests(&mut active, withdrawal_ids) {
            Ok(()) => {},
            Err(e) => {
                return Err(e);
            },
        }
        match undo_deposits(&mut spent, deposits) {
            Ok(()) => {},
            Err(e) => {
                return Err(e);
            },
        }
        if just_check {
            return Ok(());
        }
        let records = count_records(deposits.len(), withdrawal_ids.len(), refund_ids.len());
        proof {
            lemma_disconnect_refunds_fees(m0.active, m0.refunded, ids_view(refund_ids@));
            lemma_disconnect_withdrawals_fees(
                disconnect_refunds(m0.active, m0.refunded, ids_view(refund_ids@))->Some_0.0,
                ids_view(withdrawal_ids@),
            );
        }
        self.spent_outpoints = spent;
        self.active_withdrawals = active;
        self.refunded_withdrawals = refunded;
        self.side_height = new_height;
        self.unflushed = self.unflushed.saturating_add(records);
        Ok(())
    }
}

} // verus!
