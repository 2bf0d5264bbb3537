//! The engine's laws: connecting a valid block and disconnecting it restores
//! the ledger exactly; a dry run changes nothing; a deposit outpoint is
//! consumed at most once; one blind-merged-mining attempt is outstanding at
//! a time; and verification is a pure function of public mainchain data.
use vstd::prelude::*;

use crate::Error;
use crate::bmm::BmmCommitmentModel;
use crate::bmm::BmmSlotModel;
use crate::bmm::MainBlockInfoModel;
use crate::bmm::spec_attempt;
use crate::bmm::spec_verify_bmm;
use crate::ledger::Drivechain;
use crate::ledger::LedgerModel;
use crate::ledger::connect_deposits;
use crate::ledger::connect_post;
use crate::ledger::connect_refunds;
use crate::ledger::connect_withdrawals;
use crate::ledger::dep_step;
use crate::ledger::disconnect_deposits;
use crate::ledger::disconnect_refunds;
use crate::ledger::disconnect_withdrawals;
use crate::ledger::refund_step;
use crate::ledger::spec_connect;
use crate::ledger::spec_disconnect;
use crate::ledger::step_fold;
use crate::ledger::undo_dep_step;
use crate::ledger::undo_refund_step;
use crate::ledger::undo_wreq_step;
use crate::ledger::wreq_step;
use crate::types::DepositModel;
use crate::types::RefundModel;
use crate::types::WithdrawalModel;
use crate::types::WithdrawalRequestModel;

verus! {

/// The outpoints a block's deposits consume, in block order.
pub open spec fn outs(ds: Seq<DepositModel>) -> Seq<Seq<u8>> {
    ds.map_values(|d: DepositModel| d.outpoint)
}

/// The ids a block's withdrawals carry, in block order.
pub open spec fn wids(ws: Seq<WithdrawalRequestModel>) -> Seq<Seq<u8>> {
    ws.map_values(|w: WithdrawalRequestModel| w.id)
}

/// The ids a block's refunds carry, in block order.
pub open spec fn rids(rs: Seq<RefundModel>) -> Seq<Seq<u8>> {
    rs.map_values(|r: RefundModel| r.id)
}

/// A block application the ledger owes success on: fresh, pairwise-distinct
/// deposit outpoints; fresh, pairwise-distinct withdrawal ids with fees
/// within their amounts; pairwise-distinct refund ids, each outstanding and
/// none refunded before.
pub open spec fn block_valid(
    m: LedgerModel,
    ds: Seq<DepositModel>,
    ws: Seq<WithdrawalRequestModel>,
    rs: Seq<RefundModel>,
) -> bool {
    &&& m.height < u64::MAX
    &&& outs(ds).no_duplicates()
    &&& forall|i: int| 0 <= i < ds.len() ==> !m.spent.contains((#[trigger] ds[i]).outpoint)
    &&& wids(ws).no_duplicates()
    &&& forall|i: int|
        0 <= i < ws.len() ==> !m.active.contains_key((#[trigger] ws[i]).id) && ws[i].mainchain_fee
            <= ws[i].amount
    &&& rids(rs).no_duplicates()
    &&& forall|i: int|
        0 <= i < rs.len() ==> m.active.contains_key((#[trigger] rs[i]).id)
            && !m.refunded.contains_key(rs[i].id)
}

proof fn lemma_disconnect_deposits_frame(spent: Set<Seq<u8>>, ds: Seq<DepositModel>, x: Seq<u8>)
    requires
        disconnect_deposits(spent, ds) is Some,
        !outs(ds).contains(x),
    ensures
        disconnect_deposits(spent.insert(x), ds) == Some(
            disconnect_deposits(spent, ds)->Some_0.insert(x),
        ),
    decreases ds.len(),
{
    if ds.len() == 0 {
    } else {
        let dl = ds.drop_last();
        let o = ds.last().outpoint;
        assert(outs(ds)[ds.len() - 1] == o);
        assert(!outs(dl).contains(x)) by {
            if outs(dl).contains(x) {
                let j = choose|j: int| 0 <= j < outs(dl).len() && outs(dl)[j] == x;
                assert(outs(ds)[j] == x);
            }
        }
        assert(o != x);
        lemma_disconnect_deposits_frame(spent, dl, x);
        let mid = disconnect_deposits(spent, dl)->Some_0;
        assert(mid.contains(o));
        assert(mid.insert(x).remove(o) =~= mid.remove(o).insert(x));
        assert(step_fold(spent.insert(x), ds, undo_dep_step()) == Some(mid.remove(o).insert(x)));
    }
}

/// Deposits of a valid block mark exactly their outpoints, and unmarking
/// them restores the spent set exactly.
pub proof fn lemma_deposits_roundtrip(spent: Set<Seq<u8>>, ds: Seq<DepositModel>)
    requires
        outs(ds).no_duplicates(),
        forall|i: int| 0 <= i < ds.len() ==> !spent.contains((#[trigger] ds[i]).outpoint),
    ensures
        connect_deposits(spent, ds) is Some,
        forall|x: Seq<u8>| #[trigger]
            connect_deposits(spent, ds)->Some_0.contains(x) <==> spent.contains(x) || outs(
                ds,
            ).contains(x),
        disconnect_deposits(connect_deposits(spent, ds)->Some_0, ds) == Some(spent),
    decreases ds.len(),
{
    if ds.len() == 0 {
        assert forall|x: Seq<u8>| #[trigger]
            connect_deposits(spent, ds)->Some_0.contains(x) <==> spent.contains(x) || outs(
                ds,
            ).contains(x) by {
            assert(!outs(ds).contains(x));
        }
    } else {
        let dl = ds.drop_last();
        let o = ds.last().outpoint;
        assert(outs(ds)[ds.len() - 1] == o);
        assert forall|p: int, q: int|
            0 <= p < outs(dl).len() && 0 <= q < outs(dl).len() && p != q implies outs(dl)[p]
            != outs(dl)[q] by {
            assert(outs(ds)[p] == outs(dl)[p]);
            assert(outs(ds)[q] == outs(dl)[q]);
        }
        assert forall|i: int| 0 <= i < dl.len() implies !spent.contains(
            (#[trigger] dl[i]).outpoint,
        ) by {
            assert(dl[i] == ds[i]);
        }
        lemma_deposits_roundtrip(spent, dl);
        let s1 = connect_deposits(spent, dl)->Some_0;
        assert(!outs(dl).contains(o)) by {
            if outs(dl).contains(o) {
                let j = choose|j: int| 0 <= j < outs(dl).len() && outs(dl)[j] == o;
                assert(outs(ds)[j] == o);
                assert(outs(ds)[j] == outs(ds)[ds.len() - 1]);
            }
        }
        assert(!spent.contains(o));
        assert(!s1.contains(o));
        assert(connect_deposits(spent, ds) == Some(s1.insert(o))) by {
            assert(step_fold(spent, ds, dep_step()) == dep_step()(s1, ds.last()));
        }
        assert forall|x: Seq<u8>| #[trigger]
            s1.insert(o).contains(x) <==> spent.contains(x) || outs(ds).contains(x) by {
            if s1.insert(o).contains(x) {
                if x == o {
                    assert(outs(ds).contains(o));
                } else {
                    assert(s1.contains(x));
                    if outs(dl).contains(x) {
                        let j = choose|j: int| 0 <= j < outs(dl).len() && outs(dl)[j] == x;
                        assert(outs(ds)[j] == x);
                        assert(outs(ds).contains(x));
                    }
                }
            }
            if outs(ds).contains(x) {
                let j = choose|j: int| 0 <= j < outs(ds).len() && outs(ds)[j] == x;
                if j < ds.len() - 1 {
                    assert(outs(dl)[j] == x);
                    assert(outs(dl).contains(x));
                } else {
                    assert(x == o);
                }
            }
        }
        lemma_disconnect_deposits_frame(s1, dl, o);
        assert(disconnect_deposits(s1.insert(o), dl) == Some(spent.insert(o)));
        assert(spent.insert(o).contains(o));
        assert(spent.insert(o).remove(o) =~= spent);
        assert(step_fold(s1.insert(o), ds, undo_dep_step()) == Some(spent));
    }
}

proof fn lemma_disconnect_withdrawals_frame(
    m: Map<Seq<u8>, WithdrawalModel>,
    ids: Seq<Seq<u8>>,
    k: Seq<u8>,
    v: WithdrawalModel,
)
    requires
        disconnect_withdrawals(m, ids) is Some,
        !ids.contains(k),
    ensures
        disconnect_withdrawals(m.insert(k, v), ids) == Some(
            disconnect_withdrawals(m, ids)->Some_0.insert(k, v),
        ),
    decreases ids.len(),
{
    if ids.len() == 0 {
    } else {
        let dl = ids.drop_last();
        let wid = ids.last();
        assert(ids[ids.len() - 1] == wid);
        assert(!dl.contains(k)) by {
            if dl.contains(k) {
                let j = choose|j: int| 0 <= j < dl.len() && dl[j] == k;
                assert(ids[j] == k);
            }
        }
        assert(wid != k);
        lemma_disconnect_withdrawals_frame(m, dl, k, v);
        let mid = disconnect_withdrawals(m, dl)->Some_0;
        assert(mid.contains_key(wid));
        assert(mid.insert(k, v).remove(wid) =~= mid.remove(wid).insert(k, v));
        assert(step_fold(m.insert(k, v), ids, undo_wreq_step()) == Some(
            mid.remove(wid).insert(k, v),
        ));
    }
}

/// Withdrawals of a valid block are recorded exactly under their ids, the
/// rest of the active set untouched, and dropping those ids restores it
/// exactly.
pub proof fn lemma_withdrawals_roundtrip(
    active: Map<Seq<u8>, WithdrawalModel>,
    ws: Seq<WithdrawalRequestModel>,
    height: u64,
)
    requires
        wids(ws).no_duplicates(),
        forall|i: int|
            0 <= i < ws.len() ==> !active.contains_key((#[trigger] ws[i]).id)
                && ws[i].mainchain_fee <= ws[i].amount,
    ensures
        connect_withdrawals(active, ws, height) is Some,
        forall|k: Seq<u8>| #[trigger]
            connect_withdrawals(active, ws, height)->Some_0.contains_key(k)
                <==> active.contains_key(k) || wids(ws).contains(k),
        forall|k: Seq<u8>| #[trigger]
            active.contains_key(k) ==> connect_withdrawals(active, ws, height)->Some_0[k]
                == active[k],
        disconnect_withdrawals(connect_withdrawals(active, ws, height)->Some_0, wids(ws)) == Some(
            active,
        ),
    decreases ws.len(),
{
    if ws.len() == 0 {
        assert forall|k: Seq<u8>| #[trigger]
            connect_withdrawals(active, ws, height)->Some_0.contains_key(k)
                <==> active.contains_key(k) || wids(ws).contains(k) by {
            assert(!wids(ws).contains(k));
        }
    } else {
        let dl = ws.drop_last();
        let w = ws.last();
        assert(wids(ws)[ws.len() - 1] == w.id);
        assert forall|p: int, q: int|
            0 <= p < wids(dl).len() && 0 <= q < wids(dl).len() && p != q implies wids(dl)[p]
            != wids(dl)[q] by {
            assert(wids(ws)[p] == wids(dl)[p]);
            assert(wids(ws)[q] == wids(dl)[q]);
        }
        assert forall|i: int| 0 <= i < dl.len() implies !active.contains_key(
            (#[trigger] dl[i]).id,
        ) && dl[i].mainchain_fee <= dl[i].amount by {
            assert(dl[i] == ws[i]);
        }
        lemma_withdrawals_roundtrip(active, dl, height);
        let a1 = connect_withdrawals(active, dl, height)->Some_0;
        assert(!wids(dl).contains(w.id)) by {
            if wids(dl).contains(w.id) {
                let j = choose|j: int| 0 <= j < wids(dl).len() && wids(dl)[j] == w.id;
                assert(wids(ws)[j] == w.id);
                assert(wids(ws)[j] == wids(ws)[ws.len() - 1]);
            }
        }
        assert(w.mainchain_fee <= w.amount) by {
            assert(ws[ws.len() - 1] == w);
        }
        let a2 = a1.insert(w.id, w.stamped(height));
        assert(connect_withdrawals(active, ws, height) == Some(a2)) by {
            assert(step_fold(active, ws, wreq_step(height)) == wreq_step(height)(a1, ws.last()));
        }
        assert forall|k: Seq<u8>| #[trigger]
            a2.contains_key(k) <==> active.contains_key(k) || wids(ws).contains(k) by {
            if a2.contains_key(k) {
                if k == w.id {
                    assert(wids(ws).contains(w.id));
                } else {
                    assert(a1.contains_key(k));
                    if wids(dl).contains(k) {
                        let j = choose|j: int| 0 <= j < wids(dl).len() && wids(dl)[j] == k;
                        assert(wids(ws)[j] == k);
                        assert(wids(ws).contains(k));
                    }
                }
            }
            if wids(ws).contains(k) {
                let j = choose|j: int| 0 <= j < wids(ws).len() && wids(ws)[j] == k;
                if j < ws.len() - 1 {
                    assert(wids(dl)[j] == k);
                    assert(wids(dl).contains(k));
                } else {
                    assert(k == w.id);
                }
            }
        }
        assert forall|k: Seq<u8>| #[trigger] active.contains_key(k) implies a2[k] == active[k] by {
            assert(k != w.id) by {
                assert(!active.contains_key(w.id)) by {
                    assert(ws[ws.len() - 1] == w);
                }
            }
            assert(a1[k] == active[k]);
        }
        assert(!a1.contains_key(w.id)) by {
            assert(ws[ws.len() - 1] == w);
        }
        lemma_disconnect_withdrawals_frame(a1, wids(dl), w.id, w.stamped(height));
        assert(wids(ws).drop_last() =~= wids(dl));
        assert(disconnect_withdrawals(a2, wids(dl)) == Some(active.insert(w.id, w.stamped(height))));
        assert(active.insert(w.id, w.stamped(height)).contains_key(w.id));
        assert(active.insert(w.id, w.stamped(height)).remove(w.id) =~= active);
        assert(step_fold(a2, wids(ws), undo_wreq_step()) == Some(active));
    }
}

proof fn lemma_disconnect_refunds_frame(
    a: Map<Seq<u8>, WithdrawalModel>,
    f: Map<Seq<u8>, WithdrawalModel>,
    ids: Seq<Seq<u8>>,
    k: Seq<u8>,
    v: WithdrawalModel,
)
    requires
        disconnect_refunds(a, f, ids) is Some,
        !ids.contains(k),
    ensures
        disconnect_refunds(a.remove(k), f.insert(k, v), ids) == Some(
            (
                disconnect_refunds(a, f, ids)->Some_0.0.remove(k),
                disconnect_refunds(a, f, ids)->Some_0.1.insert(k, v),
            ),
        ),
    decreases ids.len(),
{
    if ids.len() == 0 {
    } else {
        let dl = ids.drop_last();
        let rid = ids.last();
        assert(ids[ids.len() - 1] == rid);
        assert(!dl.contains(k)) by {
            if dl.contains(k) {
                let j = choose|j: int| 0 <= j < dl.len() && dl[j] == k;
                assert(ids[j] == k);
            }
        }
        assert(rid != k);
        lemma_disconnect_refunds_frame(a, f, dl, k, v);
        let mid = disconnect_refunds(a, f, dl)->Some_0;
        assert(mid.1.contains_key(rid));
        assert(mid.1.insert(k, v)[rid] == mid.1[rid]);
        assert(mid.0.remove(k).insert(rid, mid.1[rid]) =~= mid.0.insert(rid, mid.1[rid]).remove(k));
        assert(mid.1.insert(k, v).remove(rid) =~= mid.1.remove(rid).insert(k, v));
        assert(step_fold((a.remove(k), f.insert(k, v)), ids, undo_refund_step()) == Some(
            (mid.0.insert(rid, mid.1[rid]).remove(k), mid.1.remove(rid).insert(k, v)),
        ));
    }
}

/// Refunds of a valid block move exactly their withdrawals from the active
/// set to the refunded set, and moving them back restores both sets
/// exactly.
pub proof fn lemma_refunds_roundtrip(
    active: Map<Seq<u8>, WithdrawalModel>,
    refunded: Map<Seq<u8>, WithdrawalModel>,
    rs: Seq<RefundModel>,
)
    requires
        rids(rs).no_duplicates(),
        forall|i: int|
            0 <= i < rs.len() ==> active.contains_key((#[trigger] rs[i]).id)
                && !refunded.contains_key(rs[i].id),
    ensures
        connect_refunds(active, refunded, rs) is Some,
        forall|k: Seq<u8>| #[trigger]
            connect_refunds(active, refunded, rs)->Some_0.0.contains_key(k)
                <==> active.contains_key(k) && !rids(rs).contains(k),
        forall|k: Seq<u8>| #[trigger]
            connect_refunds(active, refunded, rs)->Some_0.0.contains_key(k) ==> connect_refunds(
                active,
                refunded,
                rs,
            )->Some_0.0[k] == active[k],
        disconnect_refunds(
            connect_refunds(active, refunded, rs)->Some_0.0,
            connect_refunds(active, refunded, rs)->Some_0.1,
            rids(rs),
        ) == Some((active, refunded)),
    decreases rs.len(),
{
    if rs.len() == 0 {
        assert forall|k: Seq<u8>| #[trigger]
            connect_refunds(active, refunded, rs)->Some_0.0.contains_key(k)
                <==> active.contains_key(k) && !rids(rs).contains(k) by {
            assert(!rids(rs).contains(k));
        }
    } else {
        let dl = rs.drop_last();
        let r = rs.last();
        assert(rids(rs)[rs.len() - 1] == r.id);
        assert(rs[rs.len() - 1] == r);
        assert forall|p: int, q: int|
            0 <= p < rids(dl).len() && 0 <= q < rids(dl).len() && p != q implies rids(dl)[p]
            != rids(dl)[q] by {
            assert(rids(rs)[p] == rids(dl)[p]);
            assert(rids(rs)[q] == rids(dl)[q]);
        }
        assert forall|i: int| 0 <= i < dl.len() implies active.contains_key(
            (#[trigger] dl[i]).id,
        ) && !refunded.contains_key(dl[i].id) by {
            assert(dl[i] == rs[i]);
        }
        lemma_refunds_roundtrip(active, refunded, dl);
        let mid = connect_refunds(active, refunded, dl)->Some_0;
        assert(!rids(dl).contains(r.id)) by {
            if rids(dl).contains(r.id) {
                let j = choose|j: int| 0 <= j < rids(dl).len() && rids(dl)[j] == r.id;
                assert(rids(rs)[j] == r.id);
                assert(rids(rs)[j] == rids(rs)[rs.len() - 1]);
            }
        }
        assert(mid.0.contains_key(r.id));
        assert(mid.0[r.id] == active[r.id]);
        let c0 = mid.0.remove(r.id);
        let c1 = mid.1.insert(r.id, mid.0[r.id]);
        assert(connect_refunds(active, refunded, rs) == Some((c0, c1))) by {
            assert(step_fold((active, refunded), rs, refund_step()) == refund_step()(
                mid,
                rs.last(),
            ));
        }
        assert forall|k: Seq<u8>| #[trigger]
            c0.contains_key(k) <==> active.contains_key(k) && !rids(rs).contains(k) by {
            if c0.contains_key(k) {
                assert(k != r.id);
                assert(mid.0.contains_key(k));
                assert(!rids(dl).contains(k));
                if rids(rs).contains(k) {
                    let j = choose|j: int| 0 <= j < rids(rs).len() && rids(rs)[j] == k;
                    if j < rs.len() - 1 {
                        assert(rids(dl)[j] == k);
                        assert(rids(dl).contains(k));
                    } else {
                        assert(k == r.id);
                    }
                }
            }
            if active.contains_key(k) && !rids(rs).contains(k) {
                assert(k != r.id) by {
                    assert(rids(rs)[rs.len() - 1] == r.id);
                }
                assert(!rids(dl).contains(k)) by {
                    if rids(dl).contains(k) {
                        let j = choose|j: int| 0 <= j < rids(dl).len() && rids(dl)[j] == k;
                        assert(rids(rs)[j] == k);
                        assert(rids(rs).contains(k));
                    }
                }
                assert(mid.0.contains_key(k));
            }
        }
        assert forall|k: Seq<u8>| #[trigger] c0.contains_key(k) implies c0[k] == active[k] by {
            assert(mid.0.contains_key(k));
        }
        lemma_disconnect_refunds_frame(mid.0, mid.1, rids(dl), r.id, mid.0[r.id]);
        assert(rids(rs).drop_last() =~= rids(dl));
        assert(disconnect_refunds(c0, c1, rids(dl)) == Some(
            (active.remove(r.id), refunded.insert(r.id, mid.0[r.id])),
        ));
        let f2 = refunded.insert(r.id, mid.0[r.id]);
        assert(f2.contains_key(r.id));
        assert(active.remove(r.id).insert(r.id, f2[r.id]) =~= active) by {
            assert(f2[r.id] == active[r.id]);
        }
        assert(f2.remove(r.id) =~= refunded) by {
            assert(!refunded.contains_key(r.id));
        }
        assert(step_fold((c0, c1), rids(rs), undo_refund_step()) == Some((active, refunded)));
    }
}

/// Inverse law: connecting a valid block succeeds, and disconnecting the
/// same block immediately after restores the spent-outpoint set, both
/// withdrawal sets and the height to exactly their pre-connect values.
pub proof fn lemma_connect_then_disconnect(
    m: LedgerModel,
    ds: Seq<DepositModel>,
    ws: Seq<WithdrawalRequestModel>,
    rs: Seq<RefundModel>,
)
    requires
        block_valid(m, ds, ws, rs),
    ensures
        spec_connect(m, ds, ws, rs) is Ok,
        spec_disconnect(spec_connect(m, ds, ws, rs)->Ok_0, ds, wids(ws), rids(rs)) == Ok::<
            LedgerModel,
            Error,
        >(m),
{
    let h = (m.height + 1) as u64;
    lemma_deposits_roundtrip(m.spent, ds);
    lemma_withdrawals_roundtrip(m.active, ws, h);
    let a1 = connect_withdrawals(m.active, ws, h)->Some_0;
    assert forall|i: int| 0 <= i < rs.len() implies a1.contains_key((#[trigger] rs[i]).id)
        && !m.refunded.contains_key(rs[i].id) by {
        assert(m.active.contains_key(rs[i].id));
    }
    lemma_refunds_roundtrip(a1, m.refunded, rs);
    let c = spec_connect(m, ds, ws, rs)->Ok_0;
    assert(c.height == h);
    assert(c.spent == connect_deposits(m.spent, ds)->Some_0);
    assert(c.active == connect_refunds(a1, m.refunded, rs)->Some_0.0);
    assert(c.refunded == connect_refunds(a1, m.refunded, rs)->Some_0.1);
    assert(disconnect_refunds(c.active, c.refunded, rids(rs)) == Some((a1, m.refunded)));
    assert(disconnect_withdrawals(a1, wids(ws)) == Some(m.active));
    assert(disconnect_deposits(c.spent, ds) == Some(m.spent));
    assert((c.height - 1) as u64 == m.height);
    assert(spec_disconnect(c, ds, wids(ws), rids(rs))->Ok_0 =~= m);
}

/// Dry-run no-op: whatever the outcome, a `connect_block` call with
/// `just_check` leaves the engine exactly as it was.
pub proof fn lemma_dry_run_no_op(
    pre: Drivechain,
    post: Drivechain,
    r: Result<(), Error>,
    ds: Seq<DepositModel>,
    ws: Seq<WithdrawalRequestModel>,
    rs: Seq<RefundModel>,
)
    requires
        connect_post(pre, post, r, ds, ws, rs, true),
    ensures
        post == pre,
{
}

proof fn lemma_connect_deposits_ok_facts(spent: Set<Seq<u8>>, ds: Seq<DepositModel>)
    requires
        connect_deposits(spent, ds) is Some,
    ensures
        forall|x: Seq<u8>|
            spent.contains(x) ==> #[trigger] connect_deposits(spent, ds)->Some_0.contains(x),
        forall|i: int|
            0 <= i < ds.len() ==> connect_deposits(spent, ds)->Some_0.contains(
                (#[trigger] ds[i]).outpoint,
            ),
        forall|i: int| 0 <= i < ds.len() ==> !spent.contains((#[trigger] ds[i]).outpoint),
    decreases ds.len(),
{
    if ds.len() > 0 {
        let dl = ds.drop_last();
        lemma_connect_deposits_ok_facts(spent, dl);
        let s1 = connect_deposits(spent, dl)->Some_0;
        let o = ds.last().outpoint;
        assert(!s1.contains(o));
        assert(connect_deposits(spent, ds) == Some(s1.insert(o))) by {
            assert(step_fold(spent, ds, dep_step()) == dep_step()(s1, ds.last()));
        }
        assert forall|i: int| 0 <= i < ds.len() implies s1.insert(o).contains(
            (#[trigger] ds[i]).outpoint,
        ) && !spent.contains(ds[i].outpoint) by {
            if i < ds.len() - 1 {
                assert(dl[i] == ds[i]);
                assert(s1.contains(dl[i].outpoint));
            } else {
                assert(ds[i] == ds.last());
                assert(!spent.contains(o)) by {
                    if spent.contains(o) {
                        assert(s1.contains(o));
                    }
                }
            }
        }
    }
}

/// No double spend: once a block consuming an outpoint is connected, any
/// block consuming the same outpoint is refused as a duplicate deposit; the
/// outpoint is marked spent at most once.
pub proof fn lemma_no_double_spend(
    m: LedgerModel,
    ds1: Seq<DepositModel>,
    ws1: Seq<WithdrawalRequestModel>,
    rs1: Seq<RefundModel>,
    ds2: Seq<DepositModel>,
    ws2: Seq<WithdrawalRequestModel>,
    rs2: Seq<RefundModel>,
    i1: int,
    i2: int,
)
    requires
        spec_connect(m, ds1, ws1, rs1) is Ok,
        0 <= i1 < ds1.len(),
        0 <= i2 < ds2.len(),
        ds2[i2].outpoint == ds1[i1].outpoint,
    ensures
        spec_connect(spec_connect(m, ds1, ws1, rs1)->Ok_0, ds2, ws2, rs2) == Err::<
            LedgerModel,
            Error,
        >(Error::DuplicateDeposit),
{
    lemma_connect_deposits_ok_facts(m.spent, ds1);
    let m1 = spec_connect(m, ds1, ws1, rs1)->Ok_0;
    assert(m1.spent.contains(ds1[i1].outpoint));
    if connect_deposits(m1.spent, ds2) is Some {
        lemma_connect_deposits_ok_facts(m1.spent, ds2);
        assert(!m1.spent.contains(ds2[i2].outpoint));
        assert(false);
    }
}

/// Single outstanding attempt: after an attempt transitions the coordinator
/// to pending, any further attempt before a terminal state is refused with
/// `AttemptInProgress`, whatever its arguments.
pub proof fn lemma_single_outstanding_attempt(
    slot: BmmSlotModel,
    ch1: Seq<u8>,
    prev1: Seq<u8>,
    amt1: u64,
    tip1: Seq<u8>,
    ch2: Seq<u8>,
    prev2: Seq<u8>,
    amt2: u64,
    tip2: Seq<u8>,
)
    requires
        spec_attempt(slot, ch1, prev1, amt1, tip1).1 is Ok,
    ensures
        spec_attempt(spec_attempt(slot, ch1, prev1, amt1, tip1).0, ch2, prev2, amt2, tip2).1
            == Err::<BmmCommitmentModel, Error>(Error::AttemptInProgress),
{
}

/// Verification independence: the verdict on a commitment claim is exactly
/// whether the identified mainchain block carries that critical hash — a
/// function of public mainchain data alone, the same for every node and
/// independent of any ledger state.
pub proof fn lemma_verification_independence(
    block: MainBlockInfoModel,
    main_block_hash: Seq<u8>,
    critical_hash: Seq<u8>,
)
    ensures
        spec_verify_bmm(block, main_block_hash, critical_hash) <==> (block.hash == main_block_hash
            && block.commitment == Option::Some(critical_hash)),
{
}

} // verus!
