use vstd::prelude::*;
use crate::batch::{
    lemma_reconcile_deducts_exactly, shares_upto, total_shares, total_unclaimed, unclaimed_upto,
};
use crate::coins::ledger_wf;
use crate::state::{
    batch_position, lemma_batch_position, request_position, reward_fee_cap, StateView,
};
use crate::types::{Batch, StakeView, UnbondRequestView};
use crate::unbond::{
    after_reconcile, after_submit, batch_after_refund, can_reconcile_at, can_submit, claimable,
    expected_received, matured, matured_batches, matured_upto, reconciled_due, refund_of,
    shortfall, with_matured_replaced_upto, with_shares_queued, withdraw_step,
    withdraw_upto, withdrawal, Withdrawal,
};

verus! {

/// Sum of the shares of the first `i` requests.
pub open spec fn requested_upto(r: Seq<UnbondRequestView>, i: nat) -> nat
    decreases i,
{
    if i == 0 {
        0
    } else {
        requested_upto(r, (i - 1) as nat) + r[i - 1].shares
    }
}

/// Sum of the shares of all requests.
pub open spec fn total_requested(r: Seq<UnbondRequestView>) -> nat {
    requested_upto(r, r.len())
}

/// The shares that await unbonding: those of the submitted batches and
/// those of the pending batch.
pub open spec fn outstanding_shares(s: StateView) -> nat {
    total_shares(s.previous_batches) + s.pending_batch.ustake_to_burn as nat
}

/// Every stored batch still has shares.
pub open spec fn batches_hold_shares(b: Seq<Batch>) -> bool {
    forall|i: int| 0 <= i < b.len() ==> (#[trigger] b[i]).total_shares > 0
}

/// Every stored batch was submitted before the batch with identifier `bound`.
pub open spec fn ids_below(b: Seq<Batch>, bound: u64) -> bool {
    forall|i: int| 0 <= i < b.len() ==> (#[trigger] b[i]).id < bound
}

/// Stored batches are in the order of their identifiers, none twice.
pub open spec fn ids_ascending(b: Seq<Batch>) -> bool {
    forall|i: int, j: int| 0 <= i < j < b.len() ==> (#[trigger] b[i]).id < (#[trigger] b[j]).id
}

/// No two requests are of the same batch and user.
pub open spec fn requests_unique(r: Seq<UnbondRequestView>) -> bool {
    forall|i: int, j: int|
        0 <= i < j < r.len() ==> !((#[trigger] r[i]).id == (#[trigger] r[j]).id && r[i].user
            == r[j].user)
}

/// What holds of the state between any two operations: the whitelist has
/// no duplicates, the reward fee is within its cap, the ledger has one
/// entry for each denomination it holds, stored batches are older than the
/// pending one and in the order of their identifiers, there is one request
/// for each batch and user, and the shares of all requests are those of
/// the batches, the pending one included.
pub open spec fn consistent(s: StateView) -> bool {
    &&& s.validators.no_duplicates()
    &&& ledger_wf(s.unlocked_coins)
    &&& ids_ascending(s.previous_batches)
    &&& requests_unique(s.unbond_requests)
    &&& s.protocol_reward_fee.atomics <= reward_fee_cap()
    &&& s.pending_batch.id >= 1
    &&& ids_below(s.previous_batches, s.pending_batch.id)
    &&& total_requested(s.unbond_requests) == outstanding_shares(s)
}

proof fn lemma_batch_sums_prefix(a: Seq<Batch>, b: Seq<Batch>, i: nat)
    requires
        i <= a.len(),
        i <= b.len(),
        forall|k: int| 0 <= k < i ==> a[k] == b[k],
    ensures
        shares_upto(a, i) == shares_upto(b, i),
        unclaimed_upto(a, i) == unclaimed_upto(b, i),
    decreases i,
{
    if i > 0 {
        lemma_batch_sums_prefix(a, b, (i - 1) as nat);
    }
}

proof fn lemma_batch_sums_push(b: Seq<Batch>, x: Batch)
    ensures
        total_shares(b.push(x)) == total_shares(b) + x.total_shares,
        total_unclaimed(b.push(x)) == total_unclaimed(b) + x.utoken_unclaimed,
{
    lemma_batch_sums_prefix(b, b.push(x), b.len());
}

proof fn lemma_batch_sums_update(b: Seq<Batch>, p: int, x: Batch, i: nat)
    requires
        0 <= p < b.len(),
        i <= b.len(),
    ensures
        shares_upto(b.update(p, x), i) == shares_upto(b, i) + if p < i {
            x.total_shares - b[p].total_shares
        } else {
            0
        },
        unclaimed_upto(b.update(p, x), i) == unclaimed_upto(b, i) + if p < i {
            x.utoken_unclaimed - b[p].utoken_unclaimed
        } else {
            0
        },
    decreases i,
{
    if i > 0 {
        lemma_batch_sums_update(b, p, x, (i - 1) as nat);
    }
}

proof fn lemma_batch_sums_remove(b: Seq<Batch>, p: int, i: nat)
    requires
        0 <= p < b.len(),
        i < b.len(),
    ensures
        i <= p ==> shares_upto(b.remove(p), i) == shares_upto(b, i),
        i > p ==> shares_upto(b.remove(p), i) + b[p].total_shares == shares_upto(b, i + 1),
        i <= p ==> unclaimed_upto(b.remove(p), i) == unclaimed_upto(b, i),
        i > p ==> unclaimed_upto(b.remove(p), i) + b[p].utoken_unclaimed == unclaimed_upto(
            b,
            i + 1,
        ),
    decreases i,
{
    if i > 0 {
        lemma_batch_sums_remove(b, p, (i - 1) as nat);
        let r = b.remove(p);
        assert(r[i - 1] == if i - 1 < p {
            b[i - 1]
        } else {
            b[i as int]
        });
        assert(shares_upto(b, i + 1) == shares_upto(b, i) + b[i as int].total_shares);
        assert(unclaimed_upto(b, i + 1) == unclaimed_upto(b, i) + b[i as int].utoken_unclaimed);
        assert(shares_upto(b, i) == shares_upto(b, (i - 1) as nat) + b[i - 1].total_shares);
        assert(unclaimed_upto(b, i) == unclaimed_upto(b, (i - 1) as nat) + b[i
            - 1].utoken_unclaimed);
    }
}

proof fn lemma_requested_prefix(a: Seq<UnbondRequestView>, b: Seq<UnbondRequestView>, i: nat)
    requires
        i <= a.len(),
        i <= b.len(),
        forall|k: int| 0 <= k < i ==> a[k] == b[k],
    ensures
        requested_upto(a, i) == requested_upto(b, i),
    decreases i,
{
    if i > 0 {
        lemma_requested_prefix(a, b, (i - 1) as nat);
    }
}

proof fn lemma_requested_update(r: Seq<UnbondRequestView>, p: int, x: UnbondRequestView, i: nat)
    requires
        0 <= p < r.len(),
        i <= r.len(),
    ensures
        requested_upto(r.update(p, x), i) == requested_upto(r, i) + if p < i {
            x.shares - r[p].shares
        } else {
            0
        },
    decreases i,
{
    if i > 0 {
        lemma_requested_update(r, p, x, (i - 1) as nat);
    }
}

proof fn lemma_request_position(r: Seq<UnbondRequestView>, id: u64, user: Seq<char>, from: nat)
    requires
        from <= r.len(),
    ensures
        from <= request_position(r, id, user, from) <= r.len(),
        request_position(r, id, user, from) < r.len() ==> {
            let found = r[request_position(r, id, user, from) as int];
            found.id == id && found.user == user
        },
        forall|k: int|
            from <= k < request_position(r, id, user, from) ==> !((#[trigger] r[k]).id == id
                && r[k].user == user),
    decreases r.len() - from,
{
    if from < r.len() && !(r[from as int].id == id && r[from as int].user == user) {
        lemma_request_position(r, id, user, from + 1);
    }
}

/// Queuing shares adds them to the requests and to the pending batch
/// alike, and leaves one request for each batch and user.
pub proof fn lemma_queue_adds_shares(
    r: Seq<UnbondRequestView>,
    id: u64,
    user: Seq<char>,
    shares: nat,
)
    ensures
        total_requested(with_shares_queued(r, id, user, shares)) == total_requested(r) + shares,
        requests_unique(r) ==> requests_unique(with_shares_queued(r, id, user, shares)),
{
    let p = request_position(r, id, user, 0);
    lemma_request_position(r, id, user, 0);
    let after = with_shares_queued(r, id, user, shares);
    if requests_unique(r) {
        assert forall|a: int, b: int| 0 <= a < b < after.len() implies !((#[trigger] after[a]).id
            == (#[trigger] after[b]).id && after[a].user == after[b].user) by {
            if p < r.len() {
                assert(after[a].id == r[a].id && after[a].user == r[a].user);
                assert(after[b].id == r[b].id && after[b].user == r[b].user);
            } else if b < r.len() {
                assert(after[a] == r[a] && after[b] == r[b]);
            } else {
                assert(after[a] == r[a]);
            }
        }
    }
    if p < r.len() {
        lemma_requested_update(
            r,
            p as int,
            UnbondRequestView { id, user, shares: r[p as int].shares + shares },
            r.len(),
        );
    } else {
        let x = UnbondRequestView { id, user, shares };
        lemma_requested_prefix(r, r.push(x), r.len());
    }
}

/// Submitting the pending batch moves its shares into a stored batch: the
/// shares that await unbonding stay the same, the state stays consistent,
/// and if the batch had any shares, every stored batch still has some.
pub proof fn lemma_submit_keeps_shares(s: StateView, now: u64, d: Seq<StakeView>, supply: nat)
    requires
        consistent(s),
        can_submit(s, now, d, supply),
    ensures
        outstanding_shares(after_submit(s, now, d, supply)) == outstanding_shares(s),
        consistent(after_submit(s, now, d, supply)),
        batches_hold_shares(s.previous_batches) && s.pending_batch.ustake_to_burn > 0
            ==> batches_hold_shares(after_submit(s, now, d, supply).previous_batches),
{
    let after = after_submit(s, now, d, supply);
    let b = s.previous_batches;
    lemma_batch_position(b, s.pending_batch.id, 0);
    let p = batch_position(b, s.pending_batch.id, 0);
    assert(p == b.len()) by {
        if p < b.len() {
            assert(b[p as int].id < s.pending_batch.id);
        }
    }
    let x = after.previous_batches[b.len() as int];
    assert(after.previous_batches == b.push(x));
    lemma_batch_sums_push(b, x);
    assert forall|i: int| 0 <= i < after.previous_batches.len() implies (
    #[trigger] after.previous_batches[i]).id < after.pending_batch.id by {
        if i < b.len() {
            assert(b[i].id < s.pending_batch.id);
        }
    }
    assert forall|i: int, j: int| 0 <= i < j < after.previous_batches.len() implies (
    #[trigger] after.previous_batches[i]).id < (#[trigger] after.previous_batches[j]).id by {
        if j < b.len() {
            assert(b[i].id < b[j].id);
        } else {
            assert(b[i].id < s.pending_batch.id);
        }
    }
    if batches_hold_shares(b) && s.pending_batch.ustake_to_burn > 0 {
        assert forall|i: int| 0 <= i < after.previous_batches.len() implies (
        #[trigger] after.previous_batches[i]).total_shares > 0 by {
            if i < b.len() {
                assert(b[i].total_shares > 0);
            }
        }
    }
}

proof fn lemma_matured_prefix(b: Seq<Batch>, now: u64, i: nat, j: nat)
    requires
        i <= j <= b.len(),
    ensures
        matured_upto(b, now, i).len() <= matured_upto(b, now, j).len(),
        matured_upto(b, now, i).len() <= i,
        forall|k: int|
            0 <= k < matured_upto(b, now, i).len() ==> matured_upto(b, now, i)[k]
                == matured_upto(b, now, j)[k],
        forall|k: int|
            0 <= k < matured_upto(b, now, i).len() ==> matured(
                #[trigger] matured_upto(b, now, i)[k],
                now,
            ),
    decreases j,
{
    if i < j {
        lemma_matured_prefix(b, now, i, (j - 1) as nat);
    } else if i > 0 {
        lemma_matured_prefix(b, now, (i - 1) as nat, (i - 1) as nat);
    }
}

/// Replacing the due batches by updated ones that differ only in the flag
/// and in what they hold keeps the list as long as it was, keeps every
/// batch that was not due, and puts each updated batch in the place of the
/// one it came from.
proof fn lemma_replaced(b: Seq<Batch>, now: u64, updated: Seq<Batch>, i: nat)
    requires
        i <= b.len(),
        updated.len() == matured_batches(b, now).len(),
    ensures
        with_matured_replaced_upto(b, now, updated, i).len() == i,
        forall|k: int|
            0 <= k < i ==> #[trigger] with_matured_replaced_upto(b, now, updated, i)[k] == if matured(
                b[k],
                now,
            ) {
                updated[matured_upto(b, now, k as nat).len() as int]
            } else {
                b[k]
            },
        shares_upto(with_matured_replaced_upto(b, now, updated, i), i) + shares_upto(
            matured_batches(b, now),
            matured_upto(b, now, i).len(),
        ) == shares_upto(b, i) + shares_upto(updated, matured_upto(b, now, i).len()),
        unclaimed_upto(with_matured_replaced_upto(b, now, updated, i), i) + unclaimed_upto(
            matured_batches(b, now),
            matured_upto(b, now, i).len(),
        ) == unclaimed_upto(b, i) + unclaimed_upto(updated, matured_upto(b, now, i).len()),
    decreases i,
{
    let due = matured_batches(b, now);
    let now_list = with_matured_replaced_upto(b, now, updated, i);
    if i > 0 {
        let h = (i - 1) as nat;
        lemma_replaced(b, now, updated, h);
        lemma_matured_prefix(b, now, h, b.len());
        lemma_matured_prefix(b, now, i, b.len());
        let before = with_matured_replaced_upto(b, now, updated, h);
        lemma_batch_sums_prefix(before, now_list, h);
        assert forall|k: int| 0 <= k < i implies #[trigger] now_list[k] == if matured(b[k], now) {
            updated[matured_upto(b, now, k as nat).len() as int]
        } else {
            b[k]
        } by {
            if k < h {
                assert(now_list[k] == before[k]);
            }
        }
        if matured(b[h as int], now) {
            let c = matured_upto(b, now, h).len();
            assert(matured_upto(b, now, i)[c as int] == b[h as int]);
            assert(due[c as int] == b[h as int]);
        }
    }
}

/// Reconciling flags the due batches and takes the shortfall out of them:
/// the shares of the batches stay as they were; what they hold falls by
/// exactly the shortfall whenever any due batch holds something; the state
/// stays consistent; stored batches keep their shares; and reconciling a
/// second time at the same balance changes nothing.
pub proof fn lemma_reconcile_effect(s: StateView, now: u64, actual: nat)
    requires
        can_reconcile_at(s, now, actual),
    ensures
        ({
            let after = after_reconcile(s, now, actual);
            &&& total_shares(after.previous_batches) == total_shares(s.previous_batches)
            &&& expected_received(s, now) > 0 ==> total_unclaimed(after.previous_batches)
                == total_unclaimed(s.previous_batches) - shortfall(s, now, actual)
            &&& expected_received(s, now) == 0 ==> after == s
            &&& consistent(s) ==> consistent(after)
            &&& batches_hold_shares(s.previous_batches) ==> batches_hold_shares(
                after.previous_batches,
            )
            &&& after_reconcile(after, now, actual) == after
        }),
{
    let after = after_reconcile(s, now, actual);
    let b = s.previous_batches;
    let due = matured_batches(b, now);
    if expected_received(s, now) > 0 {
        let updated = reconciled_due(s, now, actual);
        let deficit = shortfall(s, now, actual);
        if actual >= crate::unbond::expected_balance(s, now) {
            crate::batch::lemma_mark_idempotent(due);
        } else {
            lemma_reconcile_deducts_exactly(due, deficit);
        }
        assert(updated.len() == due.len());
        lemma_replaced(b, now, updated, b.len());
        lemma_matured_prefix(b, now, b.len(), b.len());
        let nb = after.previous_batches;
        assert forall|k: int| 0 <= k < b.len() implies {
            &&& (#[trigger] nb[k]).id == b[k].id
            &&& nb[k].total_shares == b[k].total_shares
            &&& !matured(nb[k], now)
        } by {
            lemma_matured_prefix(b, now, k as nat, b.len());
            lemma_matured_prefix(b, now, (k + 1) as nat, b.len());
            if matured(b[k], now) {
                let c = matured_upto(b, now, k as nat).len() as int;
                assert(matured_upto(b, now, (k + 1) as nat)[c] == b[k]);
                assert(due[c] == b[k]);
                assert(updated[c].reconciled);
            }
        }
        if ids_ascending(b) {
            assert forall|x: int, y: int| 0 <= x < y < nb.len() implies (#[trigger] nb[x]).id < (
            #[trigger] nb[y]).id by {
                assert(nb[x].id == b[x].id && nb[y].id == b[y].id);
            }
        }
        lemma_none_matured(nb, now, nb.len());
        assert(matured_batches(nb, now).len() == 0);
        assert(expected_received(after, now) == 0);
    }
}

proof fn lemma_none_matured(b: Seq<Batch>, now: u64, i: nat)
    requires
        i <= b.len(),
        forall|k: int| 0 <= k < b.len() ==> !matured(#[trigger] b[k], now),
    ensures
        matured_upto(b, now, i).len() == 0,
    decreases i,
{
    if i > 0 {
        lemma_none_matured(b, now, (i - 1) as nat);
    }
}

proof fn lemma_withdraw_upto(
    b: Seq<Batch>,
    requests: Seq<UnbondRequestView>,
    user: Seq<char>,
    now: u64,
    i: nat,
    bound: u64,
)
    requires
        i <= requests.len(),
        withdraw_upto(b, requests, user, now, i) is Ok,
    ensures
        total_shares(withdraw_upto(b, requests, user, now, i)->Ok_0.batches) + requested_upto(
            requests,
            i,
        ) == total_shares(b) + total_requested(
            withdraw_upto(b, requests, user, now, i)->Ok_0.requests,
        ),
        total_unclaimed(withdraw_upto(b, requests, user, now, i)->Ok_0.batches) + withdraw_upto(
            b,
            requests,
            user,
            now,
            i,
        )->Ok_0.refund == total_unclaimed(b),
        batches_hold_shares(b) ==> batches_hold_shares(
            withdraw_upto(b, requests, user, now, i)->Ok_0.batches,
        ),
        ids_below(b, bound) ==> ids_below(
            withdraw_upto(b, requests, user, now, i)->Ok_0.batches,
            bound,
        ),
    decreases i,
{
    if i > 0 {
        let h = (i - 1) as nat;
        let prev = withdraw_upto(b, requests, user, now, h);
        assert(prev is Ok);
        lemma_withdraw_upto(b, requests, user, now, h, bound);
        let w0 = prev->Ok_0;
        let req = requests[h as int];
        let w = withdraw_upto(b, requests, user, now, i)->Ok_0;
        assert(withdraw_step(w0, req, user, now) == Ok::<Withdrawal, crate::error::HubError>(w));
        assert(requested_upto(requests, i) == requested_upto(requests, h) + req.shares);
        if !claimable(w0.batches, req, user, now) {
            let nr = w0.requests.push(req);
            lemma_requested_prefix(w0.requests, nr, w0.requests.len());
            assert(w.requests == nr);
            assert(w.batches == w0.batches);
            assert(total_requested(nr) == total_requested(w0.requests) + req.shares);
        } else {
            let p = batch_position(w0.batches, req.id, 0) as int;
            lemma_batch_position(w0.batches, req.id, 0);
            let batch = w0.batches[p];
            let len = w0.batches.len();
            assert(w.requests == w0.requests);
            assert(w.refund == w0.refund + refund_of(batch, req));
            if req.shares == batch.total_shares {
                let nb = w0.batches.remove(p);
                assert(w.batches == nb);
                assert(nb.len() == len - 1);
                lemma_batch_sums_remove(w0.batches, p, nb.len());
                assert(shares_upto(w0.batches, len) == shares_upto(w0.batches, (len - 1) as nat)
                    + w0.batches[len - 1].total_shares);
                assert(unclaimed_upto(w0.batches, len) == unclaimed_upto(
                    w0.batches,
                    (len - 1) as nat,
                ) + w0.batches[len - 1].utoken_unclaimed);
                assert(total_shares(nb) + batch.total_shares == total_shares(w0.batches));
                assert(refund_of(batch, req) == batch.utoken_unclaimed) by {
                    let u = batch.utoken_unclaimed as nat;
                    let t = batch.total_shares as nat;
                    assert((u * t) / t == u) by (nonlinear_arith)
                        requires
                            t > 0,
                    ;
                }
                assert(total_unclaimed(nb) + batch.utoken_unclaimed == total_unclaimed(
                    w0.batches,
                ));
                assert forall|k: int| 0 <= k < nb.len() implies (#[trigger] nb[k]).total_shares > 0
                    || !batches_hold_shares(b) by {
                    if k < p {
                        assert(nb[k] == w0.batches[k]);
                    } else {
                        assert(nb[k] == w0.batches[k + 1]);
                    }
                }
                assert forall|k: int| 0 <= k < nb.len() implies (#[trigger] nb[k]).id < bound
                    || !ids_below(b, bound) by {
                    if k < p {
                        assert(nb[k] == w0.batches[k]);
                    } else {
                        assert(nb[k] == w0.batches[k + 1]);
                    }
                }
            } else {
                let x = batch_after_refund(batch, req);
                let nb = w0.batches.update(p, x);
                assert(w.batches == nb);
                lemma_batch_sums_update(w0.batches, p, x, len);
                assert forall|k: int| 0 <= k < nb.len() implies (#[trigger] nb[k]).total_shares > 0
                    || !batches_hold_shares(b) by {
                    if k != p {
                        assert(nb[k] == w0.batches[k]);
                    }
                }
                assert forall|k: int| 0 <= k < nb.len() implies (#[trigger] nb[k]).id < bound
                    || !ids_below(b, bound) by {
                    if k != p {
                        assert(nb[k] == w0.batches[k]);
                    } else {
                        assert(w0.batches[p].id < bound || !ids_below(b, bound));
                    }
                }
            }
        }
    }
}

proof fn lemma_withdraw_keeps_order(
    b: Seq<Batch>,
    requests: Seq<UnbondRequestView>,
    user: Seq<char>,
    now: u64,
    i: nat,
)
    requires
        i <= requests.len(),
        withdraw_upto(b, requests, user, now, i) is Ok,
    ensures
        ids_ascending(b) ==> ids_ascending(withdraw_upto(b, requests, user, now, i)->Ok_0.batches),
        requests_unique(requests) ==> requests_unique(
            withdraw_upto(b, requests, user, now, i)->Ok_0.requests,
        ),
        forall|p: int|
            0 <= p < withdraw_upto(b, requests, user, now, i)->Ok_0.requests.len() ==> exists|
                k: int,
            |
                0 <= k < i && requests[k] == #[trigger] withdraw_upto(
                    b,
                    requests,
                    user,
                    now,
                    i,
                )->Ok_0.requests[p],
    decreases i,
{
    let w = withdraw_upto(b, requests, user, now, i)->Ok_0;
    if i > 0 {
        let h = (i - 1) as nat;
        let prev = withdraw_upto(b, requests, user, now, h);
        assert(prev is Ok);
        lemma_withdraw_keeps_order(b, requests, user, now, h);
        let w0 = prev->Ok_0;
        let req = requests[h as int];
        assert(withdraw_step(w0, req, user, now) == Ok::<Withdrawal, crate::error::HubError>(w));
        if !claimable(w0.batches, req, user, now) {
            assert(w.batches == w0.batches);
            assert(w.requests == w0.requests.push(req));
            assert forall|p: int| 0 <= p < w.requests.len() implies exists|k: int|
                0 <= k < i && requests[k] == #[trigger] w.requests[p] by {
                if p < w0.requests.len() {
                    assert(w.requests[p] == w0.requests[p]);
                    let k = choose|k: int| 0 <= k < h && requests[k] == w0.requests[p];
                    assert(0 <= k < i && requests[k] == w.requests[p]);
                } else {
                    assert(requests[h as int] == w.requests[p]);
                }
            }
            if requests_unique(requests) {
                assert forall|x: int, y: int| 0 <= x < y < w.requests.len() implies !((
                #[trigger] w.requests[x]).id == (#[trigger] w.requests[y]).id && w.requests[x].user
                    == w.requests[y].user) by {
                    if y < w0.requests.len() {
                        assert(w.requests[x] == w0.requests[x] && w.requests[y] == w0.requests[y]);
                    } else {
                        assert(w.requests[x] == w0.requests[x]);
                        let k = choose|k: int| 0 <= k < h && requests[k] == w0.requests[x];
                        assert(!(requests[k].id == requests[h as int].id && requests[k].user
                            == requests[h as int].user));
                    }
                }
            }
        } else {
            let p = batch_position(w0.batches, req.id, 0) as int;
            lemma_batch_position(w0.batches, req.id, 0);
            let batch = w0.batches[p];
            assert(w.requests == w0.requests);
            assert forall|q: int| 0 <= q < w.requests.len() implies exists|k: int|
                0 <= k < i && requests[k] == #[trigger] w.requests[q] by {
                let k = choose|k: int| 0 <= k < h && requests[k] == w0.requests[q];
                assert(0 <= k < i && requests[k] == w.requests[q]);
            }
            if ids_ascending(b) {
                let nb = w.batches;
                assert forall|x: int, y: int| 0 <= x < y < nb.len() implies (#[trigger] nb[x]).id
                    < (#[trigger] nb[y]).id by {
                    if req.shares == batch.total_shares {
                        let x0 = if x < p {
                            x
                        } else {
                            x + 1
                        };
                        let y0 = if y < p {
                            y
                        } else {
                            y + 1
                        };
                        assert(nb[x] == w0.batches[x0] && nb[y] == w0.batches[y0]);
                        assert(w0.batches[x0].id < w0.batches[y0].id);
                    } else {
                        assert(nb[x].id == w0.batches[x].id);
                        assert(nb[y].id == w0.batches[y].id);
                    }
                }
            }
        }
    }
}

/// A withdrawal takes the same shares out of the requests and out of the
/// batches, pays out exactly what the batches give up, leaves every batch
/// it keeps with shares if all had some before, and keeps the state
/// consistent.
pub proof fn lemma_withdraw_effect(s: StateView, user: Seq<char>, now: u64)
    requires
        withdrawal(s, user, now) is Ok,
    ensures
        ({
            let w = withdrawal(s, user, now)->Ok_0;
            let after = StateView { previous_batches: w.batches, unbond_requests: w.requests, ..s };
            &&& total_shares(w.batches) + total_requested(s.unbond_requests) == total_shares(
                s.previous_batches,
            ) + total_requested(w.requests)
            &&& total_unclaimed(w.batches) + w.refund == total_unclaimed(s.previous_batches)
            &&& batches_hold_shares(s.previous_batches) ==> batches_hold_shares(w.batches)
            &&& consistent(s) ==> consistent(after)
        }),
{
    lemma_withdraw_upto(
        s.previous_batches,
        s.unbond_requests,
        user,
        now,
        s.unbond_requests.len(),
        s.pending_batch.id,
    );
    lemma_withdraw_keeps_order(
        s.previous_batches,
        s.unbond_requests,
        user,
        now,
        s.unbond_requests.len(),
    );
}

} // verus!
