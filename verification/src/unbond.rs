use vstd::prelude::*;
use crate::batch::{
    can_reconcile, mark_reconciled_batches, marked_batches, reconcile_batches,
    reconciled_batches, sum_unclaimed, total_unclaimed,
};
use crate::coins::amount_of;
use crate::error::HubError;
use crate::execute::snapshot_msg;
use crate::invariants::{
    batches_hold_shares, consistent, lemma_queue_adds_shares, lemma_reconcile_effect, lemma_submit_keeps_shares,
    lemma_withdraw_effect,
};
use crate::leveling::undelegations_upto;
use crate::math::{
    compute_unbond_amount, compute_undelegations, stake_views, total_staked, unbond_amount,
    undelegation_views,
};
use crate::msg::{
    msg_views, Action, Env, HubEvent, HubEventView, HubMsg, HubMsgView, Response, ResponseView,
};
use crate::state::{
    batch_position, find_batch, find_request, request_position, request_views, State, StateView,
};
use crate::types::{
    contract_denom, Batch, Coin, Delegation, PendingBatch, StakeView, UnbondRequest,
    UnbondRequestView, Undelegation, CONTRACT_DENOM,
};

verus! {

/// The shares a user has queued in a batch so far.
pub open spec fn queued_shares(r: Seq<UnbondRequestView>, id: u64, user: Seq<char>) -> nat {
    let p = request_position(r, id, user, 0);
    if p < r.len() {
        r[p as int].shares
    } else {
        0
    }
}

/// The requests after `shares` have been queued: they go to the user's
/// request in that batch, or a new request is appended.
pub open spec fn with_shares_queued(
    r: Seq<UnbondRequestView>,
    id: u64,
    user: Seq<char>,
    shares: nat,
) -> Seq<UnbondRequestView> {
    let p = request_position(r, id, user, 0);
    if p < r.len() {
        r.update(p as int, UnbondRequestView { id, user, shares: r[p as int].shares + shares })
    } else {
        r.push(UnbondRequestView { id, user, shares })
    }
}

/// Adds `ustake_to_burn` shares of `receiver` to the pending batch, and asks
/// for the batch to be submitted at once if its time has come.
///
/// Fails with `Overflow`, leaving the state as it was, exactly when the
/// shares of the batch or of the user in it leave the 128-bit range.
pub fn queue_unbond(state: &mut State, env: &Env, receiver: String, ustake_to_burn: u128) -> (r:
    Result<Response, HubError>)
    ensures
        r is Ok <==> old(state)@.pending_batch.ustake_to_burn + ustake_to_burn <= u128::MAX
            && queued_shares(
            old(state)@.unbond_requests,
            old(state)@.pending_batch.id,
            receiver@,
        ) + ustake_to_burn <= u128::MAX,
        r matches Ok(resp) ==> {
            let pending = old(state)@.pending_batch;
            let due = env.time >= pending.est_unbond_start_time;
            &&& final(state)@ == (StateView {
                pending_batch: PendingBatch {
                    id: pending.id,
                    ustake_to_burn: (pending.ustake_to_burn + ustake_to_burn) as u128,
                    est_unbond_start_time: pending.est_unbond_start_time,
                },
                unbond_requests: with_shares_queued(
                    old(state)@.unbond_requests,
                    pending.id,
                    receiver@,
                    ustake_to_burn as nat,
                ),
                ..old(state)@
            })
            &&& resp@ == (ResponseView {
                messages: if due {
                    seq![HubMsgView::SubmitBatch]
                } else {
                    Seq::empty()
                },
                event: Some(
                    HubEventView::UnbondQueued {
                        time: env.time,
                        est_unbond_start_time: if due {
                            None
                        } else {
                            Some(pending.est_unbond_start_time)
                        },
                        height: env.height,
                        id: pending.id,
                        receiver: receiver@,
                        ustake_to_burn: ustake_to_burn as nat,
                    },
                ),
                action: Some(Action::QueueUnbond),
            })
        },
        r is Ok && consistent(old(state)@) ==> consistent(final(state)@),
        r is Err ==> *final(state) == *old(state),
        r matches Err(e) ==> e == HubError::Overflow,
{
    let pending: PendingBatch = state.pending_batch;
    let new_total: u128 = match pending.ustake_to_burn.checked_add(ustake_to_burn) {
        Some(t) => t,
        None => {
            return Err(HubError::Overflow);
        },
    };
    let p: usize = find_request(&state.unbond_requests, pending.id, &receiver);
    let ghost before = request_views(state.unbond_requests@);
    if p < state.unbond_requests.len() {
        let shares: u128 = match state.unbond_requests[p].shares.checked_add(ustake_to_burn) {
            Some(s) => s,
            None => {
                return Err(HubError::Overflow);
            },
        };
        state.unbond_requests.set(
            p,
            UnbondRequest { id: pending.id, user: receiver.clone(), shares },
        );
    } else {
        state.unbond_requests.push(
            UnbondRequest { id: pending.id, user: receiver.clone(), shares: ustake_to_burn },
        );
    }
    assert(request_views(state.unbond_requests@) =~= with_shares_queued(
        before,
        pending.id,
        receiver@,
        ustake_to_burn as nat,
    ));
    proof {
        lemma_queue_adds_shares(before, pending.id, receiver@, ustake_to_burn as nat);
    }
    state.pending_batch =
    PendingBatch {
        id: pending.id,
        ustake_to_burn: new_total,
        est_unbond_start_time: pending.est_unbond_start_time,
    };
    let due: bool = env.time >= pending.est_unbond_start_time;
    let mut resp = Response::new();
    if due {
        resp = resp.add_message(HubMsg::SubmitBatch);
    }
    let event = HubEvent::UnbondQueued {
        time: env.time,
        est_unbond_start_time: if due {
            None
        } else {
            Some(pending.est_unbond_start_time)
        },
        height: env.height,
        id: pending.id,
        receiver,
        ustake_to_burn,
    };
    let resp = resp.add_event(event).add_action(Action::QueueUnbond);
    assert(resp@.messages =~= if due {
        seq![HubMsgView::SubmitBatch]
    } else {
        Seq::empty()
    });
    Ok(resp)
}

/// The batches after one has been stored under its identifier: it replaces
/// the batch that has the identifier, or is appended.
pub open spec fn with_batch_saved(b: Seq<Batch>, batch: Batch) -> Seq<Batch> {
    let p = batch_position(b, batch.id, 0);
    if p < b.len() {
        b.update(p as int, batch)
    } else {
        b.push(batch)
    }
}

/// The undelegation messages for a list of undelegations.
pub open spec fn undelegate_msgs(u: Seq<StakeView>) -> Seq<HubMsgView> {
    u.map_values(|x: StakeView| HubMsgView::Undelegate { validator: x.validator, amount: x.amount })
}

/// What submitting the pending batch at `now` releases from the
/// delegations, when it can be computed: the pro-rata value of its shares.
pub open spec fn submit_unbonds(s: StateView, d: Seq<StakeView>, supply: nat) -> nat {
    unbond_amount(supply, s.pending_batch.ustake_to_burn as nat, total_staked(d))
}

/// Whether the pending batch can be submitted at `now`.
pub open spec fn can_submit(s: StateView, now: u64, d: Seq<StakeView>, supply: nat) -> bool {
    &&& s.stake_token is Some
    &&& now >= s.pending_batch.est_unbond_start_time
    &&& d.len() > 0
    &&& total_staked(d) <= u128::MAX
    &&& submit_unbonds(s, d, supply) <= total_staked(d)
    &&& now + s.unbond_period <= u64::MAX
    &&& now + s.epoch_period <= u64::MAX
    &&& s.pending_batch.id < u64::MAX
}

/// The state after the pending batch has been submitted at `now`.
pub open spec fn after_submit(s: StateView, now: u64, d: Seq<StakeView>, supply: nat) -> StateView {
    StateView {
        pending_batch: PendingBatch {
            id: (s.pending_batch.id + 1) as u64,
            ustake_to_burn: 0,
            est_unbond_start_time: (now + s.epoch_period) as u64,
        },
        previous_batches: with_batch_saved(
            s.previous_batches,
            Batch {
                id: s.pending_batch.id,
                reconciled: false,
                total_shares: s.pending_batch.ustake_to_burn,
                utoken_unclaimed: submit_unbonds(s, d, supply) as u128,
                est_unbond_end_time: (now + s.unbond_period) as u64,
            },
        ),
        ..s
    }
}

/// Submits the pending batch: its shares are valued at the current rate,
/// that value is undelegated from the largest delegations so that what
/// stays bonded is as even as possible, the batch is archived, a new
/// pending batch is opened, and the shares are burnt.
///
/// Fails, leaving the state as it was: with `StakeTokenNotSet` before the
/// token is registered; with `BatchNotReady` before the batch's time has
/// come; with `NoValidators` when there is no delegation to draw on; and
/// with `Overflow` when a quantity leaves its range or the value of the
/// shares exceeds what is bonded.
pub fn submit_batch(
    state: &mut State,
    env: &Env,
    delegations: &Vec<Delegation>,
    ustake_supply: u128,
    utoken_balance: u128,
) -> (r: Result<Response, HubError>)
    ensures
        r is Ok <==> can_submit(
            old(state)@,
            env.time,
            stake_views(delegations@),
            ustake_supply as nat,
        ),
        r matches Ok(resp) ==> {
            let d = stake_views(delegations@);
            let pending = old(state)@.pending_batch;
            let unbonds = submit_unbonds(old(state)@, d, ustake_supply as nat);
            &&& final(state)@ == after_submit(old(state)@, env.time, d, ustake_supply as nat)
            &&& resp@ == (ResponseView {
                messages: undelegate_msgs(undelegations_upto(d, unbonds, d.len())) + seq![
                    HubMsgView::Burn { amount: pending.ustake_to_burn as nat },
                    snapshot_msg(utoken_balance as nat),
                ],
                event: Some(
                    HubEventView::UnbondSubmitted {
                        time: env.time,
                        height: env.height,
                        id: pending.id,
                        utoken_unbonded: unbonds,
                        ustake_burned: pending.ustake_to_burn as nat,
                    },
                ),
                action: Some(Action::Unbond),
            })
        },
        r is Ok && consistent(old(state)@) ==> consistent(final(state)@),
        r is Ok && consistent(old(state)@) && batches_hold_shares(old(state)@.previous_batches)
            && old(state)@.pending_batch.ustake_to_burn > 0 ==> batches_hold_shares(
            final(state)@.previous_batches,
        ),
        r is Err ==> *final(state) == *old(state),
        r matches Err(e) ==> e == if old(state)@.stake_token is None {
            HubError::StakeTokenNotSet
        } else if env.time < old(state)@.pending_batch.est_unbond_start_time {
            HubError::BatchNotReady { earliest: old(state)@.pending_batch.est_unbond_start_time }
        } else if delegations@.len() == 0 {
            HubError::NoValidators
        } else {
            HubError::Overflow
        },
{
    if state.stake_token.is_none() {
        return Err(HubError::StakeTokenNotSet);
    }
    let pending: PendingBatch = state.pending_batch;
    let current_time: u64 = env.time;
    if current_time < pending.est_unbond_start_time {
        return Err(HubError::BatchNotReady { earliest: pending.est_unbond_start_time });
    }
    let utoken_to_unbond: u128 = match compute_unbond_amount(
        ustake_supply,
        pending.ustake_to_burn,
        delegations,
    ) {
        Ok(u) => u,
        Err(e) => {
            proof {
                let shares = pending.ustake_to_burn as nat;
                let supply = ustake_supply as nat;
                if delegations@.len() == 0 {
                    assert(total_staked(stake_views(delegations@)) == 0);
                    if supply > 0 {
                        assert((shares * 0nat) / supply == 0) by (nonlinear_arith)
                            requires
                                supply > 0,
                        ;
                    }
                    assert(false);
                }
            }
            return Err(e);
        },
    };
    let new_undelegations: Vec<Undelegation> = match compute_undelegations(
        utoken_to_unbond,
        delegations,
    ) {
        Ok(u) => u,
        Err(e) => {
            return Err(e);
        },
    };
    let est_unbond_end_time: u64 = match current_time.checked_add(state.unbond_period) {
        Some(t) => t,
        None => {
            return Err(HubError::Overflow);
        },
    };
    let est_unbond_start_time: u64 = match current_time.checked_add(state.epoch_period) {
        Some(t) => t,
        None => {
            return Err(HubError::Overflow);
        },
    };
    if pending.id == u64::MAX {
        return Err(HubError::Overflow);
    }
    let batch = Batch {
        id: pending.id,
        reconciled: false,
        total_shares: pending.ustake_to_burn,
        utoken_unclaimed: utoken_to_unbond,
        est_unbond_end_time,
    };
    let p: usize = find_batch(&state.previous_batches, pending.id);
    if p < state.previous_batches.len() {
        state.previous_batches.set(p, batch);
    } else {
        state.previous_batches.push(batch);
    }
    state.pending_batch =
    PendingBatch { id: pending.id + 1, ustake_to_burn: 0, est_unbond_start_time };

    let ghost planned = undelegation_views(new_undelegations@);
    let mut undelegate: Vec<HubMsg> = Vec::new();
    let mut i: usize = 0;
    while i < new_undelegations.len()
        invariant
            i <= new_undelegations@.len(),
            planned == undelegation_views(new_undelegations@),
            undelegate@.len() == i,
            msg_views(undelegate@) == undelegate_msgs(planned.take(i as int)),
        decreases new_undelegations@.len() - i,
    {
        let ghost before = undelegate@;
        let msg: HubMsg = new_undelegations[i].to_msg();
        undelegate.push(msg);
        proof {
            let now = msg_views(undelegate@);
            let want = undelegate_msgs(planned.take(i + 1));
            assert(planned[i as int] == new_undelegations@[i as int]@);
            assert forall|k: int| 0 <= k < now.len() implies now[k] == want[k] by {
                if k < i {
                    assert(now[k] == msg_views(before)[k]);
                    assert(planned.take(i as int)[k] == planned.take(i + 1)[k]);
                }
            }
            assert(now =~= want);
        }
        i += 1;
    }
    assert(planned.take(planned.len() as int) =~= planned);
    let snapshot = HubMsg::CheckReceivedCoin {
        snapshot: Coin { denom: CONTRACT_DENOM.to_owned(), amount: utoken_balance },
    };
    let event = HubEvent::UnbondSubmitted {
        time: env.time,
        height: env.height,
        id: pending.id,
        utoken_unbonded: utoken_to_unbond,
        ustake_burned: pending.ustake_to_burn,
    };
    let resp = Response::new().add_messages(undelegate).add_message(
        HubMsg::Burn { amount: pending.ustake_to_burn },
    ).add_message(snapshot).add_event(event).add_action(Action::Unbond);
    assert(resp@.messages =~= undelegate_msgs(planned) + seq![
        HubMsgView::Burn { amount: pending.ustake_to_burn as nat },
        snapshot_msg(utoken_balance as nat),
    ]);
    proof {
        if consistent(old(state)@) {
            lemma_submit_keeps_shares(
                old(state)@,
                env.time,
                stake_views(delegations@),
                ustake_supply as nat,
            );
        }
    }
    Ok(resp)
}

/// Whether a batch is due for reconciliation at `now`: it has not been
/// reconciled and its unbonding has ended.
pub open spec fn matured(b: Batch, now: u64) -> bool {
    !b.reconciled && now > b.est_unbond_end_time
}

/// Those of the first `i` batches that are due for reconciliation, in order.
pub open spec fn matured_upto(b: Seq<Batch>, now: u64, i: nat) -> Seq<Batch>
    decreases i,
{
    if i == 0 {
        Seq::empty()
    } else {
        let before = matured_upto(b, now, (i - 1) as nat);
        if matured(b[i - 1], now) {
            before.push(b[i - 1])
        } else {
            before
        }
    }
}

/// The batches that are due for reconciliation, in order.
pub open spec fn matured_batches(b: Seq<Batch>, now: u64) -> Seq<Batch> {
    matured_upto(b, now, b.len())
}

/// The first `i` batches, each one that is due replaced by the next entry
/// of `updated`.
pub open spec fn with_matured_replaced_upto(
    b: Seq<Batch>,
    now: u64,
    updated: Seq<Batch>,
    i: nat,
) -> Seq<Batch>
    decreases i,
{
    if i == 0 {
        Seq::empty()
    } else {
        let before = with_matured_replaced_upto(b, now, updated, (i - 1) as nat);
        if matured(b[i - 1], now) {
            before.push(updated[matured_upto(b, now, (i - 1) as nat).len() as int])
        } else {
            before.push(b[i - 1])
        }
    }
}

/// The identifiers of a list of batches.
pub open spec fn batch_ids(b: Seq<Batch>) -> Seq<u64> {
    b.map_values(|x: Batch| x.id)
}

/// What the batches due at `now` are expected to have released.
pub open spec fn expected_received(s: StateView, now: u64) -> nat {
    total_unclaimed(matured_batches(s.previous_batches, now))
}

/// What the hub's balance is expected to be at least: what the due batches
/// released and what the ledger holds of the bondable denomination.
pub open spec fn expected_balance(s: StateView, now: u64) -> nat {
    expected_received(s, now) + amount_of(s.unlocked_coins, contract_denom())
}

/// How far the actual balance falls short of the expected one.
pub open spec fn shortfall(s: StateView, now: u64, actual: nat) -> nat {
    if actual >= expected_balance(s, now) {
        0
    } else {
        (expected_balance(s, now) - actual) as nat
    }
}

/// The due batches after reconciliation against the actual balance.
pub open spec fn reconciled_due(s: StateView, now: u64, actual: nat) -> Seq<Batch> {
    let due = matured_batches(s.previous_batches, now);
    if actual >= expected_balance(s, now) {
        marked_batches(due)
    } else {
        reconciled_batches(due, shortfall(s, now, actual))
    }
}

/// Whether reconciliation at `now` against the actual balance goes through.
pub open spec fn can_reconcile_at(s: StateView, now: u64, actual: nat) -> bool {
    &&& expected_received(s, now) <= u128::MAX
    &&& expected_received(s, now) > 0 ==> {
        &&& expected_balance(s, now) <= u128::MAX
        &&& actual < expected_balance(s, now) ==> can_reconcile(
            matured_batches(s.previous_batches, now),
            shortfall(s, now, actual),
        )
    }
}

/// The state after reconciliation at `now` against the actual balance.
pub open spec fn after_reconcile(s: StateView, now: u64, actual: nat) -> StateView {
    if expected_received(s, now) == 0 {
        s
    } else {
        StateView {
            previous_batches: with_matured_replaced_upto(
                s.previous_batches,
                now,
                reconciled_due(s, now, actual),
                s.previous_batches.len(),
            ),
            ..s
        }
    }
}

proof fn lemma_matured_upto_len(b: Seq<Batch>, now: u64, i: nat, j: nat)
    requires
        i <= j,
    ensures
        matured_upto(b, now, i).len() <= matured_upto(b, now, j).len(),
        matured_upto(b, now, i).len() <= i,
    decreases j,
{
    if i < j {
        lemma_matured_upto_len(b, now, i, (j - 1) as nat);
    } else if i > 0 {
        lemma_matured_upto_len(b, now, (i - 1) as nat, (i - 1) as nat);
    }
}

/// Compares what the batches whose unbonding has ended should have released
/// with the hub's actual balance, deducts any shortfall from those batches,
/// and flags them as reconciled. Does nothing when no batch is due or the
/// due batches hold nothing.
///
/// Fails, leaving the state as it was, with `Overflow` when an expected
/// amount leaves the 128-bit range or a batch would be asked for more than
/// it holds.
pub fn reconcile(state: &mut State, env: &Env, utoken_actual: u128) -> (r: Result<
    Response,
    HubError,
>)
    ensures
        r is Ok <==> can_reconcile_at(old(state)@, env.time, utoken_actual as nat),
        r matches Ok(resp) ==> {
            &&& final(state)@ == after_reconcile(old(state)@, env.time, utoken_actual as nat)
            &&& resp@ == if expected_received(old(state)@, env.time) == 0 {
                ResponseView { messages: Seq::empty(), event: None, action: None }
            } else {
                ResponseView {
                    messages: Seq::empty(),
                    event: Some(
                        HubEventView::Reconciled {
                            ids: batch_ids(
                                matured_batches(old(state)@.previous_batches, env.time),
                            ),
                            utoken_deducted: shortfall(
                                old(state)@,
                                env.time,
                                utoken_actual as nat,
                            ),
                        },
                    ),
                    action: Some(Action::Reconcile),
                }
            }
        },
        r is Ok && consistent(old(state)@) ==> consistent(final(state)@),
        r is Ok && batches_hold_shares(old(state)@.previous_batches) ==> batches_hold_shares(
            final(state)@.previous_batches,
        ),
        r is Err ==> *final(state) == *old(state),
        r matches Err(e) ==> e == HubError::Overflow,
{
    let now: u64 = env.time;
    let ghost b = state.previous_batches@;
    let n: usize = state.previous_batches.len();
    let mut batches: Vec<Batch> = Vec::new();
    let mut ids: Vec<u64> = Vec::new();
    let mut i: usize = 0;
    while i < n
        invariant
            i <= n,
            n == b.len(),
            *state == *old(state),
            b == state.previous_batches@,
            batches@ == matured_upto(b, now, i as nat),
            ids@ == batch_ids(batches@),
        decreases n - i,
    {
        let batch: Batch = state.previous_batches[i];
        if !batch.reconciled && now > batch.est_unbond_end_time {
            let ghost before = batches@;
            batches.push(batch);
            ids.push(batch.id);
            assert(ids@ =~= batch_ids(batches@));
        }
        i += 1;
    }
    let ghost due = batches@;
    let utoken_expected_received: u128 = match sum_unclaimed(&batches) {
        Some(t) => t,
        None => {
            return Err(HubError::Overflow);
        },
    };
    if utoken_expected_received == 0 {
        return Ok(Response::new());
    }
    let utoken_expected_unlocked: u128 = state.unlocked_coins.find(CONTRACT_DENOM).amount;
    let utoken_expected: u128 = match utoken_expected_received.checked_add(
        utoken_expected_unlocked,
    ) {
        Some(t) => t,
        None => {
            return Err(HubError::Overflow);
        },
    };
    let utoken_to_deduct: u128 = if utoken_actual >= utoken_expected {
        mark_reconciled_batches(&mut batches);
        0
    } else {
        let deficit: u128 = utoken_expected - utoken_actual;
        match reconcile_batches(&mut batches, deficit) {
            Ok(()) => {},
            Err(e) => {
                return Err(HubError::Overflow);
            },
        }
        deficit
    };
    let ghost updated = batches@;
    assert(updated == reconciled_due(old(state)@, now, utoken_actual as nat));
    assert(updated.len() == due.len());
    let mut out: Vec<Batch> = Vec::new();
    let mut taken: usize = 0;
    let mut k: usize = 0;
    while k < n
        invariant
            k <= n,
            n == b.len(),
            *state == *old(state),
            b == state.previous_batches@,
            updated == batches@,
            updated.len() == matured_upto(b, now, n as nat).len(),
            taken == matured_upto(b, now, k as nat).len(),
            out@ == with_matured_replaced_upto(b, now, updated, k as nat),
        decreases n - k,
    {
        let batch: Batch = state.previous_batches[k];
        proof {
            lemma_matured_upto_len(b, now, (k + 1) as nat, n as nat);
            lemma_matured_upto_len(b, now, k as nat, k as nat);
        }
        if !batch.reconciled && now > batch.est_unbond_end_time {
            out.push(batches[taken]);
            taken += 1;
        } else {
            out.push(batch);
        }
        k += 1;
    }
    state.previous_batches = out;
    proof {
        lemma_reconcile_effect(old(state)@, now, utoken_actual as nat);
    }
    let event = HubEvent::Reconciled { ids, utoken_deducted: utoken_to_deduct };
    Ok(Response::new().add_event(event).add_action(Action::Reconcile))
}

/// A request for all the shares of a batch is refunded all the batch holds.
pub proof fn lemma_sole_request_takes_all(batch: Batch, req: UnbondRequestView)
    requires
        batch.total_shares > 0,
        req.shares == batch.total_shares,
    ensures
        refund_of(batch, req) == batch.utoken_unclaimed,
{
    let u = batch.utoken_unclaimed as nat;
    let t = batch.total_shares as nat;
    assert((u * t) / t == u) by (nonlinear_arith)
        requires
            t > 0,
    ;
}

/// A refund never exceeds what the batch holds, as long as the request has
/// no more shares than the batch.
pub proof fn lemma_refund_within_batch(batch: Batch, req: UnbondRequestView)
    requires
        batch.total_shares > 0,
        req.shares <= batch.total_shares,
    ensures
        refund_of(batch, req) <= batch.utoken_unclaimed,
{
    let u = batch.utoken_unclaimed as nat;
    let t = batch.total_shares as nat;
    let s = req.shares;
    assert((u * s) / t <= u) by (nonlinear_arith)
        requires
            t > 0,
            s <= t,
            u >= 0,
            s >= 0,
    ;
}

/// How far a withdrawal has come: the batches and requests as they stand,
/// what is owed to the user so far, and the batches it was taken from.
pub ghost struct Withdrawal {
    pub batches: Seq<Batch>,
    pub requests: Seq<UnbondRequestView>,
    pub refund: nat,
    pub ids: Seq<u64>,
}

/// Whether a request can be paid out to `user` at `now`: it is the user's,
/// its batch is still stored, has been reconciled, and has finished
/// unbonding.
pub open spec fn claimable(b: Seq<Batch>, req: UnbondRequestView, user: Seq<char>, now: u64) -> bool {
    let p = batch_position(b, req.id, 0);
    &&& req.user == user
    &&& p < b.len()
    &&& b[p as int].reconciled
    &&& b[p as int].est_unbond_end_time < now
}

/// The share of what a batch holds that falls to a request, rounded down.
pub open spec fn refund_of(batch: Batch, req: UnbondRequestView) -> nat {
    ((batch.utoken_unclaimed as nat) * req.shares) / (batch.total_shares as nat)
}

/// A batch after a request has been paid out of it.
pub open spec fn batch_after_refund(batch: Batch, req: UnbondRequestView) -> Batch {
    Batch {
        id: batch.id,
        reconciled: batch.reconciled,
        total_shares: (batch.total_shares - req.shares) as u128,
        utoken_unclaimed: (batch.utoken_unclaimed - refund_of(batch, req)) as u128,
        est_unbond_end_time: batch.est_unbond_end_time,
    }
}

/// One request handled: a request that cannot be paid out is kept as it
/// is; otherwise its pro-rata refund is added to what is owed, the batch
/// gives up the request's shares and the refund, a batch left without
/// shares is dropped, and the request is dropped.
pub open spec fn withdraw_step(w: Withdrawal, req: UnbondRequestView, user: Seq<char>, now: u64) -> Result<
    Withdrawal,
    HubError,
> {
    if !claimable(w.batches, req, user, now) {
        Ok(Withdrawal { requests: w.requests.push(req), ..w })
    } else {
        let p = batch_position(w.batches, req.id, 0) as int;
        let batch = w.batches[p];
        if batch.total_shares == 0 {
            Err(HubError::DivideByZero)
        } else if refund_of(batch, req) > batch.utoken_unclaimed || req.shares
            > batch.total_shares || w.refund + refund_of(batch, req) > u128::MAX {
            Err(HubError::Overflow)
        } else {
            Ok(
                Withdrawal {
                    batches: if req.shares == batch.total_shares {
                        w.batches.remove(p)
                    } else {
                        w.batches.update(p, batch_after_refund(batch, req))
                    },
                    requests: w.requests,
                    refund: w.refund + refund_of(batch, req),
                    ids: w.ids.push(req.id),
                },
            )
        }
    }
}

/// The first `i` requests handled in order, starting from the batches `b`;
/// the first failure ends the withdrawal.
pub open spec fn withdraw_upto(
    b: Seq<Batch>,
    requests: Seq<UnbondRequestView>,
    user: Seq<char>,
    now: u64,
    i: nat,
) -> Result<Withdrawal, HubError>
    decreases i,
{
    if i == 0 {
        Ok(Withdrawal { batches: b, requests: Seq::empty(), refund: 0, ids: Seq::empty() })
    } else {
        match withdraw_upto(b, requests, user, now, (i - 1) as nat) {
            Ok(w) => withdraw_step(w, requests[i - 1], user, now),
            Err(e) => Err(e),
        }
    }
}

/// The whole withdrawal of `user` from state `s` at `now`.
pub open spec fn withdrawal(s: StateView, user: Seq<char>, now: u64) -> Result<Withdrawal, HubError> {
    withdraw_upto(s.previous_batches, s.unbond_requests, user, now, s.unbond_requests.len())
}

proof fn lemma_withdraw_failure_stays(
    b: Seq<Batch>,
    requests: Seq<UnbondRequestView>,
    user: Seq<char>,
    now: u64,
    i: nat,
    j: nat,
)
    requires
        i <= j,
        withdraw_upto(b, requests, user, now, i) is Err,
    ensures
        withdraw_upto(b, requests, user, now, j) == withdraw_upto(b, requests, user, now, i),
    decreases j,
{
    if i < j {
        lemma_withdraw_failure_stays(b, requests, user, now, i, (j - 1) as nat);
    }
}

fn copy_batches(batches: &Vec<Batch>) -> (r: Vec<Batch>)
    ensures
        r@ == batches@,
{
    let mut out: Vec<Batch> = Vec::new();
    let mut i: usize = 0;
    while i < batches.len()
        invariant
            i <= batches.len(),
            out@ == batches@.take(i as int),
        decreases batches.len() - i,
    {
        out.push(batches[i]);
        assert(out@ =~= batches@.take(i + 1));
        i += 1;
    }
    assert(batches@.take(batches@.len() as int) =~= batches@);
    out
}

/// Pays out to `receiver` every request of `user` whose batch has been
/// reconciled and has finished unbonding: each gets its pro-rata share of
/// what the batch holds, rounded down; batches left without shares and the
/// requests paid out are dropped.
///
/// Fails, leaving the state as it was: with `NothingToWithdraw` when
/// nothing is owed; with `DivideByZero` when a batch to pay from has no
/// shares; and with `Overflow` when a request claims more than its batch
/// has or the refund leaves the 128-bit range.
pub fn withdraw_unbonded(state: &mut State, env: &Env, user: String, receiver: String) -> (r:
    Result<Response, HubError>)
    ensures
        r is Ok <==> (withdrawal(old(state)@, user@, env.time) matches Ok(w) && w.refund > 0),
        r matches Ok(resp) ==> {
            let w = withdrawal(old(state)@, user@, env.time)->Ok_0;
            &&& final(state)@ == (StateView {
                previous_batches: w.batches,
                unbond_requests: w.requests,
                ..old(state)@
            })
            &&& resp@ == (ResponseView {
                messages: seq![HubMsgView::Send { to_address: receiver@, amount: w.refund }],
                event: Some(
                    HubEventView::UnbondedWithdrawn {
                        time: env.time,
                        height: env.height,
                        ids: w.ids,
                        user: user@,
                        receiver: receiver@,
                        utoken_refunded: w.refund,
                    },
                ),
                action: Some(Action::WithdrawUnbonded),
            })
        },
        r is Ok && consistent(old(state)@) ==> consistent(final(state)@),
        r is Ok && batches_hold_shares(old(state)@.previous_batches) ==> batches_hold_shares(
            final(state)@.previous_batches,
        ),
        r is Err ==> *final(state) == *old(state),
        r matches Err(e) ==> e == match withdrawal(old(state)@, user@, env.time) {
            Ok(_) => HubError::NothingToWithdraw,
            Err(failure) => failure,
        },
{
    let now: u64 = env.time;
    let ghost b = state.previous_batches@;
    let ghost reqs = request_views(state.unbond_requests@);
    let n: usize = state.unbond_requests.len();
    let mut batches: Vec<Batch> = copy_batches(&state.previous_batches);
    let mut kept: Vec<UnbondRequest> = Vec::new();
    let mut total_utoken_to_refund: u128 = 0;
    let mut ids: Vec<u64> = Vec::new();
    let mut i: usize = 0;
    assert(request_views(kept@) =~= Seq::<UnbondRequestView>::empty());
    while i < n
        invariant
            i <= n,
            n == reqs.len(),
            now == env.time,
            *state == *old(state),
            b == state.previous_batches@,
            reqs == request_views(state.unbond_requests@),
            withdraw_upto(b, reqs, user@, now, i as nat) == Ok::<Withdrawal, HubError>(
                Withdrawal {
                    batches: batches@,
                    requests: request_views(kept@),
                    refund: total_utoken_to_refund as nat,
                    ids: ids@,
                },
            ),
        decreases n - i,
    {
        let ghost w = Withdrawal {
            batches: batches@,
            requests: request_views(kept@),
            refund: total_utoken_to_refund as nat,
            ids: ids@,
        };
        let ghost req = reqs[i as int];
        let id: u64 = state.unbond_requests[i].id;
        let shares: u128 = state.unbond_requests[i].shares;
        let mine: bool = state.unbond_requests[i].user == user;
        let p: usize = find_batch(&batches, id);
        let mut paid: bool = false;
        if mine && p < batches.len() {
            let batch: Batch = batches[p];
            if batch.reconciled && batch.est_unbond_end_time < now {
                assert(claimable(w.batches, req, user@, now));
                let utoken_to_refund: u128 = match crate::ratio::multiply_ratio(
                    batch.utoken_unclaimed,
                    shares,
                    batch.total_shares,
                ) {
                    Some(x) => x,
                    None => {
                        proof {
                            assert(withdraw_step(w, req, user@, now) is Err);
                            lemma_withdraw_failure_stays(
                                b,
                                reqs,
                                user@,
                                now,
                                (i + 1) as nat,
                                n as nat,
                            );
                        }
                        if batch.total_shares == 0 {
                            return Err(HubError::DivideByZero);
                        } else {
                            return Err(HubError::Overflow);
                        }
                    },
                };
                assert(utoken_to_refund == refund_of(batch, req));
                let new_total: Option<u128> = total_utoken_to_refund.checked_add(
                    utoken_to_refund,
                );
                if utoken_to_refund > batch.utoken_unclaimed || shares > batch.total_shares
                    || new_total.is_none() {
                    proof {
                        assert(withdraw_step(w, req, user@, now) == Err::<Withdrawal, HubError>(
                            HubError::Overflow,
                        ));
                        lemma_withdraw_failure_stays(b, reqs, user@, now, (i + 1) as nat, n as nat);
                    }
                    return Err(HubError::Overflow);
                }
                total_utoken_to_refund = new_total.unwrap();
                ids.push(id);
                if shares == batch.total_shares {
                    batches.remove(p);
                } else {
                    batches.set(
                        p,
                        Batch {
                            id: batch.id,
                            reconciled: batch.reconciled,
                            total_shares: batch.total_shares - shares,
                            utoken_unclaimed: batch.utoken_unclaimed - utoken_to_refund,
                            est_unbond_end_time: batch.est_unbond_end_time,
                        },
                    );
                }
                paid = true;
            }
        }
        if !paid {
            let ghost before = kept@;
            kept.push(state.unbond_requests[i].clone());
            assert(request_views(kept@) =~= request_views(before).push(req));
        }
        i += 1;
    }
    if total_utoken_to_refund == 0 {
        return Err(HubError::NothingToWithdraw);
    }
    proof {
        lemma_withdraw_effect(old(state)@, user@, now);
    }
    state.previous_batches = batches;
    state.unbond_requests = kept;
    let refund_msg = HubMsg::Send { to_address: receiver.clone(), amount: total_utoken_to_refund };
    let event = HubEvent::UnbondedWithdrawn {
        time: env.time,
        height: env.height,
        ids,
        user,
        receiver,
        utoken_refunded: total_utoken_to_refund,
    };
    let resp = Response::new().add_message(refund_msg).add_event(event).add_action(
        Action::WithdrawUnbonded,
    );
    assert(resp@.messages =~= seq![
        HubMsgView::Send { to_address: receiver@, amount: total_utoken_to_refund as nat },
    ]);
    Ok(resp)
}

} // verus!
