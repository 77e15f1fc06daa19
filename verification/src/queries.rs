use vstd::prelude::*;
use vstd::arithmetic::div_mod::lemma_div_is_ordered;
use crate::coins::clone_coins;
use crate::decimal::{Decimal, DECIMAL_FRACTIONAL};
use crate::error::HubError;
use crate::math::{stake_views, total_delegated, total_staked};
use crate::ratio::multiply_ratio;
use crate::helpers::string_views;
use crate::state::{
    batch_position, find_batch, option_view, request_views, FeeConfig, State,
};
use crate::types::{Batch, Coin, Delegation, PendingBatch, UnbondRequest, UnbondRequestView};

verus! {

/// Bonded tokens per receipt token, in atomic units of a [`Decimal`]: the
/// quotient of the total bonded and the supply, rounded down, and one while
/// either of them is zero.
pub open spec fn exchange_rate_atomics(total_utoken: nat, total_ustake: nat) -> nat {
    if total_utoken == 0 || total_ustake == 0 {
        DECIMAL_FRACTIONAL as nat
    } else {
        (total_utoken * (DECIMAL_FRACTIONAL as nat)) / total_ustake
    }
}

/// Bonding more while the supply stays as it is never lowers the exchange
/// rate, as long as something was bonded before or no receipt token
/// exists.
pub proof fn lemma_rate_rises_with_bonded(total_utoken: nat, total_ustake: nat, added: nat)
    requires
        total_utoken > 0 || total_ustake == 0,
    ensures
        exchange_rate_atomics(total_utoken + added, total_ustake) >= exchange_rate_atomics(
            total_utoken,
            total_ustake,
        ),
{
    if total_ustake > 0 {
        let f = DECIMAL_FRACTIONAL as nat;
        assert(total_utoken * f <= (total_utoken + added) * f) by (nonlinear_arith);
        lemma_div_is_ordered(
            (total_utoken * f) as int,
            ((total_utoken + added) * f) as int,
            total_ustake as int,
        );
    }
}

/// The exchange rate between bonded tokens and receipt tokens.
///
/// Fails with `Overflow` exactly when the rate has more atomic units than
/// 128 bits hold.
pub fn compute_exchange_rate(total_utoken: u128, total_ustake: u128) -> (r: Result<
    Decimal,
    HubError,
>)
    ensures
        match r {
            Ok(rate) => rate.atomics == exchange_rate_atomics(
                total_utoken as nat,
                total_ustake as nat,
            ),
            Err(e) => e == HubError::Overflow && exchange_rate_atomics(
                total_utoken as nat,
                total_ustake as nat,
            ) > u128::MAX,
        },
{
    if total_utoken == 0 || total_ustake == 0 {
        return Ok(Decimal::one());
    }
    match multiply_ratio(total_utoken, DECIMAL_FRACTIONAL, total_ustake) {
        Some(atomics) => Ok(Decimal { atomics }),
        None => Err(HubError::Overflow),
    }
}

/// What the first `i` batches that have not been reconciled still hold.
pub open spec fn unbonding_upto(b: Seq<Batch>, i: nat) -> nat
    decreases i,
{
    if i == 0 {
        0
    } else {
        unbonding_upto(b, (i - 1) as nat) + if b[i - 1].reconciled {
            0nat
        } else {
            b[i - 1].utoken_unclaimed as nat
        }
    }
}

/// A summary of the hub's holdings.
#[derive(Debug, Clone, PartialEq, Eq)]
pub struct StateResponse {
    /// Supply of the receipt token.
    pub total_ustake: u128,
    /// Total bonded with validators.
    pub total_utoken: u128,
    pub exchange_rate: Decimal,
    pub unlocked_coins: Vec<Coin>,
    /// What batches that have not been reconciled are expected to release.
    pub unbonding: u128,
    /// The hub's balance of the bondable denomination.
    pub available: u128,
    /// Bonded, unbonding and available together.
    pub tvl_utoken: u128,
}

proof fn lemma_unbonding_upto_monotonic(b: Seq<Batch>, i: nat, j: nat)
    requires
        i <= j,
    ensures
        unbonding_upto(b, i) <= unbonding_upto(b, j),
    decreases j,
{
    if i < j {
        lemma_unbonding_upto_monotonic(b, i, (j - 1) as nat);
    }
}

fn sum_unbonding(batches: &Vec<Batch>) -> (r: Option<u128>)
    ensures
        match r {
            Some(t) => t == unbonding_upto(batches@, batches@.len()),
            None => unbonding_upto(batches@, batches@.len()) > u128::MAX,
        },
{
    let mut total: u128 = 0;
    let mut i: usize = 0;
    while i < batches.len()
        invariant
            i <= batches.len(),
            total == unbonding_upto(batches@, i as nat),
        decreases batches.len() - i,
    {
        if !batches[i].reconciled {
            match total.checked_add(batches[i].utoken_unclaimed) {
                Some(t) => {
                    total = t;
                },
                None => {
                    proof {
                        lemma_unbonding_upto_monotonic(batches@, (i + 1) as nat, batches@.len());
                    }
                    return None;
                },
            }
        }
        i += 1;
    }
    Some(total)
}

/// Whether the summary of the hub's holdings can be computed.
pub open spec fn state_summable(
    s: crate::state::StateView,
    total_ustake: nat,
    bonded: nat,
    balance: nat,
) -> bool {
    &&& bonded <= u128::MAX
    &&& exchange_rate_atomics(bonded, total_ustake) <= u128::MAX
    &&& bonded + unbonding_upto(s.previous_batches, s.previous_batches.len()) + balance
        <= u128::MAX
}

/// The summary of the hub's holdings, given the supply of the receipt
/// token, the current delegations and the hub's balance.
///
/// Fails with `Overflow` exactly when one of the sums or the exchange rate
/// leaves the 128-bit range.
pub fn query_state(
    state: &State,
    total_ustake: u128,
    delegations: &Vec<Delegation>,
    utoken_balance: u128,
) -> (r: Result<StateResponse, HubError>)
    ensures
        r is Ok <==> state_summable(
            state@,
            total_ustake as nat,
            total_staked(stake_views(delegations@)),
            utoken_balance as nat,
        ),
        r matches Ok(resp) ==> {
            let bonded = total_staked(stake_views(delegations@));
            let unbonding = unbonding_upto(state@.previous_batches, state@.previous_batches.len());
            &&& resp.total_ustake == total_ustake
            &&& resp.total_utoken == bonded
            &&& resp.exchange_rate.atomics == exchange_rate_atomics(bonded, total_ustake as nat)
            &&& resp.unlocked_coins@ == state.unlocked_coins.0@
            &&& resp.unbonding == unbonding
            &&& resp.available == utoken_balance
            &&& resp.tvl_utoken == bonded + unbonding + utoken_balance
        },
        r matches Err(e) ==> e == HubError::Overflow,
{
    let total_utoken: u128 = match total_delegated(delegations) {
        Some(t) => t,
        None => {
            return Err(HubError::Overflow);
        },
    };
    let exchange_rate: Decimal = match compute_exchange_rate(total_utoken, total_ustake) {
        Ok(rate) => rate,
        Err(e) => {
            return Err(e);
        },
    };
    let unbonding: u128 = match sum_unbonding(&state.previous_batches) {
        Some(t) => t,
        None => {
            return Err(HubError::Overflow);
        },
    };
    let locked: u128 = match total_utoken.checked_add(unbonding) {
        Some(t) => t,
        None => {
            return Err(HubError::Overflow);
        },
    };
    let tvl_utoken: u128 = match locked.checked_add(utoken_balance) {
        Some(t) => t,
        None => {
            return Err(HubError::Overflow);
        },
    };
    Ok(
        StateResponse {
            total_ustake,
            total_utoken,
            exchange_rate,
            unlocked_coins: clone_coins(&state.unlocked_coins.0),
            unbonding,
            available: utoken_balance,
            tvl_utoken,
        },
    )
}

/// The batch that currently collects unbonding requests.
pub fn query_pending_batch(state: &State) -> (r: PendingBatch)
    ensures
        r == state@.pending_batch,
{
    state.pending_batch
}

/// The submitted batch with the given identifier, if it is still stored.
pub fn query_previous_batch(state: &State, id: u64) -> (r: Option<Batch>)
    ensures
        r == if batch_position(state@.previous_batches, id, 0) < state@.previous_batches.len() {
            Some(state@.previous_batches[batch_position(state@.previous_batches, id, 0) as int])
        } else {
            None
        },
{
    let p: usize = find_batch(&state.previous_batches, id);
    if p < state.previous_batches.len() {
        Some(state.previous_batches[p])
    } else {
        None
    }
}

/// The hub's configuration.
#[derive(Debug, Clone, PartialEq, Eq)]
pub struct ConfigResponse {
    pub owner: String,
    pub new_owner: Option<String>,
    pub stake_token: String,
    pub epoch_period: u64,
    pub unbond_period: u64,
    pub validators: Vec<String>,
    pub fee_config: FeeConfig,
}

/// A copy of a list of strings.
pub fn clone_strings(list: &Vec<String>) -> (r: Vec<String>)
    ensures
        r@ == list@,
{
    let mut out: Vec<String> = Vec::new();
    let mut i: usize = 0;
    while i < list.len()
        invariant
            i <= list.len(),
            out@ == list@.take(i as int),
        decreases list.len() - i,
    {
        out.push(list[i].clone());
        assert(out@ =~= list@.take(i + 1));
        i += 1;
    }
    assert(list@.take(list@.len() as int) =~= list@);
    out
}

/// The hub's configuration.
///
/// Fails with `StakeTokenNotSet` exactly when the receipt token has not
/// been registered.
pub fn query_config(state: &State) -> (r: Result<ConfigResponse, HubError>)
    ensures
        r is Ok <==> state@.stake_token is Some,
        r matches Ok(c) ==> {
            &&& c.owner@ == state@.owner
            &&& option_view(c.new_owner) == state@.new_owner
            &&& Some(c.stake_token@) == state@.stake_token
            &&& c.epoch_period == state@.epoch_period
            &&& c.unbond_period == state@.unbond_period
            &&& string_views(c.validators@) == state@.validators
            &&& c.fee_config.protocol_fee_contract@ == state@.protocol_fee_contract
            &&& c.fee_config.protocol_reward_fee == state@.protocol_reward_fee
        },
        r matches Err(e) ==> e == HubError::StakeTokenNotSet,
{
    let stake_token: String = match &state.stake_token {
        Some(t) => t.clone(),
        None => {
            return Err(HubError::StakeTokenNotSet);
        },
    };
    let new_owner: Option<String> = match &state.new_owner {
        Some(o) => Some(o.clone()),
        None => None,
    };
    Ok(
        ConfigResponse {
            owner: state.owner.clone(),
            new_owner,
            stake_token,
            epoch_period: state.epoch_period,
            unbond_period: state.unbond_period,
            validators: clone_strings(&state.validators),
            fee_config: FeeConfig {
                protocol_fee_contract: state.fee_config.protocol_fee_contract.clone(),
                protocol_reward_fee: state.fee_config.protocol_reward_fee,
            },
        },
    )
}

/// Whether a batch comes after the given identifier; every batch does when
/// none is given.
pub open spec fn comes_after(batch: Batch, start_after: Option<u64>) -> bool {
    match start_after {
        Some(id) => batch.id > id,
        None => true,
    }
}

/// Those of the first `i` stored batches that come after `start_after`, in
/// order, cut off at `limit` entries if a limit is given.
pub open spec fn batches_listed_upto(
    b: Seq<Batch>,
    start_after: Option<u64>,
    limit: Option<u32>,
    i: nat,
) -> Seq<Batch>
    decreases i,
{
    if i == 0 {
        Seq::empty()
    } else {
        let before = batches_listed_upto(b, start_after, limit, (i - 1) as nat);
        let room = match limit {
            Some(most) => before.len() < most,
            None => true,
        };
        if comes_after(b[i - 1], start_after) && room {
            before.push(b[i - 1])
        } else {
            before
        }
    }
}

/// The stored batches that come after `start_after`, in the order in which
/// they are stored, cut off at `limit` entries if a limit is given.
pub fn query_previous_batches(state: &State, start_after: Option<u64>, limit: Option<u32>) -> (r:
    Vec<Batch>)
    ensures
        r@ == batches_listed_upto(
            state@.previous_batches,
            start_after,
            limit,
            state@.previous_batches.len(),
        ),
{
    let mut out: Vec<Batch> = Vec::new();
    let mut i: usize = 0;
    while i < state.previous_batches.len()
        invariant
            i <= state.previous_batches@.len(),
            out@ == batches_listed_upto(state.previous_batches@, start_after, limit, i as nat),
        decreases state.previous_batches@.len() - i,
    {
        let batch: Batch = state.previous_batches[i];
        let after: bool = match start_after {
            Some(id) => batch.id > id,
            None => true,
        };
        let room: bool = match limit {
            Some(most) => out.len() < most as usize,
            None => true,
        };
        if after && room {
            out.push(batch);
        }
        i += 1;
    }
    out
}

/// Those of the first `i` requests that are of the given batch, in order.
pub open spec fn requests_of_batch_upto(r: Seq<UnbondRequestView>, id: u64, i: nat) -> Seq<
    UnbondRequestView,
>
    decreases i,
{
    if i == 0 {
        Seq::empty()
    } else {
        let before = requests_of_batch_upto(r, id, (i - 1) as nat);
        if r[i - 1].id == id {
            before.push(r[i - 1])
        } else {
            before
        }
    }
}

/// Those of the first `i` requests that are of the given user, in order.
pub open spec fn requests_of_user_upto(r: Seq<UnbondRequestView>, user: Seq<char>, i: nat) -> Seq<
    UnbondRequestView,
>
    decreases i,
{
    if i == 0 {
        Seq::empty()
    } else {
        let before = requests_of_user_upto(r, user, (i - 1) as nat);
        if r[i - 1].user == user {
            before.push(r[i - 1])
        } else {
            before
        }
    }
}

/// The requests of one batch, in the order in which they are stored.
pub fn query_unbond_requests_by_batch(state: &State, id: u64) -> (r: Vec<UnbondRequest>)
    ensures
        request_views(r@) == requests_of_batch_upto(
            state@.unbond_requests,
            id,
            state@.unbond_requests.len(),
        ),
{
    let ghost all = request_views(state.unbond_requests@);
    let mut out: Vec<UnbondRequest> = Vec::new();
    let mut i: usize = 0;
    while i < state.unbond_requests.len()
        invariant
            i <= state.unbond_requests@.len(),
            all == request_views(state.unbond_requests@),
            request_views(out@) == requests_of_batch_upto(all, id, i as nat),
        decreases state.unbond_requests@.len() - i,
    {
        if state.unbond_requests[i].id == id {
            let ghost before = out@;
            out.push(state.unbond_requests[i].clone());
            assert(request_views(out@) =~= request_views(before).push(all[i as int]));
        }
        i += 1;
    }
    out
}

/// The requests of one user, in the order in which they are stored.
pub fn query_unbond_requests_by_user(state: &State, user: &String) -> (r: Vec<UnbondRequest>)
    ensures
        request_views(r@) == requests_of_user_upto(
            state@.unbond_requests,
            user@,
            state@.unbond_requests.len(),
        ),
{
    let ghost all = request_views(state.unbond_requests@);
    let mut out: Vec<UnbondRequest> = Vec::new();
    let mut i: usize = 0;
    while i < state.unbond_requests.len()
        invariant
            i <= state.unbond_requests@.len(),
            all == request_views(state.unbond_requests@),
            request_views(out@) == requests_of_user_upto(all, user@, i as nat),
        decreases state.unbond_requests@.len() - i,
    {
        if state.unbond_requests[i].user == *user {
            let ghost before = out@;
            out.push(state.unbond_requests[i].clone());
            assert(request_views(out@) =~= request_views(before).push(all[i as int]));
        }
        i += 1;
    }
    out
}

} // verus!
