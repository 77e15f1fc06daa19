use vstd::prelude::*;
use crate::coins::Coins;
use crate::decimal::{Decimal, DECIMAL_FRACTIONAL};
use crate::error::HubError;
use crate::helpers::string_views;
use crate::types::{Batch, CoinView, PendingBatch, UnbondRequest, UnbondRequestView};

verus! {

/// Where the protocol fee goes and how large it is.
#[derive(Debug, Clone, PartialEq, Eq)]
pub struct FeeConfig {
    pub protocol_fee_contract: String,
    pub protocol_reward_fee: Decimal,
}

/// Everything the hub keeps between operations.
#[derive(Debug, Clone, PartialEq, Eq)]
pub struct State {
    pub owner: String,
    /// The account that may take over ownership, if a transfer is under way.
    pub new_owner: Option<String>,
    /// Address of the receipt token, once it has been registered.
    pub stake_token: Option<String>,
    /// Seconds between two batch submissions.
    pub epoch_period: u64,
    /// Seconds the staking module takes to release undelegated tokens.
    pub unbond_period: u64,
    pub fee_config: FeeConfig,
    /// The whitelist, in the order in which validators were added.
    pub validators: Vec<String>,
    /// Coins the hub owns but has not bonded.
    pub unlocked_coins: Coins,
    pub pending_batch: PendingBatch,
    /// Submitted batches that still hold shares, by ascending identifier.
    pub previous_batches: Vec<Batch>,
    /// Unbonding requests, at most one for each batch and user.
    pub unbond_requests: Vec<UnbondRequest>,
}

/// Mathematical content of a [`State`].
pub ghost struct StateView {
    pub owner: Seq<char>,
    pub new_owner: Option<Seq<char>>,
    pub stake_token: Option<Seq<char>>,
    pub epoch_period: u64,
    pub unbond_period: u64,
    pub protocol_fee_contract: Seq<char>,
    pub protocol_reward_fee: Decimal,
    pub validators: Seq<Seq<char>>,
    pub unlocked_coins: Seq<CoinView>,
    pub pending_batch: PendingBatch,
    pub previous_batches: Seq<Batch>,
    pub unbond_requests: Seq<UnbondRequestView>,
}

/// The view of an optional string.
pub open spec fn option_view(s: Option<String>) -> Option<Seq<char>> {
    match s {
        Some(x) => Some(x@),
        None => None,
    }
}

/// The mathematical contents of a list of requests.
pub open spec fn request_views(r: Seq<UnbondRequest>) -> Seq<UnbondRequestView> {
    r.map_values(|x: UnbondRequest| x@)
}

impl View for State {
    type V = StateView;

    open spec fn view(&self) -> StateView {
        StateView {
            owner: self.owner@,
            new_owner: option_view(self.new_owner),
            stake_token: option_view(self.stake_token),
            epoch_period: self.epoch_period,
            unbond_period: self.unbond_period,
            protocol_fee_contract: self.fee_config.protocol_fee_contract@,
            protocol_reward_fee: self.fee_config.protocol_reward_fee,
            validators: string_views(self.validators@),
            unlocked_coins: self.unlocked_coins@,
            pending_batch: self.pending_batch,
            previous_batches: self.previous_batches@,
            unbond_requests: request_views(self.unbond_requests@),
        }
    }
}

/// First position at or after `from` of the batch with the given
/// identifier, or the length of the list when there is none.
pub open spec fn batch_position(b: Seq<Batch>, id: u64, from: nat) -> nat
    decreases b.len() - from,
{
    if from >= b.len() {
        b.len()
    } else if b[from as int].id == id {
        from
    } else {
        batch_position(b, id, from + 1)
    }
}

/// First position at or after `from` of the request of the given batch and
/// user, or the length of the list when there is none.
pub open spec fn request_position(
    r: Seq<UnbondRequestView>,
    id: u64,
    user: Seq<char>,
    from: nat,
) -> nat
    decreases r.len() - from,
{
    if from >= r.len() {
        r.len()
    } else if r[from as int].id == id && r[from as int].user == user {
        from
    } else {
        request_position(r, id, user, from + 1)
    }
}

/// The search for a batch stays within the list, finds the identifier if it
/// stops early, and passes over no batch that has it.
pub proof fn lemma_batch_position(b: Seq<Batch>, id: u64, from: nat)
    requires
        from <= b.len(),
    ensures
        from <= batch_position(b, id, from) <= b.len(),
        batch_position(b, id, from) < b.len() ==> b[batch_position(b, id, from) as int].id == id,
        forall|k: int| from <= k < batch_position(b, id, from) ==> (#[trigger] b[k]).id != id,
    decreases b.len() - from,
{
    if from < b.len() && b[from as int].id != id {
        lemma_batch_position(b, id, from + 1);
    }
}

/// Position of the batch with the given identifier; the length of the list
/// when there is none.
pub fn find_batch(batches: &Vec<Batch>, id: u64) -> (p: usize)
    ensures
        p == batch_position(batches@, id, 0),
        p <= batches@.len(),
        p < batches@.len() ==> batches@[p as int].id == id,
{
    let mut k: usize = 0;
    while k < batches.len()
        invariant
            k <= batches@.len(),
            batch_position(batches@, id, 0) == batch_position(batches@, id, k as nat),
        decreases batches@.len() - k,
    {
        if batches[k].id == id {
            return k;
        }
        k += 1;
    }
    k
}

/// Position of the request of the given batch and user; the length of the
/// list when there is none.
pub fn find_request(requests: &Vec<UnbondRequest>, id: u64, user: &String) -> (p: usize)
    ensures
        p == request_position(request_views(requests@), id, user@, 0),
        p <= requests@.len(),
        p < requests@.len() ==> requests@[p as int].id == id && requests@[p as int].user@ == user@,
{
    let ghost r = request_views(requests@);
    let mut k: usize = 0;
    while k < requests.len()
        invariant
            k <= requests@.len(),
            r == request_views(requests@),
            request_position(r, id, user@, 0) == request_position(r, id, user@, k as nat),
        decreases requests@.len() - k,
    {
        if requests[k].id == id && requests[k].user == *user {
            return k;
        }
        k += 1;
    }
    k
}

/// The highest reward fee that may be configured, in atomic units.
pub open spec fn reward_fee_cap() -> nat {
    (DECIMAL_FRACTIONAL / 10) as nat
}

impl State {
    /// Succeeds exactly when `sender` is the owner.
    pub fn assert_owner(&self, sender: &String) -> (r: Result<(), HubError>)
        ensures
            r is Ok <==> sender@ == self@.owner,
            r matches Err(e) ==> e == HubError::NotOwner,
    {
        if *sender == self.owner {
            Ok(())
        } else {
            Err(HubError::NotOwner)
        }
    }
}

} // verus!
