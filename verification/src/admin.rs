use vstd::prelude::*;
use crate::coins::Coins;
use crate::decimal::{get_reward_fee_cap, Decimal};
use crate::error::HubError;
use crate::execute::snapshot_msg;
use crate::helpers::{contains_string, dedupe, deduped, string_views};
use crate::invariants::consistent;
use crate::math::{
    compute_redelegations_for_removal, moved_upto, redelegation_views, removal_upto, stake_views,
    total_moved, total_staked,
};
use crate::msg::{
    msg_views, Action, Env, HubEvent, HubEventView, HubMsg, HubMsgView, InstantiateMsg, Response,
    ResponseView,
};
use crate::rebalance::{compute_redelegations_for_rebalancing, move_views, rebalance_moves};
use crate::state::{FeeConfig, State, StateView};
use crate::types::{
    Coin, Delegation, PendingBatch, Redelegation, RedelegationView, UnbondRequestView, CONTRACT_DENOM,
};

verus! {

/// The state a hub starts in.
pub open spec fn initial_state(msg: InstantiateMsg, now: u64) -> StateView {
    StateView {
        owner: msg.owner@,
        new_owner: None,
        stake_token: None,
        epoch_period: msg.epoch_period,
        unbond_period: msg.unbond_period,
        protocol_fee_contract: msg.protocol_fee_contract@,
        protocol_reward_fee: msg.protocol_reward_fee,
        validators: deduped(string_views(msg.validators@)),
        unlocked_coins: Seq::empty(),
        pending_batch: PendingBatch {
            id: 1,
            ustake_to_burn: 0,
            est_unbond_start_time: (now + msg.epoch_period) as u64,
        },
        previous_batches: Seq::empty(),
        unbond_requests: Seq::empty(),
    }
}

/// Creates the hub: the configuration is checked and stored, the whitelist
/// is deduplicated, the first pending batch is opened one epoch from now,
/// and the receipt token is ordered with the hub as its minter.
///
/// Fails with `FeeTooHigh` when the reward fee is above the cap, and with
/// `Overflow` when the first batch's start time leaves the 64-bit range.
pub fn instantiate(env: &Env, msg: InstantiateMsg) -> (r: Result<(State, Response), HubError>)
    ensures
        r is Ok <==> msg.protocol_reward_fee.atomics <= crate::state::reward_fee_cap() && env.time
            + msg.epoch_period <= u64::MAX,
        r matches Ok((state, resp)) ==> {
            &&& state@ == initial_state(msg, env.time)
            &&& consistent(state@)
            &&& resp@ == (ResponseView {
                messages: seq![
                    HubMsgView::InstantiateToken {
                        admin: msg.owner@,
                        code_id: msg.cw20_code_id,
                        name: msg.name@,
                        symbol: msg.symbol@,
                        decimals: msg.decimals,
                        minter: env.contract_address@,
                    },
                ],
                event: None,
                action: None,
            })
        },
        r matches Err(e) ==> e == if msg.protocol_reward_fee.atomics
            > crate::state::reward_fee_cap() {
            HubError::FeeTooHigh
        } else {
            HubError::Overflow
        },
{
    if msg.protocol_reward_fee.gt(&get_reward_fee_cap()) {
        return Err(HubError::FeeTooHigh);
    }
    let est_unbond_start_time: u64 = match env.time.checked_add(msg.epoch_period) {
        Some(t) => t,
        None => {
            return Err(HubError::Overflow);
        },
    };
    let ghost given = msg;
    let mut validators: Vec<String> = msg.validators;
    dedupe(&mut validators);
    let token = HubMsg::InstantiateToken {
        admin: msg.owner.clone(),
        code_id: msg.cw20_code_id,
        name: msg.name,
        symbol: msg.symbol,
        decimals: msg.decimals,
        minter: env.contract_address.clone(),
    };
    let state = State {
        owner: msg.owner,
        new_owner: None,
        stake_token: None,
        epoch_period: msg.epoch_period,
        unbond_period: msg.unbond_period,
        fee_config: FeeConfig {
            protocol_fee_contract: msg.protocol_fee_contract,
            protocol_reward_fee: msg.protocol_reward_fee,
        },
        validators,
        unlocked_coins: Coins::new(),
        pending_batch: PendingBatch { id: 1, ustake_to_burn: 0, est_unbond_start_time },
        previous_batches: Vec::new(),
        unbond_requests: Vec::new(),
    };
    let resp = Response::new().add_message(token);
    proof {
        assert(state@.unbond_requests =~= Seq::<UnbondRequestView>::empty());
        assert(state@.previous_batches =~= Seq::empty());
        assert(resp@.messages =~= seq![
            HubMsgView::InstantiateToken {
                admin: given.owner@,
                code_id: given.cw20_code_id,
                name: given.name@,
                symbol: given.symbol@,
                decimals: given.decimals,
                minter: env.contract_address@,
            },
        ]);
    }
    Ok((state, resp))
}

/// A key and a value attached to an event.
#[derive(Debug, Clone, PartialEq, Eq)]
pub struct Attribute {
    pub key: String,
    pub value: String,
}

/// An event reported back by the host.
#[derive(Debug, Clone, PartialEq, Eq)]
pub struct ReplyEvent {
    pub ty: String,
    pub attributes: Vec<Attribute>,
}

/// First position at or after `from` of an event of the given type, or the
/// number of events when there is none.
pub open spec fn event_position(events: Seq<ReplyEvent>, ty: Seq<char>, from: nat) -> nat
    decreases events.len() - from,
{
    if from >= events.len() {
        events.len()
    } else if events[from as int].ty@ == ty {
        from
    } else {
        event_position(events, ty, from + 1)
    }
}

/// First position at or after `from` of an attribute with the given key, or
/// the number of attributes when there is none.
pub open spec fn attribute_position(attrs: Seq<Attribute>, key: Seq<char>, from: nat) -> nat
    decreases attrs.len() - from,
{
    if from >= attrs.len() {
        attrs.len()
    } else if attrs[from as int].key@ == key {
        from
    } else {
        attribute_position(attrs, key, from + 1)
    }
}

fn find_event(events: &Vec<ReplyEvent>, ty: &str) -> (e: usize)
    ensures
        e == event_position(events@, ty@, 0),
        e <= events@.len(),
{
    let wanted: String = ty.to_owned();
    let mut e: usize = 0;
    while e < events.len()
        invariant
            e <= events@.len(),
            wanted@ == ty@,
            event_position(events@, ty@, 0) == event_position(events@, ty@, e as nat),
        decreases events@.len() - e,
    {
        if events[e].ty == wanted {
            return e;
        }
        e += 1;
    }
    e
}

fn find_attribute(attrs: &Vec<Attribute>, key: &str) -> (a: usize)
    ensures
        a == attribute_position(attrs@, key@, 0),
        a <= attrs@.len(),
{
    let wanted: String = key.to_owned();
    let mut a: usize = 0;
    while a < attrs.len()
        invariant
            a <= attrs@.len(),
            wanted@ == key@,
            attribute_position(attrs@, key@, 0) == attribute_position(attrs@, key@, a as nat),
        decreases attrs@.len() - a,
    {
        if attrs[a].key == wanted {
            return a;
        }
        a += 1;
    }
    a
}

/// The address reported for the new token contract: the value of the first
/// `_contract_address` attribute of the first `instantiate` event.
pub open spec fn reported_address(events: Seq<ReplyEvent>) -> Result<Seq<char>, HubError> {
    let e = event_position(events, "instantiate"@, 0);
    if e >= events.len() {
        Err(HubError::MissingInstantiateEvent)
    } else {
        let attrs = events[e as int].attributes@;
        let a = attribute_position(attrs, "_contract_address"@, 0);
        if a >= attrs.len() {
            Err(HubError::MissingContractAddress)
        } else {
            Ok(attrs[a as int].value@)
        }
    }
}

/// Records the address of the receipt token from the reply to its
/// instantiation.
///
/// Fails, leaving the state as it was, with `MissingInstantiateEvent` when
/// the reply has no `instantiate` event, and with `MissingContractAddress`
/// when the first such event has no `_contract_address` attribute.
pub fn register_stake_token(state: &mut State, events: &Vec<ReplyEvent>) -> (r: Result<
    Response,
    HubError,
>)
    ensures
        match r {
            Ok(resp) => reported_address(events@) matches Ok(addr) && final(state)@ == (StateView {
                stake_token: Some(addr),
                ..old(state)@
            }) && resp@ == (ResponseView { messages: Seq::empty(), event: None, action: None }),
            Err(e) => reported_address(events@) == Err::<Seq<char>, HubError>(e) && *final(state)
                == *old(state),
        },
{
    let e: usize = find_event(events, "instantiate");
    if e >= events.len() {
        return Err(HubError::MissingInstantiateEvent);
    }
    let attrs: &Vec<Attribute> = &events[e].attributes;
    let a: usize = find_attribute(attrs, "_contract_address");
    if a >= attrs.len() {
        return Err(HubError::MissingContractAddress);
    }
    state.stake_token = Some(attrs[a].value.clone());
    Ok(Response::new())
}

/// The redelegation messages for a list of redelegations.
pub open spec fn redelegate_msgs(r: Seq<RedelegationView>) -> Seq<HubMsgView> {
    r.map_values(
        |x: RedelegationView| HubMsgView::Redelegate { src: x.src, dst: x.dst, amount: x.amount },
    )
}

fn redelegation_messages(redelegations: &Vec<Redelegation>) -> (r: Option<(Vec<HubMsg>, u128)>)
    ensures
        match r {
            Some((msgs, moved)) => msg_views(msgs@) == redelegate_msgs(
                redelegation_views(redelegations@),
            ) && moved == total_moved(redelegation_views(redelegations@)),
            None => total_moved(redelegation_views(redelegations@)) > u128::MAX,
        },
{
    let ghost planned = redelegation_views(redelegations@);
    let mut msgs: Vec<HubMsg> = Vec::new();
    let mut moved: u128 = 0;
    let mut i: usize = 0;
    while i < redelegations.len()
        invariant
            i <= redelegations@.len(),
            planned == redelegation_views(redelegations@),
            msgs@.len() == i,
            msg_views(msgs@) == redelegate_msgs(planned.take(i as int)),
            moved == moved_upto(planned, i as nat),
        decreases redelegations@.len() - i,
    {
        moved = match moved.checked_add(redelegations[i].amount) {
            Some(m) => m,
            None => {
                proof {
                    lemma_moved_upto_monotonic(planned, (i + 1) as nat, planned.len());
                }
                return None;
            },
        };
        let ghost before = msgs@;
        let msg: HubMsg = redelegations[i].to_msg();
        msgs.push(msg);
        proof {
            let now = msg_views(msgs@);
            let want = redelegate_msgs(planned.take(i + 1));
            assert(planned[i as int] == redelegations@[i as int]@);
            assert forall|k: int| 0 <= k < now.len() implies now[k] == want[k] by {
                if k < i {
                    assert(now[k] == msg_views(before)[k]);
                    assert(planned.take(i as int)[k] == planned.take(i + 1)[k]);
                }
            }
            assert(now =~= want);
        }
        i += 1;
    }
    assert(planned.take(planned.len() as int) =~= planned);
    Some((msgs, moved))
}

proof fn lemma_moved_upto_monotonic(r: Seq<RedelegationView>, i: nat, j: nat)
    requires
        i <= j,
    ensures
        moved_upto(r, i) <= moved_upto(r, j),
    decreases j,
{
    if i < j {
        lemma_moved_upto_monotonic(r, i, (j - 1) as nat);
    }
}

/// Moves stake between validators until each holds its even share of the
/// total, and has the balance compared with its present value afterwards.
///
/// Fails with `NoValidators` on an empty list, and with `Overflow` when
/// the total bonded leaves the 128-bit range.
pub fn rebalance(delegations: &Vec<Delegation>, utoken_balance: u128) -> (r: Result<
    Response,
    HubError,
>)
    ensures
        r is Ok <==> delegations@.len() > 0 && total_staked(stake_views(delegations@))
            <= u128::MAX,
        r matches Ok(resp) ==> {
            let d = stake_views(delegations@);
            let planned = move_views(d, rebalance_moves(d));
            resp@ == (ResponseView {
                messages: redelegate_msgs(planned).push(snapshot_msg(utoken_balance as nat)),
                event: Some(HubEventView::Rebalanced { utoken_moved: total_moved(planned) }),
                action: Some(Action::Rebalance),
            })
        },
        r matches Err(e) ==> e == if delegations@.len() == 0 {
            HubError::NoValidators
        } else {
            HubError::Overflow
        },
{
    let new_redelegations: Vec<Redelegation> = match compute_redelegations_for_rebalancing(
        delegations,
    ) {
        Ok(v) => v,
        Err(e) => {
            return Err(e);
        },
    };
    let (redelegate, amount): (Vec<HubMsg>, u128) = match redelegation_messages(
        &new_redelegations,
    ) {
        Some(x) => x,
        None => {
            return Err(HubError::Overflow);
        },
    };
    let snapshot = HubMsg::CheckReceivedCoin {
        snapshot: Coin { denom: CONTRACT_DENOM.to_owned(), amount: utoken_balance },
    };
    let event = HubEvent::Rebalanced { utoken_moved: amount };
    let resp = Response::new().add_messages(redelegate).add_message(snapshot).add_event(
        event,
    ).add_action(Action::Rebalance);
    proof {
        let d = stake_views(delegations@);
        let planned = move_views(d, rebalance_moves(d));
        assert(resp@.messages =~= redelegate_msgs(planned).push(
            snapshot_msg(utoken_balance as nat),
        ));
    }
    Ok(resp)
}

/// Adds a validator to the end of the whitelist.
///
/// Fails, leaving the state as it was, with `NotOwner` when `sender` is not
/// the owner, and with `ValidatorAlreadyWhitelisted` when the validator is
/// on the list.
pub fn add_validator(state: &mut State, sender: &String, validator: String) -> (r: Result<
    Response,
    HubError,
>)
    ensures
        r is Ok <==> sender@ == old(state)@.owner && !old(state)@.validators.contains(validator@),
        r matches Ok(resp) ==> {
            &&& final(state)@ == (StateView {
                validators: old(state)@.validators.push(validator@),
                ..old(state)@
            })
            &&& resp@ == (ResponseView {
                messages: Seq::empty(),
                event: Some(HubEventView::ValidatorAdded { validator: validator@ }),
                action: Some(Action::AddValidator),
            })
        },
        r is Ok && consistent(old(state)@) ==> consistent(final(state)@),
        r is Err ==> *final(state) == *old(state),
        r matches Err(e) ==> e == if sender@ != old(state)@.owner {
            HubError::NotOwner
        } else {
            HubError::ValidatorAlreadyWhitelisted
        },
{
    match state.assert_owner(sender) {
        Ok(()) => {},
        Err(e) => {
            return Err(e);
        },
    }
    if contains_string(&state.validators, &validator) {
        return Err(HubError::ValidatorAlreadyWhitelisted);
    }
    let ghost before = state.validators@;
    state.validators.push(validator.clone());
    assert(string_views(state.validators@) =~= string_views(before).push(validator@));
    let event = HubEvent::ValidatorAdded { validator };
    Ok(Response::new().add_event(event).add_action(Action::AddValidator))
}

/// The first `i` entries of a list without those equal to `x`.
pub open spec fn without_string_upto(s: Seq<Seq<char>>, x: Seq<char>, i: nat) -> Seq<Seq<char>>
    decreases i,
{
    if i == 0 {
        Seq::empty()
    } else {
        let before = without_string_upto(s, x, (i - 1) as nat);
        if s[i - 1] == x {
            before
        } else {
            before.push(s[i - 1])
        }
    }
}

/// A list without the entries equal to `x`.
pub open spec fn without_string(s: Seq<Seq<char>>, x: Seq<char>) -> Seq<Seq<char>> {
    without_string_upto(s, x, s.len())
}

/// Taking a validator out leaves the others in place, and leaves no
/// duplicates where there were none.
pub proof fn lemma_without_string(s: Seq<Seq<char>>, x: Seq<char>, i: nat)
    requires
        i <= s.len(),
    ensures
        !without_string_upto(s, x, i).contains(x),
        forall|y: Seq<char>| #[trigger]
            without_string_upto(s, x, i).contains(y) <==> y != x && s.take(i as int).contains(y),
        s.no_duplicates() ==> without_string_upto(s, x, i).no_duplicates(),
    decreases i,
{
    let now = without_string_upto(s, x, i);
    if i > 0 {
        lemma_without_string(s, x, (i - 1) as nat);
        let before = without_string_upto(s, x, (i - 1) as nat);
        let last = s[i - 1];
        let prefix = s.take(i - 1);
        let whole = s.take(i as int);
        assert(whole =~= prefix.push(last));
        assert forall|y: Seq<char>| #[trigger] now.contains(y) <==> y != x && whole.contains(
            y,
        ) by {
            if now.contains(y) {
                let p = choose|p: int| 0 <= p < now.len() && now[p] == y;
                if p < before.len() {
                    assert(before[p] == y);
                    assert(before.contains(y));
                    let q = choose|q: int| 0 <= q < prefix.len() && prefix[q] == y;
                    assert(whole[q] == y);
                } else {
                    assert(whole[i - 1] == y);
                }
            }
            if y != x && whole.contains(y) {
                let q = choose|q: int| 0 <= q < whole.len() && whole[q] == y;
                if q < i - 1 {
                    assert(prefix[q] == y);
                    assert(prefix.contains(y));
                    assert(before.contains(y));
                    let p = choose|p: int| 0 <= p < before.len() && before[p] == y;
                    assert(now[p] == y);
                } else {
                    assert(now[before.len() as int] == y);
                }
            }
        }
        if s.no_duplicates() && last != x {
            assert(!prefix.contains(last)) by {
                if prefix.contains(last) {
                    let q = choose|q: int| 0 <= q < prefix.len() && prefix[q] == last;
                    assert(s[q] == s[i - 1]);
                }
            }
            assert(!before.contains(last));
        }
    }
}

/// Takes a validator off the whitelist and moves its stake to those that
/// remain, as evenly as their delegations allow; the balance is compared
/// with its present value afterwards. `delegations` holds the stake of the
/// validators that remain, `delegation_to_remove` that of the one leaving.
///
/// Fails, leaving the state as it was: with `NotOwner` when `sender` is not
/// the owner; with `ValidatorNotWhitelisted` when the validator is not on
/// the list; with `NoValidators` when no delegation remains; and with
/// `Overflow` when the total bonded leaves the 128-bit range.
pub fn remove_validator(
    state: &mut State,
    sender: &String,
    validator: String,
    delegations: &Vec<Delegation>,
    delegation_to_remove: &Delegation,
    utoken_balance: u128,
) -> (r: Result<Response, HubError>)
    ensures
        r is Ok <==> {
            &&& sender@ == old(state)@.owner
            &&& old(state)@.validators.contains(validator@)
            &&& delegations@.len() > 0
            &&& total_staked(stake_views(delegations@)) + delegation_to_remove.amount <= u128::MAX
        },
        r matches Ok(resp) ==> {
            let d = stake_views(delegations@);
            &&& final(state)@ == (StateView {
                validators: without_string(old(state)@.validators, validator@),
                ..old(state)@
            })
            &&& resp@ == (ResponseView {
                messages: redelegate_msgs(
                    removal_upto(
                        delegation_to_remove.validator@,
                        d,
                        delegation_to_remove.amount as nat,
                        d.len(),
                    ),
                ).push(snapshot_msg(utoken_balance as nat)),
                event: Some(HubEventView::ValidatorRemoved { validator: validator@ }),
                action: Some(Action::RemoveValidator),
            })
        },
        r is Ok && consistent(old(state)@) ==> consistent(final(state)@),
        r is Err ==> *final(state) == *old(state),
        r matches Err(e) ==> e == if sender@ != old(state)@.owner {
            HubError::NotOwner
        } else if !old(state)@.validators.contains(validator@) {
            HubError::ValidatorNotWhitelisted
        } else if delegations@.len() == 0 {
            HubError::NoValidators
        } else {
            HubError::Overflow
        },
{
    match state.assert_owner(sender) {
        Ok(()) => {},
        Err(e) => {
            return Err(e);
        },
    }
    if !contains_string(&state.validators, &validator) {
        return Err(HubError::ValidatorNotWhitelisted);
    }
    let new_redelegations: Vec<Redelegation> = match compute_redelegations_for_removal(
        delegation_to_remove,
        delegations,
    ) {
        Ok(v) => v,
        Err(e) => {
            return Err(e);
        },
    };
    let redelegate: Vec<HubMsg> = match redelegation_messages(&new_redelegations) {
        Some((msgs, _)) => msgs,
        None => {
            return Err(HubError::Overflow);
        },
    };
    let ghost s = string_views(state.validators@);
    let mut remaining: Vec<String> = Vec::new();
    let mut i: usize = 0;
    while i < state.validators.len()
        invariant
            i <= state.validators@.len(),
            *state == *old(state),
            s == string_views(state.validators@),
            string_views(remaining@) == without_string_upto(s, validator@, i as nat),
        decreases state.validators@.len() - i,
    {
        if !(state.validators[i] == validator) {
            let ghost before = remaining@;
            remaining.push(state.validators[i].clone());
            assert(string_views(remaining@) =~= string_views(before).push(s[i as int]));
        }
        i += 1;
    }
    state.validators = remaining;
    proof {
        lemma_without_string(s, validator@, s.len());
    }
    let snapshot = HubMsg::CheckReceivedCoin {
        snapshot: Coin { denom: CONTRACT_DENOM.to_owned(), amount: utoken_balance },
    };
    let event = HubEvent::ValidatorRemoved { validator };
    let resp = Response::new().add_messages(redelegate).add_message(snapshot).add_event(
        event,
    ).add_action(Action::RemoveValidator);
    proof {
        let d = stake_views(delegations@);
        assert(resp@.messages =~= redelegate_msgs(
            removal_upto(
                delegation_to_remove.validator@,
                d,
                delegation_to_remove.amount as nat,
                d.len(),
            ),
        ).push(snapshot_msg(utoken_balance as nat)));
    }
    Ok(resp)
}

/// Names the account that may take over ownership.
///
/// Fails, leaving the state as it was, with `NotOwner` exactly when
/// `sender` is not the owner.
pub fn transfer_ownership(state: &mut State, sender: &String, new_owner: String) -> (r: Result<
    Response,
    HubError,
>)
    ensures
        r is Ok <==> sender@ == old(state)@.owner,
        r matches Ok(resp) ==> {
            &&& final(state)@ == (StateView { new_owner: Some(new_owner@), ..old(state)@ })
            &&& resp@ == (ResponseView {
                messages: Seq::empty(),
                event: None,
                action: Some(Action::TransferOwnership),
            })
        },
        r is Ok && consistent(old(state)@) ==> consistent(final(state)@),
        r is Err ==> *final(state) == *old(state),
        r matches Err(e) ==> e == HubError::NotOwner,
{
    match state.assert_owner(sender) {
        Ok(()) => {},
        Err(e) => {
            return Err(e);
        },
    }
    state.new_owner = Some(new_owner);
    Ok(Response::new().add_action(Action::TransferOwnership))
}

/// Completes a transfer of ownership: the pending owner becomes the owner
/// and no transfer is pending any more.
///
/// Fails, leaving the state as it was, with `NotNewOwner` exactly when
/// `sender` is not the pending owner.
pub fn accept_ownership(state: &mut State, sender: String) -> (r: Result<Response, HubError>)
    ensures
        r is Ok <==> old(state)@.new_owner == Some(sender@),
        r matches Ok(resp) ==> {
            &&& final(state)@ == (StateView { owner: sender@, new_owner: None, ..old(state)@ })
            &&& resp@ == (ResponseView {
                messages: Seq::empty(),
                event: Some(
                    HubEventView::OwnershipTransferred {
                        new_owner: sender@,
                        previous_owner: old(state)@.owner,
                    },
                ),
                action: Some(Action::TransferOwnership),
            })
        },
        r is Ok && consistent(old(state)@) ==> consistent(final(state)@),
        r is Err ==> *final(state) == *old(state),
        r matches Err(e) ==> e == HubError::NotNewOwner,
{
    let accepted: bool = match &state.new_owner {
        Some(pending) => *pending == sender,
        None => false,
    };
    if !accepted {
        return Err(HubError::NotNewOwner);
    }
    let previous_owner: String = state.owner.clone();
    state.owner = sender.clone();
    state.new_owner = None;
    let event = HubEvent::OwnershipTransferred { new_owner: sender, previous_owner };
    Ok(Response::new().add_event(event).add_action(Action::TransferOwnership))
}

/// Changes the fee contract, the reward fee, or both.
///
/// Fails, leaving the state as it was, with `NotOwner` when `sender` is not
/// the owner, and with `FeeTooHigh` when the new reward fee is above the
/// cap.
pub fn update_config(
    state: &mut State,
    sender: &String,
    protocol_fee_contract: Option<String>,
    protocol_reward_fee: Option<Decimal>,
) -> (r: Result<Response, HubError>)
    ensures
        r is Ok <==> sender@ == old(state)@.owner && (protocol_reward_fee matches Some(fee)
            ==> fee.atomics <= crate::state::reward_fee_cap()),
        r matches Ok(resp) ==> {
            &&& final(state)@ == (StateView {
                protocol_fee_contract: match protocol_fee_contract {
                    Some(c) => c@,
                    None => old(state)@.protocol_fee_contract,
                },
                protocol_reward_fee: match protocol_reward_fee {
                    Some(fee) => fee,
                    None => old(state)@.protocol_reward_fee,
                },
                ..old(state)@
            })
            &&& resp@ == (ResponseView {
                messages: Seq::empty(),
                event: None,
                action: Some(Action::UpdateConfig),
            })
        },
        r is Ok && consistent(old(state)@) ==> consistent(final(state)@),
        r is Err ==> *final(state) == *old(state),
        r matches Err(e) ==> e == if sender@ != old(state)@.owner {
            HubError::NotOwner
        } else {
            HubError::FeeTooHigh
        },
{
    match state.assert_owner(sender) {
        Ok(()) => {},
        Err(e) => {
            return Err(e);
        },
    }
    if let Some(fee) = protocol_reward_fee {
        if fee.gt(&get_reward_fee_cap()) {
            return Err(HubError::FeeTooHigh);
        }
    }
    if let Some(contract) = protocol_fee_contract {
        state.fee_config.protocol_fee_contract = contract;
    }
    if let Some(fee) = protocol_reward_fee {
        state.fee_config.protocol_reward_fee = fee;
    }
    Ok(Response::new().add_action(Action::UpdateConfig))
}

} // verus!
