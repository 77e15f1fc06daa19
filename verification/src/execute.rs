use vstd::prelude::*;
use crate::coins::{
    amount_of, lemma_added_keeps_ledger, lemma_without_denom, lemma_without_keeps_ledger,
    with_added, without_denom,
};
use crate::decimal::{DecimalCheckedOps, DECIMAL_FRACTIONAL};
use crate::error::HubError;
use crate::helpers::pick_smallest;
use crate::invariants::consistent;
use crate::math::{compute_mint_amount, mint_amount, stake_views, total_staked};
use crate::msg::{
    msg_views, Action, CustomResponse, Env, HubEvent, HubEventView, HubMsg, HubMsgView, Response,
    ResponseView,
};
use crate::state::{State, StateView};
use crate::types::{
    contract_denom, Coin, CoinView, Delegation, SendFee, StakeView, CONTRACT_DENOM,
};

verus! {

/// The callback that compares the hub's balance of the bondable
/// denomination with `amount`.
pub open spec fn snapshot_msg(amount: nat) -> HubMsgView {
    HubMsgView::CheckReceivedCoin { snapshot: CoinView { denom: contract_denom(), amount } }
}

/// The callback that takes a snapshot of the balance, less an amount that
/// is about to leave it.
///
/// Fails with `Overflow` exactly when the offset exceeds the balance.
pub fn check_received_coin_msg(utoken_balance: u128, negative_offset: Option<u128>) -> (r: Result<
    HubMsg,
    HubError,
>)
    ensures
        match negative_offset {
            Some(offset) => match r {
                Ok(m) => offset <= utoken_balance && m@ == snapshot_msg(
                    (utoken_balance - offset) as nat,
                ),
                Err(e) => offset > utoken_balance && e == HubError::Overflow,
            },
            None => r matches Ok(m) && m@ == snapshot_msg(utoken_balance as nat),
        },
{
    let mut amount: u128 = utoken_balance;
    if let Some(offset) = negative_offset {
        if offset > amount {
            return Err(HubError::Overflow);
        }
        amount = amount - offset;
    }
    Ok(HubMsg::CheckReceivedCoin { snapshot: Coin { denom: CONTRACT_DENOM.to_owned(), amount } })
}

/// What a bond mints: nothing for a donation, otherwise the pro-rata
/// amount.
pub open spec fn bond_mint(supply: nat, deposit: nat, bonded: nat, donate: bool) -> nat {
    if donate {
        0
    } else {
        mint_amount(supply, deposit, bonded)
    }
}

/// The messages of a bond: delegate the deposit, mint if anything is to be
/// minted, and take a snapshot of the balance without the deposit.
pub open spec fn bond_messages(
    validator: Seq<char>,
    receiver: Seq<char>,
    deposit: nat,
    minted: nat,
    balance: nat,
) -> Seq<HubMsgView> {
    let delegate = seq![HubMsgView::Delegate { validator, amount: deposit }];
    let mint = if minted > 0 {
        seq![HubMsgView::Mint { recipient: receiver, amount: minted }]
    } else {
        Seq::empty()
    };
    delegate + mint + seq![snapshot_msg((balance - deposit) as nat)]
}

/// Bonds `token_to_bond` with the validator that has the smallest
/// delegation and mints receipt tokens to `receiver` at the current rate,
/// or none at all for a donation.
///
/// Fails with `StakeTokenNotSet` before the token is registered, with
/// `NoValidators` when there is no delegation to choose from, and with
/// `Overflow` when the total bonded or the amount to mint leaves the
/// 128-bit range or the deposit exceeds the balance.
pub fn bond(
    state: &State,
    env: &Env,
    delegations: &Vec<Delegation>,
    ustake_supply: u128,
    utoken_balance: u128,
    receiver: String,
    token_to_bond: u128,
    donate: bool,
) -> (r: Result<Response, HubError>)
    ensures
        r is Ok <==> {
            let bonded = total_staked(stake_views(delegations@));
            &&& state@.stake_token is Some
            &&& delegations@.len() > 0
            &&& donate || (bonded <= u128::MAX && mint_amount(
                ustake_supply as nat,
                token_to_bond as nat,
                bonded,
            ) <= u128::MAX)
            &&& token_to_bond <= utoken_balance
        },
        r matches Ok(resp) ==> {
            let d = stake_views(delegations@);
            let minted = bond_mint(
                ustake_supply as nat,
                token_to_bond as nat,
                total_staked(d),
                donate,
            );
            resp@ == (ResponseView {
                messages: bond_messages(
                    d[crate::helpers::smallest_upto(d, d.len()) as int].validator,
                    receiver@,
                    token_to_bond as nat,
                    minted,
                    utoken_balance as nat,
                ),
                event: Some(
                    HubEventView::Bonded {
                        time: env.time,
                        height: env.height,
                        receiver: receiver@,
                        token_bonded: token_to_bond as nat,
                        ustake_minted: minted,
                    },
                ),
                action: Some(Action::Bond),
            })
        },
        r matches Err(e) ==> e == if state@.stake_token is None {
            HubError::StakeTokenNotSet
        } else if delegations@.len() == 0 {
            HubError::NoValidators
        } else {
            HubError::Overflow
        },
{
    if state.stake_token.is_none() {
        return Err(HubError::StakeTokenNotSet);
    }
    let smallest: usize = match pick_smallest(delegations) {
        Some(i) => i,
        None => {
            return Err(HubError::NoValidators);
        },
    };
    let new_delegation = Delegation {
        validator: delegations[smallest].validator.clone(),
        amount: token_to_bond,
    };
    let ustake_to_mint: u128 = if donate {
        0
    } else {
        match compute_mint_amount(ustake_supply, token_to_bond, delegations) {
            Ok(m) => m,
            Err(e) => {
                return Err(e);
            },
        }
    };
    let mint_msg: Option<HubMsg> = if ustake_to_mint > 0 {
        Some(HubMsg::Mint { recipient: receiver.clone(), amount: ustake_to_mint })
    } else {
        None
    };
    let snapshot: HubMsg = match check_received_coin_msg(utoken_balance, Some(token_to_bond)) {
        Ok(m) => m,
        Err(e) => {
            return Err(e);
        },
    };
    let event = HubEvent::Bonded {
        time: env.time,
        height: env.height,
        receiver: receiver,
        token_bonded: token_to_bond,
        ustake_minted: ustake_to_mint,
    };
    let resp = Response::new().add_message(new_delegation.to_msg()).add_optional_message(
        mint_msg,
    ).add_message(snapshot).add_event(event).add_action(Action::Bond);
    proof {
        let d = stake_views(delegations@);
        assert(resp@.messages =~= bond_messages(
            d[smallest as int].validator,
            receiver@,
            token_to_bond as nat,
            ustake_to_mint as nat,
            utoken_balance as nat,
        ));
    }
    Ok(resp)
}

/// The reward withdrawals for the first `i` delegations, those without
/// stake left out.
pub open spec fn reward_msgs_upto(d: Seq<StakeView>, i: nat) -> Seq<HubMsgView>
    decreases i,
{
    if i == 0 {
        Seq::empty()
    } else {
        let before = reward_msgs_upto(d, (i - 1) as nat);
        if d[i - 1].amount > 0 {
            before.push(HubMsgView::WithdrawDelegatorReward { validator: d[i - 1].validator })
        } else {
            before
        }
    }
}

/// Collects the rewards of every delegation that holds stake, then has the
/// balance compared with its present value and the proceeds reinvested.
pub fn harvest(all_delegations: &Vec<Delegation>, utoken_balance: u128) -> (resp: Response)
    ensures
        resp@ == (ResponseView {
            messages: reward_msgs_upto(stake_views(all_delegations@), all_delegations@.len())
                + seq![snapshot_msg(utoken_balance as nat), HubMsgView::Reinvest],
            event: None,
            action: Some(Action::Harvest),
        }),
{
    let ghost d = stake_views(all_delegations@);
    let mut withdraw_msgs: Vec<HubMsg> = Vec::new();
    let mut i: usize = 0;
    while i < all_delegations.len()
        invariant
            i <= all_delegations@.len(),
            d == stake_views(all_delegations@),
            msg_views(withdraw_msgs@) == reward_msgs_upto(d, i as nat),
        decreases all_delegations@.len() - i,
    {
        if all_delegations[i].amount != 0 {
            let ghost before = withdraw_msgs@;
            withdraw_msgs.push(
                HubMsg::WithdrawDelegatorReward {
                    validator: all_delegations[i].validator.clone(),
                },
            );
            assert(msg_views(withdraw_msgs@) =~= msg_views(before).push(
                HubMsgView::WithdrawDelegatorReward { validator: d[i as int].validator },
            ));
        }
        i += 1;
    }
    let snapshot = HubMsg::CheckReceivedCoin {
        snapshot: Coin { denom: CONTRACT_DENOM.to_owned(), amount: utoken_balance },
    };
    let resp = Response::new().add_messages(withdraw_msgs).add_message(snapshot).add_message(
        HubMsg::Reinvest,
    ).add_action(Action::Harvest);
    assert(resp@.messages =~= reward_msgs_upto(d, d.len()) + seq![
        snapshot_msg(utoken_balance as nat),
        HubMsgView::Reinvest,
    ]);
    resp
}

/// The protocol's part of `amount` at the given rate, rounded down.
pub open spec fn protocol_fee(rate_atomics: nat, amount: nat) -> nat {
    (amount * rate_atomics) / (DECIMAL_FRACTIONAL as nat)
}

/// The messages of a reinvestment: delegate what is left after the fee, and
/// send the fee if there is one.
pub open spec fn reinvest_messages(
    validator: Seq<char>,
    fee_contract: Seq<char>,
    to_bond: nat,
    fee: nat,
) -> Seq<HubMsgView> {
    let delegate = seq![HubMsgView::Delegate { validator, amount: to_bond }];
    if fee > 0 {
        delegate.push(HubMsgView::Send { to_address: fee_contract, amount: fee })
    } else {
        delegate
    }
}

/// What is bonded of `available` once the fee has been taken.
pub open spec fn after_fee(rate_atomics: nat, amount: nat) -> nat {
    if protocol_fee(rate_atomics, amount) <= amount {
        (amount - protocol_fee(rate_atomics, amount)) as nat
    } else {
        0
    }
}

/// At a rate of at most one, the fee and what is bonded split the amount
/// between them.
pub proof fn lemma_fee_splits_amount(rate_atomics: nat, amount: nat)
    requires
        rate_atomics <= DECIMAL_FRACTIONAL,
    ensures
        protocol_fee(rate_atomics, amount) <= amount,
        protocol_fee(rate_atomics, amount) + after_fee(rate_atomics, amount) == amount,
{
    let f = DECIMAL_FRACTIONAL as nat;
    assert((amount * rate_atomics) / f <= amount) by (nonlinear_arith)
        requires
            rate_atomics <= f,
            f > 0,
    ;
}

/// Bonds what the ledger holds of the bondable denomination, less the
/// protocol fee, with the validator that has the smallest delegation, and
/// clears that entry of the ledger.
///
/// Fails, leaving the state as it was, with `NothingToBond` when the ledger
/// holds nothing of the denomination, with `NoValidators` when there is no
/// delegation to choose from, and with `Overflow` when the fee leaves the
/// 128-bit range.
pub fn reinvest(state: &mut State, env: &Env, delegations: &Vec<Delegation>) -> (r: Result<
    Response,
    HubError,
>)
    ensures
        r is Ok <==> {
            let available = amount_of(old(state)@.unlocked_coins, contract_denom());
            &&& available > 0
            &&& delegations@.len() > 0
            &&& protocol_fee(old(state)@.protocol_reward_fee.atomics as nat, available)
                <= u128::MAX
        },
        r matches Ok(resp) ==> {
            let d = stake_views(delegations@);
            let available = amount_of(old(state)@.unlocked_coins, contract_denom());
            let rate = old(state)@.protocol_reward_fee.atomics as nat;
            &&& final(state)@ == (StateView {
                unlocked_coins: without_denom(old(state)@.unlocked_coins, contract_denom()),
                ..old(state)@
            })
            &&& amount_of(final(state)@.unlocked_coins, contract_denom()) == 0
            &&& resp@ == (ResponseView {
                messages: reinvest_messages(
                    d[crate::helpers::smallest_upto(d, d.len()) as int].validator,
                    old(state)@.protocol_fee_contract,
                    after_fee(rate, available),
                    protocol_fee(rate, available),
                ),
                event: Some(
                    HubEventView::Harvested {
                        time: env.time,
                        height: env.height,
                        utoken_bonded: after_fee(rate, available),
                        utoken_protocol_fee: protocol_fee(rate, available),
                    },
                ),
                action: Some(Action::Reinvest),
            })
        },
        r is Ok && consistent(old(state)@) ==> consistent(final(state)@),
        r is Err ==> *final(state) == *old(state),
        r matches Err(e) ==> e == if amount_of(old(state)@.unlocked_coins, contract_denom())
            == 0 {
            HubError::NothingToBond
        } else if delegations@.len() == 0 {
            HubError::NoValidators
        } else {
            HubError::Overflow
        },
{
    let utoken_available: u128 = state.unlocked_coins.find(CONTRACT_DENOM).amount;
    if utoken_available == 0 {
        return Err(HubError::NothingToBond);
    }
    let smallest: usize = match pick_smallest(delegations) {
        Some(i) => i,
        None => {
            return Err(HubError::NoValidators);
        },
    };
    let protocol_fee_amount: u128 = match state.fee_config.protocol_reward_fee.checked_mul_uint(
        utoken_available,
    ) {
        Ok(f) => f,
        Err(e) => {
            return Err(e);
        },
    };
    let utoken_to_bond: u128 = if protocol_fee_amount <= utoken_available {
        utoken_available - protocol_fee_amount
    } else {
        0
    };
    let new_delegation = Delegation {
        validator: delegations[smallest].validator.clone(),
        amount: utoken_to_bond,
    };
    state.unlocked_coins.remove_denom(CONTRACT_DENOM);
    proof {
        lemma_without_denom(old(state)@.unlocked_coins, contract_denom(), contract_denom());
        if consistent(old(state)@) {
            lemma_without_keeps_ledger(old(state)@.unlocked_coins, contract_denom());
        }
    }
    let event = HubEvent::Harvested {
        time: env.time,
        height: env.height,
        utoken_bonded: utoken_to_bond,
        utoken_protocol_fee: protocol_fee_amount,
    };
    let send_fee: Option<HubMsg> = if protocol_fee_amount != 0 {
        let fee = SendFee {
            to_address: state.fee_config.protocol_fee_contract.clone(),
            amount: protocol_fee_amount,
        };
        Some(fee.to_msg())
    } else {
        None
    };
    let resp = Response::new().add_message(new_delegation.to_msg()).add_optional_message(
        send_fee,
    ).add_event(event).add_action(Action::Reinvest);
    proof {
        let d = stake_views(delegations@);
        assert(resp@.messages =~= reinvest_messages(
            d[smallest as int].validator,
            old(state)@.protocol_fee_contract,
            utoken_to_bond as nat,
            protocol_fee_amount as nat,
        ));
    }
    Ok(resp)
}

/// Compares the balance of the snapshot's denomination with the snapshot
/// and credits what has arrived since to the ledger.
///
/// Fails, leaving the state as it was, with `BalanceBelowSnapshot` when the
/// balance has fallen under the snapshot, and with `Overflow` when the
/// ledger entry would leave the 128-bit range.
pub fn callback_received_coin(state: &mut State, snapshot: Coin, current_balance: u128) -> (r:
    Result<Response, HubError>)
    ensures
        r is Ok <==> current_balance >= snapshot.amount && (current_balance > snapshot.amount
            ==> amount_of(old(state)@.unlocked_coins, snapshot.denom@) + (current_balance
            - snapshot.amount) <= u128::MAX),
        r matches Ok(resp) ==> {
            let received = CoinView {
                denom: snapshot.denom@,
                amount: (current_balance - snapshot.amount) as nat,
            };
            &&& final(state)@ == (StateView {
                unlocked_coins: if current_balance > snapshot.amount {
                    with_added(old(state)@.unlocked_coins, received)
                } else {
                    old(state)@.unlocked_coins
                },
                ..old(state)@
            })
            &&& resp@ == (ResponseView {
                messages: Seq::empty(),
                event: Some(
                    HubEventView::ReceivedCoins {
                        received: if current_balance > snapshot.amount {
                            seq![received]
                        } else {
                            Seq::empty()
                        },
                    },
                ),
                action: Some(Action::CallbackReceivedCoins),
            })
        },
        r is Ok && consistent(old(state)@) ==> consistent(final(state)@),
        r is Err ==> *final(state) == *old(state),
        r matches Err(e) ==> e == if current_balance < snapshot.amount {
            HubError::BalanceBelowSnapshot
        } else {
            HubError::Overflow
        },
{
    if current_balance < snapshot.amount {
        return Err(HubError::BalanceBelowSnapshot);
    }
    let mut received: Vec<Coin> = Vec::new();
    if current_balance > snapshot.amount {
        let coin = Coin { denom: snapshot.denom, amount: current_balance - snapshot.amount };
        proof {
            if consistent(old(state)@) {
                lemma_added_keeps_ledger(old(state)@.unlocked_coins, coin@);
            }
        }
        match state.unlocked_coins.add(&coin) {
            Ok(()) => {},
            Err(e) => {
                return Err(e);
            },
        }
        received.push(coin);
    }
    let event = HubEvent::ReceivedCoins { received };
    let resp = Response::new().add_event(event).add_action(Action::CallbackReceivedCoins);
    proof {
        let got = CoinView {
            denom: snapshot.denom@,
            amount: (current_balance - snapshot.amount) as nat,
        };
        if current_balance > snapshot.amount {
            assert(crate::coins::coin_views(received@) =~= seq![got]);
        } else {
            assert(crate::coins::coin_views(received@) =~= Seq::<CoinView>::empty());
        }
    }
    Ok(resp)
}

} // verus!
