use eris_hub::admin::{
    accept_ownership, add_validator, instantiate, rebalance, register_stake_token,
    remove_validator, transfer_ownership, update_config, Attribute, ReplyEvent,
};
use eris_hub::coins::Coins;
use eris_hub::decimal::{Decimal, DecimalCheckedOps};
use eris_hub::error::HubError;
use eris_hub::execute::{bond, callback_received_coin, check_received_coin_msg, harvest, reinvest};
use eris_hub::msg::{
    Action, CustomResponse, Env, HubEvent, HubMsg, InstantiateMsg, Response,
};
use eris_hub::queries::{
    query_config, query_pending_batch, query_previous_batch, query_previous_batches, query_state,
    query_unbond_requests_by_batch, query_unbond_requests_by_user, ConfigResponse, StateResponse,
};
use eris_hub::state::{FeeConfig, State};
use eris_hub::types::{
    Batch, Coin, Delegation, PendingBatch, Redelegation, SendFee, UnbondRequest, Undelegation,
    CONTRACT_DENOM,
};
use eris_hub::unbond::{queue_unbond, reconcile, submit_batch, withdraw_unbonded};

const MOCK_CONTRACT_ADDR: &str = "cosmos2contract";
const COIN_CW20: &str = "juno1cw20";
const COIN_IBC: &str = "ibc/test";
const COIN_UTOKEN: &str = CONTRACT_DENOM;

fn coin(amount: u128, denom: &str) -> Coin {
    Coin::new(amount, denom)
}

fn mock_env_at_timestamp(time: u64) -> Env {
    Env { time, height: 12_345, contract_address: MOCK_CONTRACT_ADDR.to_string() }
}

fn mock_env() -> Env {
    mock_env_at_timestamp(1_571_797_419)
}

fn s(text: &str) -> String {
    text.to_string()
}

fn snapshot(amount: u128) -> HubMsg {
    HubMsg::CheckReceivedCoin { snapshot: coin(amount, COIN_UTOKEN) }
}

fn instantiate_msg() -> InstantiateMsg {
    InstantiateMsg {
        cw20_code_id: 69420,
        owner: s("owner"),
        name: s("Stake Token"),
        symbol: s("STAKE"),
        decimals: 6,
        epoch_period: 259200,
        unbond_period: 1814400,
        validators: vec![s("alice"), s("bob"), s("charlie")],
        protocol_fee_contract: s("fee"),
        protocol_reward_fee: Decimal::from_ratio(1, 100).unwrap(),
    }
}

fn setup_test() -> State {
    let (mut state, res) = instantiate(&mock_env_at_timestamp(10000), instantiate_msg()).unwrap();

    assert_eq!(res.messages.len(), 1);
    assert_eq!(
        res.messages[0],
        HubMsg::InstantiateToken {
            admin: s("owner"),
            code_id: 69420,
            name: s("Stake Token"),
            symbol: s("STAKE"),
            decimals: 6,
            minter: MOCK_CONTRACT_ADDR.to_string(),
        }
    );

    let event = ReplyEvent {
        ty: s("instantiate"),
        attributes: vec![
            Attribute { key: s("creator"), value: MOCK_CONTRACT_ADDR.to_string() },
            Attribute { key: s("admin"), value: s("admin") },
            Attribute { key: s("code_id"), value: s("69420") },
            Attribute { key: s("_contract_address"), value: s("stake_token") },
        ],
    };
    let res = register_stake_token(&mut state, &vec![event]).unwrap();
    assert_eq!(res.messages.len(), 0);
    state
}

fn received_coin(res: &Response) -> String {
    match &res.event {
        Some(HubEvent::ReceivedCoins { received }) => {
            received.iter().map(|c| format!("{}{}", c.amount, c.denom)).collect::<Vec<_>>().join(",")
        }
        other => panic!("no coins were received: {:?}", other),
    }
}

fn delegations(list: &[(&str, u128)]) -> Vec<Delegation> {
    list.iter().map(|(v, a)| Delegation::new(v, *a)).collect()
}

fn standard_delegations() -> Vec<Delegation> {
    delegations(&[("alice", 341667), ("bob", 341667), ("charlie", 341666)])
}

#[test]
fn proper_instantiation() {
    let state = setup_test();

    let res: ConfigResponse = query_config(&state).unwrap();
    assert_eq!(
        res,
        ConfigResponse {
            owner: s("owner"),
            new_owner: None,
            stake_token: s("stake_token"),
            epoch_period: 259200,
            unbond_period: 1814400,
            validators: vec![s("alice"), s("bob"), s("charlie")],
            fee_config: FeeConfig {
                protocol_fee_contract: s("fee"),
                protocol_reward_fee: Decimal::from_ratio(1, 100).unwrap(),
            },
        }
    );

    let res: StateResponse = query_state(&state, 0, &delegations(&[]), 0).unwrap();
    assert_eq!(
        res,
        StateResponse {
            total_ustake: 0,
            total_utoken: 0,
            exchange_rate: Decimal::one(),
            unlocked_coins: vec![],
            unbonding: 0,
            available: 0,
            tvl_utoken: 0,
        },
    );

    let res: PendingBatch = query_pending_batch(&state);
    assert_eq!(
        res,
        PendingBatch {
            id: 1,
            ustake_to_burn: 0,
            est_unbond_start_time: 269200, // 10,000 + 259,200
        },
    );
}

#[test]
fn bonding_check_received() {
    let mut state = setup_test();

    // Bond when no delegation has been made
    // In this case, the full deposit simply goes to the first validator
    let res = bond(
        &state,
        &mock_env(),
        &delegations(&[("alice", 0), ("bob", 0), ("charlie", 0)]),
        0,
        1000000 + 100,
        s("user_1"),
        1000000,
        false,
    )
    .unwrap();

    assert_eq!(res.messages.len(), 3);
    assert_eq!(res.messages[0], Delegation::new("alice", 1000000).to_msg());
    assert_eq!(res.messages[1], HubMsg::Mint { recipient: s("user_1"), amount: 1000000 });
    assert_eq!(res.messages[2], snapshot(100));

    // the balances have grown to 300, 300 and 350 since the snapshots of 100, 200 and 300
    let res = callback_received_coin(&mut state, coin(100, COIN_UTOKEN), 300).unwrap();
    assert_eq!(res.messages.len(), 0);
    assert_eq!(res.event, Some(HubEvent::ReceivedCoins { received: vec![coin(200, COIN_UTOKEN)] }));
    assert_eq!(res.event.as_ref().unwrap().name(), "erishub/callback_received_coins");
    assert_eq!(received_coin(&res), "200ujuno");
    let res = callback_received_coin(&mut state, coin(200, COIN_IBC), 300).unwrap();
    assert_eq!(res.event, Some(HubEvent::ReceivedCoins { received: vec![coin(100, COIN_IBC)] }));
    assert_eq!(received_coin(&res), "100ibc/test");
    let res = callback_received_coin(&mut state, coin(300, COIN_CW20), 350).unwrap();
    assert_eq!(res.event, Some(HubEvent::ReceivedCoins { received: vec![coin(50, COIN_CW20)] }));
    assert_eq!(received_coin(&res), "50juno1cw20");
    assert_eq!(res.action, Some(Action::CallbackReceivedCoins));

    assert_eq!(
        state.unlocked_coins.0,
        vec![coin(200, COIN_UTOKEN), coin(100, COIN_IBC), coin(50, COIN_CW20)]
    );

    //
    // HARVEST
    //
    let res = harvest(&standard_delegations(), 300);

    assert_eq!(res.messages.len(), 5);
    assert_eq!(res.messages[0], HubMsg::WithdrawDelegatorReward { validator: s("alice") });
    assert_eq!(res.messages[1], HubMsg::WithdrawDelegatorReward { validator: s("bob") });
    assert_eq!(res.messages[2], HubMsg::WithdrawDelegatorReward { validator: s("charlie") });
    assert_eq!(res.messages[3], snapshot(300));
    assert_eq!(res.messages[4], HubMsg::Reinvest);

    // received rewards through WithdrawDelegatorReward
    let res = callback_received_coin(&mut state, coin(300, COIN_UTOKEN), 1000).unwrap();
    assert_eq!(res.messages.len(), 0);
    assert_eq!(res.event, Some(HubEvent::ReceivedCoins { received: vec![coin(700, COIN_UTOKEN)] }));
    assert_eq!(received_coin(&res), "700ujuno");
    let res = callback_received_coin(&mut state, coin(300, COIN_IBC), 400).unwrap();
    assert_eq!(res.event, Some(HubEvent::ReceivedCoins { received: vec![coin(100, COIN_IBC)] }));
    assert_eq!(received_coin(&res), "100ibc/test");
    let res = callback_received_coin(&mut state, coin(350, COIN_CW20), 450).unwrap();
    assert_eq!(res.event, Some(HubEvent::ReceivedCoins { received: vec![coin(100, COIN_CW20)] }));
    assert_eq!(received_coin(&res), "100juno1cw20");

    assert_eq!(
        state.unlocked_coins.0,
        vec![coin(900, COIN_UTOKEN), coin(200, COIN_IBC), coin(150, COIN_CW20)]
    );

    //
    // REINVEST
    //
    let res = reinvest(&mut state, &mock_env(), &standard_delegations()).unwrap();

    assert_eq!(res.messages.len(), 2);

    let total: u128 = 900;
    let fee = Decimal::from_ratio(1, 100).unwrap().checked_mul_uint(total).expect("expects fee result");
    let delegated = total.saturating_sub(fee);

    assert_eq!(res.messages[0], Delegation::new("charlie", delegated).to_msg());
    assert_eq!(res.messages[1], SendFee::new("fee", fee).to_msg());

    // Storage should have been updated
    assert_eq!(state.unlocked_coins.0, vec![coin(200, COIN_IBC), coin(150, COIN_CW20)]);
}

#[test]
fn instantiation_rejects_a_fee_above_the_cap() {
    let mut msg = instantiate_msg();
    msg.protocol_reward_fee = Decimal::percent(11);
    assert_eq!(instantiate(&mock_env_at_timestamp(10000), msg), Err(HubError::FeeTooHigh));
    let mut msg = instantiate_msg();
    msg.protocol_reward_fee = Decimal::percent(10);
    assert!(instantiate(&mock_env_at_timestamp(10000), msg).is_ok());
    let mut msg = instantiate_msg();
    msg.epoch_period = u64::MAX;
    assert_eq!(instantiate(&mock_env_at_timestamp(10000), msg), Err(HubError::Overflow));
}

#[test]
fn instantiation_dedupes_validators() {
    let mut msg = instantiate_msg();
    msg.validators = vec![s("alice"), s("bob"), s("alice"), s("charlie"), s("bob")];
    let (state, _) = instantiate(&mock_env_at_timestamp(10000), msg).unwrap();
    assert_eq!(state.validators, vec![s("alice"), s("bob"), s("charlie")]);
    assert_eq!(state.unlocked_coins, Coins::new());
    assert_eq!(state.stake_token, None);
    assert_eq!(state.previous_batches, vec![]);
    assert_eq!(state.unbond_requests, vec![]);
}

#[test]
fn registering_the_stake_token_needs_the_event_and_the_attribute() {
    let (mut state, _) = instantiate(&mock_env_at_timestamp(10000), instantiate_msg()).unwrap();
    let before = state.clone();
    assert_eq!(query_config(&state), Err(HubError::StakeTokenNotSet));
    let other = ReplyEvent {
        ty: s("wasm"),
        attributes: vec![Attribute { key: s("_contract_address"), value: s("x") }],
    };
    assert_eq!(
        register_stake_token(&mut state, &vec![other.clone()]),
        Err(HubError::MissingInstantiateEvent)
    );
    let bare = ReplyEvent {
        ty: s("instantiate"),
        attributes: vec![Attribute { key: s("code_id"), value: s("1") }],
    };
    let full = ReplyEvent {
        ty: s("instantiate"),
        attributes: vec![
            Attribute { key: s("_contract_address"), value: s("first") },
            Attribute { key: s("_contract_address"), value: s("second") },
        ],
    };
    // only the first event of the type counts
    assert_eq!(
        register_stake_token(&mut state, &vec![other.clone(), bare, full.clone()]),
        Err(HubError::MissingContractAddress)
    );
    assert_eq!(state, before);
    assert_eq!(register_stake_token(&mut state, &vec![other, full]), Ok(Response::new()));
    assert_eq!(state.stake_token, Some(s("first")));
}

#[test]
fn bootstrap_bond() {
    let state = setup_test();
    let res = bond(
        &state,
        &mock_env(),
        &delegations(&[("alice", 0), ("bob", 0), ("charlie", 0)]),
        0,
        1_000_000,
        s("user_1"),
        1_000_000,
        false,
    )
    .unwrap();
    assert_eq!(
        res.messages,
        vec![
            HubMsg::Delegate { validator: s("alice"), amount: 1_000_000 },
            HubMsg::Mint { recipient: s("user_1"), amount: 1_000_000 },
            snapshot(0),
        ]
    );
    assert_eq!(
        res.event,
        Some(HubEvent::Bonded {
            time: 1_571_797_419,
            height: 12_345,
            receiver: s("user_1"),
            token_bonded: 1_000_000,
            ustake_minted: 1_000_000,
        })
    );
    assert_eq!(res.action, Some(Action::Bond));
}

#[test]
fn bonding_goes_to_the_smallest_validator_at_the_current_rate() {
    let state = setup_test();
    let res = bond(&state, &mock_env(), &standard_delegations(), 1_000_000, 20_000, s("user_3"), 12_345, false)
        .unwrap();
    assert_eq!(
        res.messages,
        vec![
            HubMsg::Delegate { validator: s("charlie"), amount: 12_345 },
            HubMsg::Mint { recipient: s("user_3"), amount: 12_043 },
            snapshot(20_000 - 12_345),
        ]
    );
}

#[test]
fn donating_mints_nothing() {
    let state = setup_test();
    let res = bond(&state, &mock_env(), &standard_delegations(), 1_000_000, 12_345, s("user_3"), 12_345, true)
        .unwrap();
    assert_eq!(
        res.messages,
        vec![HubMsg::Delegate { validator: s("charlie"), amount: 12_345 }, snapshot(0)]
    );
    assert_eq!(
        res.event,
        Some(HubEvent::Bonded {
            time: 1_571_797_419,
            height: 12_345,
            receiver: s("user_3"),
            token_bonded: 12_345,
            ustake_minted: 0,
        })
    );
}

#[test]
fn bonding_reports_errors() {
    let (unregistered, _) = instantiate(&mock_env_at_timestamp(10000), instantiate_msg()).unwrap();
    assert_eq!(
        bond(&unregistered, &mock_env(), &standard_delegations(), 0, 10, s("u"), 10, false),
        Err(HubError::StakeTokenNotSet)
    );
    let state = setup_test();
    assert_eq!(
        bond(&state, &mock_env(), &delegations(&[]), 0, 10, s("u"), 10, false),
        Err(HubError::NoValidators)
    );
    assert_eq!(
        bond(&state, &mock_env(), &standard_delegations(), 0, 9, s("u"), 10, false),
        Err(HubError::Overflow)
    );
    assert_eq!(
        bond(&state, &mock_env(), &delegations(&[("alice", 1)]), u128::MAX, 10, s("u"), 2, false),
        Err(HubError::Overflow)
    );
}

#[test]
fn snapshot_callback_subtracts_the_offset() {
    assert_eq!(check_received_coin_msg(500, None), Ok(snapshot(500)));
    assert_eq!(check_received_coin_msg(500, Some(120)), Ok(snapshot(380)));
    assert_eq!(check_received_coin_msg(500, Some(500)), Ok(snapshot(0)));
    assert_eq!(check_received_coin_msg(500, Some(501)), Err(HubError::Overflow));
}

#[test]
fn harvesting_skips_empty_delegations() {
    let res = harvest(&delegations(&[("alice", 5), ("bob", 0), ("charlie", 1)]), 42);
    assert_eq!(
        res.messages,
        vec![
            HubMsg::WithdrawDelegatorReward { validator: s("alice") },
            HubMsg::WithdrawDelegatorReward { validator: s("charlie") },
            snapshot(42),
            HubMsg::Reinvest,
        ]
    );
    assert_eq!(res.event, None);
    assert_eq!(res.action, Some(Action::Harvest));
}

#[test]
fn harvest_and_reinvest() {
    let mut state = setup_test();
    state.unlocked_coins = Coins(vec![coin(200, COIN_UTOKEN)]);
    callback_received_coin(&mut state, coin(300, COIN_UTOKEN), 1000).unwrap();
    assert_eq!(state.unlocked_coins.0, vec![coin(900, COIN_UTOKEN)]);
    let res = reinvest(&mut state, &mock_env(), &standard_delegations()).unwrap();
    assert_eq!(
        res.messages,
        vec![
            HubMsg::Delegate { validator: s("charlie"), amount: 891 },
            HubMsg::Send { to_address: s("fee"), amount: 9 },
        ]
    );
    assert_eq!(
        res.event,
        Some(HubEvent::Harvested {
            time: 1_571_797_419,
            height: 12_345,
            utoken_bonded: 891,
            utoken_protocol_fee: 9,
        })
    );
    assert_eq!(res.action, Some(Action::Reinvest));
    assert_eq!(state.unlocked_coins.0, vec![]);
}

#[test]
fn reinvesting_without_a_fee_sends_nothing() {
    let mut state = setup_test();
    state.unlocked_coins = Coins(vec![coin(50, COIN_IBC), coin(99, COIN_UTOKEN)]);
    let res = reinvest(&mut state, &mock_env(), &standard_delegations()).unwrap();
    assert_eq!(res.messages, vec![HubMsg::Delegate { validator: s("charlie"), amount: 99 }]);
    assert_eq!(state.unlocked_coins.0, vec![coin(50, COIN_IBC)]);
}

#[test]
fn reinvesting_reports_errors() {
    let mut state = setup_test();
    state.unlocked_coins = Coins(vec![coin(50, COIN_IBC)]);
    let before = state.clone();
    assert_eq!(
        reinvest(&mut state, &mock_env(), &standard_delegations()),
        Err(HubError::NothingToBond)
    );
    state.unlocked_coins = Coins(vec![coin(0, COIN_UTOKEN), coin(50, COIN_IBC)]);
    assert_eq!(
        reinvest(&mut state, &mock_env(), &standard_delegations()),
        Err(HubError::NothingToBond)
    );
    state.unlocked_coins = Coins(vec![coin(900, COIN_UTOKEN)]);
    assert_eq!(reinvest(&mut state, &mock_env(), &delegations(&[])), Err(HubError::NoValidators));
    state.fee_config.protocol_reward_fee = Decimal::from_ratio(2, 1).unwrap();
    state.unlocked_coins = Coins(vec![coin(u128::MAX, COIN_UTOKEN)]);
    assert_eq!(reinvest(&mut state, &mock_env(), &standard_delegations()), Err(HubError::Overflow));
    assert_eq!(state.unlocked_coins.0, vec![coin(u128::MAX, COIN_UTOKEN)]);
    assert_eq!(before.unlocked_coins.0, vec![coin(50, COIN_IBC)]);
}

#[test]
fn received_coin_callback() {
    let mut state = setup_test();
    let before = state.clone();
    let res = callback_received_coin(&mut state, coin(100, COIN_UTOKEN), 100).unwrap();
    assert_eq!(res.event, Some(HubEvent::ReceivedCoins { received: vec![] }));
    assert_eq!(state, before);
    assert_eq!(
        callback_received_coin(&mut state, coin(100, COIN_UTOKEN), 99),
        Err(HubError::BalanceBelowSnapshot)
    );
    assert_eq!(state, before);
    state.unlocked_coins = Coins(vec![coin(u128::MAX, COIN_UTOKEN)]);
    assert_eq!(
        callback_received_coin(&mut state, coin(100, COIN_UTOKEN), 101),
        Err(HubError::Overflow)
    );
    assert_eq!(state.unlocked_coins.0, vec![coin(u128::MAX, COIN_UTOKEN)]);
}

#[test]
fn queue_and_submit_at_epoch_boundary() {
    let mut state = setup_test();
    let res = queue_unbond(&mut state, &mock_env_at_timestamp(10_000), s("user_1"), 100).unwrap();
    assert_eq!(res.messages, vec![]);
    assert_eq!(
        res.event,
        Some(HubEvent::UnbondQueued {
            time: 10_000,
            est_unbond_start_time: Some(269_200),
            height: 12_345,
            id: 1,
            receiver: s("user_1"),
            ustake_to_burn: 100,
        })
    );
    assert_eq!(state.pending_batch.est_unbond_start_time, 269_200);

    let res = queue_unbond(&mut state, &mock_env_at_timestamp(269_200), s("user_1"), 50).unwrap();
    assert_eq!(res.messages, vec![HubMsg::SubmitBatch]);
    assert_eq!(
        res.event,
        Some(HubEvent::UnbondQueued {
            time: 269_200,
            est_unbond_start_time: None,
            height: 12_345,
            id: 1,
            receiver: s("user_1"),
            ustake_to_burn: 50,
        })
    );
    assert_eq!(res.action, Some(Action::QueueUnbond));
    assert_eq!(
        state.pending_batch,
        PendingBatch { id: 1, ustake_to_burn: 150, est_unbond_start_time: 269_200 }
    );
    assert_eq!(state.unbond_requests, vec![UnbondRequest { id: 1, user: s("user_1"), shares: 150 }]);

    // supply 1_000_000, bonded 1_025_000: 150 shares are worth 153
    let res = submit_batch(
        &mut state,
        &mock_env_at_timestamp(269_200),
        &standard_delegations(),
        1_000_000,
        77,
    )
    .unwrap();
    assert_eq!(
        state.previous_batches,
        vec![Batch {
            id: 1,
            reconciled: false,
            total_shares: 150,
            utoken_unclaimed: 153,
            est_unbond_end_time: 269_200 + 1_814_400,
        }]
    );
    assert_eq!(
        state.pending_batch,
        PendingBatch { id: 2, ustake_to_burn: 0, est_unbond_start_time: 528_400 }
    );
    // lowering all three to 341_615 would release 155: alice and bob stay one above
    assert_eq!(
        res.messages,
        vec![
            Undelegation::new("alice", 51).to_msg(),
            Undelegation::new("bob", 51).to_msg(),
            Undelegation::new("charlie", 51).to_msg(),
            HubMsg::Burn { amount: 150 },
            snapshot(77),
        ]
    );
    assert_eq!(
        res.event,
        Some(HubEvent::UnbondSubmitted {
            time: 269_200,
            height: 12_345,
            id: 1,
            utoken_unbonded: 153,
            ustake_burned: 150,
        })
    );
    assert_eq!(res.action, Some(Action::Unbond));
    assert_eq!(query_previous_batch(&state, 1), Some(state.previous_batches[0]));
    assert_eq!(query_previous_batch(&state, 2), None);
}

#[test]
fn queueing_keeps_one_request_for_each_batch_and_user() {
    let mut state = setup_test();
    let env = mock_env_at_timestamp(10_000);
    queue_unbond(&mut state, &env, s("user_1"), 23_456).unwrap();
    queue_unbond(&mut state, &env, s("user_3"), 69_420).unwrap();
    queue_unbond(&mut state, &env, s("user_1"), 1).unwrap();
    assert_eq!(
        state.unbond_requests,
        vec![
            UnbondRequest { id: 1, user: s("user_1"), shares: 23_457 },
            UnbondRequest { id: 1, user: s("user_3"), shares: 69_420 },
        ]
    );
    assert_eq!(state.pending_batch.ustake_to_burn, 92_877);
    let before = state.clone();
    assert_eq!(queue_unbond(&mut state, &env, s("user_2"), u128::MAX), Err(HubError::Overflow));
    assert_eq!(state, before);
}

#[test]
fn submitting_reports_errors() {
    let mut state = setup_test();
    queue_unbond(&mut state, &mock_env_at_timestamp(10_000), s("user_1"), 100).unwrap();
    let before = state.clone();
    assert_eq!(
        submit_batch(&mut state, &mock_env_at_timestamp(269_199), &standard_delegations(), 1_000_000, 0),
        Err(HubError::BatchNotReady { earliest: 269_200 })
    );
    assert_eq!(
        submit_batch(&mut state, &mock_env_at_timestamp(269_200), &delegations(&[]), 1_000_000, 0),
        Err(HubError::NoValidators)
    );
    // more shares than the supply: their value exceeds what is bonded
    assert_eq!(
        submit_batch(&mut state, &mock_env_at_timestamp(269_200), &standard_delegations(), 99, 0),
        Err(HubError::Overflow)
    );
    assert_eq!(
        submit_batch(&mut state, &mock_env_at_timestamp(u64::MAX), &standard_delegations(), 1_000_000, 0),
        Err(HubError::Overflow)
    );
    assert_eq!(state, before);
    state.stake_token = None;
    assert_eq!(
        submit_batch(&mut state, &mock_env_at_timestamp(269_200), &standard_delegations(), 1_000_000, 0),
        Err(HubError::StakeTokenNotSet)
    );
}

fn state_with_batches(batches: Vec<Batch>) -> State {
    let mut state = setup_test();
    state.pending_batch.id = 5;
    state.previous_batches = batches;
    state
}

#[test]
fn reconcile_with_slashing() {
    let mut state = state_with_batches(vec![
        Batch { id: 1, reconciled: false, total_shares: 600, utoken_unclaimed: 600, est_unbond_end_time: 10_000 },
        Batch { id: 2, reconciled: false, total_shares: 400, utoken_unclaimed: 400, est_unbond_end_time: 20_000 },
        Batch { id: 3, reconciled: false, total_shares: 999, utoken_unclaimed: 999, est_unbond_end_time: 30_000 },
    ]);
    let res = reconcile(&mut state, &mock_env_at_timestamp(30_000), 980).unwrap();
    assert_eq!(
        state.previous_batches,
        vec![
            Batch { id: 1, reconciled: true, total_shares: 600, utoken_unclaimed: 588, est_unbond_end_time: 10_000 },
            Batch { id: 2, reconciled: true, total_shares: 400, utoken_unclaimed: 392, est_unbond_end_time: 20_000 },
            Batch { id: 3, reconciled: false, total_shares: 999, utoken_unclaimed: 999, est_unbond_end_time: 30_000 },
        ]
    );
    assert_eq!(res.messages, vec![]);
    assert_eq!(res.event, Some(HubEvent::Reconciled { ids: vec![1, 2], utoken_deducted: 20 }));
    assert_eq!(res.action, Some(Action::Reconcile));
}

#[test]
fn reconcile_without_deficit_is_idempotent() {
    let mut state = state_with_batches(vec![
        Batch { id: 1, reconciled: true, total_shares: 5, utoken_unclaimed: 7, est_unbond_end_time: 5_000 },
        Batch { id: 2, reconciled: false, total_shares: 600, utoken_unclaimed: 600, est_unbond_end_time: 10_000 },
        Batch { id: 3, reconciled: false, total_shares: 400, utoken_unclaimed: 400, est_unbond_end_time: 20_000 },
    ]);
    state.unlocked_coins = Coins(vec![coin(50, COIN_UTOKEN)]);
    let res = reconcile(&mut state, &mock_env_at_timestamp(20_001), 1050).unwrap();
    assert_eq!(res.event, Some(HubEvent::Reconciled { ids: vec![2, 3], utoken_deducted: 0 }));
    assert_eq!(
        state.previous_batches,
        vec![
            Batch { id: 1, reconciled: true, total_shares: 5, utoken_unclaimed: 7, est_unbond_end_time: 5_000 },
            Batch { id: 2, reconciled: true, total_shares: 600, utoken_unclaimed: 600, est_unbond_end_time: 10_000 },
            Batch { id: 3, reconciled: true, total_shares: 400, utoken_unclaimed: 400, est_unbond_end_time: 20_000 },
        ]
    );
    let once = state.clone();
    assert_eq!(reconcile(&mut state, &mock_env_at_timestamp(20_001), 1050), Ok(Response::new()));
    assert_eq!(state, once);
}

#[test]
fn reconcile_ignores_the_ledger_when_deducting() {
    let mut state = state_with_batches(vec![Batch {
        id: 1,
        reconciled: false,
        total_shares: 100,
        utoken_unclaimed: 1000,
        est_unbond_end_time: 10_000,
    }]);
    state.unlocked_coins = Coins(vec![coin(300, COIN_UTOKEN)]);
    // expected 1300, actual 1200: the batch carries the whole deficit
    let res = reconcile(&mut state, &mock_env_at_timestamp(10_001), 1200).unwrap();
    assert_eq!(res.event, Some(HubEvent::Reconciled { ids: vec![1], utoken_deducted: 100 }));
    assert_eq!(state.previous_batches[0].utoken_unclaimed, 900);
    assert_eq!(state.unlocked_coins.0, vec![coin(300, COIN_UTOKEN)]);
}

#[test]
fn reconcile_does_nothing_before_the_unbonding_ends() {
    let mut state = state_with_batches(vec![Batch {
        id: 1,
        reconciled: false,
        total_shares: 100,
        utoken_unclaimed: 1000,
        est_unbond_end_time: 10_000,
    }]);
    let before = state.clone();
    assert_eq!(reconcile(&mut state, &mock_env_at_timestamp(10_000), 0), Ok(Response::new()));
    assert_eq!(state, before);
    // a deficit larger than what the due batches hold cannot be deducted
    state.unlocked_coins = Coins(vec![coin(500, COIN_UTOKEN)]);
    let before = state.clone();
    assert_eq!(reconcile(&mut state, &mock_env_at_timestamp(10_001), 100), Err(HubError::Overflow));
    assert_eq!(state, before);
}

#[test]
fn withdraw_after_partial_reconcile() {
    let mut state = state_with_batches(vec![Batch {
        id: 2,
        reconciled: true,
        total_shares: 150,
        utoken_unclaimed: 392,
        est_unbond_end_time: 20_000,
    }]);
    state.unbond_requests = vec![UnbondRequest { id: 2, user: s("user_1"), shares: 150 }];
    let res =
        withdraw_unbonded(&mut state, &mock_env_at_timestamp(20_001), s("user_1"), s("receiver")).unwrap();
    assert_eq!(res.messages, vec![HubMsg::Send { to_address: s("receiver"), amount: 392 }]);
    assert_eq!(
        res.event,
        Some(HubEvent::UnbondedWithdrawn {
            time: 20_001,
            height: 12_345,
            ids: vec![2],
            user: s("user_1"),
            receiver: s("receiver"),
            utoken_refunded: 392,
        })
    );
    assert_eq!(res.action, Some(Action::WithdrawUnbonded));
    assert_eq!(state.previous_batches, vec![]);
    assert_eq!(state.unbond_requests, vec![]);
}

#[test]
fn withdrawing_unbonded() {
    let mut state = state_with_batches(vec![
        Batch { id: 1, reconciled: true, total_shares: 92_876, utoken_unclaimed: 95_197, est_unbond_end_time: 10_000 },
        Batch { id: 2, reconciled: true, total_shares: 1_345, utoken_unclaimed: 1_385, est_unbond_end_time: 20_000 },
        Batch { id: 3, reconciled: false, total_shares: 1_456, utoken_unclaimed: 1_506, est_unbond_end_time: 20_000 },
        Batch { id: 4, reconciled: true, total_shares: 1_567, utoken_unclaimed: 1_629, est_unbond_end_time: 40_000 },
    ]);
    state.unbond_requests = vec![
        UnbondRequest { id: 1, user: s("user_1"), shares: 23_456 },
        UnbondRequest { id: 1, user: s("user_3"), shares: 69_420 },
        UnbondRequest { id: 2, user: s("user_1"), shares: 1_345 },
        UnbondRequest { id: 3, user: s("user_1"), shares: 1_456 },
        UnbondRequest { id: 4, user: s("user_1"), shares: 1_567 },
        UnbondRequest { id: 9, user: s("user_1"), shares: 1 },
    ];
    let res =
        withdraw_unbonded(&mut state, &mock_env_at_timestamp(25_000), s("user_1"), s("user_1")).unwrap();
    // 95_197 * 23_456 / 92_876 = 24_042 and all of batch 2
    assert_eq!(res.messages, vec![HubMsg::Send { to_address: s("user_1"), amount: 24_042 + 1_385 }]);
    assert_eq!(
        state.previous_batches,
        vec![
            Batch { id: 1, reconciled: true, total_shares: 69_420, utoken_unclaimed: 71_155, est_unbond_end_time: 10_000 },
            Batch { id: 3, reconciled: false, total_shares: 1_456, utoken_unclaimed: 1_506, est_unbond_end_time: 20_000 },
            Batch { id: 4, reconciled: true, total_shares: 1_567, utoken_unclaimed: 1_629, est_unbond_end_time: 40_000 },
        ]
    );
    assert_eq!(
        state.unbond_requests,
        vec![
            UnbondRequest { id: 1, user: s("user_3"), shares: 69_420 },
            UnbondRequest { id: 3, user: s("user_1"), shares: 1_456 },
            UnbondRequest { id: 4, user: s("user_1"), shares: 1_567 },
            UnbondRequest { id: 9, user: s("user_1"), shares: 1 },
        ]
    );
    let res =
        withdraw_unbonded(&mut state, &mock_env_at_timestamp(25_000), s("user_3"), s("elsewhere")).unwrap();
    assert_eq!(res.messages, vec![HubMsg::Send { to_address: s("elsewhere"), amount: 71_155 }]);
    assert_eq!(state.previous_batches.len(), 2);
}

#[test]
fn withdrawing_reports_errors() {
    let mut state = state_with_batches(vec![
        Batch { id: 1, reconciled: true, total_shares: 0, utoken_unclaimed: 10, est_unbond_end_time: 10_000 },
        Batch { id: 2, reconciled: true, total_shares: 10, utoken_unclaimed: 10, est_unbond_end_time: 10_000 },
        Batch { id: 3, reconciled: false, total_shares: 10, utoken_unclaimed: 10, est_unbond_end_time: 10_000 },
        Batch { id: 4, reconciled: true, total_shares: 1_000, utoken_unclaimed: 10, est_unbond_end_time: 10_000 },
    ]);
    state.unbond_requests = vec![
        UnbondRequest { id: 1, user: s("zero"), shares: 5 },
        UnbondRequest { id: 2, user: s("greedy"), shares: 11 },
        UnbondRequest { id: 3, user: s("early"), shares: 10 },
        UnbondRequest { id: 4, user: s("tiny"), shares: 1 },
    ];
    let before = state.clone();
    let env = mock_env_at_timestamp(10_001);
    assert_eq!(withdraw_unbonded(&mut state, &env, s("zero"), s("r")), Err(HubError::DivideByZero));
    assert_eq!(withdraw_unbonded(&mut state, &env, s("greedy"), s("r")), Err(HubError::Overflow));
    assert_eq!(withdraw_unbonded(&mut state, &env, s("early"), s("r")), Err(HubError::NothingToWithdraw));
    assert_eq!(withdraw_unbonded(&mut state, &env, s("nobody"), s("r")), Err(HubError::NothingToWithdraw));
    // a refund that rounds down to nothing is no withdrawal
    assert_eq!(withdraw_unbonded(&mut state, &env, s("tiny"), s("r")), Err(HubError::NothingToWithdraw));
    assert_eq!(
        withdraw_unbonded(&mut state, &mock_env_at_timestamp(10_000), s("greedy"), s("r")),
        Err(HubError::NothingToWithdraw)
    );
    assert_eq!(state, before);
}

#[test]
fn bond_queue_submit_reconcile_withdraw_returns_the_deposit() {
    let mut state = setup_test();
    let deposit: u128 = 250_000;
    // at par: supply equals the total bonded
    let before = delegations(&[("alice", 400_000), ("bob", 300_000), ("charlie", 300_000)]);
    let res = bond(&state, &mock_env_at_timestamp(269_200), &before, 1_000_000, deposit, s("user_1"), deposit, false)
        .unwrap();
    assert_eq!(res.messages[0], HubMsg::Delegate { validator: s("bob"), amount: deposit });
    assert_eq!(res.messages[1], HubMsg::Mint { recipient: s("user_1"), amount: deposit });

    let after = delegations(&[("alice", 400_000), ("bob", 550_000), ("charlie", 300_000)]);
    let res = queue_unbond(&mut state, &mock_env_at_timestamp(269_200), s("user_1"), deposit).unwrap();
    assert_eq!(res.messages, vec![HubMsg::SubmitBatch]);
    let res = submit_batch(&mut state, &mock_env_at_timestamp(269_200), &after, 1_250_000, 0).unwrap();
    // alice and bob are lowered to 350_000, charlie is below that already
    assert_eq!(res.messages[0], Undelegation::new("alice", 50_000).to_msg());
    assert_eq!(res.messages[1], Undelegation::new("bob", 200_000).to_msg());
    assert_eq!(res.messages[2], HubMsg::Burn { amount: deposit });
    assert_eq!(state.previous_batches[0].utoken_unclaimed, deposit);

    let end = 269_200 + 1_814_400 + 1;
    reconcile(&mut state, &mock_env_at_timestamp(end), deposit).unwrap();
    let res = withdraw_unbonded(&mut state, &mock_env_at_timestamp(end), s("user_1"), s("user_1")).unwrap();
    assert_eq!(res.messages, vec![HubMsg::Send { to_address: s("user_1"), amount: deposit }]);
    assert_eq!(state.previous_batches, vec![]);
    assert_eq!(state.unbond_requests, vec![]);
}

#[test]
fn balanced_rebalance() {
    let res = rebalance(&standard_delegations(), 55).unwrap();
    assert_eq!(res.messages, vec![snapshot(55)]);
    assert_eq!(res.event, Some(HubEvent::Rebalanced { utoken_moved: 0 }));
    assert_eq!(res.action, Some(Action::Rebalance));
}

#[test]
fn rebalancing() {
    let d = delegations(&[
        ("alice", 69420),
        ("bob", 1234),
        ("charlie", 88888),
        ("dave", 40471),
        ("evan", 2345),
    ]);
    let res = rebalance(&d, 0).unwrap();
    assert_eq!(
        res.messages,
        vec![
            Redelegation::new("alice", "bob", 28948).to_msg(),
            Redelegation::new("charlie", "bob", 10290).to_msg(),
            Redelegation::new("charlie", "evan", 38126).to_msg(),
            snapshot(0),
        ]
    );
    assert_eq!(res.event, Some(HubEvent::Rebalanced { utoken_moved: 77364 }));
    assert_eq!(rebalance(&delegations(&[]), 0), Err(HubError::NoValidators));
    assert_eq!(
        rebalance(&delegations(&[("a", u128::MAX), ("b", 1)]), 0),
        Err(HubError::Overflow)
    );
}

#[test]
fn adding_validator() {
    let mut state = setup_test();
    let before = state.clone();
    assert_eq!(add_validator(&mut state, &s("jake"), s("dave")), Err(HubError::NotOwner));
    assert_eq!(
        add_validator(&mut state, &s("owner"), s("alice")),
        Err(HubError::ValidatorAlreadyWhitelisted)
    );
    assert_eq!(state, before);
    let res = add_validator(&mut state, &s("owner"), s("dave")).unwrap();
    assert_eq!(res.messages.len(), 0);
    assert_eq!(res.event, Some(HubEvent::ValidatorAdded { validator: s("dave") }));
    assert_eq!(res.action, Some(Action::AddValidator));
    assert_eq!(state.validators, vec![s("alice"), s("bob"), s("charlie"), s("dave")]);
}

#[test]
fn removing_validator() {
    let mut state = setup_test();
    let remaining = delegations(&[("bob", 341667), ("charlie", 341666)]);
    let leaving = Delegation::new("alice", 341667);
    let before = state.clone();
    assert_eq!(
        remove_validator(&mut state, &s("jake"), s("alice"), &remaining, &leaving, 0),
        Err(HubError::NotOwner)
    );
    assert_eq!(
        remove_validator(&mut state, &s("owner"), s("dave"), &remaining, &leaving, 0),
        Err(HubError::ValidatorNotWhitelisted)
    );
    assert_eq!(
        remove_validator(&mut state, &s("owner"), s("alice"), &delegations(&[]), &leaving, 0),
        Err(HubError::NoValidators)
    );
    assert_eq!(state, before);
    // total 1_025_000: shares 512_500 each
    let res = remove_validator(&mut state, &s("owner"), s("alice"), &remaining, &leaving, 9).unwrap();
    assert_eq!(
        res.messages,
        vec![
            Redelegation::new("alice", "bob", 170833).to_msg(),
            Redelegation::new("alice", "charlie", 170834).to_msg(),
            snapshot(9),
        ]
    );
    assert_eq!(res.event, Some(HubEvent::ValidatorRemoved { validator: s("alice") }));
    assert_eq!(res.action, Some(Action::RemoveValidator));
    assert_eq!(state.validators, vec![s("bob"), s("charlie")]);
}

#[test]
fn transferring_ownership() {
    let mut state = setup_test();
    assert_eq!(transfer_ownership(&mut state, &s("jake"), s("jake")), Err(HubError::NotOwner));
    assert_eq!(accept_ownership(&mut state, s("jake")), Err(HubError::NotNewOwner));
    let res = transfer_ownership(&mut state, &s("owner"), s("jake")).unwrap();
    assert_eq!(res.messages.len(), 0);
    assert_eq!(res.action, Some(Action::TransferOwnership));
    assert_eq!(state.owner, s("owner"));
    assert_eq!(state.new_owner, Some(s("jake")));
    assert_eq!(accept_ownership(&mut state, s("pumpkin")), Err(HubError::NotNewOwner));
    let res = accept_ownership(&mut state, s("jake")).unwrap();
    assert_eq!(
        res.event,
        Some(HubEvent::OwnershipTransferred { new_owner: s("jake"), previous_owner: s("owner") })
    );
    assert_eq!(state.owner, s("jake"));
    assert_eq!(state.new_owner, None);
}

#[test]
fn updating_config() {
    let mut state = setup_test();
    let before = state.clone();
    assert_eq!(
        update_config(&mut state, &s("jake"), Some(s("x")), None),
        Err(HubError::NotOwner)
    );
    assert_eq!(
        update_config(&mut state, &s("owner"), Some(s("x")), Some(Decimal::percent(11))),
        Err(HubError::FeeTooHigh)
    );
    assert_eq!(state, before);
    let res = update_config(&mut state, &s("owner"), None, None).unwrap();
    assert_eq!(res, Response::new().add_optional_message(None).add_action(Action::UpdateConfig));
    assert_eq!(state, before);
    update_config(&mut state, &s("owner"), Some(s("fee-new")), None).unwrap();
    assert_eq!(
        state.fee_config,
        FeeConfig { protocol_fee_contract: s("fee-new"), protocol_reward_fee: Decimal::percent(1) }
    );
    update_config(&mut state, &s("owner"), None, Some(Decimal::percent(10))).unwrap();
    assert_eq!(
        state.fee_config,
        FeeConfig { protocol_fee_contract: s("fee-new"), protocol_reward_fee: Decimal::percent(10) }
    );
}

#[test]
fn optional_message_is_appended_only_when_present() {
    let base = Response::new().add_message(HubMsg::Reinvest);
    let with = base.clone().add_optional_message(Some(HubMsg::SubmitBatch));
    assert_eq!(with.messages, vec![HubMsg::Reinvest, HubMsg::SubmitBatch]);
    let without = base.clone().add_optional_message(None);
    assert_eq!(without, base);
}

#[test]
fn state_summary_adds_up() {
    let mut state = state_with_batches(vec![
        Batch { id: 1, reconciled: true, total_shares: 5, utoken_unclaimed: 7, est_unbond_end_time: 5_000 },
        Batch { id: 2, reconciled: false, total_shares: 600, utoken_unclaimed: 600, est_unbond_end_time: 10_000 },
    ]);
    state.unlocked_coins = Coins(vec![coin(50, COIN_UTOKEN)]);
    let res = query_state(&state, 1_000_000, &standard_delegations(), 120).unwrap();
    assert_eq!(
        res,
        StateResponse {
            total_ustake: 1_000_000,
            total_utoken: 1_025_000,
            exchange_rate: Decimal::from_ratio(1_025_000, 1_000_000).unwrap(),
            unlocked_coins: vec![coin(50, COIN_UTOKEN)],
            unbonding: 600,
            available: 120,
            tvl_utoken: 1_025_720,
        }
    );
    assert_eq!(
        query_state(&state, 1, &standard_delegations(), u128::MAX),
        Err(HubError::Overflow)
    );
}

#[test]
fn names_of_actions_events_and_errors() {
    assert_eq!(Action::Bond.name(), "erishub/bond");
    assert_eq!(Action::Unbond.name(), "erishub/unbond");
    assert_eq!(Action::CallbackReceivedCoins.name(), "erishub/callback_received_coins");
    assert_eq!(HubEvent::Rebalanced { utoken_moved: 1 }.name(), "erishub/rebalanced");
    assert_eq!(HubEvent::ReceivedCoins { received: vec![] }.name(), "erishub/callback_received_coins");
    assert_eq!(
        HubEvent::OwnershipTransferred { new_owner: s("a"), previous_owner: s("b") }.name(),
        "erishub/ownership_transferred"
    );
    assert_eq!(HubError::NothingToWithdraw.reason(), "withdrawable amount is zero");
    assert_eq!(HubError::FeeTooHigh.reason(), "'protocol_reward_fee' greater than max");
    assert_eq!(
        HubError::BatchNotReady { earliest: 269_200 }.reason(),
        "batch can only be submitted for unbonding after"
    );
}

fn requested(state: &State) -> u128 {
    state.unbond_requests.iter().map(|r| r.shares).sum()
}

fn outstanding(state: &State) -> u128 {
    state.previous_batches.iter().map(|b| b.total_shares).sum::<u128>()
        + state.pending_batch.ustake_to_burn
}

#[test]
fn shares_of_requests_match_shares_of_batches_throughout() {
    let mut state = setup_test();
    let d = delegations(&[("alice", 400_000), ("bob", 300_000), ("charlie", 300_000)]);
    assert_eq!(requested(&state), outstanding(&state));
    queue_unbond(&mut state, &mock_env_at_timestamp(10_000), s("user_1"), 700).unwrap();
    queue_unbond(&mut state, &mock_env_at_timestamp(10_000), s("user_2"), 300).unwrap();
    assert_eq!((requested(&state), outstanding(&state)), (1000, 1000));
    submit_batch(&mut state, &mock_env_at_timestamp(269_200), &d, 1_000_000, 0).unwrap();
    queue_unbond(&mut state, &mock_env_at_timestamp(269_201), s("user_1"), 50).unwrap();
    assert_eq!((requested(&state), outstanding(&state)), (1050, 1050));
    let end = 269_200 + 1_814_400 + 1;
    reconcile(&mut state, &mock_env_at_timestamp(end), 990).unwrap();
    assert_eq!((requested(&state), outstanding(&state)), (1050, 1050));
    assert_eq!(state.previous_batches[0].utoken_unclaimed, 990);
    let res = withdraw_unbonded(&mut state, &mock_env_at_timestamp(end), s("user_1"), s("user_1")).unwrap();
    assert_eq!(res.messages, vec![HubMsg::Send { to_address: s("user_1"), amount: 693 }]);
    assert_eq!((requested(&state), outstanding(&state)), (350, 350));
    for batch in &state.previous_batches {
        assert!(batch.total_shares > 0);
    }
    let res = withdraw_unbonded(&mut state, &mock_env_at_timestamp(end), s("user_2"), s("user_2")).unwrap();
    assert_eq!(res.messages, vec![HubMsg::Send { to_address: s("user_2"), amount: 297 }]);
    assert_eq!(state.previous_batches, vec![]);
    assert_eq!((requested(&state), outstanding(&state)), (50, 50));
}

#[test]
fn querying_batches_and_requests() {
    let b = |id: u64| Batch {
        id,
        reconciled: id % 2 == 0,
        total_shares: 10,
        utoken_unclaimed: 10,
        est_unbond_end_time: 1_000 * id,
    };
    let mut state = state_with_batches(vec![b(1), b(2), b(3), b(4)]);
    state.unbond_requests = vec![
        UnbondRequest { id: 1, user: s("alice"), shares: 123 },
        UnbondRequest { id: 1, user: s("bob"), shares: 234 },
        UnbondRequest { id: 2, user: s("alice"), shares: 345 },
        UnbondRequest { id: 2, user: s("charlie"), shares: 456 },
    ];
    assert_eq!(query_previous_batches(&state, None, None), vec![b(1), b(2), b(3), b(4)]);
    assert_eq!(query_previous_batches(&state, Some(2), None), vec![b(3), b(4)]);
    assert_eq!(query_previous_batches(&state, Some(1), Some(2)), vec![b(2), b(3)]);
    assert_eq!(query_previous_batches(&state, None, Some(0)), vec![]);
    assert_eq!(query_previous_batches(&state, Some(4), Some(5)), vec![]);
    assert_eq!(
        query_unbond_requests_by_batch(&state, 1),
        vec![
            UnbondRequest { id: 1, user: s("alice"), shares: 123 },
            UnbondRequest { id: 1, user: s("bob"), shares: 234 },
        ]
    );
    assert_eq!(query_unbond_requests_by_batch(&state, 3), vec![]);
    assert_eq!(
        query_unbond_requests_by_user(&state, &s("alice")),
        vec![
            UnbondRequest { id: 1, user: s("alice"), shares: 123 },
            UnbondRequest { id: 2, user: s("alice"), shares: 345 },
        ]
    );
    assert_eq!(query_unbond_requests_by_user(&state, &s("jake")), vec![]);
}
