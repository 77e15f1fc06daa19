use vstd::prelude::*;
use crate::coins::coin_views;
use crate::decimal::Decimal;
use crate::types::{Coin, CoinView, Delegation, Redelegation, SendFee, Undelegation};

verus! {

/// Identifier under which the reply to the token instantiation is expected.
pub const REPLY_INSTANTIATE_TOKEN: u64 = 1;

/// Label given to the receipt-token contract.
pub const TOKEN_LABEL: &'static str = "Eris Liquid Staking Token";

/// Where and when an operation runs.
#[derive(Debug, Clone, PartialEq, Eq)]
pub struct Env {
    /// Block time in seconds.
    pub time: u64,
    /// Block height.
    pub height: u64,
    /// Address of the hub itself.
    pub contract_address: String,
}

/// Parameters of the hub's creation.
#[derive(Debug, Clone, PartialEq, Eq)]
pub struct InstantiateMsg {
    pub cw20_code_id: u64,
    pub owner: String,
    pub name: String,
    pub symbol: String,
    pub decimals: u8,
    pub epoch_period: u64,
    pub unbond_period: u64,
    pub validators: Vec<String>,
    pub protocol_fee_contract: String,
    pub protocol_reward_fee: Decimal,
}

/// A message the hub asks its host to carry out after the current operation.
#[derive(Debug, Clone, PartialEq, Eq)]
pub enum HubMsg {
    /// Delegate bondable tokens to a validator.
    Delegate { validator: String, amount: u128 },
    /// Withdraw bonded tokens from a validator.
    Undelegate { validator: String, amount: u128 },
    /// Move bonded tokens from one validator to another.
    Redelegate { src: String, dst: String, amount: u128 },
    /// Collect the staking rewards accrued with a validator.
    WithdrawDelegatorReward { validator: String },
    /// Mint receipt tokens.
    Mint { recipient: String, amount: u128 },
    /// Burn receipt tokens held by the hub.
    Burn { amount: u128 },
    /// Send bondable tokens from the hub's balance.
    Send { to_address: String, amount: u128 },
    /// Call back into the hub to compare its balance with a snapshot.
    CheckReceivedCoin { snapshot: Coin },
    /// Call back into the hub to reinvest what the ledger holds.
    Reinvest,
    /// Call back into the hub to submit the pending batch.
    SubmitBatch,
    /// Create the receipt-token contract and report back.
    InstantiateToken {
        admin: String,
        code_id: u64,
        name: String,
        symbol: String,
        decimals: u8,
        minter: String,
    },
}

/// Mathematical content of a [`HubMsg`].
pub ghost enum HubMsgView {
    Delegate { validator: Seq<char>, amount: nat },
    Undelegate { validator: Seq<char>, amount: nat },
    Redelegate { src: Seq<char>, dst: Seq<char>, amount: nat },
    WithdrawDelegatorReward { validator: Seq<char> },
    Mint { recipient: Seq<char>, amount: nat },
    Burn { amount: nat },
    Send { to_address: Seq<char>, amount: nat },
    CheckReceivedCoin { snapshot: CoinView },
    Reinvest,
    SubmitBatch,
    InstantiateToken {
        admin: Seq<char>,
        code_id: u64,
        name: Seq<char>,
        symbol: Seq<char>,
        decimals: u8,
        minter: Seq<char>,
    },
}

impl View for HubMsg {
    type V = HubMsgView;

    open spec fn view(&self) -> HubMsgView {
        match *self {
            HubMsg::Delegate { validator, amount } => HubMsgView::Delegate {
                validator: validator@,
                amount: amount as nat,
            },
            HubMsg::Undelegate { validator, amount } => HubMsgView::Undelegate {
                validator: validator@,
                amount: amount as nat,
            },
            HubMsg::Redelegate { src, dst, amount } => HubMsgView::Redelegate {
                src: src@,
                dst: dst@,
                amount: amount as nat,
            },
            HubMsg::WithdrawDelegatorReward { validator } => HubMsgView::WithdrawDelegatorReward {
                validator: validator@,
            },
            HubMsg::Mint { recipient, amount } => HubMsgView::Mint {
                recipient: recipient@,
                amount: amount as nat,
            },
            HubMsg::Burn { amount } => HubMsgView::Burn { amount: amount as nat },
            HubMsg::Send { to_address, amount } => HubMsgView::Send {
                to_address: to_address@,
                amount: amount as nat,
            },
            HubMsg::CheckReceivedCoin { snapshot } => HubMsgView::CheckReceivedCoin {
                snapshot: snapshot@,
            },
            HubMsg::Reinvest => HubMsgView::Reinvest,
            HubMsg::SubmitBatch => HubMsgView::SubmitBatch,
            HubMsg::InstantiateToken {
                admin,
                code_id,
                name,
                symbol,
                decimals,
                minter,
            } => HubMsgView::InstantiateToken {
                admin: admin@,
                code_id,
                name: name@,
                symbol: symbol@,
                decimals,
                minter: minter@,
            },
        }
    }
}

/// The mathematical contents of a list of messages.
pub open spec fn msg_views(m: Seq<HubMsg>) -> Seq<HubMsgView> {
    m.map_values(|x: HubMsg| x@)
}

/// A record of what an operation did.
#[derive(Debug, Clone, PartialEq, Eq)]
pub enum HubEvent {
    Bonded { time: u64, height: u64, receiver: String, token_bonded: u128, ustake_minted: u128 },
    Harvested { time: u64, height: u64, utoken_bonded: u128, utoken_protocol_fee: u128 },
    /// Coins found on the balance beyond the snapshot.
    ReceivedCoins { received: Vec<Coin> },
    /// `est_unbond_start_time` is `None` when the batch is submitted at once.
    UnbondQueued {
        time: u64,
        est_unbond_start_time: Option<u64>,
        height: u64,
        id: u64,
        receiver: String,
        ustake_to_burn: u128,
    },
    UnbondSubmitted { time: u64, height: u64, id: u64, utoken_unbonded: u128, ustake_burned: u128 },
    Reconciled { ids: Vec<u64>, utoken_deducted: u128 },
    UnbondedWithdrawn {
        time: u64,
        height: u64,
        ids: Vec<u64>,
        user: String,
        receiver: String,
        utoken_refunded: u128,
    },
    Rebalanced { utoken_moved: u128 },
    ValidatorAdded { validator: String },
    ValidatorRemoved { validator: String },
    OwnershipTransferred { new_owner: String, previous_owner: String },
}

/// Mathematical content of a [`HubEvent`].
pub ghost enum HubEventView {
    Bonded { time: u64, height: u64, receiver: Seq<char>, token_bonded: nat, ustake_minted: nat },
    Harvested { time: u64, height: u64, utoken_bonded: nat, utoken_protocol_fee: nat },
    ReceivedCoins { received: Seq<CoinView> },
    UnbondQueued {
        time: u64,
        est_unbond_start_time: Option<u64>,
        height: u64,
        id: u64,
        receiver: Seq<char>,
        ustake_to_burn: nat,
    },
    UnbondSubmitted { time: u64, height: u64, id: u64, utoken_unbonded: nat, ustake_burned: nat },
    Reconciled { ids: Seq<u64>, utoken_deducted: nat },
    UnbondedWithdrawn {
        time: u64,
        height: u64,
        ids: Seq<u64>,
        user: Seq<char>,
        receiver: Seq<char>,
        utoken_refunded: nat,
    },
    Rebalanced { utoken_moved: nat },
    ValidatorAdded { validator: Seq<char> },
    ValidatorRemoved { validator: Seq<char> },
    OwnershipTransferred { new_owner: Seq<char>, previous_owner: Seq<char> },
}

impl View for HubEvent {
    type V = HubEventView;

    open spec fn view(&self) -> HubEventView {
        match *self {
            HubEvent::Bonded {
                time,
                height,
                receiver,
                token_bonded,
                ustake_minted,
            } => HubEventView::Bonded {
                time,
                height,
                receiver: receiver@,
                token_bonded: token_bonded as nat,
                ustake_minted: ustake_minted as nat,
            },
            HubEvent::Harvested {
                time,
                height,
                utoken_bonded,
                utoken_protocol_fee,
            } => HubEventView::Harvested {
                time,
                height,
                utoken_bonded: utoken_bonded as nat,
                utoken_protocol_fee: utoken_protocol_fee as nat,
            },
            HubEvent::ReceivedCoins { received } => HubEventView::ReceivedCoins {
                received: coin_views(received@),
            },
            HubEvent::UnbondQueued {
                time,
                est_unbond_start_time,
                height,
                id,
                receiver,
                ustake_to_burn,
            } => HubEventView::UnbondQueued {
                time,
                est_unbond_start_time,
                height,
                id,
                receiver: receiver@,
                ustake_to_burn: ustake_to_burn as nat,
            },
            HubEvent::UnbondSubmitted {
                time,
                height,
                id,
                utoken_unbonded,
                ustake_burned,
            } => HubEventView::UnbondSubmitted {
                time,
                height,
                id,
                utoken_unbonded: utoken_unbonded as nat,
                ustake_burned: ustake_burned as nat,
            },
            HubEvent::Reconciled { ids, utoken_deducted } => HubEventView::Reconciled {
                ids: ids@,
                utoken_deducted: utoken_deducted as nat,
            },
            HubEvent::UnbondedWithdrawn {
                time,
                height,
                ids,
                user,
                receiver,
                utoken_refunded,
            } => HubEventView::UnbondedWithdrawn {
                time,
                height,
                ids: ids@,
                user: user@,
                receiver: receiver@,
                utoken_refunded: utoken_refunded as nat,
            },
            HubEvent::Rebalanced { utoken_moved } => HubEventView::Rebalanced {
                utoken_moved: utoken_moved as nat,
            },
            HubEvent::ValidatorAdded { validator } => HubEventView::ValidatorAdded {
                validator: validator@,
            },
            HubEvent::ValidatorRemoved { validator } => HubEventView::ValidatorRemoved {
                validator: validator@,
            },
            HubEvent::OwnershipTransferred {
                new_owner,
                previous_owner,
            } => HubEventView::OwnershipTransferred {
                new_owner: new_owner@,
                previous_owner: previous_owner@,
            },
        }
    }
}

/// The operation a response belongs to.
#[derive(Debug, Clone, Copy, PartialEq, Eq, Structural)]
pub enum Action {
    Bond,
    Harvest,
    Reinvest,
    CallbackReceivedCoins,
    QueueUnbond,
    Unbond,
    Reconcile,
    WithdrawUnbonded,
    Rebalance,
    AddValidator,
    RemoveValidator,
    TransferOwnership,
    UpdateConfig,
}

impl Action {
    /// The name under which the host records the operation.
    pub open spec fn name_text(self) -> Seq<char> {
        match self {
            Action::Bond => "erishub/bond"@,
            Action::Harvest => "erishub/harvest"@,
            Action::Reinvest => "erishub/reinvest"@,
            Action::CallbackReceivedCoins => "erishub/callback_received_coins"@,
            Action::QueueUnbond => "erishub/queue_unbond"@,
            Action::Unbond => "erishub/unbond"@,
            Action::Reconcile => "erishub/reconcile"@,
            Action::WithdrawUnbonded => "erishub/withdraw_unbonded"@,
            Action::Rebalance => "erishub/rebalance"@,
            Action::AddValidator => "erishub/add_validator"@,
            Action::RemoveValidator => "erishub/remove_validator"@,
            Action::TransferOwnership => "erishub/transfer_ownership"@,
            Action::UpdateConfig => "erishub/update_config"@,
        }
    }

    /// The name under which the host records the operation.
    pub fn name(&self) -> (r: &'static str)
        ensures
            r@ == self.name_text(),
    {
        match self {
            Action::Bond => "erishub/bond",
            Action::Harvest => "erishub/harvest",
            Action::Reinvest => "erishub/reinvest",
            Action::CallbackReceivedCoins => "erishub/callback_received_coins",
            Action::QueueUnbond => "erishub/queue_unbond",
            Action::Unbond => "erishub/unbond",
            Action::Reconcile => "erishub/reconcile",
            Action::WithdrawUnbonded => "erishub/withdraw_unbonded",
            Action::Rebalance => "erishub/rebalance",
            Action::AddValidator => "erishub/add_validator",
            Action::RemoveValidator => "erishub/remove_validator",
            Action::TransferOwnership => "erishub/transfer_ownership",
            Action::UpdateConfig => "erishub/update_config",
        }
    }
}

impl HubEventView {
    /// The type under which the host records the event.
    pub open spec fn name_text(self) -> Seq<char> {
        match self {
            HubEventView::Bonded { .. } => "erishub/bonded"@,
            HubEventView::Harvested { .. } => "erishub/harvested"@,
            HubEventView::ReceivedCoins { .. } => "erishub/callback_received_coins"@,
            HubEventView::UnbondQueued { .. } => "erishub/unbond_queued"@,
            HubEventView::UnbondSubmitted { .. } => "erishub/unbond_submitted"@,
            HubEventView::Reconciled { .. } => "erishub/reconciled"@,
            HubEventView::UnbondedWithdrawn { .. } => "erishub/unbonded_withdrawn"@,
            HubEventView::Rebalanced { .. } => "erishub/rebalanced"@,
            HubEventView::ValidatorAdded { .. } => "erishub/validator_added"@,
            HubEventView::ValidatorRemoved { .. } => "erishub/validator_removed"@,
            HubEventView::OwnershipTransferred { .. } => "erishub/ownership_transferred"@,
        }
    }
}

impl HubEvent {
    /// The type under which the host records the event.
    pub fn name(&self) -> (r: &'static str)
        ensures
            r@ == self@.name_text(),
    {
        match self {
            HubEvent::Bonded { .. } => "erishub/bonded",
            HubEvent::Harvested { .. } => "erishub/harvested",
            HubEvent::ReceivedCoins { .. } => "erishub/callback_received_coins",
            HubEvent::UnbondQueued { .. } => "erishub/unbond_queued",
            HubEvent::UnbondSubmitted { .. } => "erishub/unbond_submitted",
            HubEvent::Reconciled { .. } => "erishub/reconciled",
            HubEvent::UnbondedWithdrawn { .. } => "erishub/unbonded_withdrawn",
            HubEvent::Rebalanced { .. } => "erishub/rebalanced",
            HubEvent::ValidatorAdded { .. } => "erishub/validator_added",
            HubEvent::ValidatorRemoved { .. } => "erishub/validator_removed",
            HubEvent::OwnershipTransferred { .. } => "erishub/ownership_transferred",
        }
    }
}

/// What an operation hands back to the host: messages to carry out in
/// order, at most one event, and the name of the operation.
#[derive(Debug, Clone, PartialEq, Eq)]
pub struct Response {
    pub messages: Vec<HubMsg>,
    pub event: Option<HubEvent>,
    pub action: Option<Action>,
}

/// Mathematical content of a [`Response`].
pub ghost struct ResponseView {
    pub messages: Seq<HubMsgView>,
    pub event: Option<HubEventView>,
    pub action: Option<Action>,
}

impl View for Response {
    type V = ResponseView;

    open spec fn view(&self) -> ResponseView {
        ResponseView {
            messages: msg_views(self.messages@),
            event: match self.event {
                Some(e) => Some(e@),
                None => None,
            },
            action: self.action,
        }
    }
}

/// Appending a message only when there is one.
pub trait CustomResponse: Sized {
    fn add_optional_message(self, msg: Option<HubMsg>) -> Self;
}

impl Response {
    /// A response without messages, event or action.
    pub fn new() -> (r: Self)
        ensures
            r@ == (ResponseView { messages: Seq::empty(), event: None, action: None }),
    {
        let r = Response { messages: Vec::new(), event: None, action: None };
        assert(r@.messages =~= Seq::<HubMsgView>::empty());
        r
    }

    /// Appends a message.
    pub fn add_message(self, msg: HubMsg) -> (r: Self)
        ensures
            r@ == (ResponseView { messages: self@.messages.push(msg@), ..self@ }),
    {
        let mut r = self;
        r.messages.push(msg);
        assert(r@.messages =~= self@.messages.push(msg@));
        r
    }

    /// Appends messages in order.
    pub fn add_messages(self, msgs: Vec<HubMsg>) -> (r: Self)
        ensures
            r@ == (ResponseView { messages: self@.messages + msg_views(msgs@), ..self@ }),
    {
        let mut r = self;
        let mut msgs = msgs;
        let ghost all = msgs@;
        r.messages.append(&mut msgs);
        assert(r@.messages =~= self@.messages + msg_views(all));
        r
    }

    /// Sets the event.
    pub fn add_event(self, event: HubEvent) -> (r: Self)
        ensures
            r@ == (ResponseView { event: Some(event@), ..self@ }),
    {
        let mut r = self;
        r.event = Some(event);
        r
    }

    /// Sets the action.
    pub fn add_action(self, action: Action) -> (r: Self)
        ensures
            r@ == (ResponseView { action: Some(action), ..self@ }),
    {
        let mut r = self;
        r.action = Some(action);
        r
    }
}

impl CustomResponse for Response {
    /// Appends the message if there is one, and otherwise changes nothing.
    fn add_optional_message(self, msg: Option<HubMsg>) -> (r: Self)
        ensures
            r@ == (ResponseView {
                messages: match msg {
                    Some(m) => self@.messages.push(m@),
                    None => self@.messages,
                },
                ..self@
            }),
    {
        match msg {
            Some(m) => self.add_message(m),
            None => self,
        }
    }
}

impl Delegation {
    /// The message that carries out the delegation.
    pub fn to_msg(&self) -> (m: HubMsg)
        ensures
            m@ == (HubMsgView::Delegate { validator: self.validator@, amount: self.amount as nat }),
    {
        HubMsg::Delegate { validator: self.validator.clone(), amount: self.amount }
    }
}

impl SendFee {
    /// The message that carries out the payment.
    pub fn to_msg(&self) -> (m: HubMsg)
        ensures
            m@ == (HubMsgView::Send { to_address: self.to_address@, amount: self.amount as nat }),
    {
        HubMsg::Send { to_address: self.to_address.clone(), amount: self.amount }
    }
}

impl Undelegation {
    /// The message that carries out the undelegation.
    pub fn to_msg(&self) -> (m: HubMsg)
        ensures
            m@ == (HubMsgView::Undelegate { validator: self.validator@, amount: self.amount as nat }),
    {
        HubMsg::Undelegate { validator: self.validator.clone(), amount: self.amount }
    }
}

impl Redelegation {
    /// The message that carries out the redelegation.
    pub fn to_msg(&self) -> (m: HubMsg)
        ensures
            m@ == (HubMsgView::Redelegate {
                src: self.src@,
                dst: self.dst@,
                amount: self.amount as nat,
            }),
    {
        HubMsg::Redelegate { src: self.src.clone(), dst: self.dst.clone(), amount: self.amount }
    }
}

} // verus!
