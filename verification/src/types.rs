use vstd::prelude::*;

verus! {

/// The one denomination that can be bonded.
pub const CONTRACT_DENOM: &'static str = "ujuno";

/// The view of the bondable denomination.
pub open spec fn contract_denom() -> Seq<char> {
    CONTRACT_DENOM@
}

/// Stake held with one validator.
#[derive(Debug, PartialEq, Eq)]
pub struct Delegation {
    pub validator: String,
    pub amount: u128,
}

/// Mathematical content of a [`Delegation`]. An [`Undelegation`] has the same
/// content: a validator and an amount.
pub ghost struct StakeView {
    pub validator: Seq<char>,
    pub amount: nat,
}

impl View for Delegation {
    type V = StakeView;

    open spec fn view(&self) -> StakeView {
        StakeView { validator: self.validator@, amount: self.amount as nat }
    }
}

impl Clone for Delegation {
    fn clone(&self) -> (r: Self)
        ensures
            r == *self,
    {
        Delegation { validator: self.validator.clone(), amount: self.amount }
    }
}

impl Delegation {
    pub fn new(validator: &str, amount: u128) -> (r: Self)
        ensures
            r@ == (StakeView { validator: validator@, amount: amount as nat }),
    {
        Delegation { validator: validator.to_owned(), amount }
    }
}

/// Stake to be withdrawn from one validator.
#[derive(Debug, PartialEq, Eq)]
pub struct Undelegation {
    pub validator: String,
    pub amount: u128,
}

impl View for Undelegation {
    type V = StakeView;

    open spec fn view(&self) -> StakeView {
        StakeView { validator: self.validator@, amount: self.amount as nat }
    }
}

impl Clone for Undelegation {
    fn clone(&self) -> (r: Self)
        ensures
            r == *self,
    {
        Undelegation { validator: self.validator.clone(), amount: self.amount }
    }
}

impl Undelegation {
    pub fn new(validator: &str, amount: u128) -> (r: Self)
        ensures
            r@ == (StakeView { validator: validator@, amount: amount as nat }),
    {
        Undelegation { validator: validator.to_owned(), amount }
    }
}

/// Stake to be moved from one validator to another.
#[derive(Debug, PartialEq, Eq)]
pub struct Redelegation {
    pub src: String,
    pub dst: String,
    pub amount: u128,
}

/// Mathematical content of a [`Redelegation`].
pub ghost struct RedelegationView {
    pub src: Seq<char>,
    pub dst: Seq<char>,
    pub amount: nat,
}

impl View for Redelegation {
    type V = RedelegationView;

    open spec fn view(&self) -> RedelegationView {
        RedelegationView { src: self.src@, dst: self.dst@, amount: self.amount as nat }
    }
}

impl Clone for Redelegation {
    fn clone(&self) -> (r: Self)
        ensures
            r == *self,
    {
        Redelegation { src: self.src.clone(), dst: self.dst.clone(), amount: self.amount }
    }
}

impl Redelegation {
    pub fn new(src: &str, dst: &str, amount: u128) -> (r: Self)
        ensures
            r@ == (RedelegationView { src: src@, dst: dst@, amount: amount as nat }),
    {
        Redelegation { src: src.to_owned(), dst: dst.to_owned(), amount }
    }
}

/// A payment of bondable tokens out of the hub's balance.
#[derive(Debug, PartialEq, Eq)]
pub struct SendFee {
    pub to_address: String,
    pub amount: u128,
}

impl SendFee {
    pub fn new(to_address: &str, amount: u128) -> (r: Self)
        ensures
            r.to_address@ == to_address@,
            r.amount == amount,
    {
        SendFee { to_address: to_address.to_owned(), amount }
    }
}

/// An amount of one denomination.
#[derive(Debug, PartialEq, Eq)]
pub struct Coin {
    pub denom: String,
    pub amount: u128,
}

/// Mathematical content of a [`Coin`].
pub ghost struct CoinView {
    pub denom: Seq<char>,
    pub amount: nat,
}

impl View for Coin {
    type V = CoinView;

    open spec fn view(&self) -> CoinView {
        CoinView { denom: self.denom@, amount: self.amount as nat }
    }
}

impl Clone for Coin {
    fn clone(&self) -> (r: Self)
        ensures
            r == *self,
    {
        Coin { denom: self.denom.clone(), amount: self.amount }
    }
}

impl Coin {
    pub fn new(amount: u128, denom: &str) -> (r: Self)
        ensures
            r@ == (CoinView { denom: denom@, amount: amount as nat }),
    {
        Coin { denom: denom.to_owned(), amount }
    }
}

/// The batch that currently collects unbonding requests.
#[derive(Debug, Clone, Copy, PartialEq, Eq, Structural)]
pub struct PendingBatch {
    pub id: u64,
    pub ustake_to_burn: u128,
    pub est_unbond_start_time: u64,
}

/// A submitted batch, kept until every share in it has been withdrawn.
#[derive(Debug, Clone, Copy, PartialEq, Eq, Structural)]
pub struct Batch {
    pub id: u64,
    pub reconciled: bool,
    pub total_shares: u128,
    pub utoken_unclaimed: u128,
    pub est_unbond_end_time: u64,
}

/// The shares one user has queued in one batch.
#[derive(Debug, PartialEq, Eq)]
pub struct UnbondRequest {
    pub id: u64,
    pub user: String,
    pub shares: u128,
}

/// Mathematical content of an [`UnbondRequest`].
pub ghost struct UnbondRequestView {
    pub id: u64,
    pub user: Seq<char>,
    pub shares: nat,
}

impl View for UnbondRequest {
    type V = UnbondRequestView;

    open spec fn view(&self) -> UnbondRequestView {
        UnbondRequestView { id: self.id, user: self.user@, shares: self.shares as nat }
    }
}

impl Clone for UnbondRequest {
    fn clone(&self) -> (r: Self)
        ensures
            r == *self,
    {
        UnbondRequest { id: self.id, user: self.user.clone(), shares: self.shares }
    }
}

} // verus!
