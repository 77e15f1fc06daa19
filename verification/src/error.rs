use vstd::prelude::*;

verus! {

/// Every way an operation of the hub can be rejected.
#[derive(Debug, Clone, Copy, PartialEq, Eq, Structural)]
pub enum HubError {
    /// A 128-bit quantity would leave its range.
    Overflow,
    /// A ratio was requested with a zero denominator.
    DivideByZero,
    /// The sender is not the owner.
    NotOwner,
    /// The sender is not the pending owner.
    NotNewOwner,
    /// The requested reward fee is above the hard cap.
    FeeTooHigh,
    /// No validator is available to delegate to.
    NoValidators,
    /// The ledger holds nothing of the bondable denomination.
    NothingToBond,
    /// The pending batch may only be submitted at or after the given time.
    BatchNotReady { earliest: u64 },
    /// No matured, reconciled request yields a refund.
    NothingToWithdraw,
    /// The validator is already on the whitelist.
    ValidatorAlreadyWhitelisted,
    /// The validator is not on the whitelist.
    ValidatorNotWhitelisted,
    /// The token instantiation reply carries no `instantiate` event.
    MissingInstantiateEvent,
    /// The `instantiate` event carries no `_contract_address` attribute.
    MissingContractAddress,
    /// The stake token has not been registered yet.
    StakeTokenNotSet,
    /// The bank balance fell below the snapshot taken earlier.
    BalanceBelowSnapshot,
}

impl HubError {
    /// The text that explains the rejection. For `BatchNotReady` the time
    /// carried by the error is meant to follow the text.
    pub open spec fn reason_text(self) -> Seq<char> {
        match self {
            HubError::Overflow => "arithmetic overflow"@,
            HubError::DivideByZero => "division by zero"@,
            HubError::NotOwner => "unauthorized: sender is not owner"@,
            HubError::NotNewOwner => "unauthorized: sender is not new owner"@,
            HubError::FeeTooHigh => "'protocol_reward_fee' greater than max"@,
            HubError::NoValidators => "no validator to delegate to"@,
            HubError::NothingToBond => "no ujuno available to be bonded"@,
            HubError::BatchNotReady { .. } => "batch can only be submitted for unbonding after"@,
            HubError::NothingToWithdraw => "withdrawable amount is zero"@,
            HubError::ValidatorAlreadyWhitelisted => "validator is already whitelisted"@,
            HubError::ValidatorNotWhitelisted => "validator is not already whitelisted"@,
            HubError::MissingInstantiateEvent => "cannot find `instantiate` event"@,
            HubError::MissingContractAddress => "cannot find `_contract_address` attribute"@,
            HubError::StakeTokenNotSet => "stake token is not registered"@,
            HubError::BalanceBelowSnapshot => "balance is below the snapshot taken before"@,
        }
    }

    /// The text that explains the rejection.
    pub fn reason(&self) -> (r: &'static str)
        ensures
            r@ == self.reason_text(),
    {
        match self {
            HubError::Overflow => "arithmetic overflow",
            HubError::DivideByZero => "division by zero",
            HubError::NotOwner => "unauthorized: sender is not owner",
            HubError::NotNewOwner => "unauthorized: sender is not new owner",
            HubError::FeeTooHigh => "'protocol_reward_fee' greater than max",
            HubError::NoValidators => "no validator to delegate to",
            HubError::NothingToBond => "no ujuno available to be bonded",
            HubError::BatchNotReady { .. } => "batch can only be submitted for unbonding after",
            HubError::NothingToWithdraw => "withdrawable amount is zero",
            HubError::ValidatorAlreadyWhitelisted => "validator is already whitelisted",
            HubError::ValidatorNotWhitelisted => "validator is not already whitelisted",
            HubError::MissingInstantiateEvent => "cannot find `instantiate` event",
            HubError::MissingContractAddress => "cannot find `_contract_address` attribute",
            HubError::StakeTokenNotSet => "stake token is not registered",
            HubError::BalanceBelowSnapshot => "balance is below the snapshot taken before",
        }
    }
}

} // verus!
