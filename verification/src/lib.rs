//! Accounting core of a liquid-staking hub: exchange-rate arithmetic,
//! validator selection, the batched unbonding pipeline and reward
//! reinvestment, with machine-checked contracts.

pub mod admin;
pub mod batch;
pub mod coins;
pub mod decimal;
pub mod error;
pub mod even_split;
pub mod execute;
pub mod helpers;
pub mod invariants;
pub mod leveling;
pub mod math;
pub mod msg;
pub mod queries;
pub mod ratio;
pub mod rebalance;
pub mod state;
pub mod types;
pub mod unbond;
