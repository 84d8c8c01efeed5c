//! Genesis airdrop snapshot: reconciliation, precision rescaling and vesting
//! derivation of balance lists, with the audit checks that guard each step.

pub mod account;
pub mod ledger;
pub mod reconcile;
pub mod delta;
pub mod records;
pub mod precision;
pub mod vesting;
pub mod audit;
pub mod pipeline;
