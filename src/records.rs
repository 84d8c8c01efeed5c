//! The datasets that the pipeline reads and produces.
use vstd::prelude::*;
use crate::account::{AccountKey, BalanceRecord};

verus! {

/// A block height.
pub type BlockNumber = u32;

/// A cliff-and-linear vesting grant: account, first block of vesting, number
/// of blocks until fully vested, and the amount locked at genesis.
pub type VestingRecord = (AccountKey, BlockNumber, BlockNumber, u128);

/// A linear unlock schedule: account, locked amount and per-block unlock as
/// decimal text, and the block at which unlocking starts.
pub type ScheduleRecord = (AccountKey, String, String, BlockNumber);

/// A list of free balances.
pub struct SherpaXBalances {
    pub balances: Vec<BalanceRecord>,
}

/// A list of genesis vesting grants.
pub struct SherpaXVesting {
    pub vesting: Vec<VestingRecord>,
}

/// A list of transfer unlock schedules.
pub struct SherpaXSchedule {
    pub schedules: Vec<ScheduleRecord>,
}

} // verus!
