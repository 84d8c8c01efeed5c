//! The steps of the airdrop pipeline, each from loaded datasets to checked
//! results.
use vstd::prelude::*;
use crate::account::{AccountKey, BalanceRecord, treasury_account, treasury_key};
use crate::audit::{
    AuditError, Dataset, Expectation, audit_outcome, check_counts, concat_balances, expected_of,
    expectation, flatten, total_excluding, checked_total_excluding,
};
use crate::delta::{is_delta_split, snapshot_delta, sort_by_amount, sorted_by_amount};
use crate::ledger::{dedup, has_key, repeated_keys};
use crate::precision::{SCALE_8_TO_18, saturating_product, translate_decimal_from_8_to_18_balances};
use crate::reconcile::{deduplicate, detect_duplicates, merge_overflows, merged};
use crate::records::{SherpaXBalances, SherpaXVesting, VestingRecord};
use crate::vesting::{build_cliff_vesting, cliff_grants};

verus! {

/// The smallest decrease between the snapshots that counts as a transfer.
pub const MIN_TRANSFER: u128 = 1_000_000_000_000_000_000;

/// The number of accounts granted genesis vesting: those of the first
/// snapshot and of the miners, less the treasury and five accounts present in
/// both.
pub const GENESIS_VESTING_ACCOUNTS: usize = 7418 + 334721 - 1 - 5;

/// The combined free balance behind the genesis vesting, with the corrections.
pub const GENESIS_VESTING_TOTAL: u128 = 7868415220855310000000000 + 2140742819000000000000000
    + 617479000000000000000 - 1067642049647850000000000;

/// Duplicated accounts found in the origin datasets.
pub struct DuplicateReport {
    /// The account of each record that repeats an earlier one, in order.
    pub duplicates: Vec<AccountKey>,
    /// The distinct accounts differ in number from the audited origin counts.
    pub needs_manual_review: bool,
}

/// The audited number of accounts over the three origin datasets.
pub open spec fn origin_accounts() -> nat {
    (expected_of(Dataset::ChainxSnapshot1).count + expected_of(Dataset::ComingchatMinersOrigin).count
        + expected_of(Dataset::SherpaxContributorsOrigin).count) as nat
}

/// Reports the repeated accounts over all origin datasets, and whether their
/// distinct accounts fall short of the audited counts.
pub fn check_origin_duplicate(origin: &Vec<SherpaXBalances>) -> (r: DuplicateReport)
    ensures
        r.duplicates@ == repeated_keys(flatten(origin@)),
        r.needs_manual_review == (dedup(flatten(origin@)).len() != origin_accounts()),
{
    let all = concat_balances(origin);
    let duplicates = detect_duplicates(&all);
    let distinct = deduplicate(&all).len();
    let expected = expectation(Dataset::ChainxSnapshot1).count as u128
        + expectation(Dataset::ComingchatMinersOrigin).count as u128
        + expectation(Dataset::SherpaxContributorsOrigin).count as u128;
    DuplicateReport { duplicates, needs_manual_review: distinct as u128 != expected }
}

/// Splits the first snapshot against the second: the genesis credits and the
/// transfers, each ordered by amount.
pub fn filter_snapshots(ss1: &SherpaXBalances, ss2: &SherpaXBalances) -> (r: Result<(SherpaXBalances, SherpaXBalances), AuditError>)
    ensures
        match r {
            Ok((g, x)) => is_delta_split(g.balances@, x.balances@, ss1.balances@, ss2.balances@, MIN_TRANSFER, treasury_key()),
            Err(e) => e == AuditError::TreasuryMissing && !has_key(ss1.balances@, treasury_key()),
        },
{
    let treasury = treasury_account();
    match snapshot_delta(&ss1.balances, &ss2.balances, MIN_TRANSFER, &treasury) {
        Some((g, x)) => Ok((SherpaXBalances { balances: g }, SherpaXBalances { balances: x })),
        None => Err(AuditError::TreasuryMissing),
    }
}

/// The audited count and total of the three genesis datasets together.
pub open spec fn genesis_expected() -> Expectation {
    Expectation {
        count: (expected_of(Dataset::GenesisChainxSnapshot).count + expected_of(Dataset::GenesisComingchatMiners).count
            + expected_of(Dataset::GenesisSherpaxContributors).count) as usize,
        total: (expected_of(Dataset::GenesisChainxSnapshot).total + expected_of(Dataset::GenesisComingchatMiners).total
            + expected_of(Dataset::GenesisSherpaxContributors).total) as u128,
    }
}

/// Checks that the genesis datasets together hold distinct accounts in the
/// audited number, with the audited total.
pub fn check_genesis_balances(genesis: &Vec<SherpaXBalances>) -> (r: Result<(), AuditError>)
    ensures
        r == audit_outcome(dedup(flatten(genesis@)), genesis_expected()),
{
    let all = concat_balances(genesis);
    let balances = deduplicate(&all);
    let a = expectation(Dataset::GenesisChainxSnapshot);
    let b = expectation(Dataset::GenesisComingchatMiners);
    let c = expectation(Dataset::GenesisSherpaxContributors);
    let expected = Expectation { count: a.count + b.count + c.count, total: a.total + b.total + c.total };
    check_counts(&balances, expected)
}

/// The outcome of the genesis vesting: the grants where the count and the
/// total of the combined free balances, with the corrections, are the audited
/// ones.
pub open spec fn vesting_outcome(
    balances: Seq<BalanceRecord>,
    corrections: Seq<BalanceRecord>,
) -> Result<Seq<VestingRecord>, AuditError> {
    let grants = cliff_grants(merged(balances), treasury_key(), corrections);
    let free = total_excluding(balances, treasury_key());
    let with_corrections = free + expected_of(Dataset::DuplicateContributorsInVesting).total;
    if merge_overflows(balances) {
        Err(AuditError::BalanceOverflow)
    } else if grants.len() != GENESIS_VESTING_ACCOUNTS {
        Err(AuditError::CountMismatch { expected_count: GENESIS_VESTING_ACCOUNTS, actual_count: grants.len() as usize })
    } else if free > u128::MAX {
        Err(AuditError::TotalOverflow)
    } else if with_corrections != GENESIS_VESTING_TOTAL {
        Err(AuditError::TotalMismatch {
            expected_total: GENESIS_VESTING_TOTAL,
            actual_total: if with_corrections > u128::MAX { u128::MAX } else { with_corrections as u128 },
        })
    } else {
        Ok(grants)
    }
}

/// Builds the genesis vesting grants from the vesting datasets and the
/// duplicate-contributor corrections, and checks them against the audit.
pub fn to_vesting_genesis(
    vesting: &Vec<SherpaXBalances>,
    duplicates: &Vec<SherpaXBalances>,
) -> (r: Result<SherpaXVesting, AuditError>)
    ensures
        match r {
            Ok(v) => vesting_outcome(flatten(vesting@), flatten(duplicates@)) == Ok::<Seq<VestingRecord>, AuditError>(v.vesting@),
            Err(e) => vesting_outcome(flatten(vesting@), flatten(duplicates@)) == Err::<Seq<VestingRecord>, AuditError>(e),
        },
{
    let balances = concat_balances(vesting);
    let corrections = concat_balances(duplicates);
    let treasury = treasury_account();
    let grants = match build_cliff_vesting(&balances, &treasury, &corrections) {
        Some(g) => g,
        None => {
            return Err(AuditError::BalanceOverflow);
        },
    };
    if grants.len() != GENESIS_VESTING_ACCOUNTS {
        return Err(AuditError::CountMismatch { expected_count: GENESIS_VESTING_ACCOUNTS, actual_count: grants.len() });
    }
    let free = match checked_total_excluding(&balances, &treasury) {
        Some(f) => f,
        None => {
            return Err(AuditError::TotalOverflow);
        },
    };
    let with_corrections = free.saturating_add(expectation(Dataset::DuplicateContributorsInVesting).total);
    if with_corrections != GENESIS_VESTING_TOTAL {
        return Err(AuditError::TotalMismatch { expected_total: GENESIS_VESTING_TOTAL, actual_total: with_corrections });
    }
    Ok(SherpaXVesting { vesting: grants })
}

/// `list` with every amount rescaled by `m`.
pub open spec fn rescaled(list: Seq<BalanceRecord>, m: u128) -> Seq<BalanceRecord> {
    list.map_values(|r: BalanceRecord| (r.0, saturating_product(r.1, m)))
}

/// Rescales a list from 8 to 18 decimals and orders it by amount.
fn to_genesis_decimals(origin: SherpaXBalances) -> (r: SherpaXBalances)
    ensures
        r.balances@.to_multiset() == rescaled(origin.balances@, SCALE_8_TO_18).to_multiset(),
        sorted_by_amount(r.balances@),
{
    let mut b = origin;
    translate_decimal_from_8_to_18_balances(&mut b);
    proof {
        assert(b.balances@ =~= rescaled(origin.balances@, SCALE_8_TO_18));
    }
    sort_by_amount(&mut b.balances);
    b
}

/// The mining rewards at 18 decimals, ordered by amount.
pub fn balances_comingchat_mine(origin: SherpaXBalances) -> (r: SherpaXBalances)
    ensures
        r.balances@.to_multiset() == rescaled(origin.balances@, SCALE_8_TO_18).to_multiset(),
        sorted_by_amount(r.balances@),
{
    to_genesis_decimals(origin)
}

/// The crowdloan contributions at 18 decimals, ordered by amount.
pub fn balances_sherpax_crowdloan(origin: SherpaXBalances) -> (r: SherpaXBalances)
    ensures
        r.balances@.to_multiset() == rescaled(origin.balances@, SCALE_8_TO_18).to_multiset(),
        sorted_by_amount(r.balances@),
{
    to_genesis_decimals(origin)
}

} // verus!
