//! The audited expectations of each dataset and the checks against them.
use vstd::prelude::*;
use crate::account::{AccountKey, BalanceRecord, same_account};
use crate::ledger::{credited, dedup, lemma_sums_push, total};
use crate::reconcile::{checked_total, deduplicate};
use crate::records::SherpaXBalances;

verus! {

/// The datasets whose record count and total were audited by hand.
#[derive(Clone, Copy, Debug, PartialEq, Eq, Structural)]
pub enum Dataset {
    /// The legacy chain's first snapshot, 18 decimals.
    ChainxSnapshot1,
    /// The legacy chain's second snapshot, 18 decimals.
    ChainxSnapshot2,
    /// The mining rewards, 8 decimals.
    ComingchatMinersOrigin,
    /// The crowdloan contributors, 8 decimals.
    SherpaxContributorsOrigin,
    /// The genesis credits of the first snapshot.
    GenesisChainxSnapshot,
    /// The mining rewards at 18 decimals.
    GenesisComingchatMiners,
    /// The crowdloan contributors at 18 decimals.
    GenesisSherpaxContributors,
    /// The corrections for contributors counted twice in the vesting.
    DuplicateContributorsInVesting,
}

/// A dataset's audited record count and total amount.
#[derive(Clone, Copy, Debug, PartialEq, Eq, Structural)]
pub struct Expectation {
    pub count: usize,
    pub total: u128,
}

/// Why a check stopped the pipeline.
#[derive(Clone, Copy, Debug, PartialEq, Eq, Structural)]
pub enum AuditError {
    /// The number of records differs from the audited count.
    CountMismatch { expected_count: usize, actual_count: usize },
    /// The total amount differs from the audited total.
    TotalMismatch { expected_total: u128, actual_total: u128 },
    /// The total amount does not fit in a `u128`.
    TotalOverflow,
    /// An account's combined balance does not fit in a `u128`.
    BalanceOverflow,
    /// The treasury has no record in the snapshot.
    TreasuryMissing,
}

/// The audited count and total of each dataset.
pub open spec fn expected_of(d: Dataset) -> Expectation {
    match d {
        Dataset::ChainxSnapshot1 => Expectation { count: 7418, total: 10500000000000000000000000 },
        Dataset::ChainxSnapshot2 => Expectation { count: 22295, total: 11985224700000000000000000 },
        Dataset::ComingchatMinersOrigin => Expectation { count: 334721, total: 214074281900000 },
        Dataset::SherpaxContributorsOrigin => Expectation { count: 1873, total: 9404698487265 },
        Dataset::GenesisChainxSnapshot => Expectation { count: 7418, total: 7868415220855310000000000 },
        Dataset::GenesisComingchatMiners => Expectation { count: 334721, total: 2140742819000000000000000 },
        Dataset::GenesisSherpaxContributors => Expectation { count: 1873, total: 94046984872650000000000 },
        Dataset::DuplicateContributorsInVesting => Expectation { count: 35, total: 617479000000000000000 },
    }
}

/// The audited count and total of a dataset.
pub fn expectation(d: Dataset) -> (r: Expectation)
    ensures
        r == expected_of(d),
{
    match d {
        Dataset::ChainxSnapshot1 => Expectation { count: 7418, total: 10500000000000000000000000 },
        Dataset::ChainxSnapshot2 => Expectation { count: 22295, total: 11985224700000000000000000 },
        Dataset::ComingchatMinersOrigin => Expectation { count: 334721, total: 214074281900000 },
        Dataset::SherpaxContributorsOrigin => Expectation { count: 1873, total: 9404698487265 },
        Dataset::GenesisChainxSnapshot => Expectation { count: 7418, total: 7868415220855310000000000 },
        Dataset::GenesisComingchatMiners => Expectation { count: 334721, total: 2140742819000000000000000 },
        Dataset::GenesisSherpaxContributors => Expectation { count: 1873, total: 94046984872650000000000 },
        Dataset::DuplicateContributorsInVesting => Expectation { count: 35, total: 617479000000000000000 },
    }
}

/// The outcome of checking a list's count and total against `expected`.
pub open spec fn audit_outcome(s: Seq<BalanceRecord>, expected: Expectation) -> Result<(), AuditError> {
    if s.len() != expected.count {
        Err(AuditError::CountMismatch { expected_count: expected.count, actual_count: s.len() as usize })
    } else if total(s) > u128::MAX {
        Err(AuditError::TotalOverflow)
    } else if total(s) != expected.total {
        Err(AuditError::TotalMismatch { expected_total: expected.total, actual_total: total(s) as u128 })
    } else {
        Ok(())
    }
}

/// Checks a list's record count, then its total, against `expected`.
pub fn check_counts(list: &Vec<BalanceRecord>, expected: Expectation) -> (r: Result<(), AuditError>)
    ensures
        r == audit_outcome(list@, expected),
{
    if list.len() != expected.count {
        return Err(AuditError::CountMismatch { expected_count: expected.count, actual_count: list.len() });
    }
    match checked_total(list) {
        None => Err(AuditError::TotalOverflow),
        Some(t) => if t != expected.total {
            Err(AuditError::TotalMismatch { expected_total: expected.total, actual_total: t })
        } else {
            Ok(())
        },
    }
}

/// Deduplicates a loaded list, then checks it against its audited count and
/// total; the deduplicated list where both match.
pub fn check_dataset(loaded: SherpaXBalances, expected: Expectation) -> (r: Result<SherpaXBalances, AuditError>)
    ensures
        match r {
            Ok(b) => b.balances@ == dedup(loaded.balances@) && audit_outcome(b.balances@, expected) is Ok,
            Err(e) => audit_outcome(dedup(loaded.balances@), expected) == Err::<(), AuditError>(e),
        },
{
    let balances = deduplicate(&loaded.balances);
    match check_counts(&balances, expected) {
        Ok(()) => Ok(SherpaXBalances { balances }),
        Err(e) => Err(e),
    }
}

/// The records of all lists, one list after another.
pub open spec fn flatten(lists: Seq<SherpaXBalances>) -> Seq<BalanceRecord>
    decreases lists.len(),
{
    if lists.len() == 0 {
        seq![]
    } else {
        flatten(lists.drop_last()) + lists.last().balances@
    }
}

/// The records of all lists, one list after another.
pub fn concat_balances(lists: &Vec<SherpaXBalances>) -> (r: Vec<BalanceRecord>)
    ensures
        r@ == flatten(lists@),
{
    let mut out: Vec<BalanceRecord> = Vec::new();
    let mut i: usize = 0;
    while i < lists.len()
        invariant
            0 <= i <= lists.len(),
            out@ == flatten(lists@.take(i as int)),
        decreases lists.len() - i,
    {
        let list = &lists[i].balances;
        let ghost start = out@;
        let mut j: usize = 0;
        while j < list.len()
            invariant
                0 <= j <= list.len(),
                out@ == start + list@.take(j as int),
            decreases list.len() - j,
        {
            out.push(list[j]);
            proof {
                assert(start + list@.take(j + 1) =~= (start + list@.take(j as int)).push(list@[j as int]));
            }
            j = j + 1;
        }
        proof {
            assert(lists@.take(i + 1).drop_last() =~= lists@.take(i as int));
            assert(list@.take(list.len() as int) =~= list@);
        }
        i = i + 1;
    }
    proof {
        assert(lists@.take(lists.len() as int) =~= lists@);
    }
    out
}

/// The total of all records of `s` but those of `k`.
pub open spec fn total_excluding(s: Seq<BalanceRecord>, k: AccountKey) -> int {
    total(s) - credited(s, k)
}

/// A prefix has no larger total outside `k` than the whole list.
proof fn lemma_excluding_prefix(s: Seq<BalanceRecord>, n: int, k: AccountKey)
    requires
        0 <= n <= s.len(),
    ensures
        total_excluding(s.take(n), k) <= total_excluding(s, k),
    decreases s.len(),
{
    if n < s.len() {
        assert(s.take(n) =~= s.drop_last().take(n));
        lemma_excluding_prefix(s.drop_last(), n, k);
    } else {
        assert(s.take(n) =~= s);
    }
}

/// The total of all records but those of `k`, or `None` where it does not
/// fit in a `u128`.
pub fn checked_total_excluding(list: &Vec<BalanceRecord>, k: &AccountKey) -> (r: Option<u128>)
    ensures
        match r {
            Some(t) => t as int == total_excluding(list@, *k),
            None => total_excluding(list@, *k) > u128::MAX,
        },
{
    let mut sum: u128 = 0;
    let mut i: usize = 0;
    while i < list.len()
        invariant
            0 <= i <= list.len(),
            sum as int == total_excluding(list@.take(i as int), *k),
        decreases list.len() - i,
    {
        let rec = list[i];
        proof {
            assert(list@.take(i + 1) =~= list@.take(i as int).push(rec));
            lemma_sums_push(list@.take(i as int), rec);
        }
        if !same_account(&rec.0, k) {
            match sum.checked_add(rec.1) {
                Some(s) => {
                    sum = s;
                },
                None => {
                    proof {
                        lemma_excluding_prefix(list@, i + 1, *k);
                    }
                    return None;
                },
            }
        }
        i = i + 1;
    }
    proof {
        assert(list@.take(list.len() as int) =~= list@);
    }
    Some(sum)
}

} // verus!
