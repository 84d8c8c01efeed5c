//! Vesting derived from balance lists: the genesis cliff grants and the
//! linear unlock schedules of transferred value.
use vstd::prelude::*;
use crate::account::{AccountKey, BalanceRecord, same_account};
use crate::ledger::{credited, dedup, has_key, lemma_dedup_keys, lemma_lookup_first, lookup, unique_keys};
use crate::reconcile::{find_key, merge_overflows, merge_sum, merged};
use crate::records::{BlockNumber, SherpaXBalances, SherpaXSchedule, ScheduleRecord, VestingRecord};

verus! {

/// First block of the genesis vesting grants.
pub const VESTING_START: BlockNumber = 1_296_000;

/// Length in blocks of the genesis vesting grants.
pub const VESTING_LENGTH: BlockNumber = 2_592_000;

/// The share of a combined balance that vests at genesis is one part in this.
pub const GENESIS_VESTING_DIVISOR: u128 = 10;

/// Number of blocks over which a transferred amount unlocks.
pub const TRANSFER_UNLOCK_BLOCKS: u128 = 5_184_000;

/// First block at which transferred amounts unlock.
pub const TRANSFER_START: BlockNumber = 3_888_000;

/// The correction recorded for `k`, zero where there is none.
pub open spec fn correction(corrections: Seq<BalanceRecord>, k: AccountKey) -> nat {
    match lookup(corrections, k) {
        Some(b) => b as nat,
        None => 0,
    }
}

/// The amount locked at genesis for a combined balance `free` of `k`: a tenth
/// of it, rounded down, plus the account's correction, clamped at `u128::MAX`.
pub open spec fn locked_at_genesis(free: u128, corrections: Seq<BalanceRecord>, k: AccountKey) -> u128 {
    let x = free as nat / 10 + correction(corrections, k);
    if x > u128::MAX {
        u128::MAX
    } else {
        x as u128
    }
}

/// The grant for one merged record.
pub open spec fn cliff_grant(r: BalanceRecord, corrections: Seq<BalanceRecord>) -> VestingRecord {
    (r.0, VESTING_START, VESTING_LENGTH, locked_at_genesis(r.1, corrections, r.0))
}

/// The grants of all non-treasury records of `m`, in order.
pub open spec fn cliff_grants(m: Seq<BalanceRecord>, treasury: AccountKey, corrections: Seq<BalanceRecord>) -> Seq<VestingRecord>
    decreases m.len(),
{
    if m.len() == 0 {
        seq![]
    } else {
        let p = cliff_grants(m.drop_last(), treasury, corrections);
        if m.last().0 == treasury {
            p
        } else {
            p.push(cliff_grant(m.last(), corrections))
        }
    }
}

/// Merges the balances by account, drops the treasury, and grants each other
/// account a tenth of its combined balance plus its correction under the
/// uniform cliff schedule. `None` where a combined balance overflows.
pub fn build_cliff_vesting(
    balances: &Vec<BalanceRecord>,
    treasury: &AccountKey,
    corrections: &Vec<BalanceRecord>,
) -> (r: Option<Vec<VestingRecord>>)
    ensures
        match r {
            Some(v) => !merge_overflows(balances@) && v@ == cliff_grants(merged(balances@), *treasury, corrections@),
            None => merge_overflows(balances@),
        },
{
    let m = match merge_sum(balances) {
        Some(m) => m,
        None => {
            return None;
        },
    };
    let mut out: Vec<VestingRecord> = Vec::new();
    let mut i: usize = 0;
    while i < m.len()
        invariant
            0 <= i <= m.len(),
            out@ == cliff_grants(m@.take(i as int), *treasury, corrections@),
        decreases m.len() - i,
    {
        let rec = m[i];
        proof {
            assert(m@.take(i + 1).drop_last() =~= m@.take(i as int));
        }
        if !same_account(&rec.0, treasury) {
            let share = rec.1 / GENESIS_VESTING_DIVISOR;
            let found = find_key(corrections, &rec.0);
            let locked = match found {
                Some(j) => {
                    proof {
                        lemma_lookup_first(corrections@, rec.0, j as int);
                    }
                    share.saturating_add(corrections[j].1)
                },
                None => share,
            };
            out.push((rec.0, VESTING_START, VESTING_LENGTH, locked));
        }
        i = i + 1;
    }
    proof {
        assert(m@.take(m.len() as int) =~= m@);
    }
    Some(out)
}

/// Each grant comes from a non-treasury record, each such record has a
/// grant, and unique accounts give unique grants.
proof fn lemma_cliff_grants(m: Seq<BalanceRecord>, treasury: AccountKey, corrections: Seq<BalanceRecord>)
    ensures
        forall|i: int| 0 <= i < cliff_grants(m, treasury, corrections).len() ==> exists|j: int|
            0 <= j < m.len() && m[j].0 != treasury
                && #[trigger] cliff_grants(m, treasury, corrections)[i] == cliff_grant(#[trigger] m[j], corrections),
        forall|j: int| 0 <= j < m.len() && #[trigger] m[j].0 != treasury ==> exists|i: int|
            0 <= i < cliff_grants(m, treasury, corrections).len()
                && #[trigger] cliff_grants(m, treasury, corrections)[i].0 == m[j].0,
        unique_keys(m) ==> forall|i: int, k: int| 0 <= i < k < cliff_grants(m, treasury, corrections).len()
            ==> #[trigger] cliff_grants(m, treasury, corrections)[i].0 != #[trigger] cliff_grants(m, treasury, corrections)[k].0,
    decreases m.len(),
{
    if m.len() > 0 {
        let n = m.len() - 1;
        let d = m.drop_last();
        lemma_cliff_grants(d, treasury, corrections);
        let p = cliff_grants(d, treasury, corrections);
        let g = cliff_grants(m, treasury, corrections);
        assert forall|i: int| 0 <= i < g.len() implies exists|j: int|
            0 <= j < m.len() && m[j].0 != treasury && #[trigger] g[i] == cliff_grant(#[trigger] m[j], corrections) by {
            if i < p.len() {
                let j = choose|j: int| 0 <= j < d.len() && d[j].0 != treasury && #[trigger] p[i] == cliff_grant(#[trigger] d[j], corrections);
                assert(m[j] == d[j]);
            } else {
                assert(g[i] == cliff_grant(m[n], corrections));
            }
        }
        assert forall|j: int| 0 <= j < m.len() && #[trigger] m[j].0 != treasury implies exists|i: int|
            0 <= i < g.len() && #[trigger] g[i].0 == m[j].0 by {
            if j < n {
                assert(d[j] == m[j]);
                let i = choose|i: int| 0 <= i < p.len() && #[trigger] p[i].0 == d[j].0;
                assert(g[i] == p[i]);
            } else {
                assert(g[p.len() as int].0 == m[j].0);
            }
        }
        if unique_keys(m) {
            assert(unique_keys(d));
            assert forall|i: int, k: int| 0 <= i < k < g.len() implies #[trigger] g[i].0 != #[trigger] g[k].0 by {
                if k == p.len() && m.last().0 != treasury {
                    let j = choose|j: int| 0 <= j < d.len() && d[j].0 != treasury && #[trigger] p[i] == cliff_grant(#[trigger] d[j], corrections);
                    assert(m[j] == d[j]);
                    assert(m[j].0 != m[n].0);
                }
            }
        }
    }
}

/// Every account of the balances but the treasury gets exactly one grant,
/// none other does, and each grant locks a tenth of the account's combined
/// balance, rounded down, plus its correction (zero where none is recorded),
/// clamped at `u128::MAX`; the grants share one start and one length.
pub proof fn cliff_vesting_split(
    v: Seq<VestingRecord>,
    balances: Seq<BalanceRecord>,
    treasury: AccountKey,
    corrections: Seq<BalanceRecord>,
)
    requires
        !merge_overflows(balances),
        v == cliff_grants(merged(balances), treasury, corrections),
    ensures
        forall|i: int| 0 <= i < v.len() ==> {
            &&& (#[trigger] v[i]).0 != treasury
            &&& has_key(balances, v[i].0)
            &&& v[i].1 == VESTING_START
            &&& v[i].2 == VESTING_LENGTH
            &&& credited(balances, v[i].0) / 10 + correction(corrections, v[i].0) <= u128::MAX ==>
                v[i].3 == credited(balances, v[i].0) / 10 + correction(corrections, v[i].0)
        },
        forall|k: AccountKey| #[trigger] has_key(balances, k) && k != treasury ==>
            exists|i: int| 0 <= i < v.len() && #[trigger] v[i].0 == k,
        forall|i: int, k: int| 0 <= i < k < v.len() ==> #[trigger] v[i].0 != #[trigger] v[k].0,
{
    let m = merged(balances);
    let d = dedup(balances);
    lemma_dedup_keys(balances);
    lemma_cliff_grants(m, treasury, corrections);
    assert(unique_keys(m)) by {
        assert forall|i: int, k: int| 0 <= i < k < m.len() implies #[trigger] m[i].0 != #[trigger] m[k].0 by {
            assert(d[i].0 != d[k].0);
        }
    }
    assert forall|i: int| 0 <= i < v.len() implies {
        &&& (#[trigger] v[i]).0 != treasury
        &&& has_key(balances, v[i].0)
        &&& v[i].1 == VESTING_START
        &&& v[i].2 == VESTING_LENGTH
        &&& credited(balances, v[i].0) / 10 + correction(corrections, v[i].0) <= u128::MAX ==>
            v[i].3 == credited(balances, v[i].0) / 10 + correction(corrections, v[i].0)
    } by {
        let j = choose|j: int| 0 <= j < m.len() && m[j].0 != treasury && #[trigger] v[i] == cliff_grant(#[trigger] m[j], corrections);
        let k = d[j].0;
        assert(has_key(d, k));
        assert(has_key(balances, k));
        let w = choose|w: int| 0 <= w < balances.len() && #[trigger] balances[w].0 == k;
        assert(credited(balances, balances[w].0) <= u128::MAX);
    }
    assert forall|k: AccountKey| #[trigger] has_key(balances, k) && k != treasury implies
        exists|i: int| 0 <= i < v.len() && #[trigger] v[i].0 == k by {
        assert(has_key(d, k));
        let j = choose|j: int| 0 <= j < d.len() && #[trigger] d[j].0 == k;
        assert(m[j].0 == k);
    }
}

/// The ten decimal digits.
pub open spec fn digit_char(d: nat) -> char {
    seq!['0', '1', '2', '3', '4', '5', '6', '7', '8', '9'][d as int]
}

/// The decimal notation of `n`, without leading zeros.
pub open spec fn decimal_text(n: nat) -> Seq<char>
    decreases n,
{
    if n < 10 {
        seq![digit_char(n)]
    } else {
        decimal_text(n / 10).push(digit_char(n % 10))
    }
}

/// Relies on the `Display` impl of `u128`: it writes the decimal notation.
#[verifier::external_body]
fn to_decimal(n: u128) -> (r: String)
    ensures
        r@ == decimal_text(n as nat),
{
    format!("{}", n)
}

/// The schedule that unlocks `r`'s amount linearly from the transfer start.
pub open spec fn is_transfer_schedule(s: ScheduleRecord, r: BalanceRecord) -> bool {
    &&& s.0 == r.0
    &&& s.1@ == decimal_text(r.1 as nat)
    &&& s.2@ == decimal_text(r.1 as nat / TRANSFER_UNLOCK_BLOCKS as nat)
    &&& s.3 == TRANSFER_START
}

/// One linear unlock schedule per transferred balance, in order: the whole
/// amount locked, a fixed fraction of it unlocked per block from the
/// transfer start, amounts written as decimal text.
pub fn to_vesting_transfer(to_transfer: &SherpaXBalances) -> (r: SherpaXSchedule)
    ensures
        r.schedules@.len() == to_transfer.balances@.len(),
        forall|i: int| 0 <= i < r.schedules@.len() ==>
            is_transfer_schedule(#[trigger] r.schedules@[i], to_transfer.balances@[i]),
{
    let list = &to_transfer.balances;
    let mut out: Vec<ScheduleRecord> = Vec::new();
    let mut i: usize = 0;
    while i < list.len()
        invariant
            0 <= i <= list.len(),
            out@.len() == i,
            forall|j: int| 0 <= j < i ==> is_transfer_schedule(#[trigger] out@[j], list@[j]),
        decreases list.len() - i,
    {
        let rec = list[i];
        let locked = to_decimal(rec.1);
        let per_block = to_decimal(rec.1 / TRANSFER_UNLOCK_BLOCKS);
        out.push((rec.0, locked, per_block, TRANSFER_START));
        i = i + 1;
    }
    SherpaXSchedule { schedules: out }
}

} // verus!
