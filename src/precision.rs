//! Rescaling of amounts between decimal precisions.
use vstd::prelude::*;
use crate::account::BalanceRecord;
use crate::ledger::total;
use crate::records::SherpaXBalances;

verus! {

/// Multiplier from 8 to 18 decimals.
pub const SCALE_8_TO_18: u128 = 10_000_000_000;

/// Multiplier from 12 to 18 decimals.
pub const SCALE_12_TO_18: u128 = 1_000_000;

/// `a * m`, clamped at `u128::MAX`.
pub open spec fn saturating_product(a: u128, m: u128) -> u128 {
    if a * m > u128::MAX {
        u128::MAX
    } else {
        (a * m) as u128
    }
}

/// `r` is `list` with every amount multiplied by `m`, clamped at `u128::MAX`.
pub open spec fn is_rescale_of(r: Seq<BalanceRecord>, list: Seq<BalanceRecord>, m: u128) -> bool {
    &&& r.len() == list.len()
    &&& forall|i: int| 0 <= i < r.len() ==> #[trigger] r[i] == (list[i].0, saturating_product(list[i].1, m))
}

/// `a * m`, clamped at `u128::MAX` rather than wrapping.
pub fn saturating_scale(a: u128, m: u128) -> (r: u128)
    ensures
        r == saturating_product(a, m),
{
    if m != 0 && a > u128::MAX / m {
        proof {
            assert(a * m > u128::MAX) by (nonlinear_arith)
                requires m != 0, a > u128::MAX / m, m <= u128::MAX;
        }
        u128::MAX
    } else {
        proof {
            assert(a * m <= u128::MAX) by (nonlinear_arith)
                requires m == 0 || a <= u128::MAX / m, m <= u128::MAX;
        }
        a * m
    }
}

/// Multiplies every amount by `multiplier`, saturating, keeping the order.
pub fn rescale(list: &Vec<BalanceRecord>, multiplier: u128) -> (r: Vec<BalanceRecord>)
    ensures
        is_rescale_of(r@, list@, multiplier),
{
    let mut out: Vec<BalanceRecord> = Vec::new();
    let mut i: usize = 0;
    while i < list.len()
        invariant
            0 <= i <= list.len(),
            is_rescale_of(out@, list@.take(i as int), multiplier),
        decreases list.len() - i,
    {
        let rec = list[i];
        out.push((rec.0, saturating_scale(rec.1, multiplier)));
        i = i + 1;
    }
    proof {
        assert(list@.take(list.len() as int) =~= list@);
    }
    out
}

/// Where no amount saturates, rescaling multiplies the total by the
/// multiplier exactly.
pub proof fn rescale_conserves_total(r: Seq<BalanceRecord>, list: Seq<BalanceRecord>, m: u128)
    requires
        is_rescale_of(r, list, m),
        forall|i: int| 0 <= i < list.len() ==> #[trigger] list[i].1 * m <= u128::MAX,
    ensures
        total(r) == m * total(list),
    decreases list.len(),
{
    if list.len() > 0 {
        let n = list.len() - 1;
        assert(is_rescale_of(r.drop_last(), list.drop_last(), m));
        rescale_conserves_total(r.drop_last(), list.drop_last(), m);
        assert(list[n].1 * m <= u128::MAX);
        let a = total(list.drop_last());
        let b = list.last().1 as nat;
        assert(m * a + m * b == m * (a + b)) by (nonlinear_arith);
        assert(r.last().1 == list.last().1 * m);
        assert(total(r) == total(r.drop_last()) + r.last().1 as nat);
        assert(total(list) == a + b);
    } else {
        assert(total(r) == 0 && total(list) == 0);
        assert(m * 0int == 0) by (nonlinear_arith);
    }
}

/// Rescales a list from 8 to 18 decimals.
pub fn translate_decimal_from_8_to_18_balances(origin: &mut SherpaXBalances)
    ensures
        is_rescale_of(final(origin).balances@, old(origin).balances@, SCALE_8_TO_18),
{
    origin.balances = rescale(&origin.balances, SCALE_8_TO_18);
}

/// Rescales a list from 12 to 18 decimals.
pub fn translate_decimal_from_12_to_18_balances(origin: &mut SherpaXBalances)
    ensures
        is_rescale_of(final(origin).balances@, old(origin).balances@, SCALE_12_TO_18),
{
    origin.balances = rescale(&origin.balances, SCALE_12_TO_18);
}

} // verus!
