//! The split of an old snapshot against a newer one: value that left an
//! account between the two goes to a vesting transfer, the rest is credited
//! at genesis.
use vstd::prelude::*;
use crate::account::{AccountKey, BalanceRecord, same_account};
use crate::ledger::{
    credited, has_key, lemma_lookup_first, lemma_sums_concat,
    lemma_sums_permutation, lemma_sums_push, lookup, unique_keys,
};
use crate::reconcile::find_key;

verus! {

/// A decrease from `old` to `new` of at least `min_delta` counts as value
/// transferred out.
pub open spec fn moved_out(old: u128, new: u128, min_delta: u128) -> bool {
    old > new && old - new >= min_delta
}

/// What one old record credits at genesis.
pub open spec fn genesis_part(r: BalanceRecord, new: Seq<BalanceRecord>, min_delta: u128) -> Seq<BalanceRecord> {
    match lookup(new, r.0) {
        Some(n) => if moved_out(r.1, n, min_delta) {
            if n != 0 { seq![(r.0, n)] } else { seq![] }
        } else {
            seq![r]
        },
        None => seq![r],
    }
}

/// What one old record hands to the vesting transfer.
pub open spec fn transfer_part(r: BalanceRecord, new: Seq<BalanceRecord>, min_delta: u128) -> Seq<BalanceRecord> {
    match lookup(new, r.0) {
        Some(n) => if moved_out(r.1, n, min_delta) {
            seq![(r.0, (r.1 - n) as u128)]
        } else {
            seq![]
        },
        None => seq![],
    }
}

/// The genesis credits of all non-treasury records of `old`, in order.
pub open spec fn split_genesis(
    old: Seq<BalanceRecord>,
    new: Seq<BalanceRecord>,
    min_delta: u128,
    treasury: AccountKey,
) -> Seq<BalanceRecord>
    decreases old.len(),
{
    if old.len() == 0 {
        seq![]
    } else {
        let p = split_genesis(old.drop_last(), new, min_delta, treasury);
        if old.last().0 == treasury {
            p
        } else {
            p + genesis_part(old.last(), new, min_delta)
        }
    }
}

/// The transfers of all non-treasury records of `old`, in order.
pub open spec fn split_transfer(
    old: Seq<BalanceRecord>,
    new: Seq<BalanceRecord>,
    min_delta: u128,
    treasury: AccountKey,
) -> Seq<BalanceRecord>
    decreases old.len(),
{
    if old.len() == 0 {
        seq![]
    } else {
        let p = split_transfer(old.drop_last(), new, min_delta, treasury);
        if old.last().0 == treasury {
            p
        } else {
            p + transfer_part(old.last(), new, min_delta)
        }
    }
}

/// Amounts never decrease along `s`.
pub open spec fn sorted_by_amount(s: Seq<BalanceRecord>) -> bool {
    forall|i: int, j: int| 0 <= i < j < s.len() ==> #[trigger] s[i].1 <= #[trigger] s[j].1
}

/// `(genesis, transfer)` is the split of `old` against `new`: the treasury's
/// first old record is credited once at genesis, every other record is routed
/// by its decrease, and both lists are ordered by amount.
pub open spec fn is_delta_split(
    genesis: Seq<BalanceRecord>,
    transfer: Seq<BalanceRecord>,
    old: Seq<BalanceRecord>,
    new: Seq<BalanceRecord>,
    min_delta: u128,
    treasury: AccountKey,
) -> bool {
    &&& lookup(old, treasury) is Some
    &&& genesis.to_multiset() == split_genesis(old, new, min_delta, treasury).push(
        (treasury, lookup(old, treasury)->Some_0),
    ).to_multiset()
    &&& transfer.to_multiset() == split_transfer(old, new, min_delta, treasury).to_multiset()
    &&& sorted_by_amount(genesis)
    &&& sorted_by_amount(transfer)
}

/// Relies on `slice::sort_unstable_by_key`: the records are reordered so that
/// the amounts ascend.
#[verifier::external_body]
pub(crate) fn sort_by_amount(v: &mut Vec<BalanceRecord>)
    ensures
        final(v)@.to_multiset() == old(v)@.to_multiset(),
        sorted_by_amount(final(v)@),
{
    v.sort_unstable_by_key(|r| r.1);
}

/// Splits the old snapshot against the new one. The treasury's records are
/// set aside and its first one is credited once, unchanged, at genesis. Each
/// other old record whose account decreased by at least `min_delta` in `new`
/// sends the decrease to the transfer list and keeps the new amount, if
/// nonzero, at genesis; any other record goes to genesis whole. `None` where
/// the treasury has no record in `old`.
pub fn snapshot_delta(
    old: &Vec<BalanceRecord>,
    new: &Vec<BalanceRecord>,
    min_delta: u128,
    treasury: &AccountKey,
) -> (r: Option<(Vec<BalanceRecord>, Vec<BalanceRecord>)>)
    ensures
        r is None <==> !has_key(old@, *treasury),
        r matches Some((g, x)) ==> is_delta_split(g@, x@, old@, new@, min_delta, *treasury),
{
    let t = match find_key(old, treasury) {
        Some(t) => t,
        None => {
            return None;
        },
    };
    let treasury_record = old[t];
    proof {
        lemma_lookup_first(old@, *treasury, t as int);
    }
    let mut genesis: Vec<BalanceRecord> = Vec::new();
    let mut transfer: Vec<BalanceRecord> = Vec::new();
    let mut i: usize = 0;
    while i < old.len()
        invariant
            0 <= i <= old.len(),
            genesis@ == split_genesis(old@.take(i as int), new@, min_delta, *treasury),
            transfer@ == split_transfer(old@.take(i as int), new@, min_delta, *treasury),
        decreases old.len() - i,
    {
        let rec = old[i];
        proof {
            assert(old@.take(i + 1).drop_last() =~= old@.take(i as int));
        }
        if same_account(&rec.0, treasury) {
        } else {
            let found = find_key(new, &rec.0);
            proof {
                if let Some(j) = found {
                    lemma_lookup_first(new@, rec.0, j as int);
                }
            }
            match found {
                Some(j) if rec.1 > new[j].1 && rec.1 - new[j].1 >= min_delta => {
                    let kept = new[j].1;
                    if kept != 0 {
                        genesis.push((rec.0, kept));
                    }
                    transfer.push((rec.0, rec.1 - kept));
                    proof {
                        assert(transfer@ =~= split_transfer(old@.take(i + 1), new@, min_delta, *treasury));
                        assert(genesis@ =~= split_genesis(old@.take(i + 1), new@, min_delta, *treasury));
                    }
                },
                _ => {
                    genesis.push(rec);
                    proof {
                        assert(transfer@ =~= split_transfer(old@.take(i + 1), new@, min_delta, *treasury));
                        assert(genesis@ =~= split_genesis(old@.take(i + 1), new@, min_delta, *treasury));
                    }
                },
            }
        }
        i = i + 1;
    }
    proof {
        assert(old@.take(old.len() as int) =~= old@);
    }
    genesis.push(treasury_record);
    sort_by_amount(&mut genesis);
    sort_by_amount(&mut transfer);
    Some((genesis, transfer))
}

/// The sums of a list of at most one record.
proof fn lemma_credited_short(s: Seq<BalanceRecord>, k: AccountKey)
    requires
        s.len() <= 1,
    ensures
        credited(s, k) == (if s.len() == 1 && s[0].0 == k { s[0].1 as nat } else { 0 }),
{
    if s.len() == 1 {
        assert(s.drop_last() =~= Seq::<BalanceRecord>::empty());
        assert(credited(s.drop_last(), k) == 0);
        assert(s.last() == s[0]);
    } else {
        assert(credited(s, k) == 0);
    }
}

/// What one record routes credits its own account alone, and in all the old amount.
proof fn lemma_parts(
    r: BalanceRecord,
    new: Seq<BalanceRecord>,
    min_delta: u128,
    k: AccountKey,
)
    ensures
        credited(genesis_part(r, new, min_delta), k) + credited(transfer_part(r, new, min_delta), k)
            == (if r.0 == k { r.1 as nat } else { 0 }),
{
    lemma_credited_short(genesis_part(r, new, min_delta), k);
    lemma_credited_short(transfer_part(r, new, min_delta), k);
}

/// Routing one more old record adds its parts to the split's sums.
proof fn lemma_split_step(
    old: Seq<BalanceRecord>,
    new: Seq<BalanceRecord>,
    min_delta: u128,
    treasury: AccountKey,
    k: AccountKey,
)
    requires
        old.len() > 0,
    ensures
        credited(split_genesis(old, new, min_delta, treasury), k) == credited(split_genesis(old.drop_last(), new, min_delta, treasury), k)
            + (if old.last().0 == treasury { 0 } else { credited(genesis_part(old.last(), new, min_delta), k) }),
        credited(split_transfer(old, new, min_delta, treasury), k) == credited(split_transfer(old.drop_last(), new, min_delta, treasury), k)
            + (if old.last().0 == treasury { 0 } else { credited(transfer_part(old.last(), new, min_delta), k) }),
{
    lemma_sums_concat(split_genesis(old.drop_last(), new, min_delta, treasury), genesis_part(old.last(), new, min_delta), k);
    lemma_sums_concat(split_transfer(old.drop_last(), new, min_delta, treasury), transfer_part(old.last(), new, min_delta), k);
}

/// Per account, the split's two lists together credit what `old` credited,
/// and nothing to the treasury.
proof fn lemma_split_credits(
    old: Seq<BalanceRecord>,
    new: Seq<BalanceRecord>,
    min_delta: u128,
    treasury: AccountKey,
    k: AccountKey,
)
    ensures
        k != treasury ==> credited(split_genesis(old, new, min_delta, treasury), k)
            + credited(split_transfer(old, new, min_delta, treasury), k) == credited(old, k),
        credited(split_genesis(old, new, min_delta, treasury), treasury) == 0,
        credited(split_transfer(old, new, min_delta, treasury), treasury) == 0,
    decreases old.len(),
{
    if old.len() > 0 {
        lemma_split_credits(old.drop_last(), new, min_delta, treasury, k);
        lemma_split_step(old, new, min_delta, treasury, k);
        lemma_split_step(old, new, min_delta, treasury, treasury);
        lemma_parts(old.last(), new, min_delta, k);
        lemma_parts(old.last(), new, min_delta, treasury);
    }
}

/// Splitting a snapshot neither creates nor loses value: each non-treasury
/// account is credited, across the genesis and transfer lists, exactly what
/// the old snapshot credited it, and the treasury is credited its first old
/// amount once, at genesis only.
pub proof fn delta_split_conserves(
    genesis: Seq<BalanceRecord>,
    transfer: Seq<BalanceRecord>,
    old: Seq<BalanceRecord>,
    new: Seq<BalanceRecord>,
    min_delta: u128,
    treasury: AccountKey,
    k: AccountKey,
)
    requires
        is_delta_split(genesis, transfer, old, new, min_delta, treasury),
    ensures
        k != treasury ==> credited(genesis, k) + credited(transfer, k) == credited(old, k),
        credited(genesis, treasury) == lookup(old, treasury)->Some_0 as nat,
        credited(transfer, treasury) == 0,
{
    let sg = split_genesis(old, new, min_delta, treasury);
    let sx = split_transfer(old, new, min_delta, treasury);
    let tr = (treasury, lookup(old, treasury)->Some_0);
    lemma_split_credits(old, new, min_delta, treasury, k);
    lemma_sums_permutation(genesis, sg.push(tr), k);
    lemma_sums_permutation(genesis, sg.push(tr), treasury);
    lemma_sums_permutation(transfer, sx, k);
    lemma_sums_permutation(transfer, sx, treasury);
    lemma_sums_push(sg, tr);
}

/// An account without old records is credited nothing by the split.
proof fn lemma_split_absent(
    old: Seq<BalanceRecord>,
    new: Seq<BalanceRecord>,
    min_delta: u128,
    treasury: AccountKey,
    k: AccountKey,
)
    requires
        forall|j: int| 0 <= j < old.len() ==> #[trigger] old[j].0 != k,
    ensures
        credited(split_genesis(old, new, min_delta, treasury), k) == 0,
        credited(split_transfer(old, new, min_delta, treasury), k) == 0,
    decreases old.len(),
{
    if old.len() > 0 {
        lemma_split_absent(old.drop_last(), new, min_delta, treasury, k);
        lemma_split_step(old, new, min_delta, treasury, k);
        lemma_parts(old.last(), new, min_delta, k);
    }
}

/// Where accounts are unique, the split credits an account what its one
/// record routes.
proof fn lemma_split_unique(
    old: Seq<BalanceRecord>,
    new: Seq<BalanceRecord>,
    min_delta: u128,
    treasury: AccountKey,
    i: int,
)
    requires
        unique_keys(old),
        0 <= i < old.len(),
        old[i].0 != treasury,
    ensures
        credited(split_genesis(old, new, min_delta, treasury), old[i].0)
            == credited(genesis_part(old[i], new, min_delta), old[i].0),
        credited(split_transfer(old, new, min_delta, treasury), old[i].0)
            == credited(transfer_part(old[i], new, min_delta), old[i].0),
    decreases old.len(),
{
    let k = old[i].0;
    lemma_split_step(old, new, min_delta, treasury, k);
    if i == old.len() - 1 {
        lemma_split_absent(old.drop_last(), new, min_delta, treasury, k);
    } else {
        assert(unique_keys(old.drop_last()));
        lemma_split_unique(old.drop_last(), new, min_delta, treasury, i);
        lemma_parts(old.last(), new, min_delta, k);
        lemma_credited_short(genesis_part(old.last(), new, min_delta), k);
    }
}

/// The threshold is inclusive. Where the old snapshot holds each account once,
/// an account whose amount fell by exactly `min_delta` has that decrease
/// transferred and keeps the new amount at genesis; one whose amount fell by
/// one unit less keeps its whole old amount at genesis and transfers nothing.
pub proof fn delta_threshold_inclusive(
    genesis: Seq<BalanceRecord>,
    transfer: Seq<BalanceRecord>,
    old: Seq<BalanceRecord>,
    new: Seq<BalanceRecord>,
    min_delta: u128,
    treasury: AccountKey,
    i: int,
)
    requires
        is_delta_split(genesis, transfer, old, new, min_delta, treasury),
        unique_keys(old),
        0 <= i < old.len(),
        old[i].0 != treasury,
        lookup(new, old[i].0) is Some,
    ensures
        old[i].1 == lookup(new, old[i].0)->Some_0 + min_delta ==> {
            &&& credited(transfer, old[i].0) == min_delta as nat
            &&& credited(genesis, old[i].0) == lookup(new, old[i].0)->Some_0 as nat
        },
        old[i].1 + 1 == lookup(new, old[i].0)->Some_0 + min_delta ==> {
            &&& credited(transfer, old[i].0) == 0
            &&& credited(genesis, old[i].0) == old[i].1 as nat
        },
{
    let k = old[i].0;
    let sg = split_genesis(old, new, min_delta, treasury);
    let sx = split_transfer(old, new, min_delta, treasury);
    let tr = (treasury, lookup(old, treasury)->Some_0);
    lemma_split_unique(old, new, min_delta, treasury, i);
    lemma_credited_short(genesis_part(old[i], new, min_delta), k);
    lemma_credited_short(transfer_part(old[i], new, min_delta), k);
    lemma_sums_permutation(genesis, sg.push(tr), k);
    lemma_sums_permutation(transfer, sx, k);
    lemma_sums_push(sg, tr);
}

} // verus!
