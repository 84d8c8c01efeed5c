//! Reconciliation of balance lists: lookup, deduplication, duplicate
//! detection, checked totals and merging by account.
use vstd::prelude::*;
use crate::account::{AccountKey, BalanceRecord, same_account};
use crate::ledger::{
    credited, dedup, first_index_of, has_key, lemma_credited_absent, lemma_credited_prefix,
    lemma_dedup_keys, lemma_sums_push, lemma_total_prefix, lemma_total_update, repeated_keys, total,
    unique_keys,
};

verus! {

/// The position of the first record of `k` in `list`.
pub fn find_key(list: &Vec<BalanceRecord>, k: &AccountKey) -> (r: Option<usize>)
    ensures
        match r {
            Some(i) => first_index_of(list@, *k, i as int),
            None => !has_key(list@, *k),
        },
{
    let mut i: usize = 0;
    while i < list.len()
        invariant
            0 <= i <= list.len(),
            forall|j: int| 0 <= j < i ==> #[trigger] list@[j].0 != *k,
        decreases list.len() - i,
    {
        if same_account(&list[i].0, k) {
            return Some(i);
        }
        i = i + 1;
    }
    None
}

/// Keeps the first record of each account, in order of first occurrence.
pub fn deduplicate(list: &Vec<BalanceRecord>) -> (r: Vec<BalanceRecord>)
    ensures
        r@ == dedup(list@),
        unique_keys(r@),
{
    let mut out: Vec<BalanceRecord> = Vec::new();
    let mut i: usize = 0;
    while i < list.len()
        invariant
            0 <= i <= list.len(),
            out@ == dedup(list@.take(i as int)),
        decreases list.len() - i,
    {
        let rec = list[i];
        proof {
            assert(list@.take(i + 1).drop_last() =~= list@.take(i as int));
        }
        match find_key(&out, &rec.0) {
            Some(_) => {},
            None => {
                out.push(rec);
            },
        }
        i = i + 1;
    }
    proof {
        assert(list@.take(list.len() as int) =~= list@);
        lemma_dedup_keys(list@);
    }
    out
}

/// The accounts of the records that repeat an earlier account, one entry per
/// repetition, in the order they occur.
pub fn detect_duplicates(list: &Vec<BalanceRecord>) -> (r: Vec<AccountKey>)
    ensures
        r@ == repeated_keys(list@),
{
    let mut seen: Vec<BalanceRecord> = Vec::new();
    let mut dups: Vec<AccountKey> = Vec::new();
    let mut i: usize = 0;
    while i < list.len()
        invariant
            0 <= i <= list.len(),
            seen@ == dedup(list@.take(i as int)),
            dups@ == repeated_keys(list@.take(i as int)),
        decreases list.len() - i,
    {
        let rec = list[i];
        proof {
            assert(list@.take(i + 1).drop_last() =~= list@.take(i as int));
            lemma_dedup_keys(list@.take(i as int));
        }
        match find_key(&seen, &rec.0) {
            Some(j) => {
                proof {
                    assert(seen@[j as int].0 == rec.0);
                    assert(has_key(seen@, rec.0));
                    assert(has_key(list@.take(i as int), rec.0));
                }
                dups.push(rec.0);
            },
            None => {
                proof {
                    assert(!has_key(list@.take(i as int), rec.0));
                }
                seen.push(rec);
            },
        }
        i = i + 1;
    }
    proof {
        assert(list@.take(list.len() as int) =~= list@);
    }
    dups
}

/// The sum of all amounts, or `None` where it does not fit in a `u128`.
pub fn checked_total(list: &Vec<BalanceRecord>) -> (r: Option<u128>)
    ensures
        match r {
            Some(t) => t as nat == total(list@),
            None => total(list@) > u128::MAX,
        },
{
    let mut sum: u128 = 0;
    let mut i: usize = 0;
    while i < list.len()
        invariant
            0 <= i <= list.len(),
            sum as nat == total(list@.take(i as int)),
        decreases list.len() - i,
    {
        proof {
            assert(list@.take(i + 1).drop_last() =~= list@.take(i as int));
        }
        match sum.checked_add(list[i].1) {
            Some(s) => {
                sum = s;
            },
            None => {
                proof {
                    lemma_total_prefix(list@, i + 1);
                }
                return None;
            },
        }
        i = i + 1;
    }
    proof {
        assert(list@.take(list.len() as int) =~= list@);
    }
    Some(sum)
}

/// Some account's combined amount does not fit in a `u128`.
pub open spec fn merge_overflows(s: Seq<BalanceRecord>) -> bool {
    exists|i: int| 0 <= i < s.len() && credited(s, #[trigger] s[i].0) > u128::MAX
}

/// `v` holds one record per account of `s`, in order of first occurrence,
/// with the sum of that account's amounts.
pub open spec fn is_merge_of(v: Seq<BalanceRecord>, s: Seq<BalanceRecord>) -> bool {
    &&& v.len() == dedup(s).len()
    &&& forall|i: int| 0 <= i < v.len() ==> (#[trigger] v[i]).0 == dedup(s)[i].0
    &&& forall|i: int| 0 <= i < v.len() ==> (#[trigger] v[i]).1 as nat == credited(s, v[i].0)
}

/// One record per account of `s`, in order of first occurrence, with the sum
/// of that account's amounts.
pub open spec fn merged(s: Seq<BalanceRecord>) -> Seq<BalanceRecord> {
    dedup(s).map_values(|r: BalanceRecord| (r.0, credited(s, r.0) as u128))
}

/// Folds the records into one per account, summing the amounts of each
/// account; fails where a sum would overflow. Nothing is created or lost: the
/// merged total is the total of the input.
pub fn merge_sum(list: &Vec<BalanceRecord>) -> (r: Option<Vec<BalanceRecord>>)
    ensures
        match r {
            Some(v) => {
                &&& !merge_overflows(list@)
                &&& is_merge_of(v@, list@)
                &&& v@ == merged(list@)
                &&& total(v@) == total(list@)
            },
            None => merge_overflows(list@),
        },
{
    let mut out: Vec<BalanceRecord> = Vec::new();
    let mut i: usize = 0;
    while i < list.len()
        invariant
            0 <= i <= list.len(),
            is_merge_of(out@, list@.take(i as int)),
            unique_keys(out@),
            total(out@) == total(list@.take(i as int)),
        decreases list.len() - i,
    {
        let rec = list[i];
        let ghost pre = list@.take(i as int);
        let ghost post = list@.take(i + 1);
        proof {
            assert(post.drop_last() =~= pre);
            assert(post =~= pre.push(rec));
            lemma_sums_push(pre, rec);
            lemma_dedup_keys(pre);
            assert forall|k: AccountKey| has_key(out@, k) == has_key(dedup(pre), k) by {
                if has_key(out@, k) {
                    let j = choose|j: int| 0 <= j < out@.len() && #[trigger] out@[j].0 == k;
                    assert(dedup(pre)[j].0 == k);
                }
                if has_key(dedup(pre), k) {
                    let j = choose|j: int| 0 <= j < dedup(pre).len() && #[trigger] dedup(pre)[j].0 == k;
                    assert(out@[j].0 == k);
                }
            }
        }
        match find_key(&out, &rec.0) {
            Some(j) => {
                let cur = out[j].1;
                match cur.checked_add(rec.1) {
                    Some(sum) => {
                        let ghost before = out@;
                        out.set(j, (rec.0, sum));
                        proof {
                            lemma_total_update(before, j as int, (rec.0, sum));
                            assert(dedup(post) == dedup(pre));
                        }
                    },
                    None => {
                        proof {
                            lemma_credited_prefix(list@, i + 1, rec.0);
                            assert(credited(list@, list@[i as int].0) > u128::MAX);
                        }
                        return None;
                    },
                }
            },
            None => {
                proof {
                    lemma_credited_absent(pre, rec.0);
                    assert(dedup(post) == dedup(pre).push(rec));
                    lemma_sums_push(out@, rec);
                }
                out.push(rec);
            },
        }
        i = i + 1;
    }
    proof {
        assert(list@.take(list.len() as int) =~= list@);
        lemma_dedup_keys(list@);
        assert forall|i: int| 0 <= i < list@.len() implies
            credited(list@, #[trigger] list@[i].0) <= u128::MAX by {
            assert(has_key(list@, list@[i].0));
            assert(has_key(dedup(list@), list@[i].0));
            let j = choose|j: int| 0 <= j < dedup(list@).len() && #[trigger] dedup(list@)[j].0 == list@[i].0;
            assert(out@[j].0 == list@[i].0);
        }
        assert(out@ =~= merged(list@));
    }
    Some(out)
}

} // verus!
