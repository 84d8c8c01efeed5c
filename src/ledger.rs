//! The mathematical model of balance lists: per-account and overall sums,
//! first-occurrence lookup and deduplication, with the facts about them that
//! the reconciliation steps rely on.
use vstd::prelude::*;
use vstd::seq_lib::group_to_multiset_ensures;
use crate::account::{AccountKey, BalanceRecord};

verus! {

/// Whether some record of `s` belongs to account `k`.
pub open spec fn has_key(s: Seq<BalanceRecord>, k: AccountKey) -> bool {
    exists|i: int| 0 <= i < s.len() && #[trigger] s[i].0 == k
}

/// Whether `i` is the first position of `s` that belongs to account `k`.
pub open spec fn first_index_of(s: Seq<BalanceRecord>, k: AccountKey, i: int) -> bool {
    &&& 0 <= i < s.len()
    &&& s[i].0 == k
    &&& forall|j: int| 0 <= j < i ==> #[trigger] s[j].0 != k
}

/// The amount of the first record of `k` in `s`, if there is one.
pub open spec fn lookup(s: Seq<BalanceRecord>, k: AccountKey) -> Option<u128> {
    if has_key(s, k) {
        let i = choose|i: int| first_index_of(s, k, i);
        Some(s[i].1)
    } else {
        None
    }
}

/// Every account appears at most once in `s`.
pub open spec fn unique_keys(s: Seq<BalanceRecord>) -> bool {
    forall|i: int, j: int| 0 <= i < j < s.len() ==> #[trigger] s[i].0 != #[trigger] s[j].0
}

/// The sum of all amounts in `s`.
pub open spec fn total(s: Seq<BalanceRecord>) -> nat
    decreases s.len(),
{
    if s.len() == 0 {
        0
    } else {
        total(s.drop_last()) + s.last().1 as nat
    }
}

/// The sum of the amounts that `s` credits to account `k`.
pub open spec fn credited(s: Seq<BalanceRecord>, k: AccountKey) -> nat
    decreases s.len(),
{
    if s.len() == 0 {
        0
    } else {
        credited(s.drop_last(), k) + (if s.last().0 == k { s.last().1 as nat } else { 0 })
    }
}

/// `s` with every record dropped whose account already appeared earlier.
pub open spec fn dedup(s: Seq<BalanceRecord>) -> Seq<BalanceRecord>
    decreases s.len(),
{
    if s.len() == 0 {
        seq![]
    } else {
        let p = dedup(s.drop_last());
        if has_key(p, s.last().0) {
            p
        } else {
            p.push(s.last())
        }
    }
}

/// The accounts of the records of `s` that repeat an earlier account, in order.
pub open spec fn repeated_keys(s: Seq<BalanceRecord>) -> Seq<AccountKey>
    decreases s.len(),
{
    if s.len() == 0 {
        seq![]
    } else {
        let p = repeated_keys(s.drop_last());
        if has_key(s.drop_last(), s.last().0) {
            p.push(s.last().0)
        } else {
            p
        }
    }
}

/// Appending a record adds its amount to the total and to its account.
pub proof fn lemma_sums_push(s: Seq<BalanceRecord>, r: BalanceRecord)
    ensures
        total(s.push(r)) == total(s) + r.1 as nat,
        forall|k: AccountKey| #[trigger] credited(s.push(r), k)
            == credited(s, k) + (if r.0 == k { r.1 as nat } else { 0 }),
{
    assert(s.push(r).drop_last() =~= s);
}

/// Appending a record adds its account to those present.
pub proof fn lemma_has_key_push(s: Seq<BalanceRecord>, r: BalanceRecord)
    ensures
        forall|k: AccountKey| #[trigger] has_key(s.push(r), k) == (has_key(s, k) || r.0 == k),
{
    assert forall|k: AccountKey| #[trigger] has_key(s.push(r), k) == (has_key(s, k) || r.0 == k) by {
        if has_key(s, k) {
            let i = choose|i: int| 0 <= i < s.len() && #[trigger] s[i].0 == k;
            assert(s.push(r)[i].0 == k);
        }
        if r.0 == k {
            assert(s.push(r)[s.len() as int].0 == k);
        }
        if has_key(s.push(r), k) {
            let i = choose|i: int| 0 <= i < s.push(r).len() && #[trigger] s.push(r)[i].0 == k;
            if i < s.len() {
                assert(s[i].0 == k);
            }
        }
    }
}

/// An account with no record is credited nothing.
pub proof fn lemma_credited_absent(s: Seq<BalanceRecord>, k: AccountKey)
    requires
        !has_key(s, k),
    ensures
        credited(s, k) == 0,
    decreases s.len(),
{
    if s.len() > 0 {
        lemma_has_key_push(s.drop_last(), s.last());
        assert(s.drop_last().push(s.last()) =~= s);
        lemma_credited_absent(s.drop_last(), k);
    }
}

/// A prefix credits an account no more than the whole list.
pub proof fn lemma_credited_prefix(s: Seq<BalanceRecord>, n: int, k: AccountKey)
    requires
        0 <= n <= s.len(),
    ensures
        credited(s.take(n), k) <= credited(s, k),
    decreases s.len(),
{
    if n < s.len() {
        assert(s.take(n) =~= s.drop_last().take(n));
        lemma_credited_prefix(s.drop_last(), n, k);
    } else {
        assert(s.take(n) =~= s);
    }
}

/// Replacing one record changes the total by the difference of the amounts.
pub proof fn lemma_total_update(s: Seq<BalanceRecord>, j: int, r: BalanceRecord)
    requires
        0 <= j < s.len(),
    ensures
        total(s.update(j, r)) + s[j].1 as nat == total(s) + r.1 as nat,
    decreases s.len(),
{
    let u = s.update(j, r);
    if j == s.len() - 1 {
        assert(u.drop_last() =~= s.drop_last());
    } else {
        assert(u.drop_last() =~= s.drop_last().update(j, r));
        lemma_total_update(s.drop_last(), j, r);
    }
}

/// Deduplication keeps exactly the accounts of its input, each once.
pub proof fn lemma_dedup_keys(s: Seq<BalanceRecord>)
    ensures
        unique_keys(dedup(s)),
        forall|k: AccountKey| #[trigger] has_key(dedup(s), k) == has_key(s, k),
    decreases s.len(),
{
    if s.len() > 0 {
        let t = s.drop_last();
        let l = s.last();
        lemma_dedup_keys(t);
        lemma_has_key_push(t, l);
        assert(t.push(l) =~= s);
        let p = dedup(t);
        lemma_has_key_push(p, l);
        if !has_key(p, l.0) {
            assert forall|i: int, j: int| 0 <= i < j < p.push(l).len() implies
                #[trigger] p.push(l)[i].0 != #[trigger] p.push(l)[j].0 by {
                if j == p.len() {
                    assert(p[i].0 != l.0);
                }
            }
        }
    }
}

/// A list whose accounts are already unique is left as it is.
pub proof fn lemma_dedup_unique(s: Seq<BalanceRecord>)
    requires
        unique_keys(s),
    ensures
        dedup(s) == s,
    decreases s.len(),
{
    if s.len() > 0 {
        let t = s.drop_last();
        assert(unique_keys(t));
        lemma_dedup_unique(t);
        assert(!has_key(t, s.last().0));
        assert(t.push(s.last()) =~= s);
    }
}

/// Deduplicating twice gives what deduplicating once gives.
pub proof fn dedup_idempotent(s: Seq<BalanceRecord>)
    ensures
        dedup(dedup(s)) == dedup(s),
{
    lemma_dedup_keys(s);
    lemma_dedup_unique(dedup(s));
}

/// The first record of an account is what `lookup` reports.
pub proof fn lemma_lookup_first(s: Seq<BalanceRecord>, k: AccountKey, i: int)
    requires
        first_index_of(s, k, i),
    ensures
        lookup(s, k) == Some(s[i].1),
{
    assert(has_key(s, k));
    let c = choose|c: int| first_index_of(s, k, c);
    if c < i {
        assert(s[c].0 != k);
    }
    if i < c {
        assert(s[i].0 != k);
    }
}


/// A prefix has no larger total than the whole list.
pub proof fn lemma_total_prefix(s: Seq<BalanceRecord>, n: int)
    requires
        0 <= n <= s.len(),
    ensures
        total(s.take(n)) <= total(s),
    decreases s.len(),
{
    if n < s.len() {
        assert(s.take(n) =~= s.drop_last().take(n));
        lemma_total_prefix(s.drop_last(), n);
    } else {
        assert(s.take(n) =~= s);
    }
}

/// Removing one record takes its amount away from the sums it counted in.
pub proof fn lemma_sums_remove(s: Seq<BalanceRecord>, j: int, k: AccountKey)
    requires
        0 <= j < s.len(),
    ensures
        credited(s, k) == credited(s.remove(j), k) + (if s[j].0 == k { s[j].1 as nat } else { 0 }),
        total(s) == total(s.remove(j)) + s[j].1 as nat,
    decreases s.len(),
{
    if j == s.len() - 1 {
        assert(s.remove(j) =~= s.drop_last());
    } else {
        assert(s.remove(j).drop_last() =~= s.drop_last().remove(j));
        assert(s.remove(j).last() == s.last());
        lemma_sums_remove(s.drop_last(), j, k);
    }
}

/// Lists holding the same records in any order have the same sums.
pub proof fn lemma_sums_permutation(a: Seq<BalanceRecord>, b: Seq<BalanceRecord>, k: AccountKey)
    requires
        a.to_multiset() == b.to_multiset(),
    ensures
        credited(a, k) == credited(b, k),
        total(a) == total(b),
    decreases a.len(),
{
    broadcast use group_to_multiset_ensures;
    if a.len() == 0 {
        assert(b.to_multiset().len() == 0);
    } else {
        let x = a.last();
        let a1 = a.drop_last();
        assert(a1.push(x) =~= a);
        assert(a.to_multiset().count(x) > 0);
        assert(b.contains(x));
        let j = choose|j: int| 0 <= j < b.len() && b[j] == x;
        assert(b.remove(j).to_multiset() == b.to_multiset().remove(x));
        assert(a1.to_multiset() =~= a.to_multiset().remove(x));
        lemma_sums_permutation(a1, b.remove(j), k);
        lemma_sums_remove(b, j, k);
    }
}

/// The sums of two lists joined end to end add up.
pub proof fn lemma_sums_concat(a: Seq<BalanceRecord>, b: Seq<BalanceRecord>, k: AccountKey)
    ensures
        credited(a + b, k) == credited(a, k) + credited(b, k),
        total(a + b) == total(a) + total(b),
    decreases b.len(),
{
    if b.len() == 0 {
        assert(a + b =~= a);
    } else {
        assert((a + b).drop_last() =~= a + b.drop_last());
        lemma_sums_concat(a, b.drop_last(), k);
    }
}

} // verus!
