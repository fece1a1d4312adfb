//! Sums over sequences of balances, and the lemmas the ledger and the payout
//! proofs rest on.

use vstd::prelude::*;

verus! {

/// The mathematical sum of a sequence of balances.
pub open spec fn sum(s: Seq<u64>) -> int
    decreases s.len(),
{
    if s.len() == 0 {
        0
    } else {
        sum(s.drop_last()) + s.last()
    }
}

pub proof fn lemma_sum_nonneg(s: Seq<u64>)
    ensures
        0 <= sum(s),
    decreases s.len(),
{
    if s.len() > 0 {
        lemma_sum_nonneg(s.drop_last());
    }
}

pub proof fn lemma_sum_push(s: Seq<u64>, x: u64)
    ensures
        sum(s.push(x)) == sum(s) + x,
{
    assert(s.push(x).drop_last() =~= s);
}

pub proof fn lemma_sum_update(s: Seq<u64>, i: int, x: u64)
    requires
        0 <= i < s.len(),
    ensures
        sum(s.update(i, x)) == sum(s) - s[i] + x,
    decreases s.len(),
{
    if i == s.len() - 1 {
        assert(s.update(i, x).drop_last() =~= s.drop_last());
        assert(s.update(i, x).last() == x);
    } else {
        lemma_sum_update(s.drop_last(), i, x);
        assert(s.update(i, x).drop_last() =~= s.drop_last().update(i, x));
        assert(s.update(i, x).last() == s.last());
    }
}

/// Every entry of a sequence of balances is bounded by the whole sum.
pub proof fn lemma_sum_elem(s: Seq<u64>, i: int)
    requires
        0 <= i < s.len(),
    ensures
        s[i] <= sum(s),
    decreases s.len(),
{
    if i == s.len() - 1 {
        lemma_sum_nonneg(s.drop_last());
    } else {
        lemma_sum_elem(s.drop_last(), i);
        assert(s.drop_last()[i] == s[i]);
    }
}

pub proof fn lemma_sum_take_step(s: Seq<u64>, i: int)
    requires
        0 <= i < s.len(),
    ensures
        sum(s.take(i + 1)) == sum(s.take(i)) + s[i],
{
    assert(s.take(i + 1).drop_last() =~= s.take(i));
    assert(s.take(i + 1).last() == s[i]);
}

/// A sequence of balances, extended with zeroes to length `n` when it is
/// shorter; the sequence itself otherwise.
pub open spec fn grown(s: Seq<u64>, n: int) -> Seq<u64> {
    if s.len() >= n {
        s
    } else {
        s + Seq::new((n - s.len()) as nat, |i: int| 0u64)
    }
}

pub proof fn lemma_sum_grown(s: Seq<u64>, n: int)
    ensures
        sum(grown(s, n)) == sum(s),
        grown(s, n).len() >= n || grown(s, n) == s,
        s.len() >= n ==> grown(s, n) == s,
        forall|i: int| 0 <= i < s.len() ==> grown(s, n)[i] == s[i],
        forall|i: int| s.len() <= i < grown(s, n).len() ==> grown(s, n)[i] == 0u64,
    decreases n,
{
    if s.len() < n {
        let shorter = grown(s, n - 1);
        lemma_sum_grown(s, n - 1);
        assert(grown(s, n).drop_last() =~= shorter);
        assert(grown(s, n).last() == 0u64);
    }
}

/// The balance table after crediting `amt` to account `a`, growing the table
/// first so that the account has an entry.
pub open spec fn credited(s: Seq<u64>, a: int, amt: u64) -> Seq<u64> {
    let g = grown(s, a + 1);
    g.update(a, (g[a] + amt) as u64)
}

/// The balance an account holds in a table: zero where it has no entry yet.
pub open spec fn balance_of(s: Seq<u64>, a: int) -> u64 {
    if 0 <= a < s.len() {
        s[a]
    } else {
        0u64
    }
}

/// Crediting an account raises the sum by the amount, as long as the credited
/// entry does not overflow.
pub proof fn lemma_sum_credited(s: Seq<u64>, a: int, amt: u64)
    requires
        0 <= a,
        balance_of(s, a) + amt <= u64::MAX,
    ensures
        sum(credited(s, a, amt)) == sum(s) + amt,
        credited(s, a, amt).len() == if s.len() >= a + 1 { s.len() as int } else { a + 1 },
        balance_of(credited(s, a, amt), a) == balance_of(s, a) + amt,
        forall|i: int| 0 <= i < s.len() && i != a ==> credited(s, a, amt)[i] == s[i],
{
    lemma_sum_grown(s, a + 1);
    let g = grown(s, a + 1);
    lemma_sum_update(g, a, (g[a] + amt) as u64);
}

} // verus!
