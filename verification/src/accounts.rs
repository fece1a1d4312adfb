//! Helpers over rosters of accounts: distinctness, membership, copying.

use vstd::prelude::*;

use crate::AccountId;

verus! {

/// No account appears twice in the roster.
pub open spec fn no_dups(s: Seq<AccountId>) -> bool {
    forall|i: int, j: int| 0 <= i < j < s.len() ==> s[i] != s[j]
}

/// An account contained in a roster is still contained after a push.
pub proof fn lemma_contains_push(s: Seq<AccountId>, x: AccountId, a: AccountId)
    requires
        s.contains(a),
    ensures
        s.push(x).contains(a),
{
    let i = choose|i: int| 0 <= i < s.len() && s[i] == a;
    assert(s.push(x)[i] == a);
}

/// Pushing reaches exactly the old accounts and the pushed one.
pub proof fn lemma_push_contains(s: Seq<AccountId>, x: AccountId, a: AccountId)
    ensures
        s.push(x).contains(a) <==> (s.contains(a) || a == x),
{
    if s.push(x).contains(a) {
        let i = choose|i: int| 0 <= i < s.push(x).len() && s.push(x)[i] == a;
        if i < s.len() {
            assert(s[i] == a);
        }
    }
    if s.contains(a) {
        lemma_contains_push(s, x, a);
    }
    if a == x {
        assert(s.push(x)[s.len() as int] == x);
    }
}

/// A roster of distinct accounts stays distinct when an absent account is
/// pushed.
pub proof fn lemma_no_dups_push(s: Seq<AccountId>, x: AccountId)
    requires
        no_dups(s),
        !s.contains(x),
    ensures
        no_dups(s.push(x)),
{
    assert forall|i: int, j: int| 0 <= i < j < s.push(x).len() implies s.push(x)[i] != s.push(
        x,
    )[j] by {
        if j == s.len() {
            assert(s[i] == s.push(x)[i]);
        }
    }
}

/// Whether the roster holds the account.
pub fn contains_account(v: &Vec<AccountId>, a: AccountId) -> (r: bool)
    ensures
        r == v@.contains(a),
{
    let mut i: usize = 0;
    while i < v.len()
        invariant
            i <= v@.len(),
            forall|k: int| 0 <= k < i ==> v@[k] != a,
        decreases v@.len() - i,
    {
        if v[i] == a {
            proof {
                assert(v@[i as int] == a);
            }
            return true;
        }
        i = i + 1;
    }
    proof {
        assert(forall|k: int| 0 <= k < v@.len() ==> v@[k] != a);
    }
    false
}

/// Whether all accounts in the roster are distinct.
pub fn accounts_distinct(v: &Vec<AccountId>) -> (r: bool)
    ensures
        r == no_dups(v@),
{
    let mut i: usize = 0;
    while i < v.len()
        invariant
            i <= v@.len(),
            forall|p: int, q: int| 0 <= p < q < i ==> v@[p] != v@[q],
        decreases v@.len() - i,
    {
        let mut j: usize = 0;
        while j < i
            invariant
                j <= i < v@.len(),
                forall|p: int| 0 <= p < j ==> v@[p] != v@[i as int],
            decreases i - j,
        {
            if v[j] == v[i] {
                proof {
                    assert(v@[j as int] == v@[i as int]);
                }
                return false;
            }
            j = j + 1;
        }
        i = i + 1;
    }
    true
}

/// A copy of the roster with the same accounts in the same order.
pub fn clone_accounts(v: &Vec<AccountId>) -> (r: Vec<AccountId>)
    ensures
        r@ == v@,
{
    let mut r: Vec<AccountId> = Vec::new();
    let mut i: usize = 0;
    while i < v.len()
        invariant
            i <= v@.len(),
            r@ =~= v@.take(i as int),
        decreases v@.len() - i,
    {
        r.push(v[i]);
        proof {
            assert(r@ =~= v@.take(i + 1));
        }
        i = i + 1;
    }
    proof {
        assert(v@.take(v@.len() as int) =~= v@);
    }
    r
}

} // verus!
