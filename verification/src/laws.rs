//! Laws that hold of every well-formed engine state: conservation of locked
//! funds and the equity bound. The laws of the bounty review protocol stand
//! beside the protocol itself in the bounty module.

use vstd::prelude::*;

use crate::bounty::{issued_pct, lemma_issued_nonneg};
use crate::challenge::unfinalized_rewards;
use crate::pallet::Pallet;
use crate::sums::{lemma_sum_take_step, sum};

verus! {

proof fn lemma_no_leakage_prefix(p: Pallet, n: int)
    requires
        p.wf(),
        0 <= n <= p.challenges@.len(),
    ensures
        sum(p.ledger.locked@.take(n)) == unfinalized_rewards(p.challenges@.take(n)),
    decreases n,
{
    if n > 0 {
        lemma_no_leakage_prefix(p, n - 1);
        lemma_sum_take_step(p.ledger.locked@, n - 1);
        assert(p.challenges@.take(n).drop_last() =~= p.challenges@.take(n - 1));
        assert(p.challenges@.take(n).last() == p.challenges@[n - 1]);
    }
}

/// No leakage: in every well-formed state, the total amount the ledger holds
/// locked equals the total reward still owed by challenges that have not been
/// finalized.
pub proof fn lemma_no_leakage(p: Pallet)
    requires
        p.wf(),
    ensures
        sum(p.ledger.locked@) == unfinalized_rewards(p.challenges@),
{
    lemma_no_leakage_prefix(p, p.challenges@.len() as int);
    assert(p.ledger.locked@.take(p.ledger.locked@.len() as int) =~= p.ledger.locked@);
    assert(p.challenges@.take(p.challenges@.len() as int) =~= p.challenges@);
}

/// Bounded equity: in every well-formed state, each team's issued bounty
/// percentages lie between zero and one hundred. Since every action preserves
/// well-formedness, no team ever exceeds the whole of its prize.
pub proof fn lemma_equity_bounded(p: Pallet, t: int)
    requires
        p.wf(),
        0 <= t < p.teams@.len(),
    ensures
        0 <= issued_pct(p.bounties@, t) <= 100,
{
    lemma_issued_nonneg(p.bounties@, t);
}

} // verus!
