//! The fund-lock ledger: free balances per account and amounts locked under a
//! named reason. Each reason is the identifier of the challenge whose reward
//! the lock holds, so reasons are allocated in lockstep with challenges.
//!
//! Locking is conservative: a lock that would exceed the account's free
//! balance fails atomically, and a failed operation leaves the ledger exactly
//! as it was.

use vstd::prelude::*;

use crate::sums::{balance_of, credited, grown, lemma_sum_credited, lemma_sum_elem,
    lemma_sum_grown, lemma_sum_push, lemma_sum_update, sum};
use crate::{AccountId, Error};

verus! {

pub struct Ledger {
    /// Free balance of each account, indexed by account identity.
    pub free: Vec<u64>,
    /// Amount locked under each reason, indexed by reason.
    pub locked: Vec<u64>,
    /// Total issuance: the sum of all free and all locked balances.
    pub total: u64,
}

impl Ledger {
    /// Well-formedness: the recorded total is the exact sum of all balances,
    /// so no balance and no lock can exceed `total`.
    pub open spec fn wf(self) -> bool {
        sum(self.free@) + sum(self.locked@) == self.total as int
    }

    pub fn new() -> (r: Ledger)
        ensures
            r.wf(),
            r.free@ =~= Seq::<u64>::empty(),
            r.locked@ =~= Seq::<u64>::empty(),
            r.total == 0,
    {
        Ledger { free: Vec::new(), locked: Vec::new(), total: 0 }
    }

    /// Grows the balance table so that account `a` has an entry, adding
    /// zero-balance entries only; a no-op when the entry exists.
    fn ensure_account(&mut self, a: AccountId)
        ensures
            final(self).locked == old(self).locked,
            final(self).total == old(self).total,
            final(self).free@ == grown(old(self).free@, a + 1),
            a < final(self).free@.len(),
    {
        proof {
            lemma_sum_grown(self.free@, a + 1);
        }
        if a < self.free.len() {
            return ;
        }
        while self.free.len() <= a
            invariant
                self.locked == old(self).locked,
                self.total == old(self).total,
                old(self).free@.len() <= self.free@.len() <= a + 1,
                forall|i: int| 0 <= i < old(self).free@.len()
                    ==> self.free@[i] == old(self).free@[i],
                forall|i: int| old(self).free@.len() <= i < self.free@.len()
                    ==> self.free@[i] == 0u64,
            decreases a + 1 - self.free.len(),
        {
            self.free.push(0u64);
        }
        proof {
            assert(self.free@ =~= grown(old(self).free@, a + 1));
        }
    }

    /// Credits `amt` to the free balance of account `to`. Internal: callers
    /// prove that the credit cannot overflow, which holds whenever the
    /// credited amount was already counted in `total`.
    fn credit(&mut self, to: AccountId, amt: u64)
        requires
            balance_of(old(self).free@, to as int) + amt <= u64::MAX,
        ensures
            final(self).locked == old(self).locked,
            final(self).total == old(self).total,
            final(self).free@ == credited(old(self).free@, to as int, amt),
            sum(final(self).free@) == sum(old(self).free@) + amt,
            old(self).free@.len() <= final(self).free@.len(),
    {
        proof {
            lemma_sum_credited(old(self).free@, to as int, amt);
            lemma_sum_grown(old(self).free@, to + 1);
        }
        self.ensure_account(to);
        let cur: u64 = self.free[to];
        proof {
            lemma_sum_update(self.free@, to as int, (cur + amt) as u64);
        }
        self.free.set(to, cur + amt);
        proof {
            assert(self.free@ =~= credited(old(self).free@, to as int, amt));
        }
    }

    /// Credits `amount` of fresh issuance to an account. Fails, changing
    /// nothing, only when the ledger's total issuance would overflow.
    pub fn deposit(&mut self, account: AccountId, amount: u64) -> (r: Result<(), Error>)
        requires
            old(self).wf(),
        ensures
            final(self).wf(),
            r is Ok <==> old(self).total + amount <= u64::MAX,
            r is Err ==> *final(self) == *old(self) && r == Result::<(), Error>::Err(
                Error::FundsError),
            r is Ok ==> {
                &&& final(self).free@ == credited(old(self).free@, account as int, amount)
                &&& final(self).locked == old(self).locked
                &&& final(self).total == old(self).total + amount
                &&& old(self).free@.len() <= final(self).free@.len()
            },
    {
        if amount > u64::MAX - self.total {
            return Err(Error::FundsError);
        }
        proof {
            lemma_sum_nonneg_pair(*self);
            if (account as int) < self.free@.len() {
                lemma_sum_elem(self.free@, account as int);
            }
        }
        self.credit(account, amount);
        self.total = self.total + amount;
        Ok(())
    }

    /// Locks `amount` out of the free balance of `account` under a fresh
    /// reason, the index of the new lock entry. Fails atomically, with the
    /// ledger unchanged, when the free balance does not cover the amount.
    pub fn lock(&mut self, account: AccountId, amount: u64) -> (r: Result<(), Error>)
        requires
            old(self).wf(),
        ensures
            final(self).wf(),
            r is Ok <==> amount <= balance_of(old(self).free@, account as int),
            r is Err ==> *final(self) == *old(self) && r == Result::<(), Error>::Err(
                Error::FundsError),
            r is Ok ==> {
                &&& final(self).free@ == grown(old(self).free@, account + 1).update(
                    account as int,
                    (balance_of(old(self).free@, account as int) - amount) as u64,
                )
                &&& final(self).locked@ == old(self).locked@.push(amount)
                &&& final(self).total == old(self).total
                &&& account < final(self).free@.len()
                &&& old(self).free@.len() <= final(self).free@.len()
            },
    {
        let have: u64 = if account < self.free.len() {
            self.free[account]
        } else {
            0
        };
        if amount > have {
            return Err(Error::FundsError);
        }
        proof {
            lemma_sum_grown(self.free@, account + 1);
        }
        self.ensure_account(account);
        proof {
            lemma_sum_update(self.free@, account as int, (have - amount) as u64);
            lemma_sum_push(self.locked@, amount);
        }
        self.free.set(account, have - amount);
        self.locked.push(amount);
        Ok(())
    }

    /// Releases the whole remaining lock under `reason` to the free balance
    /// of account `to`.
    pub fn release(&mut self, reason: usize, to: AccountId)
        requires
            old(self).wf(),
            reason < old(self).locked@.len(),
        ensures
            final(self).wf(),
            final(self).total == old(self).total,
            final(self).locked@ == old(self).locked@.update(reason as int, 0u64),
            final(self).free@ == credited(
                old(self).free@,
                to as int,
                old(self).locked@[reason as int],
            ),
            old(self).free@.len() <= final(self).free@.len(),
    {
        let amount: u64 = self.locked[reason];
        proof {
            lemma_release_fits(*self, reason as int, to as int, amount);
            lemma_sum_update(self.locked@, reason as int, 0u64);
        }
        self.locked.set(reason, 0);
        self.credit(to, amount);
    }

    /// Moves `amount` out of the lock under `reason` into the free balance of
    /// account `to`. Fails atomically when the lock does not hold that much.
    pub fn transfer_locked(&mut self, reason: usize, to: AccountId, amount: u64) -> (r: Result<
        (),
        Error,
    >)
        requires
            old(self).wf(),
            reason < old(self).locked@.len(),
        ensures
            final(self).wf(),
            r is Ok <==> amount <= old(self).locked@[reason as int],
            r is Err ==> *final(self) == *old(self) && r == Result::<(), Error>::Err(
                Error::FundsError),
            r is Ok ==> {
                &&& final(self).total == old(self).total
                &&& final(self).locked@ == old(self).locked@.update(
                    reason as int,
                    (old(self).locked@[reason as int] - amount) as u64,
                )
                &&& final(self).free@ == credited(old(self).free@, to as int, amount)
                &&& old(self).free@.len() <= final(self).free@.len()
            },
    {
        let held: u64 = self.locked[reason];
        if amount > held {
            return Err(Error::FundsError);
        }
        proof {
            lemma_release_fits(*self, reason as int, to as int, amount);
            lemma_sum_update(self.locked@, reason as int, (held - amount) as u64);
        }
        self.locked.set(reason, held - amount);
        self.credit(to, amount);
        Ok(())
    }
}

/// Both partial sums of a well-formed ledger are bounded by its total.
proof fn lemma_sum_nonneg_pair(l: Ledger)
    requires
        l.wf(),
    ensures
        0 <= sum(l.free@) <= l.total,
        0 <= sum(l.locked@) <= l.total,
{
    crate::sums::lemma_sum_nonneg(l.free@);
    crate::sums::lemma_sum_nonneg(l.locked@);
}

/// An amount held under one lock fits on top of any free balance without
/// overflow, because both are parts of the same total.
proof fn lemma_release_fits(l: Ledger, reason: int, to: int, amount: u64)
    requires
        l.wf(),
        0 <= reason < l.locked@.len(),
        amount <= l.locked@[reason],
        0 <= to,
    ensures
        balance_of(l.free@, to) + amount <= u64::MAX,
{
    lemma_sum_elem(l.locked@, reason);
    crate::sums::lemma_sum_nonneg(l.free@);
    if to < l.free@.len() {
        lemma_sum_elem(l.free@, to);
    }
}

} // verus!
