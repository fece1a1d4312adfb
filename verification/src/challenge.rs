//! Challenges: a sponsored task with a reward locked for its whole lifetime.

use vstd::prelude::*;

use crate::accounts::{accounts_distinct, clone_accounts, no_dups};
use crate::pallet::Pallet;
use crate::sums::balance_of;
use crate::{AccountId, ChallengeId, Digest, Error, Event};

verus! {

/// A funded task, open to team submissions.
pub struct Challenge {
    /// The account that created the challenge and locked its reward.
    pub sponsor: AccountId,
    /// Content-addressed description pointer.
    pub description: Digest,
    /// The reward locked under this challenge until payout or withdrawal.
    pub reward: u64,
    /// The eligible judges, when the sponsor or an admin restricted them;
    /// any account may judge while this is absent.
    pub judges: Option<Vec<AccountId>>,
    /// How many solutions have been submitted to this challenge.
    pub submissions: u32,
    /// Whether the locked reward has been distributed or returned.
    pub finalized: bool,
}

impl Challenge {
    /// Well-formedness: a judge set, where present, is duplicate-free and
    /// bounded like a roster.
    pub open spec fn wf(self, max_members: usize) -> bool {
        match self.judges {
            Some(j) => j@.len() <= max_members && no_dups(j@),
            None => true,
        }
    }

    /// Whether the account may judge this challenge.
    pub open spec fn spec_judge_eligible(self, a: AccountId) -> bool {
        match self.judges {
            Some(j) => j@.contains(a),
            None => true,
        }
    }
}

/// The judge restriction of a challenge, as a mathematical value.
pub open spec fn judges_of(c: Challenge) -> Option<Seq<AccountId>> {
    match c.judges {
        Some(j) => Some(j@),
        None => None,
    }
}

/// Whether a judge set passed to challenge creation or assignment is
/// acceptable: duplicate-free and bounded like a roster.
pub open spec fn judge_set_ok(judges: Option<Vec<AccountId>>, max_members: usize) -> bool {
    match judges {
        Some(j) => j@.len() <= max_members && no_dups(j@),
        None => true,
    }
}

impl Pallet {
    /// Creates a challenge: allocates the next identifier and atomically
    /// locks `reward` out of the sponsor's free balance under that
    /// identifier. Rejected whole — no record is written, no funds move —
    /// when the judge set breaks the roster bounds, the identifier space is
    /// exhausted, or the sponsor's free balance does not cover the reward.
    pub fn create_challenge(
        &mut self,
        sponsor: AccountId,
        description: Digest,
        reward: u64,
        judges: Option<Vec<AccountId>>,
    ) -> (r: Result<ChallengeId, Error>)
        requires
            old(self).wf(),
        ensures
            final(self).wf(),
            r is Err ==> *final(self) == *old(self),
            ({
                let judges_ok = judge_set_ok(judges, old(self).config.max_members);
                let space_ok = old(self).challenges@.len() <= u16::MAX as int;
                let funds_ok = reward <= balance_of(old(self).ledger.free@, sponsor as int);
                &&& !judges_ok ==> r == Result::<ChallengeId, Error>::Err(Error::CapacityError)
                &&& judges_ok && !space_ok ==> r == Result::<ChallengeId, Error>::Err(
                    Error::CapacityError,
                )
                &&& judges_ok && space_ok && !funds_ok ==> r == Result::<ChallengeId, Error>::Err(
                    Error::FundsError,
                )
                &&& r is Ok <==> judges_ok && space_ok && funds_ok
            }),
            r is Ok ==> {
                let id = r->Ok_0;
                &&& id as int == old(self).challenges@.len()
                &&& final(self).challenges@ == old(self).challenges@.push(
                    (Challenge {
                        sponsor,
                        description,
                        reward,
                        judges,
                        submissions: 0,
                        finalized: false,
                    }),
                )
                &&& final(self).ledger.locked@ == old(self).ledger.locked@.push(reward)
                &&& final(self).ledger.total == old(self).ledger.total
                &&& balance_of(final(self).ledger.free@, sponsor as int) == balance_of(
                    old(self).ledger.free@,
                    sponsor as int,
                ) - reward
                &&& (forall|a: int|
                    0 <= a < old(self).ledger.free@.len() && a != sponsor as int ==> final(self).ledger.free@[a] == old(self).ledger.free@[a])
                &&& final(self).events@ == old(self).events@.push(
                    (Event::ChallengeCreated { id, creator: sponsor }),
                )
                &&& final(self).teams == old(self).teams
                &&& final(self).bounties == old(self).bounties
                &&& final(self).solutions == old(self).solutions
                &&& final(self).judge_votes == old(self).judge_votes
                &&& final(self).config == old(self).config
                &&& final(self).height == old(self).height
            },
    {
        let judges_ok = match &judges {
            Some(j) => j.len() <= self.config.max_members && accounts_distinct(j),
            None => true,
        };
        if !judges_ok {
            return Err(Error::CapacityError);
        }
        if self.challenges.len() > u16::MAX as usize {
            return Err(Error::CapacityError);
        }
        let id_index = self.challenges.len();
        match self.ledger.lock(sponsor, reward) {
            Err(e) => {
                return Err(e);
            },
            Ok(()) => {},
        }
        let id = id_index as ChallengeId;
        self.challenges.push(
            Challenge { sponsor, description, reward, judges, submissions: 0, finalized: false },
        );
        self.events.push(Event::ChallengeCreated { id, creator: sponsor });
        proof {
            crate::sums::lemma_sum_grown(old(self).ledger.free@, sponsor + 1);
            assert(self.challenges_wf());
        }
        Ok(id)
    }

    /// Replaces a challenge's description pointer. Only the original sponsor
    /// may edit, and only the description changes: reward and judge set are
    /// immutable after creation, preserving the fund-lock invariant.
    pub fn edit_challenge(&mut self, caller: AccountId, id: ChallengeId, new_description: Digest)
        -> (r: Result<(), Error>)
        requires
            old(self).wf(),
        ensures
            final(self).wf(),
            r is Err ==> *final(self) == *old(self),
            (id as int) >= old(self).challenges@.len() ==> r == Result::<(), Error>::Err(
                Error::NotFoundError,
            ),
            (id as int) < old(self).challenges@.len() && caller != old(self).challenges@[id as int].sponsor ==> r == Result::<(), Error>::Err(Error::AuthorizationError),
            r is Ok <==> (id as int) < old(self).challenges@.len() && caller == old(self).challenges@[id as int].sponsor,
            r is Ok ==> {
                let c0 = old(self).challenges@[id as int];
                let c1 = final(self).challenges@[id as int];
                &&& final(self).challenges@.len() == old(self).challenges@.len()
                &&& c1.description == new_description
                &&& c1.sponsor == c0.sponsor
                &&& c1.reward == c0.reward
                &&& judges_of(c1) == judges_of(c0)
                &&& c1.submissions == c0.submissions
                &&& c1.finalized == c0.finalized
                &&& (forall|k: int|
                    0 <= k < old(self).challenges@.len() && k != id as int ==> final(self).challenges@[k] == old(self).challenges@[k])
                &&& final(self).ledger == old(self).ledger
                &&& final(self).teams == old(self).teams
                &&& final(self).bounties == old(self).bounties
                &&& final(self).solutions == old(self).solutions
                &&& final(self).judge_votes == old(self).judge_votes
                &&& final(self).events == old(self).events
                &&& final(self).config == old(self).config
                &&& final(self).height == old(self).height
            },
    {
        if (id as usize) >= self.challenges.len() {
            return Err(Error::NotFoundError);
        }
        let idx = id as usize;
        if self.challenges[idx].sponsor != caller {
            return Err(Error::AuthorizationError);
        }
        let judges_copy = match &self.challenges[idx].judges {
            Some(j) => Some(clone_accounts(j)),
            None => None,
        };
        let updated = Challenge {
            sponsor: self.challenges[idx].sponsor,
            description: new_description,
            reward: self.challenges[idx].reward,
            judges: judges_copy,
            submissions: self.challenges[idx].submissions,
            finalized: self.challenges[idx].finalized,
        };
        self.challenges.set(idx, updated);
        Ok(())
    }

    /// Restricts a challenge's judges after creation. Admin-only, settable
    /// once: a challenge whose judge set is already present rejects the
    /// assignment, and no assignment is accepted once the voting window has
    /// opened.
    pub fn assign_judges(&mut self, caller: AccountId, id: ChallengeId, judges: Vec<AccountId>)
        -> (r: Result<(), Error>)
        requires
            old(self).wf(),
        ensures
            final(self).wf(),
            r is Err ==> *final(self) == *old(self),
            ({
                let found = (id as int) < old(self).challenges@.len();
                let admin_ok = old(self).config.spec_is_admin(caller);
                let fresh = found && old(self).challenges@[id as int].judges is None;
                let in_time = old(self).height < old(self).config.voting_start;
                let set_ok = judges@.len() <= old(self).config.max_members && no_dups(judges@);
                &&& !admin_ok ==> r == Result::<(), Error>::Err(Error::AuthorizationError)
                &&& admin_ok && !found ==> r == Result::<(), Error>::Err(Error::NotFoundError)
                &&& admin_ok && found && !fresh ==> r == Result::<(), Error>::Err(
                    Error::StateError,
                )
                &&& admin_ok && fresh && !in_time ==> r == Result::<(), Error>::Err(
                    Error::TemporalError,
                )
                &&& admin_ok && fresh && in_time && !set_ok ==> r == Result::<(), Error>::Err(
                    Error::CapacityError,
                )
                &&& r is Ok <==> admin_ok && fresh && in_time && set_ok
            }),
            r is Ok ==> {
                let c0 = old(self).challenges@[id as int];
                let c1 = final(self).challenges@[id as int];
                &&& final(self).challenges@.len() == old(self).challenges@.len()
                &&& judges_of(c1) == Some(judges@)
                &&& c1.description == c0.description
                &&& c1.sponsor == c0.sponsor
                &&& c1.reward == c0.reward
                &&& c1.submissions == c0.submissions
                &&& c1.finalized == c0.finalized
                &&& (forall|k: int|
                    0 <= k < old(self).challenges@.len() && k != id as int ==> final(self).challenges@[k] == old(self).challenges@[k])
                &&& final(self).ledger == old(self).ledger
                &&& final(self).teams == old(self).teams
                &&& final(self).bounties == old(self).bounties
                &&& final(self).solutions == old(self).solutions
                &&& final(self).judge_votes == old(self).judge_votes
                &&& final(self).events == old(self).events
                &&& final(self).config == old(self).config
                &&& final(self).height == old(self).height
            },
    {
        if !self.config.is_admin(caller) {
            return Err(Error::AuthorizationError);
        }
        if (id as usize) >= self.challenges.len() {
            return Err(Error::NotFoundError);
        }
        let idx = id as usize;
        let fresh = match &self.challenges[idx].judges {
            Some(_) => false,
            None => true,
        };
        if !fresh {
            return Err(Error::StateError);
        }
        if self.height >= self.config.voting_start {
            return Err(Error::TemporalError);
        }
        if !(judges.len() <= self.config.max_members && accounts_distinct(&judges)) {
            return Err(Error::CapacityError);
        }
        let updated = Challenge {
            sponsor: self.challenges[idx].sponsor,
            description: self.challenges[idx].description,
            reward: self.challenges[idx].reward,
            judges: Some(judges),
            submissions: self.challenges[idx].submissions,
            finalized: self.challenges[idx].finalized,
        };
        self.challenges.set(idx, updated);
        Ok(())
    }
}

/// The total reward still owed by challenges that have not been finalized.
pub open spec fn unfinalized_rewards(s: Seq<Challenge>) -> int
    decreases s.len(),
{
    if s.len() == 0 {
        0
    } else {
        unfinalized_rewards(s.drop_last()) + if s.last().finalized {
            0int
        } else {
            s.last().reward as int
        }
    }
}

} // verus!
