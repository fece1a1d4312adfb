//! Submitted solutions: one per (challenge, team) pair, recorded while the
//! submission window is open.

use vstd::prelude::*;

use crate::challenge::{judges_of, Challenge};
use crate::pallet::Pallet;
use crate::{AccountId, ChallengeId, Digest, Error, Event, TeamId};

verus! {

/// A team's final solution against a challenge.
pub struct SubmittedSolution {
    /// The challenge the solution answers.
    pub challenge_id: ChallengeId,
    /// The team that authored the solution.
    pub team_id: TeamId,
    /// Pointer to the solution.
    pub solution: Digest,
    /// The contributing member accounts, in the order given.
    pub members: Vec<AccountId>,
    /// The ledger height at which the solution was recorded; breaks ties
    /// between equally voted solutions.
    pub submitted_at: u64,
}

/// Whether entry `i` of the solution table answers challenge `c`.
pub open spec fn sol_for(sols: Seq<SubmittedSolution>, c: ChallengeId, i: int) -> bool {
    0 <= i < sols.len() && sols[i].challenge_id == c
}

impl Pallet {
    /// The position of team `t`'s solution to challenge `c`, if it has one.
    pub fn find_solution(&self, c: ChallengeId, t: TeamId) -> (r: Option<usize>)
        ensures
            match r {
                Some(i) => (i as int) < self.solutions@.len() && self.solutions@[i as int].challenge_id
                    == c && self.solutions@[i as int].team_id == t,
                None => forall|i: int|
                    0 <= i < self.solutions@.len() ==> !((#[trigger] self.solutions@[i]).challenge_id
                        == c && self.solutions@[i].team_id == t),
            },
    {
        let mut i: usize = 0;
        while i < self.solutions.len()
            invariant
                i <= self.solutions@.len(),
                forall|k: int|
                    0 <= k < i ==> !((#[trigger] self.solutions@[k]).challenge_id == c
                        && self.solutions@[k].team_id == t),
            decreases self.solutions@.len() - i,
        {
            if self.solutions[i].challenge_id == c && self.solutions[i].team_id == t {
                return Some(i);
            }
            i = i + 1;
        }
        None
    }

    /// Records a team's final solution to a challenge: one per (challenge,
    /// team) pair, by a team member, while the submission window is open and
    /// the challenge still accepts solutions. Success increments the
    /// challenge's submission counter.
    pub fn submit_solution(
        &mut self,
        caller: AccountId,
        challenge_id: ChallengeId,
        team_id: TeamId,
        work: Digest,
        members: Vec<AccountId>,
    ) -> (r: Result<(), Error>)
        requires
            old(self).wf(),
        ensures
            final(self).wf(),
            r is Err ==> *final(self) == *old(self),
            ({
                let c_found = (challenge_id as int) < old(self).challenges@.len();
                let t_found = (team_id as int) < old(self).teams@.len();
                let member = t_found && old(self).teams@[team_id as int].spec_is_member(caller);
                let in_window = old(self).config.submission_start <= old(self).height < old(
                    self,
                ).config.submission_end;
                let bounded = members@.len() <= old(self).config.max_members;
                let fresh = forall|i: int|
                    0 <= i < old(self).solutions@.len() ==> !((
                    #[trigger] old(self).solutions@[i]).challenge_id == challenge_id && old(
                        self,
                    ).solutions@[i].team_id == team_id);
                let room = c_found && old(self).challenges@[challenge_id as int].submissions < old(
                    self,
                ).config.max_solutions;
                &&& !c_found ==> r == Result::<(), Error>::Err(Error::NotFoundError)
                &&& c_found && !t_found ==> r == Result::<(), Error>::Err(Error::NotFoundError)
                &&& c_found && t_found && !member ==> r == Result::<(), Error>::Err(
                    Error::AuthorizationError,
                )
                &&& c_found && member && !in_window ==> r == Result::<(), Error>::Err(
                    Error::TemporalError,
                )
                &&& c_found && member && in_window && !bounded ==> r == Result::<(), Error>::Err(
                    Error::CapacityError,
                )
                &&& c_found && member && in_window && bounded && !fresh ==> r == Result::<(
                ), Error>::Err(Error::StateError)
                &&& c_found && member && in_window && bounded && fresh && !room ==> r == Result::<
                    (),
                    Error,
                >::Err(Error::CapacityError)
                &&& r is Ok <==> c_found && member && in_window && bounded && fresh && room
            }),
            r is Ok ==> {
                let c = challenge_id as int;
                let ch0 = old(self).challenges@[c];
                let ch1 = final(self).challenges@[c];
                &&& final(self).solutions@ == old(self).solutions@.push(
                    (SubmittedSolution {
                        challenge_id,
                        team_id,
                        solution: work,
                        members,
                        submitted_at: old(self).height,
                    }),
                )
                &&& final(self).challenges@.len() == old(self).challenges@.len()
                &&& ch1.submissions == ch0.submissions + 1
                &&& ch1.sponsor == ch0.sponsor
                &&& ch1.description == ch0.description
                &&& ch1.reward == ch0.reward
                &&& ch1.finalized == ch0.finalized
                &&& judges_of(ch1) == judges_of(ch0)
                &&& (forall|k: int|
                    0 <= k < old(self).challenges@.len() && k != c ==> final(self).challenges@[k]
                        == old(self).challenges@[k])
                &&& final(self).events@ == old(self).events@.push(
                    (Event::SolutionSubmitted { id: challenge_id, member: caller }),
                )
                &&& *final(self) == (Pallet {
                    challenges: final(self).challenges,
                    solutions: final(self).solutions,
                    events: final(self).events,
                    ..*old(self)
                })
            },
    {
        if (challenge_id as usize) >= self.challenges.len() {
            return Err(Error::NotFoundError);
        }
        if (team_id as usize) >= self.teams.len() {
            return Err(Error::NotFoundError);
        }
        if !crate::accounts::contains_account(&self.teams[team_id as usize].members, caller) {
            return Err(Error::AuthorizationError);
        }
        if !(self.config.submission_start <= self.height && self.height
            < self.config.submission_end) {
            return Err(Error::TemporalError);
        }
        if members.len() > self.config.max_members {
            return Err(Error::CapacityError);
        }
        if let Some(_) = self.find_solution(challenge_id, team_id) {
            return Err(Error::StateError);
        }
        let c_idx = challenge_id as usize;
        if self.challenges[c_idx].submissions >= self.config.max_solutions {
            return Err(Error::CapacityError);
        }
        let judges_copy = match &self.challenges[c_idx].judges {
            Some(j) => Some(crate::accounts::clone_accounts(j)),
            None => None,
        };
        let updated = Challenge {
            sponsor: self.challenges[c_idx].sponsor,
            description: self.challenges[c_idx].description,
            reward: self.challenges[c_idx].reward,
            judges: judges_copy,
            submissions: self.challenges[c_idx].submissions + 1,
            finalized: self.challenges[c_idx].finalized,
        };
        self.challenges.set(c_idx, updated);
        self.solutions.push(
            SubmittedSolution {
                challenge_id,
                team_id,
                solution: work,
                members,
                submitted_at: self.height,
            },
        );
        self.events.push(Event::SolutionSubmitted { id: challenge_id, member: caller });
        Ok(())
    }
}

} // verus!
