//! Judging and distribution: judge votes, the winner relation, and the
//! mathematical form of the payout that finalization performs.

use vstd::prelude::*;

use crate::bounty::{issued_pct, pct_of, Bounty, BountyState};
use crate::pallet::Pallet;
use crate::solution::{sol_for, SubmittedSolution};
use crate::sums::credited;
use crate::{AccountId, ChallengeId, Error, TeamId};

verus! {

/// Whether the table holds a vote by this judge on this challenge.
pub open spec fn has_vote(vs: Seq<JudgeVote>, c: ChallengeId, judge: AccountId) -> bool {
    exists|i: int|
        0 <= i < vs.len() && (#[trigger] vs[i]).challenge_id == c && vs[i].judge == judge
}

/// A judge's single active vote on a challenge, for one submission.
#[derive(Clone, Copy, PartialEq, Eq, Structural, Debug)]
pub struct JudgeVote {
    /// The challenge voted on.
    pub challenge_id: ChallengeId,
    /// The judge who cast the vote.
    pub judge: AccountId,
    /// The team whose submission the vote chooses.
    pub team_id: TeamId,
}

/// How many votes the table holds for team `t`'s submission to challenge `c`.
pub open spec fn votes_for(vs: Seq<JudgeVote>, c: ChallengeId, t: TeamId) -> int
    decreases vs.len(),
{
    if vs.len() == 0 {
        0
    } else {
        votes_for(vs.drop_last(), c, t) + if vs.last().challenge_id == c && vs.last().team_id
            == t {
            1int
        } else {
            0int
        }
    }
}

pub proof fn lemma_votes_take_step(vs: Seq<JudgeVote>, i: int, c: ChallengeId, t: TeamId)
    requires
        0 <= i < vs.len(),
    ensures
        votes_for(vs.take(i + 1), c, t) == votes_for(vs.take(i), c, t) + if vs[i].challenge_id == c
            && vs[i].team_id == t {
            1int
        } else {
            0int
        },
{
    assert(vs.take(i + 1).drop_last() =~= vs.take(i));
    assert(vs.take(i + 1).last() == vs[i]);
}

pub proof fn lemma_votes_take_all(vs: Seq<JudgeVote>, c: ChallengeId, t: TeamId)
    ensures
        votes_for(vs.take(vs.len() as int), c, t) == votes_for(vs, c, t),
{
    assert(vs.take(vs.len() as int) =~= vs);
}

/// How many votes the table holds for team `t`'s submission to challenge `c`.
pub fn count_votes(vs: &Vec<JudgeVote>, c: ChallengeId, t: TeamId) -> (n: usize)
    ensures
        n == votes_for(vs@, c, t),
{
    let mut n: usize = 0;
    let mut i: usize = 0;
    while i < vs.len()
        invariant
            i <= vs@.len(),
            n <= i,
            n == votes_for(vs@.take(i as int), c, t),
        decreases vs@.len() - i,
    {
        proof {
            lemma_votes_take_step(vs@, i as int, c, t);
        }
        if vs[i].challenge_id == c && vs[i].team_id == t {
            n = n + 1;
        }
        i = i + 1;
    }
    proof {
        lemma_votes_take_all(vs@, c, t);
    }
    n
}

impl Pallet {
    /// The position of this judge's active vote on this challenge, if any.
    fn find_vote(&self, c: ChallengeId, judge: AccountId) -> (r: Option<usize>)
        ensures
            match r {
                Some(i) => (i as int) < self.judge_votes@.len()
                    && self.judge_votes@[i as int].challenge_id == c
                    && self.judge_votes@[i as int].judge == judge,
                None => !has_vote(self.judge_votes@, c, judge),
            },
    {
        let mut i: usize = 0;
        while i < self.judge_votes.len()
            invariant
                i <= self.judge_votes@.len(),
                forall|k: int|
                    0 <= k < i ==> !((#[trigger] self.judge_votes@[k]).challenge_id == c
                        && self.judge_votes@[k].judge == judge),
            decreases self.judge_votes@.len() - i,
        {
            if self.judge_votes[i].challenge_id == c && self.judge_votes[i].judge == judge {
                return Some(i);
            }
            i = i + 1;
        }
        None
    }

    /// Records a judge's vote for one team's submission to a challenge,
    /// overwriting the judge's earlier vote on the same challenge if one
    /// stands. Accepted only inside the voting window, only from an account
    /// in the challenge's judge set where one was assigned, and only for a
    /// recorded submission.
    pub fn vote(&mut self, judge: AccountId, challenge_id: ChallengeId, team_id: TeamId) -> (r:
        Result<(), Error>)
        requires
            old(self).wf(),
        ensures
            final(self).wf(),
            r is Err ==> *final(self) == *old(self),
            ({
                let found = (challenge_id as int) < old(self).challenges@.len();
                let in_window = old(self).config.voting_start <= old(self).height < old(
                    self,
                ).config.voting_end;
                let eligible = found && old(self).challenges@[challenge_id as int].spec_judge_eligible(
                    judge,
                );
                let target = exists|i: int|
                    sol_for(old(self).solutions@, challenge_id, i) && old(self).solutions@[i].team_id
                        == team_id;
                &&& !found ==> r == Result::<(), Error>::Err(Error::NotFoundError)
                &&& found && !in_window ==> r == Result::<(), Error>::Err(Error::TemporalError)
                &&& found && in_window && !eligible ==> r == Result::<(), Error>::Err(
                    Error::AuthorizationError,
                )
                &&& found && in_window && eligible && !target ==> r == Result::<(), Error>::Err(
                    Error::NotFoundError,
                )
                &&& r is Ok <==> found && in_window && eligible && target
            }),
            r is Ok ==> {
                let v = (JudgeVote { challenge_id, judge, team_id });
                &&& if has_vote(old(self).judge_votes@, challenge_id, judge) {
                    exists|i: int|
                        0 <= i < old(self).judge_votes@.len() && (
                        #[trigger] old(self).judge_votes@[i]).challenge_id == challenge_id && old(
                            self,
                        ).judge_votes@[i].judge == judge && final(self).judge_votes@ == old(
                            self,
                        ).judge_votes@.update(i, v)
                } else {
                    final(self).judge_votes@ == old(self).judge_votes@.push(v)
                }
                &&& *final(self) == (Pallet { judge_votes: final(self).judge_votes, ..*old(self) })
            },
    {
        if (challenge_id as usize) >= self.challenges.len() {
            return Err(Error::NotFoundError);
        }
        if !(self.config.voting_start <= self.height && self.height < self.config.voting_end) {
            return Err(Error::TemporalError);
        }
        let eligible = match &self.challenges[challenge_id as usize].judges {
            Some(j) => crate::accounts::contains_account(j, judge),
            None => true,
        };
        if !eligible {
            return Err(Error::AuthorizationError);
        }
        match self.find_solution(challenge_id, team_id) {
            Some(s) => {
                proof {
                    assert(sol_for(self.solutions@, challenge_id, s as int) && self.solutions@[
                        s as int
                    ].team_id == team_id);
                }
            },
            None => {
                return Err(Error::NotFoundError);
            },
        }
        let v = JudgeVote { challenge_id, judge, team_id };
        match self.find_vote(challenge_id, judge) {
            Some(i) => {
                self.judge_votes.set(i, v);
                proof {
                    let vs0 = old(self).judge_votes@;
                    assert(vs0[i as int].challenge_id == challenge_id && vs0[i as int].judge
                        == judge && self.judge_votes@ == vs0.update(i as int, v));
                    assert(has_vote(vs0, challenge_id, judge));
                }
            },
            None => {
                self.judge_votes.push(v);
                proof {
                    let vs0 = old(self).judge_votes@;
                    assert forall|p: int, q: int|
                        0 <= p < q < self.judge_votes@.len() && (
                        #[trigger] self.judge_votes@[p]).challenge_id == (
                        #[trigger] self.judge_votes@[q]).challenge_id implies self.judge_votes@[p].judge
                        != self.judge_votes@[q].judge by {
                        if q == vs0.len() {
                            assert(self.judge_votes@[p] == vs0[p]);
                        }
                    }
                }
            },
        }
        Ok(())
    }
}

/// Solution `i` strictly beats solution `j` for challenge `c`: more judge
/// votes, or equally many and an earlier submission height.
pub open spec fn beats(
    sols: Seq<SubmittedSolution>,
    vs: Seq<JudgeVote>,
    c: ChallengeId,
    i: int,
    j: int,
) -> bool {
    let vi = votes_for(vs, c, sols[i].team_id);
    let vj = votes_for(vs, c, sols[j].team_id);
    vi > vj || (vi == vj && sols[i].submitted_at < sols[j].submitted_at)
}

/// Solution `i` wins challenge `c`: it answers `c` and strictly beats every
/// other solution that answers `c`. A tie of votes and heights leaves the
/// challenge without a winner.
pub open spec fn winning_sol(
    sols: Seq<SubmittedSolution>,
    vs: Seq<JudgeVote>,
    c: ChallengeId,
    i: int,
) -> bool {
    sol_for(sols, c, i) && forall|j: int|
        sol_for(sols, c, j) && j != i ==> #[trigger] beats(sols, vs, c, i, j)
}

/// Whether a bounty is paid out of team `w`'s prize: it belongs to the team
/// and its claim was approved.
pub open spec fn pays(b: Bounty, w: TeamId) -> bool {
    b.team_id == w && b.state is Approved
}

/// The slice of `reward` a bounty percentage commands, rounded down.
pub open spec fn share(reward: u64, pct: u64) -> int {
    (reward as int) * (pct as int) / 100
}

/// The total paid to approved bounty claimants of the winning team `w` out of
/// `reward`.
pub open spec fn paid_total(s: Seq<Bounty>, w: TeamId, reward: u64) -> int
    decreases s.len(),
{
    if s.len() == 0 {
        0
    } else {
        paid_total(s.drop_last(), w, reward) + if pays(s.last(), w) {
            share(reward, s.last().percentage)
        } else {
            0int
        }
    }
}

/// The total percentage of approved bounties of team `w`.
pub open spec fn approved_pct(s: Seq<Bounty>, w: TeamId) -> int
    decreases s.len(),
{
    if s.len() == 0 {
        0
    } else {
        approved_pct(s.drop_last(), w) + if pays(s.last(), w) {
            s.last().percentage as int
        } else {
            0int
        }
    }
}

/// The balance table after each approved bounty of winning team `w` has been
/// credited its share of `reward`, in table order.
pub open spec fn payout_free(
    free0: Seq<u64>,
    s: Seq<Bounty>,
    w: TeamId,
    reward: u64,
) -> Seq<u64>
    decreases s.len(),
{
    if s.len() == 0 {
        free0
    } else {
        let prev = payout_free(free0, s.drop_last(), w, reward);
        if pays(s.last(), w) {
            credited(prev, s.last().claimant->0 as int, share(reward, s.last().percentage) as u64)
        } else {
            prev
        }
    }
}

impl Pallet {
    /// The position of the winning solution of challenge `c`, where one
    /// exists: most judge votes, ties broken by earliest submission height,
    /// an unbroken tie yielding no winner.
    fn find_winner(&self, c: ChallengeId) -> (r: Option<usize>)
        ensures
            match r {
                Some(i) => winning_sol(self.solutions@, self.judge_votes@, c, i as int),
                None => forall|i: int| !winning_sol(self.solutions@, self.judge_votes@, c, i),
            },
    {
        // One pass keeps the best solution seen so far under the order "more
        // votes, then earlier height", and a flag for whether another solution
        // matched the best one exactly: a fresh strict best clears the flag,
        // since everything seen ranks strictly below the old best and so
        // below the new one.
        let ghost sols = self.solutions@;
        let ghost votes = self.judge_votes@;
        let mut have: bool = false;
        let mut best: usize = 0;
        let mut best_votes: usize = 0;
        let mut best_height: u64 = 0;
        let mut tied: bool = false;
        let ghost mut tie_wit: int = 0;
        let mut i: usize = 0;
        while i < self.solutions.len()
            invariant
                sols == self.solutions@,
                votes == self.judge_votes@,
                i <= sols.len(),
                !have ==> forall|j: int| 0 <= j < i ==> !sol_for(sols, c, j),
                !have ==> !tied,
                have ==> sol_for(sols, c, best as int) && (best as int) < i,
                have ==> best_votes == votes_for(votes, c, sols[best as int].team_id),
                have ==> best_height == sols[best as int].submitted_at,
                have ==> forall|j: int|
                    0 <= j < i && sol_for(sols, c, j) && j != best as int ==> !beats(
                        sols,
                        votes,
                        c,
                        j,
                        best as int,
                    ),
                tied ==> {
                    &&& have
                    &&& sol_for(sols, c, tie_wit)
                    &&& tie_wit < i
                    &&& tie_wit != best as int
                    &&& votes_for(votes, c, sols[tie_wit].team_id) == best_votes
                    &&& sols[tie_wit].submitted_at == best_height
                },
                !tied && have ==> forall|j: int|
                    0 <= j < i && sol_for(sols, c, j) && j != best as int ==> !(votes_for(
                        votes,
                        c,
                        (#[trigger] sols[j]).team_id,
                    ) == best_votes && sols[j].submitted_at == best_height),
            decreases sols.len() - i,
        {
            if self.solutions[i].challenge_id == c {
                let v = count_votes(&self.judge_votes, c, self.solutions[i].team_id);
                let h = self.solutions[i].submitted_at;
                if !have {
                    have = true;
                    best = i;
                    best_votes = v;
                    best_height = h;
                    tied = false;
                } else if v > best_votes || (v == best_votes && h < best_height) {
                    proof {
                        let ob = best as int;
                        assert forall|j: int|
                            0 <= j < i + 1 && sol_for(sols, c, j) && j != i as int implies !beats(
                            sols,
                            votes,
                            c,
                            j,
                            i as int,
                        ) && !(votes_for(votes, c, sols[j].team_id) == v as int
                            && sols[j].submitted_at == h) by {
                            if j != ob {
                                assert(!beats(sols, votes, c, j, ob));
                            }
                        }
                    }
                    best = i;
                    best_votes = v;
                    best_height = h;
                    tied = false;
                } else if v == best_votes && h == best_height {
                    tied = true;
                    proof {
                        tie_wit = i as int;
                    }
                } else {
                    proof {
                        assert(!beats(sols, votes, c, i as int, best as int));
                    }
                }
            }
            i = i + 1;
        }
        if !have {
            proof {
                assert forall|j: int| !winning_sol(sols, votes, c, j) by {
                    if 0 <= j < sols.len() {
                        assert(!sol_for(sols, c, j));
                    }
                }
            }
            return None;
        }
        if tied {
            proof {
                let b = best as int;
                let t = tie_wit;
                assert forall|j: int| !winning_sol(sols, votes, c, j) by {
                    if winning_sol(sols, votes, c, j) {
                        if j == b {
                            assert(beats(sols, votes, c, b, t));
                        } else if j == t {
                            assert(beats(sols, votes, c, t, b));
                            assert(!beats(sols, votes, c, t, b));
                        } else {
                            assert(beats(sols, votes, c, j, b));
                            assert(!beats(sols, votes, c, j, b));
                        }
                    }
                }
            }
            return None;
        }
        proof {
            let b = best as int;
            assert forall|j: int| sol_for(sols, c, j) && j != b implies beats(
                sols,
                votes,
                c,
                b,
                j,
            ) by {
                assert(!beats(sols, votes, c, j, b));
                assert(!(votes_for(votes, c, sols[j].team_id) == best_votes && sols[j].submitted_at
                    == best_height));
            }
        }
        Some(best)
    }

    /// Closes a challenge once the voting window has ended and distributes
    /// its locked reward. The winning team's approved bounty claimants each
    /// receive their percentage of the reward; the remainder goes to the
    /// winning team's founder. With no qualifying submission, or a tie the
    /// height tiebreak cannot resolve, the whole reward returns to the
    /// sponsor. Finalization is idempotent: replaying it on a finalized
    /// challenge is a no-op, not a double payout.
    pub fn finalize_challenge(&mut self, challenge_id: ChallengeId) -> (r: Result<(), Error>)
        requires
            old(self).wf(),
        ensures
            final(self).wf(),
            r is Err ==> *final(self) == *old(self),
            ({
                let found = (challenge_id as int) < old(self).challenges@.len();
                let closed = old(self).height >= old(self).config.voting_end;
                &&& !found ==> r == Result::<(), Error>::Err(Error::NotFoundError)
                &&& found && !closed ==> r == Result::<(), Error>::Err(Error::TemporalError)
                &&& r is Ok <==> found && closed
            }),
            r is Ok && old(self).challenges@[challenge_id as int].finalized ==> *final(self)
                == *old(self),
            r is Ok && !old(self).challenges@[challenge_id as int].finalized ==> {
                let c = challenge_id as int;
                let ch0 = old(self).challenges@[c];
                let ch1 = final(self).challenges@[c];
                &&& ch1.finalized
                &&& ch1.sponsor == ch0.sponsor
                &&& ch1.description == ch0.description
                &&& ch1.reward == ch0.reward
                &&& ch1.submissions == ch0.submissions
                &&& crate::challenge::judges_of(ch1) == crate::challenge::judges_of(ch0)
                &&& final(self).challenges@.len() == old(self).challenges@.len()
                &&& (forall|k: int|
                    0 <= k < old(self).challenges@.len() && k != c ==> final(self).challenges@[k]
                        == old(self).challenges@[k])
                &&& final(self).ledger.locked@ == old(self).ledger.locked@.update(c, 0u64)
                &&& final(self).ledger.total == old(self).ledger.total
                &&& final(self).events@ == old(self).events@.push(
                    (crate::Event::PayoutFinalized { id: challenge_id }),
                )
                &&& final(self).teams == old(self).teams
                &&& final(self).bounties == old(self).bounties
                &&& final(self).solutions == old(self).solutions
                &&& final(self).judge_votes == old(self).judge_votes
                &&& final(self).config == old(self).config
                &&& final(self).height == old(self).height
                &&& if exists|i: int|
                    winning_sol(old(self).solutions@, old(self).judge_votes@, challenge_id, i) {
                    exists|i: int|
                        {
                            &&& winning_sol(
                                old(self).solutions@,
                                old(self).judge_votes@,
                                challenge_id,
                                i,
                            )
                            &&& {
                                let w = old(self).solutions@[i].team_id;
                                let paid = paid_total(old(self).bounties@, w, ch0.reward);
                                let founder = old(self).teams@[w as int].team_founder;
                                final(self).ledger.free@ == credited(
                                    payout_free(
                                        old(self).ledger.free@,
                                        old(self).bounties@,
                                        w,
                                        ch0.reward,
                                    ),
                                    founder as int,
                                    (ch0.reward - paid) as u64,
                                )
                            }
                        }
                } else {
                    final(self).ledger.free@ == credited(
                        old(self).ledger.free@,
                        ch0.sponsor as int,
                        ch0.reward,
                    )
                }
            },
    {
        if (challenge_id as usize) >= self.challenges.len() {
            return Err(Error::NotFoundError);
        }
        if self.height < self.config.voting_end {
            return Err(Error::TemporalError);
        }
        let c_idx = challenge_id as usize;
        if self.challenges[c_idx].finalized {
            return Ok(());
        }
        let reward = self.challenges[c_idx].reward;
        let sponsor = self.challenges[c_idx].sponsor;
        match self.find_winner(challenge_id) {
            Some(sol_idx) => {
                let w = self.solutions[sol_idx].team_id;
                let ghost witness = sol_idx as int;
                self.pay_bounties(c_idx, w, reward);
                let founder = self.teams[w as usize].team_founder;
                self.ledger.release(c_idx, founder);
                proof {
                    assert(self.ledger.locked@ =~= old(self).ledger.locked@.update(
                        c_idx as int,
                        0u64,
                    ));
                    assert(winning_sol(
                        old(self).solutions@,
                        old(self).judge_votes@,
                        challenge_id,
                        witness,
                    ));
                }
            },
            None => {
                self.ledger.release(c_idx, sponsor);
                proof {
                    assert(self.ledger.locked@ =~= old(self).ledger.locked@.update(
                        c_idx as int,
                        0u64,
                    ));
                }
            },
        }
        let judges_copy = match &self.challenges[c_idx].judges {
            Some(j) => Some(crate::accounts::clone_accounts(j)),
            None => None,
        };
        let updated = crate::challenge::Challenge {
            sponsor: self.challenges[c_idx].sponsor,
            description: self.challenges[c_idx].description,
            reward: self.challenges[c_idx].reward,
            judges: judges_copy,
            submissions: self.challenges[c_idx].submissions,
            finalized: true,
        };
        self.challenges.set(c_idx, updated);
        self.events.push(crate::Event::PayoutFinalized { id: challenge_id });
        Ok(())
    }

    /// Pays each approved bounty of winning team `w` its share of `reward`
    /// out of the challenge's lock, in bounty-table order, leaving the
    /// remainder locked.
    fn pay_bounties(&mut self, c_idx: usize, w: TeamId, reward: u64)
        requires
            old(self).wf(),
            c_idx < old(self).challenges@.len(),
            !old(self).challenges@[c_idx as int].finalized,
            reward == old(self).challenges@[c_idx as int].reward,
            (w as int) < old(self).teams@.len(),
        ensures
            final(self).ledger.wf(),
            final(self).ledger.total == old(self).ledger.total,
            final(self).ledger.locked@ == old(self).ledger.locked@.update(
                c_idx as int,
                (reward - paid_total(old(self).bounties@, w, reward)) as u64,
            ),
            final(self).ledger.free@ == payout_free(
                old(self).ledger.free@,
                old(self).bounties@,
                w,
                reward,
            ),
            old(self).ledger.free@.len() <= final(self).ledger.free@.len(),
            0 <= paid_total(old(self).bounties@, w, reward) <= reward,
            *final(self) == (Pallet { ledger: final(self).ledger, ..*old(self) }),
    {
        let ghost bs = self.bounties@;
        proof {
            assert forall|k: int| 0 <= k < bs.len() implies (#[trigger] bs[k]).percentage
                <= 100 by {
                assert(crate::bounty::bounty_wf(bs[k]@, old(self).teams@));
            }
            lemma_approved_le_issued(bs, w);
            lemma_paid_prefix_bound(bs, w, reward, 0);
            assert(bs.take(0) =~= Seq::empty());
        }
        let mut i: usize = 0;
        while i < self.bounties.len()
            invariant
                old(self).wf(),
                c_idx < old(self).challenges@.len(),
                !old(self).challenges@[c_idx as int].finalized,
                reward == old(self).challenges@[c_idx as int].reward,
                (w as int) < old(self).teams@.len(),
                bs == self.bounties@,
                bs == old(self).bounties@,
                approved_pct(bs, w) <= 100,
                forall|k: int| 0 <= k < bs.len() ==> (#[trigger] bs[k]).percentage <= 100,
                i <= bs.len(),
                self.ledger.wf(),
                self.ledger.total == old(self).ledger.total,
                self.ledger.locked@ == old(self).ledger.locked@.update(
                    c_idx as int,
                    (reward - paid_total(bs.take(i as int), w, reward)) as u64,
                ),
                self.ledger.free@ == payout_free(
                    old(self).ledger.free@,
                    bs.take(i as int),
                    w,
                    reward,
                ),
                old(self).ledger.free@.len() <= self.ledger.free@.len(),
                *self == (Pallet { ledger: self.ledger, ..*old(self) }),
            decreases bs.len() - i,
        {
            proof {
                lemma_paid_prefix_bound(bs, w, reward, i as int);
                lemma_paid_prefix_bound(bs, w, reward, i + 1);
                lemma_paid_take_step(bs, w, reward, i as int);
                lemma_payout_take_step(old(self).ledger.free@, bs, w, reward, i as int);
            }
            let eligible = self.bounties[i].team_id == w && matches!(
                self.bounties[i].state,
                BountyState::Approved,
            );
            if eligible {
                let pct = self.bounties[i].percentage;
                let cl = match self.bounties[i].claimant {
                    Some(a) => a,
                    None => {
                        proof {
                            assert(crate::bounty::bounty_wf(bs[i as int]@, old(self).teams@));
                            assert(false);
                        }
                        return ;
                    },
                };
                proof {
                    vstd::arithmetic::mul::lemma_mul_upper_bound(
                        reward as int,
                        u64::MAX as int,
                        pct as int,
                        100,
                    );
                    lemma_share_bounds(reward, pct);
                }
                let amt: u64 = (((reward as u128) * (pct as u128)) / 100) as u64;
                let prior: u64 = self.ledger.locked[c_idx];
                match self.ledger.transfer_locked(c_idx, cl, amt) {
                    Ok(_) => {},
                    Err(_) => {
                        proof {
                            assert(false);
                        }
                        return ;
                    },
                }
                proof {
                    assert(self.ledger.locked@ =~= old(self).ledger.locked@.update(
                        c_idx as int,
                        (reward - paid_total(bs.take(i + 1), w, reward)) as u64,
                    ));
                    assert(pays(bs[i as int], w));
                    assert(bs[i as int].claimant->0 == cl);
                }
            } else {
                proof {
                    assert(!pays(bs[i as int], w));
                    assert(bs.take(i + 1).drop_last() =~= bs.take(i as int));
                }
            }
            i = i + 1;
        }
        proof {
            lemma_payout_take_all(old(self).ledger.free@, bs, w, reward);
            lemma_paid_prefix_bound(bs, w, reward, bs.len() as int);
            assert(bs.take(bs.len() as int) =~= bs);
        }
    }
}

pub proof fn lemma_paid_take_step(s: Seq<Bounty>, w: TeamId, reward: u64, i: int)
    requires
        0 <= i < s.len(),
    ensures
        paid_total(s.take(i + 1), w, reward) == paid_total(s.take(i), w, reward) + if pays(
            s[i],
            w,
        ) {
            share(reward, s[i].percentage)
        } else {
            0int
        },
        approved_pct(s.take(i + 1), w) == approved_pct(s.take(i), w) + if pays(s[i], w) {
            s[i].percentage as int
        } else {
            0int
        },
{
    assert(s.take(i + 1).drop_last() =~= s.take(i));
    assert(s.take(i + 1).last() == s[i]);
}

pub proof fn lemma_payout_take_step(free0: Seq<u64>, s: Seq<Bounty>, w: TeamId, reward: u64, i: int)
    requires
        0 <= i < s.len(),
    ensures
        payout_free(free0, s.take(i + 1), w, reward) == if pays(s[i], w) {
            credited(
                payout_free(free0, s.take(i), w, reward),
                s[i].claimant->0 as int,
                share(reward, s[i].percentage) as u64,
            )
        } else {
            payout_free(free0, s.take(i), w, reward)
        },
{
    assert(s.take(i + 1).drop_last() =~= s.take(i));
    assert(s.take(i + 1).last() == s[i]);
}

pub proof fn lemma_payout_take_all(free0: Seq<u64>, s: Seq<Bounty>, w: TeamId, reward: u64)
    ensures
        payout_free(free0, s.take(s.len() as int), w, reward) == payout_free(free0, s, w, reward),
        paid_total(s.take(s.len() as int), w, reward) == paid_total(s, w, reward),
        approved_pct(s.take(s.len() as int), w) == approved_pct(s, w),
{
    assert(s.take(s.len() as int) =~= s);
}

/// The approved percentage of a team never exceeds the percentage it has
/// issued: every approved bounty still counts as issued.
pub proof fn lemma_approved_le_issued(s: Seq<Bounty>, w: TeamId)
    ensures
        0 <= approved_pct(s, w) <= issued_pct(s, w as int),
    decreases s.len(),
{
    if s.len() > 0 {
        lemma_approved_le_issued(s.drop_last(), w);
        assert(pays(s.last(), w) ==> pct_of(s.last(), w as int) == s.last().percentage as int);
        crate::bounty::lemma_issued_nonneg(s.drop_last(), w as int);
    }
}

/// A prefix of the table has approved no more than the whole table.
pub proof fn lemma_approved_prefix_le(s: Seq<Bounty>, w: TeamId, i: int)
    requires
        0 <= i <= s.len(),
    ensures
        approved_pct(s.take(i), w) <= approved_pct(s, w),
    decreases s.len() - i,
{
    if i == s.len() {
        assert(s.take(i) =~= s);
    } else {
        lemma_paid_take_step(s, w, 0, i);
        lemma_approved_prefix_le(s, w, i + 1);
    }
}

/// One bounty's share is bounded by the reward, and a hundred times the share
/// is bounded by reward times percentage.
pub proof fn lemma_share_bounds(reward: u64, pct: u64)
    requires
        pct <= 100,
    ensures
        0 <= share(reward, pct) <= reward,
        share(reward, pct) * 100 <= (reward as int) * (pct as int),
{
    let x = (reward as int) * (pct as int);
    vstd::arithmetic::mul::lemma_mul_nonnegative(reward as int, pct as int);
    vstd::arithmetic::mul::lemma_mul_inequality(pct as int, 100, reward as int);
    vstd::arithmetic::div_mod::lemma_div_is_ordered(x, 100 * (reward as int), 100);
    vstd::arithmetic::div_mod::lemma_div_multiples_vanish(reward as int, 100);
    vstd::arithmetic::div_mod::lemma_div_pos_is_pos(x, 100);
    vstd::arithmetic::div_mod::lemma_fundamental_div_mod(x, 100);
}

/// What a prefix of the table pays stays within the reward's share of the
/// approved percentage, and within the reward itself while the whole table's
/// approved percentage stays within one hundred.
pub proof fn lemma_paid_prefix_bound(s: Seq<Bounty>, w: TeamId, reward: u64, i: int)
    requires
        0 <= i <= s.len(),
        approved_pct(s, w) <= 100,
        forall|k: int| 0 <= k < s.len() ==> (#[trigger] s[k]).percentage <= 100,
    ensures
        paid_total(s.take(i), w, reward) * 100 <= (reward as int) * approved_pct(s.take(i), w),
        0 <= paid_total(s.take(i), w, reward) <= reward,
    decreases i,
{
    if i == 0 {
        assert(s.take(0) =~= Seq::empty());
    } else {
        lemma_paid_prefix_bound(s, w, reward, i - 1);
        lemma_paid_take_step(s, w, reward, i - 1);
        if pays(s[i - 1], w) {
            lemma_share_bounds(reward, s[i - 1].percentage);
        }
        vstd::arithmetic::mul::lemma_mul_is_distributive_add(
            reward as int,
            approved_pct(s.take(i - 1), w),
            if pays(s[i - 1], w) {
                s[i - 1].percentage as int
            } else {
                0int
            },
        );
        lemma_approved_prefix_le(s, w, i);
        lemma_approved_le_issued(s.take(i), w);
        vstd::arithmetic::mul::lemma_mul_nonnegative(reward as int, approved_pct(s.take(i), w));
        vstd::arithmetic::mul::lemma_mul_inequality(approved_pct(s.take(i), w), 100, reward as int);
    }
}

} // verus!
