//! The coordination engine itself: one value holds the whole business state,
//! and every action either applies in full or returns an error leaving the
//! state untouched.

use vstd::prelude::*;

use crate::accounts::{accounts_distinct, no_dups};
use crate::bounty::{bounty_wf, issued_pct, Bounty};
use crate::challenge::Challenge;
use crate::judging::JudgeVote;
use crate::ledger::Ledger;
use crate::solution::SubmittedSolution;
use crate::sums::credited;
use crate::team::Team;
use crate::{AccountId, BountyId, ChallengeId, Error, Event, TeamId};

verus! {

/// The configured parameters of one hackathon event.
pub struct Config {
    /// The largest roster a team, a judge set or a solution's contributor
    /// list may have.
    pub max_members: usize,
    /// The most solutions one challenge accepts.
    pub max_solutions: u32,
    /// How far a majority rejection pushes a bounty's expiry forward.
    pub expiry_extension: u64,
    /// First height at which solutions are accepted.
    pub submission_start: u64,
    /// First height at which solutions are no longer accepted.
    pub submission_end: u64,
    /// First height at which judge votes are accepted.
    pub voting_start: u64,
    /// First height at which judge votes are no longer accepted, and
    /// finalization becomes possible.
    pub voting_end: u64,
    /// The accounts that administer the event.
    pub admins: Vec<AccountId>,
}

impl Config {
    /// Well-formedness: rosters have room for at least the founder, a
    /// rejection moves an expiry strictly forward, the submission window
    /// precedes the voting window, and the admin set has no duplicates.
    pub open spec fn wf(self) -> bool {
        &&& 1 <= self.max_members
        &&& 1 <= self.expiry_extension
        &&& self.submission_start <= self.submission_end
        &&& self.submission_end <= self.voting_start
        &&& self.voting_start <= self.voting_end
        &&& no_dups(self.admins@)
    }

    /// Whether the account administers the event.
    pub open spec fn spec_is_admin(self, a: AccountId) -> bool {
        self.admins@.contains(a)
    }

    /// Whether the account administers the event.
    pub fn is_admin(&self, a: AccountId) -> (r: bool)
        ensures
            r == self.spec_is_admin(a),
    {
        crate::accounts::contains_account(&self.admins, a)
    }
}

/// No two stored solutions answer the same challenge for the same team.
pub open spec fn sols_unique(sols: Seq<SubmittedSolution>) -> bool {
    forall|i: int, j: int|
        0 <= i < j < sols.len() && #[trigger] sols[i].challenge_id == #[trigger] sols[j].challenge_id
            ==> sols[i].team_id != sols[j].team_id
}

/// A judge holds at most one active vote per challenge.
pub open spec fn votes_unique(vs: Seq<JudgeVote>) -> bool {
    forall|i: int, j: int|
        0 <= i < j < vs.len() && #[trigger] vs[i].challenge_id == #[trigger] vs[j].challenge_id
            ==> vs[i].judge != vs[j].judge
}

/// The engine: configuration, the current ledger height as reported by the
/// host, the fund-lock ledger, and the flat, identifier-indexed entity
/// tables. Challenge, team and bounty identifiers are indices into their
/// tables, assigned monotonically.
pub struct Pallet {
    pub config: Config,
    /// The host's monotonically increasing height counter, as last reported.
    pub height: u64,
    pub ledger: Ledger,
    pub challenges: Vec<Challenge>,
    pub teams: Vec<Team>,
    pub bounties: Vec<Bounty>,
    pub solutions: Vec<SubmittedSolution>,
    pub judge_votes: Vec<JudgeVote>,
    /// Advisory notifications, in order of occurrence.
    pub events: Vec<Event>,
}

impl Pallet {
    /// The challenge table is in lockstep with the lock table: every
    /// challenge that is not finalized keeps exactly its reward locked under
    /// its own identifier, and a finalized one keeps nothing.
    pub open spec fn challenges_wf(self) -> bool {
        &&& self.ledger.locked@.len() == self.challenges@.len()
        &&& self.challenges@.len() <= u16::MAX as int + 1
        &&& forall|i: int|
            0 <= i < self.challenges@.len() ==> {
                let c = #[trigger] self.challenges@[i];
                &&& c.wf(self.config.max_members)
                &&& (c.sponsor as int) < self.ledger.free@.len()
                &&& c.submissions <= self.config.max_solutions
                &&& self.ledger.locked@[i] == if c.finalized {
                    0u64
                } else {
                    c.reward
                }
            }
    }

    pub open spec fn teams_wf(self) -> bool {
        &&& self.teams@.len() <= u32::MAX as int + 1
        &&& forall|i: int|
            0 <= i < self.teams@.len() ==> (#[trigger] self.teams@[i]).wf(self.config.max_members)
    }

    pub open spec fn bounties_wf(self) -> bool {
        &&& self.bounties@.len() <= u32::MAX as int + 1
        &&& forall|i: int|
            0 <= i < self.bounties@.len() ==> bounty_wf(#[trigger] self.bounties@[i]@, self.teams@)
    }

    /// No team's issued bounty percentages ever exceed the whole: the durable
    /// heart of the equity rule.
    pub open spec fn equity_wf(self) -> bool {
        forall|t: int| 0 <= t < self.teams@.len() ==> issued_pct(self.bounties@, t) <= 100
    }

    pub open spec fn solutions_wf(self) -> bool {
        &&& sols_unique(self.solutions@)
        &&& forall|i: int|
            0 <= i < self.solutions@.len() ==> {
                let s = #[trigger] self.solutions@[i];
                &&& (s.challenge_id as int) < self.challenges@.len()
                &&& (s.team_id as int) < self.teams@.len()
                &&& s.members@.len() <= self.config.max_members
            }
    }

    /// Well-formedness of the whole engine state; established by `new` and
    /// preserved by every action.
    pub open spec fn wf(self) -> bool {
        &&& self.config.wf()
        &&& self.ledger.wf()
        &&& self.challenges_wf()
        &&& self.teams_wf()
        &&& self.bounties_wf()
        &&& self.equity_wf()
        &&& self.solutions_wf()
        &&& votes_unique(self.judge_votes@)
    }

    /// Registers an event with the given configuration and no entities. A
    /// configuration that breaks its own invariants is rejected whole.
    pub fn new(config: Config) -> (r: Result<Pallet, Error>)
        ensures
            r is Ok <==> config.wf(),
            r is Err ==> r == Result::<Pallet, Error>::Err(Error::StateError),
            r is Ok ==> {
                let p = r->Ok_0;
                &&& p.wf()
                &&& p.config == config
                &&& p.height == 0
                &&& p.ledger.total == 0
                &&& p.ledger.free@.len() == 0
                &&& p.ledger.locked@.len() == 0
                &&& p.challenges@.len() == 0
                &&& p.teams@.len() == 0
                &&& p.bounties@.len() == 0
                &&& p.solutions@.len() == 0
                &&& p.judge_votes@.len() == 0
                &&& p.events@.len() == 0
            },
    {
        let ok = config.max_members >= 1 && config.expiry_extension >= 1
            && config.submission_start <= config.submission_end && config.submission_end
            <= config.voting_start && config.voting_start <= config.voting_end
            && accounts_distinct(&config.admins);
        if !ok {
            return Err(Error::StateError);
        }
        Ok(
            Pallet {
                config,
                height: 0,
                ledger: Ledger::new(),
                challenges: Vec::new(),
                teams: Vec::new(),
                bounties: Vec::new(),
                solutions: Vec::new(),
                judge_votes: Vec::new(),
                events: Vec::new(),
            },
        )
    }

    /// Takes note of the host's height counter. Heights never move backward:
    /// a stale report is ignored.
    pub fn advance_height(&mut self, h: u64)
        requires
            old(self).wf(),
        ensures
            final(self).wf(),
            final(self).height == if h > old(self).height {
                h
            } else {
                old(self).height
            },
            *final(self) == (Pallet { height: final(self).height, ..*old(self) }),
    {
        if h > self.height {
            self.height = h;
        }
    }

    /// Credits fresh issuance to an account's free balance, so that it can
    /// sponsor challenges. Fails only when the ledger's total issuance would
    /// overflow.
    pub fn deposit(&mut self, account: AccountId, amount: u64) -> (r: Result<(), Error>)
        requires
            old(self).wf(),
        ensures
            final(self).wf(),
            r is Ok <==> old(self).ledger.total + amount <= u64::MAX,
            r is Err ==> *final(self) == *old(self) && r == Result::<(), Error>::Err(
                Error::FundsError),
            r is Ok ==> {
                &&& *final(self) == (Pallet { ledger: final(self).ledger, ..*old(self) })
                &&& final(self).ledger.free@ == credited(
                    old(self).ledger.free@,
                    account as int,
                    amount,
                )
                &&& final(self).ledger.locked == old(self).ledger.locked
                &&& final(self).ledger.total == old(self).ledger.total + amount
            },
    {
        self.ledger.deposit(account, amount)
    }

    /// Replaces the event's submission and voting windows. Admin-only, and
    /// only before the current submission window has opened; the new windows
    /// must be ordered like the old ones.
    pub fn update_period(
        &mut self,
        caller: AccountId,
        submission_start: u64,
        submission_end: u64,
        voting_start: u64,
        voting_end: u64,
    ) -> (r: Result<(), Error>)
        requires
            old(self).wf(),
        ensures
            final(self).wf(),
            r is Err ==> *final(self) == *old(self),
            ({
                let admin_ok = old(self).config.spec_is_admin(caller);
                let in_time = old(self).height < old(self).config.submission_start;
                let ordered = submission_start <= submission_end <= voting_start <= voting_end;
                &&& !admin_ok ==> r == Result::<(), Error>::Err(Error::AuthorizationError)
                &&& admin_ok && !in_time ==> r == Result::<(), Error>::Err(Error::TemporalError)
                &&& admin_ok && in_time && !ordered ==> r == Result::<(), Error>::Err(
                    Error::StateError,
                )
                &&& r is Ok <==> admin_ok && in_time && ordered
            }),
            r is Ok ==> {
                let c0 = old(self).config;
                let c1 = final(self).config;
                &&& c1.submission_start == submission_start
                &&& c1.submission_end == submission_end
                &&& c1.voting_start == voting_start
                &&& c1.voting_end == voting_end
                &&& c1.max_members == c0.max_members
                &&& c1.max_solutions == c0.max_solutions
                &&& c1.expiry_extension == c0.expiry_extension
                &&& c1.admins@ == c0.admins@
                &&& *final(self) == (Pallet { config: final(self).config, ..*old(self) })
            },
    {
        if !self.config.is_admin(caller) {
            return Err(Error::AuthorizationError);
        }
        if self.height >= self.config.submission_start {
            return Err(Error::TemporalError);
        }
        if !(submission_start <= submission_end && submission_end <= voting_start && voting_start
            <= voting_end) {
            return Err(Error::StateError);
        }
        let updated = Config {
            max_members: self.config.max_members,
            max_solutions: self.config.max_solutions,
            expiry_extension: self.config.expiry_extension,
            submission_start,
            submission_end,
            voting_start,
            voting_end,
            admins: crate::accounts::clone_accounts(&self.config.admins),
        };
        self.config = updated;
        Ok(())
    }

    /// The challenge stored under an identifier.
    pub fn get_challenge(&self, id: ChallengeId) -> (r: Option<&Challenge>)
        ensures
            match r {
                Some(c) => (id as int) < self.challenges@.len() && *c == self.challenges@[id as int],
                None => (id as int) >= self.challenges@.len(),
            },
    {
        if (id as usize) < self.challenges.len() {
            Some(&self.challenges[id as usize])
        } else {
            None
        }
    }

    /// The team stored under an identifier.
    pub fn get_team(&self, id: TeamId) -> (r: Option<&Team>)
        ensures
            match r {
                Some(t) => (id as int) < self.teams@.len() && *t == self.teams@[id as int],
                None => (id as int) >= self.teams@.len(),
            },
    {
        if (id as usize) < self.teams.len() {
            Some(&self.teams[id as usize])
        } else {
            None
        }
    }

    /// The bounty stored under an identifier.
    pub fn get_bounty(&self, id: BountyId) -> (r: Option<&Bounty>)
        ensures
            match r {
                Some(b) => (id as int) < self.bounties@.len() && *b == self.bounties@[id as int],
                None => (id as int) >= self.bounties@.len(),
            },
    {
        if (id as usize) < self.bounties.len() {
            Some(&self.bounties[id as usize])
        } else {
            None
        }
    }

    /// The positions, in submission order, of the solutions recorded for a
    /// challenge.
    pub fn list_submissions(&self, id: ChallengeId) -> (r: Vec<usize>)
        ensures
            forall|k: int|
                0 <= k < r@.len() ==> crate::solution::sol_for(
                    self.solutions@,
                    id,
                    #[trigger] r@[k] as int,
                ),
            forall|i: int|
                crate::solution::sol_for(self.solutions@, id, i) ==> r@.contains(i as usize),
            forall|a: int, b: int| 0 <= a < b < r@.len() ==> r@[a] < r@[b],
    {
        let mut r: Vec<usize> = Vec::new();
        let mut i: usize = 0;
        while i < self.solutions.len()
            invariant
                i <= self.solutions@.len(),
                forall|k: int|
                    0 <= k < r@.len() ==> crate::solution::sol_for(
                        self.solutions@,
                        id,
                        #[trigger] r@[k] as int,
                    ),
                forall|j: int|
                    crate::solution::sol_for(self.solutions@, id, j) && j < i ==> r@.contains(
                        j as usize,
                    ),
                forall|k: int| 0 <= k < r@.len() ==> (#[trigger] r@[k]) < i,
                forall|a: int, b: int| 0 <= a < b < r@.len() ==> r@[a] < r@[b],
            decreases self.solutions@.len() - i,
        {
            let ghost r0 = r@;
            if self.solutions[i].challenge_id == id {
                r.push(i);
                proof {
                    assert(r@[r@.len() - 1] == i as usize);
                    assert forall|j: int|
                        crate::solution::sol_for(self.solutions@, id, j) && j < i
                            + 1 implies r@.contains(j as usize) by {
                        if j < i {
                            let k = choose|k: int| 0 <= k < r0.len() && r0[k] == j as usize;
                            assert(r@[k] == j as usize);
                        } else {
                            assert(r@[r@.len() - 1] == i as usize);
                        }
                    }
                }
            }
            i = i + 1;
        }
        r
    }
}

} // verus!
