//! Bounties: sub-tasks a team offers to outside individuals for a share of
//! eventual winnings, with a majority-vote review protocol.
//!
//! The review protocol, as a state machine: a bounty is posted `Open`; a
//! claim records the claimant and solution and comes to rest in
//! `PendingReview` (passing through the momentary `Claimed` step within the
//! same action); team members then vote. Approval by strict majority of the
//! eligible voters (the roster minus the claimant; a single-member team
//! decides with one vote) makes the claim durable (`Approved`). A strict
//! majority of rejections returns the bounty to `Open` with its expiry reset
//! forward and the claim cleared; fewer votes leave it `PendingReview`.
//! `Rejected` is the resting state only of expired, unresolved bounties that
//! were swept aside from payout eligibility.

use vstd::prelude::*;

use crate::accounts::{clone_accounts, contains_account, lemma_no_dups_push, lemma_push_contains,
    no_dups};
use crate::pallet::Pallet;
use crate::team::Team;
use crate::{AccountId, BountyId, Digest, Error, Event, TeamId};

verus! {

/// The claim state of a bounty.
#[derive(Clone, Copy, PartialEq, Eq, Structural, Debug)]
pub enum BountyState {
    Open,
    Claimed,
    PendingReview,
    Approved,
    Rejected,
}

/// A bounty issued by a team.
pub struct Bounty {
    /// The team that owns the bounty.
    pub team_id: TeamId,
    /// Content-addressed description pointer.
    pub description: Digest,
    /// The ledger height at which an unclaimed bounty lapses.
    pub expiry: u64,
    /// The percentage of the team's eventual prize promised to the claimant;
    /// fixed at posting.
    pub percentage: u64,
    /// The claim state.
    pub state: BountyState,
    /// The account whose claim is under review or approved.
    pub claimant: Option<AccountId>,
    /// The claimant's submitted work.
    pub solution: Option<Digest>,
    /// Distinct team members who approved in the current review cycle.
    pub approvals: Vec<AccountId>,
    /// Distinct team members who rejected in the current review cycle.
    pub rejections: Vec<AccountId>,
}

/// The mathematical value of a bounty.
pub struct BountyView {
    pub team_id: TeamId,
    pub description: Digest,
    pub expiry: u64,
    pub percentage: u64,
    pub state: BountyState,
    pub claimant: Option<AccountId>,
    pub solution: Option<Digest>,
    pub approvals: Seq<AccountId>,
    pub rejections: Seq<AccountId>,
}

impl View for Bounty {
    type V = BountyView;

    open spec fn view(&self) -> BountyView {
        BountyView {
            team_id: self.team_id,
            description: self.description,
            expiry: self.expiry,
            percentage: self.percentage,
            state: self.state,
            claimant: self.claimant,
            solution: self.solution,
            approvals: self.approvals@,
            rejections: self.rejections@,
        }
    }
}

/// Addition on heights that stops at the largest representable height.
pub open spec fn sat_add(a: u64, b: u64) -> u64 {
    if a + b > u64::MAX {
        u64::MAX
    } else {
        (a + b) as u64
    }
}

/// How many distinct accounts may vote on the bounty: the roster, minus the
/// claimant where the claimant is itself a team member.
pub open spec fn eligible_voters(team: Seq<AccountId>, claimant: Option<AccountId>) -> int {
    if claimant is Some && team.contains(claimant->0) {
        team.len() - 1
    } else {
        team.len() as int
    }
}

/// Votes needed to resolve a review, for approval and for rejection alike: a
/// single-member team decides with one vote; a larger team needs a strict
/// majority of the eligible voters.
pub open spec fn approval_threshold(team: Seq<AccountId>, claimant: Option<AccountId>) -> int {
    if team.len() == 1 {
        1
    } else {
        eligible_voters(team, claimant) / 2 + 1
    }
}

/// The value of a freshly posted bounty.
pub open spec fn posted_view(
    team_id: TeamId,
    description: Digest,
    expiry: u64,
    percentage: u64,
) -> BountyView {
    BountyView {
        team_id,
        description,
        expiry,
        percentage,
        state: BountyState::Open,
        claimant: None,
        solution: None,
        approvals: Seq::empty(),
        rejections: Seq::empty(),
    }
}

/// The value of a bounty after a successful claim: the claimant and solution
/// are recorded and the review begins.
pub open spec fn claimed_view(b: BountyView, who: AccountId, sol: Digest) -> BountyView {
    BountyView {
        state: BountyState::PendingReview,
        claimant: Some(who),
        solution: Some(sol),
        ..b
    }
}

/// The value of a bounty after a successful vote by `voter`, on a team with
/// roster `team` and a configured expiry extension of `extension`. Approvals
/// at the threshold make the claim durable; rejections at the threshold
/// return the bounty to open with its expiry reset forward and the claim and
/// tallies cleared; any other vote only extends the tally.
pub open spec fn voted_view(
    b: BountyView,
    team: Seq<AccountId>,
    voter: AccountId,
    approve: bool,
    extension: u64,
) -> BountyView {
    if approve {
        let tally = b.approvals.push(voter);
        if tally.len() >= approval_threshold(team, b.claimant) {
            BountyView { state: BountyState::Approved, approvals: tally, ..b }
        } else {
            BountyView { approvals: tally, ..b }
        }
    } else {
        let tally = b.rejections.push(voter);
        if tally.len() >= approval_threshold(team, b.claimant) {
            BountyView {
                state: BountyState::Open,
                expiry: sat_add(b.expiry, extension),
                claimant: None,
                solution: None,
                approvals: Seq::empty(),
                rejections: Seq::empty(),
                ..b
            }
        } else {
            BountyView { rejections: tally, ..b }
        }
    }
}

/// The value of a bounty swept aside after expiring unresolved.
pub open spec fn swept_view(b: BountyView) -> BountyView {
    BountyView {
        state: BountyState::Rejected,
        claimant: None,
        solution: None,
        approvals: Seq::empty(),
        rejections: Seq::empty(),
        ..b
    }
}

/// Well-formedness of a stored bounty against the team table: the owning team
/// exists, the percentage is a share of a whole, the claim state is a resting
/// state coherent with the recorded claimant and solution, and the vote
/// tallies hold distinct team members other than the claimant, none voting
/// both ways.
pub open spec fn bounty_wf(b: BountyView, teams: Seq<Team>) -> bool {
    &&& (b.team_id as int) < teams.len()
    &&& b.percentage <= 100
    &&& !(b.state is Claimed)
    &&& (b.state is Open || b.state is Rejected) ==> {
        &&& b.claimant is None
        &&& b.solution is None
        &&& b.approvals.len() == 0
        &&& b.rejections.len() == 0
    }
    &&& (b.state is PendingReview || b.state is Approved) ==> b.claimant is Some && b.solution
        is Some
    &&& no_dups(b.approvals)
    &&& no_dups(b.rejections)
    &&& forall|a: AccountId| #[trigger] b.approvals.contains(a) ==> {
        &&& teams[b.team_id as int].members@.contains(a)
        &&& Some(a) != b.claimant
        &&& !b.rejections.contains(a)
    }
    &&& forall|a: AccountId| #[trigger] b.rejections.contains(a) ==> {
        &&& teams[b.team_id as int].members@.contains(a)
        &&& Some(a) != b.claimant
    }
}

/// The percentage a bounty holds against team `t`'s prize: its stated
/// percentage unless the bounty was rejected or belongs to another team.
pub open spec fn pct_of(b: Bounty, t: int) -> int {
    if b.team_id as int == t && !(b.state is Rejected) {
        b.percentage as int
    } else {
        0
    }
}

/// The total percentage of team `t`'s prize that its bounties have issued.
pub open spec fn issued_pct(s: Seq<Bounty>, t: int) -> int
    decreases s.len(),
{
    if s.len() == 0 {
        0
    } else {
        issued_pct(s.drop_last(), t) + pct_of(s.last(), t)
    }
}

pub proof fn lemma_issued_nonneg(s: Seq<Bounty>, t: int)
    ensures
        0 <= issued_pct(s, t),
    decreases s.len(),
{
    if s.len() > 0 {
        lemma_issued_nonneg(s.drop_last(), t);
    }
}

/// A team against which no bounty stands has issued nothing.
pub proof fn lemma_issued_zero(s: Seq<Bounty>, t: int)
    requires
        forall|k: int| 0 <= k < s.len() ==> (#[trigger] s[k]).team_id as int != t,
    ensures
        issued_pct(s, t) == 0,
    decreases s.len(),
{
    if s.len() > 0 {
        lemma_issued_zero(s.drop_last(), t);
    }
}

pub proof fn lemma_issued_push(s: Seq<Bounty>, b: Bounty, t: int)
    ensures
        issued_pct(s.push(b), t) == issued_pct(s, t) + pct_of(b, t),
{
    assert(s.push(b).drop_last() =~= s);
}

pub proof fn lemma_issued_update(s: Seq<Bounty>, i: int, b: Bounty, t: int)
    requires
        0 <= i < s.len(),
    ensures
        issued_pct(s.update(i, b), t) == issued_pct(s, t) - pct_of(s[i], t) + pct_of(b, t),
    decreases s.len(),
{
    if i == s.len() - 1 {
        assert(s.update(i, b).drop_last() =~= s.drop_last());
        assert(s.update(i, b).last() == b);
    } else {
        lemma_issued_update(s.drop_last(), i, b, t);
        assert(s.update(i, b).drop_last() =~= s.drop_last().update(i, b));
        assert(s.update(i, b).last() == s.last());
    }
}

pub proof fn lemma_issued_take_step(s: Seq<Bounty>, i: int, t: int)
    requires
        0 <= i < s.len(),
    ensures
        issued_pct(s.take(i + 1), t) == issued_pct(s.take(i), t) + pct_of(s[i], t),
{
    assert(s.take(i + 1).drop_last() =~= s.take(i));
    assert(s.take(i + 1).last() == s[i]);
}

/// A prefix of the table has issued no more than the whole table.
pub proof fn lemma_issued_prefix_le(s: Seq<Bounty>, t: int, i: int)
    requires
        0 <= i <= s.len(),
    ensures
        issued_pct(s.take(i), t) <= issued_pct(s, t),
    decreases s.len() - i,
{
    if i == s.len() {
        assert(s.take(i) =~= s);
    } else {
        lemma_issued_take_step(s, i, t);
        lemma_issued_prefix_le(s, t, i + 1);
    }
}

pub proof fn lemma_issued_take_all(s: Seq<Bounty>, t: int)
    ensures
        issued_pct(s.take(s.len() as int), t) == issued_pct(s, t),
{
    assert(s.take(s.len() as int) =~= s);
}

impl Pallet {
    /// The total percentage the team's standing bounties have issued.
    fn issued_for_team(&self, t: TeamId) -> (n: u64)
        requires
            self.wf(),
            (t as int) < self.teams@.len(),
        ensures
            n == issued_pct(self.bounties@, t as int),
            n <= 100,
    {
        proof {
            lemma_issued_nonneg(self.bounties@, t as int);
        }
        let mut n: u64 = 0;
        let mut i: usize = 0;
        while i < self.bounties.len()
            invariant
                self.wf(),
                (t as int) < self.teams@.len(),
                i <= self.bounties@.len(),
                n == issued_pct(self.bounties@.take(i as int), t as int),
                0 <= n <= 100,
            decreases self.bounties@.len() - i,
        {
            proof {
                lemma_issued_take_step(self.bounties@, i as int, t as int);
                lemma_issued_prefix_le(self.bounties@, t as int, i + 1);
                lemma_issued_nonneg(self.bounties@.take(i as int), t as int);
            }
            let b = &self.bounties[i];
            if b.team_id == t && !(matches!(b.state, BountyState::Rejected)) {
                n = n + b.percentage;
            }
            i = i + 1;
        }
        proof {
            lemma_issued_take_all(self.bounties@, t as int);
        }
        n
    }

    /// Posts a bounty against work the team needs: only a team member may
    /// post, the expiry must lie ahead, and the team's issued percentages,
    /// this one included, must not exceed the whole.
    pub fn post_bounty(
        &mut self,
        caller: AccountId,
        team_id: TeamId,
        description: Digest,
        expiry: u64,
        percentage: u64,
    ) -> (r: Result<BountyId, Error>)
        requires
            old(self).wf(),
        ensures
            final(self).wf(),
            r is Err ==> *final(self) == *old(self),
            ({
                let found = (team_id as int) < old(self).teams@.len();
                let member = found && old(self).teams@[team_id as int].spec_is_member(caller);
                let timely = expiry > old(self).height;
                let equity_ok = issued_pct(old(self).bounties@, team_id as int) + percentage
                    <= 100;
                let space_ok = old(self).bounties@.len() <= u32::MAX as int;
                &&& !found ==> r == Result::<BountyId, Error>::Err(Error::NotFoundError)
                &&& found && !member ==> r == Result::<BountyId, Error>::Err(
                    Error::AuthorizationError,
                )
                &&& member && !timely ==> r == Result::<BountyId, Error>::Err(
                    Error::TemporalError,
                )
                &&& member && timely && !equity_ok ==> r == Result::<BountyId, Error>::Err(
                    Error::CapacityError,
                )
                &&& member && timely && equity_ok && !space_ok ==> r == Result::<
                    BountyId,
                    Error,
                >::Err(Error::CapacityError)
                &&& r is Ok <==> member && timely && equity_ok && space_ok
            }),
            r is Ok ==> {
                let id = r->Ok_0;
                &&& id as int == old(self).bounties@.len()
                &&& final(self).bounties@.len() == old(self).bounties@.len() + 1
                &&& final(self).bounties@[id as int]@ == posted_view(
                    team_id,
                    description,
                    expiry,
                    percentage,
                )
                &&& (forall|k: int|
                    0 <= k < old(self).bounties@.len() ==> final(self).bounties@[k] == old(self).bounties@[k])
                &&& *final(self) == (Pallet { bounties: final(self).bounties, ..*old(self) })
            },
    {
        if (team_id as usize) >= self.teams.len() {
            return Err(Error::NotFoundError);
        }
        if !contains_account(&self.teams[team_id as usize].members, caller) {
            return Err(Error::AuthorizationError);
        }
        if expiry <= self.height {
            return Err(Error::TemporalError);
        }
        let issued = self.issued_for_team(team_id);
        if percentage > 100 - issued {
            proof {
                lemma_issued_nonneg(self.bounties@, team_id as int);
            }
            return Err(Error::CapacityError);
        }
        if self.bounties.len() > u32::MAX as usize {
            return Err(Error::CapacityError);
        }
        let id = self.bounties.len() as BountyId;
        let posted = Bounty {
            team_id,
            description,
            expiry,
            percentage,
            state: BountyState::Open,
            claimant: None,
            solution: None,
            approvals: Vec::new(),
            rejections: Vec::new(),
        };
        self.bounties.push(posted);
        proof {
            lemma_issued_nonneg(old(self).bounties@, team_id as int);
            assert forall|t: int| 0 <= t < self.teams@.len() implies issued_pct(
                self.bounties@,
                t,
            ) <= 100 by {
                lemma_issued_push(old(self).bounties@, posted, t);
            }
            assert(self.bounties@[id as int]@ =~= posted_view(
                team_id,
                description,
                expiry,
                percentage,
            ));
        }
        Ok(id)
    }

    /// Moves a bounty's expiry strictly forward. Any member of the owning
    /// team may extend, in any state short of approval.
    pub fn extend_bounty_expiry(&mut self, caller: AccountId, bounty_id: BountyId, new_expiry: u64)
        -> (r: Result<(), Error>)
        requires
            old(self).wf(),
        ensures
            final(self).wf(),
            r is Err ==> *final(self) == *old(self),
            ({
                let found = (bounty_id as int) < old(self).bounties@.len();
                let b = old(self).bounties@[bounty_id as int]@;
                let member = found && old(self).teams@[b.team_id as int].spec_is_member(caller);
                let state_ok = found && !(b.state is Approved);
                let forward = found && new_expiry > b.expiry;
                &&& !found ==> r == Result::<(), Error>::Err(Error::NotFoundError)
                &&& found && !member ==> r == Result::<(), Error>::Err(Error::AuthorizationError)
                &&& member && !state_ok ==> r == Result::<(), Error>::Err(Error::StateError)
                &&& member && state_ok && !forward ==> r == Result::<(), Error>::Err(
                    Error::TemporalError,
                )
                &&& r is Ok <==> member && state_ok && forward
            }),
            r is Ok ==> {
                let b = old(self).bounties@[bounty_id as int]@;
                &&& final(self).bounties@.len() == old(self).bounties@.len()
                &&& final(self).bounties@[bounty_id as int]@ == (BountyView {
                    expiry: new_expiry,
                    ..b
                })
                &&& (forall|k: int|
                    0 <= k < old(self).bounties@.len() && k != bounty_id as int ==> final(self).bounties@[k] == old(self).bounties@[k])
                &&& *final(self) == (Pallet { bounties: final(self).bounties, ..*old(self) })
            },
    {
        if (bounty_id as usize) >= self.bounties.len() {
            return Err(Error::NotFoundError);
        }
        let idx = bounty_id as usize;
        let team_idx = self.bounties[idx].team_id as usize;
        if !contains_account(&self.teams[team_idx].members, caller) {
            return Err(Error::AuthorizationError);
        }
        if matches!(self.bounties[idx].state, BountyState::Approved) {
            return Err(Error::StateError);
        }
        if new_expiry <= self.bounties[idx].expiry {
            return Err(Error::TemporalError);
        }
        let updated = Bounty {
            team_id: self.bounties[idx].team_id,
            description: self.bounties[idx].description,
            expiry: new_expiry,
            percentage: self.bounties[idx].percentage,
            state: self.bounties[idx].state,
            claimant: self.bounties[idx].claimant,
            solution: self.bounties[idx].solution,
            approvals: clone_accounts(&self.bounties[idx].approvals),
            rejections: clone_accounts(&self.bounties[idx].rejections),
        };
        self.bounties.set(idx, updated);
        proof {
            let b0 = old(self).bounties@[idx as int];
            assert(self.bounties@[idx as int]@ =~= (BountyView { expiry: new_expiry, ..b0@ }));
            assert forall|t: int| 0 <= t < self.teams@.len() implies issued_pct(
                self.bounties@,
                t,
            ) <= 100 by {
                lemma_issued_update(old(self).bounties@, idx as int, self.bounties@[idx as int], t);
            }
        }
        Ok(())
    }

    /// Claims an open, unexpired bounty: records the claimant and the
    /// submitted work and opens the review. A bounty that is not open — in
    /// particular one already claimed — rejects a second claimant.
    pub fn claim_bounty(&mut self, claimant: AccountId, bounty_id: BountyId, work: Digest) -> (r:
        Result<(), Error>)
        requires
            old(self).wf(),
        ensures
            final(self).wf(),
            r is Err ==> *final(self) == *old(self),
            ({
                let found = (bounty_id as int) < old(self).bounties@.len();
                let b = old(self).bounties@[bounty_id as int]@;
                let open = found && b.state is Open;
                let unexpired = found && old(self).height < b.expiry;
                &&& !found ==> r == Result::<(), Error>::Err(Error::NotFoundError)
                &&& found && !open ==> r == Result::<(), Error>::Err(Error::StateError)
                &&& open && !unexpired ==> r == Result::<(), Error>::Err(Error::TemporalError)
                &&& r is Ok <==> open && unexpired
            }),
            r is Ok ==> {
                let b = old(self).bounties@[bounty_id as int]@;
                &&& final(self).bounties@.len() == old(self).bounties@.len()
                &&& final(self).bounties@[bounty_id as int]@ == claimed_view(b, claimant, work)
                &&& (forall|k: int|
                    0 <= k < old(self).bounties@.len() && k != bounty_id as int ==> final(self).bounties@[k] == old(self).bounties@[k])
                &&& *final(self) == (Pallet { bounties: final(self).bounties, ..*old(self) })
            },
    {
        if (bounty_id as usize) >= self.bounties.len() {
            return Err(Error::NotFoundError);
        }
        let idx = bounty_id as usize;
        if !matches!(self.bounties[idx].state, BountyState::Open) {
            return Err(Error::StateError);
        }
        if self.height >= self.bounties[idx].expiry {
            return Err(Error::TemporalError);
        }
        let updated = Bounty {
            team_id: self.bounties[idx].team_id,
            description: self.bounties[idx].description,
            expiry: self.bounties[idx].expiry,
            percentage: self.bounties[idx].percentage,
            state: BountyState::PendingReview,
            claimant: Some(claimant),
            solution: Some(work),
            approvals: clone_accounts(&self.bounties[idx].approvals),
            rejections: clone_accounts(&self.bounties[idx].rejections),
        };
        self.bounties.set(idx, updated);
        proof {
            let b0 = old(self).bounties@[idx as int];
            assert(self.bounties@[idx as int]@ =~= claimed_view(b0@, claimant, work));
            assert forall|t: int| 0 <= t < self.teams@.len() implies issued_pct(
                self.bounties@,
                t,
            ) <= 100 by {
                lemma_issued_update(old(self).bounties@, idx as int, self.bounties@[idx as int], t);
            }
        }
        Ok(())
    }

    /// Casts a team member's vote on a claimed bounty under review. The
    /// claimant may not vote, and each member votes at most once per review
    /// cycle. Approvals at the threshold resolve the claim durable;
    /// rejections at the threshold reopen the bounty with its expiry reset
    /// forward; any other vote leaves the review pending.
    pub fn vote_on_bounty(&mut self, voter: AccountId, bounty_id: BountyId, approve: bool) -> (r:
        Result<(), Error>)
        requires
            old(self).wf(),
        ensures
            final(self).wf(),
            r is Err ==> *final(self) == *old(self),
            ({
                let found = (bounty_id as int) < old(self).bounties@.len();
                let b = old(self).bounties@[bounty_id as int]@;
                let pending = found && b.state is PendingReview;
                let member = found && old(self).teams@[b.team_id as int].spec_is_member(voter);
                let not_claimant = Some(voter) != b.claimant;
                let unvoted = !b.approvals.contains(voter) && !b.rejections.contains(voter);
                &&& !found ==> r == Result::<(), Error>::Err(Error::NotFoundError)
                &&& found && !pending ==> r == Result::<(), Error>::Err(Error::StateError)
                &&& pending && !member ==> r == Result::<(), Error>::Err(
                    Error::AuthorizationError,
                )
                &&& pending && member && !not_claimant ==> r == Result::<(), Error>::Err(
                    Error::AuthorizationError,
                )
                &&& pending && member && not_claimant && !unvoted ==> r == Result::<(
                ), Error>::Err(Error::StateError)
                &&& r is Ok <==> pending && member && not_claimant && unvoted
            }),
            r is Ok ==> {
                let b = old(self).bounties@[bounty_id as int]@;
                let team = old(self).teams@[b.team_id as int].members@;
                let v = voted_view(b, team, voter, approve, old(self).config.expiry_extension);
                &&& final(self).bounties@.len() == old(self).bounties@.len()
                &&& final(self).bounties@[bounty_id as int]@ == v
                &&& (forall|k: int|
                    0 <= k < old(self).bounties@.len() && k != bounty_id as int ==> final(self).bounties@[k] == old(self).bounties@[k])
                &&& final(self).events@ == if v.state is Approved {
                    old(self).events@.push(
                        (Event::BountyResolved { bounty: bounty_id, approved: true }),
                    )
                } else if v.state is Open {
                    old(self).events@.push(
                        (Event::BountyResolved { bounty: bounty_id, approved: false }),
                    )
                } else {
                    old(self).events@
                }
                &&& *final(self) == (Pallet {
                    bounties: final(self).bounties,
                    events: final(self).events,
                    ..*old(self)
                })
            },
    {
        if (bounty_id as usize) >= self.bounties.len() {
            return Err(Error::NotFoundError);
        }
        let idx = bounty_id as usize;
        if !matches!(self.bounties[idx].state, BountyState::PendingReview) {
            return Err(Error::StateError);
        }
        let team_idx = self.bounties[idx].team_id as usize;
        if !contains_account(&self.teams[team_idx].members, voter) {
            return Err(Error::AuthorizationError);
        }
        let cl = match self.bounties[idx].claimant {
            Some(c) => c,
            None => {
                proof {
                    assert(false);
                }
                return Err(Error::StateError);
            },
        };
        if voter == cl {
            return Err(Error::AuthorizationError);
        }
        if contains_account(&self.bounties[idx].approvals, voter) || contains_account(
            &self.bounties[idx].rejections,
            voter,
        ) {
            return Err(Error::StateError);
        }
        let roster_len = self.teams[team_idx].members.len();
        let claimant_on_roster = contains_account(&self.teams[team_idx].members, cl);
        let eligible = if claimant_on_roster {
            roster_len - 1
        } else {
            roster_len
        };
        let threshold = if roster_len == 1 {
            1
        } else {
            eligible / 2 + 1
        };
        proof {
            let b0 = old(self).bounties@[idx as int]@;
            let team = old(self).teams@[team_idx as int].members@;
            assert(threshold == approval_threshold(team, b0.claimant));
        }
        let expiry0 = self.bounties[idx].expiry;
        let extension = self.config.expiry_extension;
        let updated: Bounty;
        let resolved_approve: bool;
        let resolved_reject: bool;
        if approve {
            let mut tally = clone_accounts(&self.bounties[idx].approvals);
            tally.push(voter);
            let resolved = tally.len() >= threshold;
            resolved_approve = resolved;
            resolved_reject = false;
            updated = Bounty {
                team_id: self.bounties[idx].team_id,
                description: self.bounties[idx].description,
                expiry: expiry0,
                percentage: self.bounties[idx].percentage,
                state: if resolved {
                    BountyState::Approved
                } else {
                    BountyState::PendingReview
                },
                claimant: self.bounties[idx].claimant,
                solution: self.bounties[idx].solution,
                approvals: tally,
                rejections: clone_accounts(&self.bounties[idx].rejections),
            };
        } else {
            let mut tally = clone_accounts(&self.bounties[idx].rejections);
            tally.push(voter);
            let resolved = tally.len() >= threshold;
            resolved_approve = false;
            resolved_reject = resolved;
            if resolved {
                let new_expiry = if extension > u64::MAX - expiry0 {
                    u64::MAX
                } else {
                    expiry0 + extension
                };
                updated = Bounty {
                    team_id: self.bounties[idx].team_id,
                    description: self.bounties[idx].description,
                    expiry: new_expiry,
                    percentage: self.bounties[idx].percentage,
                    state: BountyState::Open,
                    claimant: None,
                    solution: None,
                    approvals: Vec::new(),
                    rejections: Vec::new(),
                };
            } else {
                updated = Bounty {
                    team_id: self.bounties[idx].team_id,
                    description: self.bounties[idx].description,
                    expiry: expiry0,
                    percentage: self.bounties[idx].percentage,
                    state: BountyState::PendingReview,
                    claimant: self.bounties[idx].claimant,
                    solution: self.bounties[idx].solution,
                    approvals: clone_accounts(&self.bounties[idx].approvals),
                    rejections: tally,
                };
            }
        }
        self.bounties.set(idx, updated);
        if resolved_approve {
            self.events.push(Event::BountyResolved { bounty: bounty_id, approved: true });
        } else if resolved_reject {
            self.events.push(Event::BountyResolved { bounty: bounty_id, approved: false });
        }
        proof {
            let b0 = old(self).bounties@[idx as int]@;
            let team = old(self).teams@[team_idx as int].members@;
            let v = voted_view(b0, team, voter, approve, extension);
            assert(self.bounties@[idx as int]@ =~= v);
            let b1 = self.bounties@[idx as int]@;
            lemma_no_dups_push(b0.approvals, voter);
            lemma_no_dups_push(b0.rejections, voter);
            assert forall|a: AccountId| #[trigger] b1.approvals.contains(a) implies {
                &&& old(self).teams@[b1.team_id as int].members@.contains(a)
                &&& Some(a) != b1.claimant
                &&& !b1.rejections.contains(a)
            } by {
                lemma_push_contains(b0.approvals, voter, a);
                lemma_push_contains(b0.rejections, voter, a);
            }
            assert forall|a: AccountId| #[trigger] b1.rejections.contains(a) implies {
                &&& old(self).teams@[b1.team_id as int].members@.contains(a)
                &&& Some(a) != b1.claimant
            } by {
                lemma_push_contains(b0.rejections, voter, a);
            }
            assert forall|t: int| 0 <= t < self.teams@.len() implies issued_pct(
                self.bounties@,
                t,
            ) <= 100 by {
                lemma_issued_update(old(self).bounties@, idx as int, self.bounties@[idx as int], t);
            }
            assert(bounty_wf(b1, self.teams@));
        }
        Ok(())
    }

    /// Resolves a pending review to approval directly. A deadlock-breaking
    /// override, restricted to the owning team's founder, equivalent to the
    /// majority-approve outcome.
    pub fn approve_bounty(&mut self, caller: AccountId, bounty_id: BountyId) -> (r: Result<
        (),
        Error,
    >)
        requires
            old(self).wf(),
        ensures
            final(self).wf(),
            r is Err ==> *final(self) == *old(self),
            ({
                let found = (bounty_id as int) < old(self).bounties@.len();
                let b = old(self).bounties@[bounty_id as int]@;
                let founder = found && caller == old(self).teams@[b.team_id as int].team_founder;
                let pending = found && b.state is PendingReview;
                &&& !found ==> r == Result::<(), Error>::Err(Error::NotFoundError)
                &&& found && !founder ==> r == Result::<(), Error>::Err(Error::AuthorizationError)
                &&& founder && !pending ==> r == Result::<(), Error>::Err(Error::StateError)
                &&& r is Ok <==> founder && pending
            }),
            r is Ok ==> {
                let b = old(self).bounties@[bounty_id as int]@;
                &&& final(self).bounties@.len() == old(self).bounties@.len()
                &&& final(self).bounties@[bounty_id as int]@ == (BountyView {
                    state: BountyState::Approved,
                    ..b
                })
                &&& (forall|k: int|
                    0 <= k < old(self).bounties@.len() && k != bounty_id as int ==> final(self).bounties@[k] == old(self).bounties@[k])
                &&& final(self).events@ == old(self).events@.push(
                    (Event::BountyResolved { bounty: bounty_id, approved: true }),
                )
                &&& *final(self) == (Pallet {
                    bounties: final(self).bounties,
                    events: final(self).events,
                    ..*old(self)
                })
            },
    {
        if (bounty_id as usize) >= self.bounties.len() {
            return Err(Error::NotFoundError);
        }
        let idx = bounty_id as usize;
        let team_idx = self.bounties[idx].team_id as usize;
        if caller != self.teams[team_idx].team_founder {
            return Err(Error::AuthorizationError);
        }
        if !matches!(self.bounties[idx].state, BountyState::PendingReview) {
            return Err(Error::StateError);
        }
        let updated = Bounty {
            team_id: self.bounties[idx].team_id,
            description: self.bounties[idx].description,
            expiry: self.bounties[idx].expiry,
            percentage: self.bounties[idx].percentage,
            state: BountyState::Approved,
            claimant: self.bounties[idx].claimant,
            solution: self.bounties[idx].solution,
            approvals: clone_accounts(&self.bounties[idx].approvals),
            rejections: clone_accounts(&self.bounties[idx].rejections),
        };
        self.bounties.set(idx, updated);
        self.events.push(Event::BountyResolved { bounty: bounty_id, approved: true });
        proof {
            let b0 = old(self).bounties@[idx as int]@;
            assert(self.bounties@[idx as int]@ =~= (BountyView {
                state: BountyState::Approved,
                ..b0
            }));
            assert forall|t: int| 0 <= t < self.teams@.len() implies issued_pct(
                self.bounties@,
                t,
            ) <= 100 by {
                lemma_issued_update(old(self).bounties@, idx as int, self.bounties@[idx as int], t);
            }
        }
        Ok(())
    }

    /// Whether the bounty at this position has lapsed unresolved: past its
    /// expiry while open or under review.
    pub open spec fn spec_sweepable(b: BountyView, height: u64) -> bool {
        (b.state is Open || b.state is PendingReview) && b.expiry <= height
    }

    /// Sweeps every expired, unresolved bounty — past expiry while open or
    /// pending review — to rejected, clearing any claim, so that it is
    /// excluded from payout eligibility.
    pub fn sweep_expired_bounties(&mut self)
        requires
            old(self).wf(),
        ensures
            final(self).wf(),
            final(self).bounties@.len() == old(self).bounties@.len(),
            forall|k: int|
                0 <= k < old(self).bounties@.len() ==> final(self).bounties@[k]@ == if Self::spec_sweepable(
                    old(self).bounties@[k]@,
                    old(self).height,
                ) {
                    swept_view(old(self).bounties@[k]@)
                } else {
                    old(self).bounties@[k]@
                },
            *final(self) == (Pallet { bounties: final(self).bounties, ..*old(self) }),
    {
        let mut i: usize = 0;
        let height = self.height;
        while i < self.bounties.len()
            invariant
                self.wf(),
                height == old(self).height,
                i <= self.bounties@.len(),
                self.bounties@.len() == old(self).bounties@.len(),
                forall|k: int|
                    0 <= k < i ==> self.bounties@[k]@ == if Self::spec_sweepable(
                        old(self).bounties@[k]@,
                        old(self).height,
                    ) {
                        swept_view(old(self).bounties@[k]@)
                    } else {
                        old(self).bounties@[k]@
                    },
                forall|k: int|
                    i <= k < old(self).bounties@.len() ==> self.bounties@[k] == old(self).bounties@[k],
                *self == (Pallet { bounties: self.bounties, ..*old(self) }),
            decreases self.bounties@.len() - i,
        {
            let sweep_it = (matches!(self.bounties[i].state, BountyState::Open) || matches!(
                self.bounties[i].state,
                BountyState::PendingReview,
            )) && self.bounties[i].expiry <= height;
            if sweep_it {
                let updated = Bounty {
                    team_id: self.bounties[i].team_id,
                    description: self.bounties[i].description,
                    expiry: self.bounties[i].expiry,
                    percentage: self.bounties[i].percentage,
                    state: BountyState::Rejected,
                    claimant: None,
                    solution: None,
                    approvals: Vec::new(),
                    rejections: Vec::new(),
                };
                let ghost before = self.bounties@;
                self.bounties.set(i, updated);
                proof {
                    assert(self.bounties@[i as int]@ =~= swept_view(old(self).bounties@[i as int]@));
                    assert forall|t: int| 0 <= t < self.teams@.len() implies issued_pct(
                        self.bounties@,
                        t,
                    ) <= 100 by {
                        lemma_issued_update(before, i as int, self.bounties@[i as int], t);
                    }
                }
            }
            i = i + 1;
        }
    }
}

/// A majority rejection always reopens the bounty: the claimant, solution and
/// tallies are cleared, the percentage and owner stand, and the expiry moves
/// strictly forward (the extension window is at least one height, and the
/// expiry was not already the largest representable height).
pub proof fn lemma_majority_reject_reopens(
    b: BountyView,
    team: Seq<AccountId>,
    voter: AccountId,
    extension: u64,
)
    requires
        extension >= 1,
        b.expiry < u64::MAX,
        b.rejections.len() + 1 >= approval_threshold(team, b.claimant),
    ensures
        ({
            let r = voted_view(b, team, voter, false, extension);
            &&& r.state is Open
            &&& r.claimant is None
            &&& r.solution is None
            &&& r.approvals.len() == 0
            &&& r.rejections.len() == 0
            &&& r.expiry > b.expiry
            &&& r.team_id == b.team_id
            &&& r.percentage == b.percentage
        }),
{
}

/// Posting a bounty, an immediate claim by an outside account, and a single
/// approving vote on a one-member team leave the claim durable: the bounty is
/// approved, its percentage reserved for the claimant, unchanged from
/// posting.
pub proof fn lemma_single_member_approval(
    team: Seq<AccountId>,
    team_id: TeamId,
    description: Digest,
    expiry: u64,
    percentage: u64,
    claimant: AccountId,
    work: Digest,
    extension: u64,
)
    requires
        team.len() == 1,
        !team.contains(claimant),
    ensures
        ({
            let posted = posted_view(team_id, description, expiry, percentage);
            let claimed = claimed_view(posted, claimant, work);
            let resolved = voted_view(claimed, team, team[0], true, extension);
            &&& resolved.state is Approved
            &&& resolved.claimant == Some(claimant)
            &&& resolved.solution == Some(work)
            &&& resolved.percentage == percentage
            &&& resolved.team_id == team_id
        }),
{
}

} // verus!
