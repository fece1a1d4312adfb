//! Teams: a founding member and a bounded, duplicate-free roster.

use vstd::prelude::*;

use crate::accounts::{clone_accounts, lemma_contains_push, lemma_no_dups_push, no_dups};
use crate::bounty::{bounty_wf, lemma_issued_zero};
use crate::pallet::Pallet;
use crate::{AccountId, Error, TeamId};

verus! {

/// A team pursuing a challenge.
pub struct Team {
    /// The founding member of this team; always on the roster.
    pub team_founder: AccountId,
    /// The members of this team, the founder first.
    pub members: Vec<AccountId>,
}

impl Team {
    /// Well-formedness: the founder leads a duplicate-free roster whose size
    /// never exceeds the configured maximum.
    pub open spec fn wf(self, max_members: usize) -> bool {
        &&& 1 <= self.members@.len() <= max_members
        &&& self.members@[0] == self.team_founder
        &&& no_dups(self.members@)
    }

    /// Whether the account is on the roster.
    pub open spec fn spec_is_member(self, a: AccountId) -> bool {
        self.members@.contains(a)
    }

    /// Whether the account is on the roster.
    pub fn is_member(&self, a: AccountId) -> (r: bool)
        ensures
            r == self.spec_is_member(a),
    {
        crate::accounts::contains_account(&self.members, a)
    }
}

impl Pallet {
    /// Creates a team: allocates the next identifier; the roster starts as
    /// the founder alone. Fails only when the identifier space is exhausted.
    pub fn create_team(&mut self, founder: AccountId) -> (r: Result<TeamId, Error>)
        requires
            old(self).wf(),
        ensures
            final(self).wf(),
            r is Err ==> *final(self) == *old(self) && r == Result::<TeamId, Error>::Err(
                Error::CapacityError,
            ),
            r is Ok <==> old(self).teams@.len() <= u32::MAX as int,
            r is Ok ==> {
                let id = r->Ok_0;
                &&& id as int == old(self).teams@.len()
                &&& final(self).teams@.len() == old(self).teams@.len() + 1
                &&& final(self).teams@[id as int].team_founder == founder
                &&& final(self).teams@[id as int].members@ == seq![founder]
                &&& (forall|k: int|
                    0 <= k < old(self).teams@.len() ==> final(self).teams@[k] == old(self).teams@[k])
                &&& *final(self) == (Pallet { teams: final(self).teams, ..*old(self) })
            },
    {
        if self.teams.len() > u32::MAX as usize {
            return Err(Error::CapacityError);
        }
        let id = self.teams.len() as TeamId;
        let mut members: Vec<AccountId> = Vec::new();
        members.push(founder);
        self.teams.push(Team { team_founder: founder, members });
        proof {
            let t = old(self).teams@.len() as int;
            assert forall|k: int|
                0 <= k < self.bounties@.len() implies bounty_wf(
                #[trigger] self.bounties@[k]@,
                self.teams@,
            ) by {
                assert(bounty_wf(self.bounties@[k]@, old(self).teams@));
            }
            assert forall|k: int| 0 <= k < self.bounties@.len() implies (
            #[trigger] self.bounties@[k]).team_id as int != t by {
                assert(bounty_wf(self.bounties@[k]@, old(self).teams@));
            }
            lemma_issued_zero(self.bounties@, t);
        }
        Ok(id)
    }

    /// Adds an account to a team's roster. Only an existing member may add;
    /// a full roster rejects the insertion rather than truncating, and an
    /// account already on the roster is not added twice.
    pub fn add_member(&mut self, caller: AccountId, team_id: TeamId, new_member: AccountId) -> (r:
        Result<(), Error>)
        requires
            old(self).wf(),
        ensures
            final(self).wf(),
            r is Err ==> *final(self) == *old(self),
            ({
                let found = (team_id as int) < old(self).teams@.len();
                let team = old(self).teams@[team_id as int];
                let caller_ok = found && team.spec_is_member(caller);
                let room = found && team.members@.len() < old(self).config.max_members;
                let fresh = found && !team.spec_is_member(new_member);
                &&& !found ==> r == Result::<(), Error>::Err(Error::NotFoundError)
                &&& found && !caller_ok ==> r == Result::<(), Error>::Err(
                    Error::AuthorizationError,
                )
                &&& caller_ok && !room ==> r == Result::<(), Error>::Err(Error::CapacityError)
                &&& caller_ok && room && !fresh ==> r == Result::<(), Error>::Err(
                    Error::StateError,
                )
                &&& r is Ok <==> caller_ok && room && fresh
            }),
            r is Ok ==> {
                let t0 = old(self).teams@[team_id as int];
                let t1 = final(self).teams@[team_id as int];
                &&& final(self).teams@.len() == old(self).teams@.len()
                &&& t1.members@ == t0.members@.push(new_member)
                &&& t1.team_founder == t0.team_founder
                &&& (forall|k: int|
                    0 <= k < old(self).teams@.len() && k != team_id as int ==> final(self).teams@[k] == old(self).teams@[k])
                &&& *final(self) == (Pallet { teams: final(self).teams, ..*old(self) })
            },
    {
        if (team_id as usize) >= self.teams.len() {
            return Err(Error::NotFoundError);
        }
        let idx = team_id as usize;
        if !crate::accounts::contains_account(&self.teams[idx].members, caller) {
            return Err(Error::AuthorizationError);
        }
        if self.teams[idx].members.len() >= self.config.max_members {
            return Err(Error::CapacityError);
        }
        if crate::accounts::contains_account(&self.teams[idx].members, new_member) {
            return Err(Error::StateError);
        }
        let mut members = clone_accounts(&self.teams[idx].members);
        members.push(new_member);
        let updated = Team { team_founder: self.teams[idx].team_founder, members };
        self.teams.set(idx, updated);
        proof {
            let t0 = old(self).teams@[team_id as int];
            lemma_no_dups_push(t0.members@, new_member);
            assert forall|k: int|
                0 <= k < self.bounties@.len() implies bounty_wf(
                #[trigger] self.bounties@[k]@,
                self.teams@,
            ) by {
                let b = self.bounties@[k]@;
                assert(bounty_wf(b, old(self).teams@));
                if b.team_id == team_id {
                    assert forall|a: AccountId| #[trigger] b.approvals.contains(a) implies self
                        .teams@[b.team_id as int].members@.contains(a) by {
                        lemma_contains_push(t0.members@, new_member, a);
                    }
                    assert forall|a: AccountId| #[trigger] b.rejections.contains(a) implies self
                        .teams@[b.team_id as int].members@.contains(a) by {
                        lemma_contains_push(t0.members@, new_member, a);
                    }
                }
            }
        }
        Ok(())
    }
}

} // verus!
