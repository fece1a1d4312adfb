//! A ledger-resident coordination engine for hackathon-style competitions.
//!
//! The library tracks challenges sponsored with locked rewards, teams that
//! form to pursue them, bounties teams issue to recruit outside help, and a
//! judging phase that distributes the locked rewards once voting closes.
//! Account signing, persistent storage encoding and event plumbing belong to
//! the deterministic-execution host; the host invokes the engine synchronously,
//! once per submitted action, with an already-authenticated caller identity.

use vstd::prelude::*;

pub mod accounts;
pub mod bounty;
pub mod challenge;
pub mod judging;
pub mod laws;
pub mod ledger;
pub mod pallet;
pub mod solution;
pub mod sums;
pub mod team;

verus! {

/// Identity of a host account. The host authenticates callers; the engine
/// models an account as a small index into the ledger's balance table.
pub type AccountId = usize;

/// Identifier of a challenge, assigned monotonically from zero.
pub type ChallengeId = u16;

/// Identifier of a team, assigned monotonically from zero.
pub type TeamId = u32;

/// Identifier of a bounty, assigned monotonically from zero.
pub type BountyId = u32;

/// Content-addressed pointer to an off-ledger document (a challenge
/// description, a bounty description, a submitted solution). The engine never
/// looks inside a digest; it only stores and compares the value.
#[derive(Clone, Copy, PartialEq, Eq, Structural, Debug)]
pub struct Digest {
    pub value: u64,
}

/// The error taxonomy of the engine. Every rejected action reports the kind
/// of its first failed precondition and leaves all state unchanged.
#[derive(Clone, Copy, PartialEq, Eq, Structural, Debug)]
pub enum Error {
    /// Caller is not the required author, member, admin or judge.
    AuthorizationError,
    /// An identifier names no stored entity.
    NotFoundError,
    /// The operation is invalid in the entity's current state.
    StateError,
    /// A configured bound was exceeded: team size, equity percentage, id space.
    CapacityError,
    /// The action fell outside its required window, or a deadline passed.
    TemporalError,
    /// A fund lock or transfer could not be performed.
    FundsError,
}

/// Advisory notifications for external observers; not part of the state
/// contract.
#[derive(Clone, Copy, PartialEq, Eq, Structural, Debug)]
pub enum Event {
    /// A challenge has been created.
    ChallengeCreated { id: ChallengeId, creator: AccountId },
    /// A solution has been submitted for a challenge.
    SolutionSubmitted { id: ChallengeId, member: AccountId },
    /// A bounty review resolved, to approval or back to open.
    BountyResolved { bounty: BountyId, approved: bool },
    /// A challenge's locked reward has been distributed or returned.
    PayoutFinalized { id: ChallengeId },
}

} // verus!
