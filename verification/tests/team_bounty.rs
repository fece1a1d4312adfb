//! Teams and the bounty review protocol: rosters, equity bounds, claims,
//! majority votes, expiry resets and sweeping.

use buidl::bounty::BountyState;
use buidl::pallet::{Config, Pallet};
use buidl::{Digest, Error, Event};

fn fresh() -> Pallet {
    Pallet::new(Config {
        max_members: 3,
        max_solutions: 10,
        expiry_extension: 50,
        submission_start: 10,
        submission_end: 100,
        voting_start: 100,
        voting_end: 200,
        admins: vec![0],
    })
    .unwrap()
}

fn d(v: u64) -> Digest {
    Digest { value: v }
}

#[test]
fn create_team_roster_is_founder() {
    let mut p = fresh();
    let id = p.create_team(10).unwrap();
    assert_eq!(id, 0u32);
    let t = p.get_team(0).unwrap();
    assert_eq!(t.team_founder, 10);
    assert_eq!(t.members, vec![10]);
}

#[test]
fn add_member_rules() {
    let mut p = fresh();
    p.create_team(10).unwrap();
    let r = p.add_member(11, 0, 12);
    assert!(r == Err(Error::AuthorizationError));
    p.add_member(10, 0, 11).unwrap();
    let r = p.add_member(10, 0, 11);
    assert!(r == Err(Error::StateError));
    assert_eq!(p.get_team(0).unwrap().members, vec![10, 11]);
    let r = p.add_member(10, 9, 12);
    assert!(r == Err(Error::NotFoundError));
}

#[test]
fn add_member_beyond_maximum_fails_and_roster_unchanged() {
    let mut p = fresh();
    p.create_team(10).unwrap();
    p.add_member(10, 0, 11).unwrap();
    p.add_member(11, 0, 12).unwrap();
    let r = p.add_member(10, 0, 13);
    assert!(r == Err(Error::CapacityError));
    assert_eq!(p.get_team(0).unwrap().members, vec![10, 11, 12]);
}

#[test]
fn post_bounty_rules() {
    let mut p = fresh();
    p.create_team(10).unwrap();
    p.advance_height(20);
    let r = p.post_bounty(99, 0, d(1), 80, 10);
    assert!(r == Err(Error::AuthorizationError));
    let r = p.post_bounty(10, 0, d(1), 20, 10);
    assert!(r == Err(Error::TemporalError));
    let r = p.post_bounty(10, 9, d(1), 80, 10);
    assert!(r == Err(Error::NotFoundError));
    let id = p.post_bounty(10, 0, d(1), 80, 60).unwrap();
    assert_eq!(id, 0u32);
    let b = p.get_bounty(0).unwrap();
    assert!(b.state == BountyState::Open);
    assert_eq!(b.percentage, 60);
    assert_eq!(b.expiry, 80);
}

#[test]
fn bounty_equity_never_exceeds_hundred() {
    let mut p = fresh();
    p.create_team(10).unwrap();
    p.post_bounty(10, 0, d(1), 80, 60).unwrap();
    let r = p.post_bounty(10, 0, d(2), 80, 50);
    assert!(r == Err(Error::CapacityError));
    assert_eq!(p.bounties.len(), 1);
    p.post_bounty(10, 0, d(2), 80, 40).unwrap();
    let r = p.post_bounty(10, 0, d(3), 80, 1);
    assert!(r == Err(Error::CapacityError));
}

#[test]
fn claim_bounty_records_claim_and_opens_review() {
    let mut p = fresh();
    p.create_team(10).unwrap();
    p.post_bounty(10, 0, d(1), 80, 60).unwrap();
    p.claim_bounty(99, 0, d(5)).unwrap();
    let b = p.get_bounty(0).unwrap();
    assert!(b.state == BountyState::PendingReview);
    assert_eq!(b.claimant, Some(99));
    assert!(b.solution == Some(d(5)));
}

#[test]
fn second_claim_on_claimed_bounty_fails_with_state_error() {
    let mut p = fresh();
    p.create_team(10).unwrap();
    p.post_bounty(10, 0, d(1), 80, 60).unwrap();
    p.claim_bounty(99, 0, d(5)).unwrap();
    let r = p.claim_bounty(98, 0, d(6));
    assert!(r == Err(Error::StateError));
    assert_eq!(p.get_bounty(0).unwrap().claimant, Some(99));
}

#[test]
fn expired_bounty_cannot_be_claimed() {
    let mut p = fresh();
    p.create_team(10).unwrap();
    p.post_bounty(10, 0, d(1), 80, 60).unwrap();
    p.advance_height(80);
    let r = p.claim_bounty(99, 0, d(5));
    assert!(r == Err(Error::TemporalError));
}

#[test]
fn majority_approval_makes_claim_durable() {
    let mut p = fresh();
    p.create_team(10).unwrap();
    p.add_member(10, 0, 11).unwrap();
    p.add_member(10, 0, 12).unwrap();
    p.post_bounty(10, 0, d(1), 80, 50).unwrap();
    p.claim_bounty(99, 0, d(5)).unwrap();
    p.vote_on_bounty(10, 0, true).unwrap();
    assert!(p.get_bounty(0).unwrap().state == BountyState::PendingReview);
    p.vote_on_bounty(11, 0, true).unwrap();
    let b = p.get_bounty(0).unwrap();
    assert!(b.state == BountyState::Approved);
    assert_eq!(b.claimant, Some(99));
    assert_eq!(b.percentage, 50);
    assert!(p.events.last() == Some(&Event::BountyResolved { bounty: 0, approved: true }));
    let r = p.vote_on_bounty(12, 0, true);
    assert!(r == Err(Error::StateError));
}

#[test]
fn majority_reject_reopens_with_expiry_reset() {
    let mut p = fresh();
    p.create_team(10).unwrap();
    p.add_member(10, 0, 11).unwrap();
    p.add_member(10, 0, 12).unwrap();
    p.post_bounty(10, 0, d(1), 80, 50).unwrap();
    p.claim_bounty(99, 0, d(5)).unwrap();
    p.vote_on_bounty(10, 0, false).unwrap();
    assert!(p.get_bounty(0).unwrap().state == BountyState::PendingReview);
    p.vote_on_bounty(11, 0, false).unwrap();
    let b = p.get_bounty(0).unwrap();
    assert!(b.state == BountyState::Open);
    assert_eq!(b.claimant, None);
    assert!(b.solution.is_none());
    assert_eq!(b.expiry, 130);
    assert!(b.approvals.is_empty() && b.rejections.is_empty());
    assert!(p.events.last() == Some(&Event::BountyResolved { bounty: 0, approved: false }));
    p.claim_bounty(98, 0, d(6)).unwrap();
    assert_eq!(p.get_bounty(0).unwrap().claimant, Some(98));
}

#[test]
fn claimant_and_outsiders_cannot_vote_and_votes_are_single() {
    let mut p = fresh();
    p.create_team(10).unwrap();
    p.add_member(10, 0, 11).unwrap();
    p.add_member(10, 0, 12).unwrap();
    p.post_bounty(10, 0, d(1), 80, 50).unwrap();
    p.claim_bounty(12, 0, d(5)).unwrap();
    let r = p.vote_on_bounty(12, 0, true);
    assert!(r == Err(Error::AuthorizationError));
    let r = p.vote_on_bounty(77, 0, true);
    assert!(r == Err(Error::AuthorizationError));
    p.vote_on_bounty(10, 0, true).unwrap();
    let r = p.vote_on_bounty(10, 0, false);
    assert!(r == Err(Error::StateError));
    // roster 3, claimant on the roster: two eligible voters, majority needs 2
    assert!(p.get_bounty(0).unwrap().state == BountyState::PendingReview);
    p.vote_on_bounty(11, 0, true).unwrap();
    assert!(p.get_bounty(0).unwrap().state == BountyState::Approved);
}

#[test]
fn single_member_team_round_trip_reserves_percentage() {
    let mut p = fresh();
    p.create_team(10).unwrap();
    p.post_bounty(10, 0, d(1), 80, 30).unwrap();
    p.claim_bounty(99, 0, d(5)).unwrap();
    p.vote_on_bounty(10, 0, true).unwrap();
    let b = p.get_bounty(0).unwrap();
    assert!(b.state == BountyState::Approved);
    assert_eq!(b.percentage, 30);
    assert_eq!(b.claimant, Some(99));
    // the approved percentage stays reserved against the team's prize
    let r = p.post_bounty(10, 0, d(2), 80, 80);
    assert!(r == Err(Error::CapacityError));
    p.post_bounty(10, 0, d(2), 80, 70).unwrap();
}

#[test]
fn extend_bounty_expiry_rules() {
    let mut p = fresh();
    p.create_team(10).unwrap();
    p.post_bounty(10, 0, d(1), 80, 30).unwrap();
    let r = p.extend_bounty_expiry(99, 0, 120);
    assert!(r == Err(Error::AuthorizationError));
    let r = p.extend_bounty_expiry(10, 0, 80);
    assert!(r == Err(Error::TemporalError));
    p.extend_bounty_expiry(10, 0, 120).unwrap();
    assert_eq!(p.get_bounty(0).unwrap().expiry, 120);
    p.claim_bounty(99, 0, d(5)).unwrap();
    p.extend_bounty_expiry(10, 0, 130).unwrap();
    p.vote_on_bounty(10, 0, true).unwrap();
    let r = p.extend_bounty_expiry(10, 0, 140);
    assert!(r == Err(Error::StateError));
}

#[test]
fn founder_override_approves_pending_claim() {
    let mut p = fresh();
    p.create_team(10).unwrap();
    p.add_member(10, 0, 11).unwrap();
    p.post_bounty(11, 0, d(1), 80, 30).unwrap();
    let r = p.approve_bounty(11, 0);
    assert!(r == Err(Error::AuthorizationError));
    let r = p.approve_bounty(10, 0);
    assert!(r == Err(Error::StateError));
    p.claim_bounty(99, 0, d(5)).unwrap();
    p.approve_bounty(10, 0).unwrap();
    assert!(p.get_bounty(0).unwrap().state == BountyState::Approved);
    assert!(p.events.last() == Some(&Event::BountyResolved { bounty: 0, approved: true }));
}

#[test]
fn sweep_rejects_expired_unresolved_bounties_and_frees_equity() {
    let mut p = fresh();
    p.create_team(10).unwrap();
    p.post_bounty(10, 0, d(1), 30, 60).unwrap();
    p.post_bounty(10, 0, d(2), 90, 40).unwrap();
    p.claim_bounty(99, 1, d(5)).unwrap();
    p.approve_bounty(10, 1).unwrap();
    p.advance_height(40);
    p.sweep_expired_bounties();
    assert!(p.get_bounty(0).unwrap().state == BountyState::Rejected);
    assert!(p.get_bounty(1).unwrap().state == BountyState::Approved);
    // the swept bounty's percentage is no longer issued
    p.post_bounty(10, 0, d(3), 200, 60).unwrap();
}
