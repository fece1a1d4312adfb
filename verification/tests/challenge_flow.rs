//! Challenge lifecycle: creation with fund locking, author-only edits, judge
//! assignment, and window administration.

use buidl::pallet::{Config, Pallet};
use buidl::{Digest, Error, Event};

fn config() -> Config {
    Config {
        max_members: 5,
        max_solutions: 10,
        expiry_extension: 50,
        submission_start: 10,
        submission_end: 100,
        voting_start: 100,
        voting_end: 200,
        admins: vec![0],
    }
}

fn fresh() -> Pallet {
    Pallet::new(config()).unwrap()
}

fn d(v: u64) -> Digest {
    Digest { value: v }
}

#[test]
fn create_challenge_locks_reward() {
    let mut p = fresh();
    p.deposit(1, 1000).unwrap();
    let id = p.create_challenge(1, d(7), 600, None).unwrap();
    assert_eq!(id, 0u16);
    assert_eq!(p.ledger.free[1], 400);
    assert_eq!(p.ledger.locked[0], 600);
    assert_eq!(p.ledger.total, 1000);
    let c = p.get_challenge(0).unwrap();
    assert_eq!(c.sponsor, 1);
    assert!(c.description == d(7));
    assert_eq!(c.reward, 600);
    assert!(c.judges.is_none());
    assert_eq!(c.submissions, 0);
    assert!(!c.finalized);
    assert!(p.events.last() == Some(&Event::ChallengeCreated { id: 0, creator: 1 }));
}

#[test]
fn create_challenge_insufficient_funds_changes_nothing() {
    let mut p = fresh();
    p.deposit(1, 100).unwrap();
    let r = p.create_challenge(1, d(7), 600, None);
    assert!(r == Err(Error::FundsError));
    assert_eq!(p.challenges.len(), 0);
    assert_eq!(p.ledger.free[1], 100);
    assert_eq!(p.ledger.locked.len(), 0);
    assert_eq!(p.events.len(), 0);
}

#[test]
fn create_challenge_rejects_bad_judge_set() {
    let mut p = fresh();
    p.deposit(1, 1000).unwrap();
    let r = p.create_challenge(1, d(7), 100, Some(vec![3, 3]));
    assert!(r == Err(Error::CapacityError));
    let r = p.create_challenge(1, d(7), 100, Some(vec![2, 3, 4, 5, 6, 7]));
    assert!(r == Err(Error::CapacityError));
    assert_eq!(p.challenges.len(), 0);
}

#[test]
fn create_challenge_zero_reward_needs_no_funds() {
    let mut p = fresh();
    let id = p.create_challenge(9, d(1), 0, None).unwrap();
    assert_eq!(id, 0u16);
    assert_eq!(p.ledger.locked[0], 0);
}

#[test]
fn edit_challenge_by_author_updates_description() {
    let mut p = fresh();
    p.deposit(1, 500).unwrap();
    p.create_challenge(1, d(7), 500, None).unwrap();
    p.edit_challenge(1, 0, d(8)).unwrap();
    assert!(p.get_challenge(0).unwrap().description == d(8));
    assert_eq!(p.get_challenge(0).unwrap().reward, 500);
}

#[test]
fn edit_challenge_non_author_fails_and_leaves_description() {
    let mut p = fresh();
    p.deposit(1, 500).unwrap();
    p.create_challenge(1, d(7), 500, None).unwrap();
    let r = p.edit_challenge(2, 0, d(8));
    assert!(r == Err(Error::AuthorizationError));
    assert!(p.get_challenge(0).unwrap().description == d(7));
}

#[test]
fn edit_challenge_unknown_id_not_found() {
    let mut p = fresh();
    let r = p.edit_challenge(1, 3, d(8));
    assert!(r == Err(Error::NotFoundError));
}

#[test]
fn assign_judges_admin_only_and_only_once() {
    let mut p = fresh();
    p.deposit(1, 500).unwrap();
    p.create_challenge(1, d(7), 500, None).unwrap();
    let r = p.assign_judges(9, 0, vec![31, 32]);
    assert!(r == Err(Error::AuthorizationError));
    p.assign_judges(0, 0, vec![31, 32]).unwrap();
    assert!(p.get_challenge(0).unwrap().judges == Some(vec![31, 32]));
    let r = p.assign_judges(0, 0, vec![33]);
    assert!(r == Err(Error::StateError));
    assert!(p.get_challenge(0).unwrap().judges == Some(vec![31, 32]));
}

#[test]
fn assign_judges_rejected_once_voting_opens() {
    let mut p = fresh();
    p.deposit(1, 500).unwrap();
    p.create_challenge(1, d(7), 500, None).unwrap();
    p.advance_height(100);
    let r = p.assign_judges(0, 0, vec![31]);
    assert!(r == Err(Error::TemporalError));
}

#[test]
fn update_period_admin_before_open() {
    let mut p = fresh();
    let r = p.update_period(9, 20, 30, 40, 50);
    assert!(r == Err(Error::AuthorizationError));
    let r = p.update_period(0, 40, 30, 40, 50);
    assert!(r == Err(Error::StateError));
    p.update_period(0, 20, 30, 40, 50).unwrap();
    assert_eq!(p.config.submission_start, 20);
    assert_eq!(p.config.voting_end, 50);
    p.advance_height(20);
    let r = p.update_period(0, 30, 40, 50, 60);
    assert!(r == Err(Error::TemporalError));
}

#[test]
fn new_rejects_broken_config() {
    let mut c = config();
    c.voting_start = 5;
    assert!(Pallet::new(c).is_err());
    let mut c = config();
    c.max_members = 0;
    assert!(Pallet::new(c).is_err());
    let mut c = config();
    c.expiry_extension = 0;
    assert!(Pallet::new(c).is_err());
    let mut c = config();
    c.admins = vec![0, 0];
    assert!(Pallet::new(c).is_err());
}

#[test]
fn deposit_overflow_is_rejected() {
    let mut p = fresh();
    p.deposit(1, u64::MAX).unwrap();
    let r = p.deposit(2, 1);
    assert!(r == Err(Error::FundsError));
    assert_eq!(p.ledger.total, u64::MAX);
}

#[test]
fn advance_height_never_moves_backward() {
    let mut p = fresh();
    p.advance_height(30);
    p.advance_height(20);
    assert_eq!(p.height, 30);
}

#[test]
fn challenge_id_space_is_bounded() {
    let mut p = fresh();
    for _ in 0..=u16::MAX as u32 {
        p.create_challenge(9, d(1), 0, None).unwrap();
    }
    let r = p.create_challenge(9, d(1), 0, None);
    assert!(r == Err(Error::CapacityError));
    assert_eq!(p.challenges.len(), u16::MAX as usize + 1);
}
