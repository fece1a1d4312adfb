//! Solution submission, judge voting and the final distribution of locked
//! rewards.

use buidl::pallet::{Config, Pallet};
use buidl::{Digest, Error, Event};

fn fresh() -> Pallet {
    Pallet::new(Config {
        max_members: 5,
        max_solutions: 3,
        expiry_extension: 50,
        submission_start: 10,
        submission_end: 100,
        voting_start: 100,
        voting_end: 200,
        admins: vec![0],
    })
    .unwrap()
}

fn d(v: u64) -> Digest {
    Digest { value: v }
}

#[test]
fn submit_solution_rules() {
    let mut p = fresh();
    p.deposit(1, 1000).unwrap();
    p.create_challenge(1, d(7), 1000, None).unwrap();
    p.create_team(10).unwrap();
    let r = p.submit_solution(10, 0, 0, d(40), vec![10]);
    assert!(r == Err(Error::TemporalError));
    p.advance_height(10);
    let r = p.submit_solution(10, 9, 0, d(40), vec![10]);
    assert!(r == Err(Error::NotFoundError));
    let r = p.submit_solution(10, 0, 9, d(40), vec![10]);
    assert!(r == Err(Error::NotFoundError));
    let r = p.submit_solution(77, 0, 0, d(40), vec![10]);
    assert!(r == Err(Error::AuthorizationError));
    let r = p.submit_solution(10, 0, 0, d(40), vec![10, 11, 12, 13, 14, 15]);
    assert!(r == Err(Error::CapacityError));
    p.submit_solution(10, 0, 0, d(40), vec![10]).unwrap();
    assert_eq!(p.get_challenge(0).unwrap().submissions, 1);
    assert!(p.events.last() == Some(&Event::SolutionSubmitted { id: 0, member: 10 }));
    let r = p.submit_solution(10, 0, 0, d(41), vec![10]);
    assert!(r == Err(Error::StateError));
    assert_eq!(p.get_challenge(0).unwrap().submissions, 1);
    p.advance_height(100);
    let r = p.submit_solution(10, 0, 0, d(41), vec![10]);
    assert!(r == Err(Error::TemporalError));
}

#[test]
fn submissions_are_capped_per_challenge() {
    let mut p = fresh();
    p.create_challenge(9, d(7), 0, None).unwrap();
    p.advance_height(10);
    for team in 0..3u32 {
        p.create_team(10 + team as usize).unwrap();
        p.submit_solution(10 + team as usize, 0, team, d(team as u64), vec![]).unwrap();
    }
    p.create_team(20).unwrap();
    let r = p.submit_solution(20, 0, 3, d(9), vec![]);
    assert!(r == Err(Error::CapacityError));
    assert_eq!(p.get_challenge(0).unwrap().submissions, 3);
}

#[test]
fn judge_vote_rules() {
    let mut p = fresh();
    p.deposit(1, 1000).unwrap();
    p.create_challenge(1, d(7), 1000, Some(vec![31, 32])).unwrap();
    p.create_team(10).unwrap();
    p.advance_height(10);
    p.submit_solution(10, 0, 0, d(40), vec![10]).unwrap();
    let r = p.vote(31, 0, 0);
    assert!(r == Err(Error::TemporalError));
    p.advance_height(100);
    let r = p.vote(31, 9, 0);
    assert!(r == Err(Error::NotFoundError));
    let r = p.vote(33, 0, 0);
    assert!(r == Err(Error::AuthorizationError));
    let r = p.vote(31, 0, 5);
    assert!(r == Err(Error::NotFoundError));
    p.vote(31, 0, 0).unwrap();
    assert_eq!(p.judge_votes.len(), 1);
    // a second vote by the same judge overwrites, never duplicates
    p.vote(31, 0, 0).unwrap();
    assert_eq!(p.judge_votes.len(), 1);
    p.advance_height(200);
    let r = p.vote(32, 0, 0);
    assert!(r == Err(Error::TemporalError));
}

#[test]
fn finalize_pays_bounty_claimants_and_founder() {
    let mut p = fresh();
    p.deposit(1, 2000).unwrap();
    p.create_challenge(1, d(7), 1000, None).unwrap();
    // team A: founder 10, member 11; team B: founder 20
    p.create_team(10).unwrap();
    p.add_member(10, 0, 11).unwrap();
    p.create_team(20).unwrap();
    // team A issues a bounty of 25 percent, claimed by outsider 99, approved
    p.post_bounty(10, 0, d(1), 150, 25).unwrap();
    p.claim_bounty(99, 0, d(5)).unwrap();
    p.vote_on_bounty(10, 0, true).unwrap();
    p.vote_on_bounty(11, 0, true).unwrap();
    // both teams submit during the submission window
    p.advance_height(10);
    p.submit_solution(10, 0, 0, d(40), vec![10, 11]).unwrap();
    p.submit_solution(20, 0, 1, d(41), vec![20]).unwrap();
    // three judges vote: two for team A, one for team B
    p.advance_height(100);
    p.vote(31, 0, 0).unwrap();
    p.vote(32, 0, 0).unwrap();
    p.vote(33, 0, 1).unwrap();
    let r = p.finalize_challenge(0);
    assert!(r == Err(Error::TemporalError));
    p.advance_height(200);
    p.finalize_challenge(0).unwrap();
    assert!(p.get_challenge(0).unwrap().finalized);
    assert_eq!(p.ledger.locked[0], 0);
    assert_eq!(p.ledger.free[99], 250);
    assert_eq!(p.ledger.free[10], 750);
    assert_eq!(p.ledger.free[20], 0);
    assert_eq!(p.ledger.free[1], 1000);
    assert_eq!(p.ledger.total, 2000);
    assert!(p.events.last() == Some(&Event::PayoutFinalized { id: 0 }));
}

#[test]
fn finalize_twice_is_a_no_op() {
    let mut p = fresh();
    p.deposit(1, 1000).unwrap();
    p.create_challenge(1, d(7), 1000, None).unwrap();
    p.create_team(10).unwrap();
    p.advance_height(10);
    p.submit_solution(10, 0, 0, d(40), vec![10]).unwrap();
    p.advance_height(100);
    p.vote(31, 0, 0).unwrap();
    p.advance_height(200);
    p.finalize_challenge(0).unwrap();
    let free_after = p.ledger.free.clone();
    let events_after = p.events.len();
    p.finalize_challenge(0).unwrap();
    assert_eq!(p.ledger.free, free_after);
    assert_eq!(p.events.len(), events_after);
    assert_eq!(p.ledger.free[10], 1000);
}

#[test]
fn finalize_without_submissions_refunds_sponsor() {
    let mut p = fresh();
    p.deposit(1, 1000).unwrap();
    p.create_challenge(1, d(7), 800, None).unwrap();
    assert_eq!(p.ledger.free[1], 200);
    p.advance_height(200);
    p.finalize_challenge(0).unwrap();
    assert_eq!(p.ledger.free[1], 1000);
    assert_eq!(p.ledger.locked[0], 0);
    assert!(p.get_challenge(0).unwrap().finalized);
}

#[test]
fn finalize_unbroken_tie_refunds_sponsor() {
    let mut p = fresh();
    p.deposit(1, 1000).unwrap();
    p.create_challenge(1, d(7), 800, None).unwrap();
    p.create_team(10).unwrap();
    p.create_team(20).unwrap();
    p.advance_height(10);
    // both teams submit at the same height and draw one vote each
    p.submit_solution(10, 0, 0, d(40), vec![10]).unwrap();
    p.submit_solution(20, 0, 1, d(41), vec![20]).unwrap();
    p.advance_height(100);
    p.vote(31, 0, 0).unwrap();
    p.vote(32, 0, 1).unwrap();
    p.advance_height(200);
    p.finalize_challenge(0).unwrap();
    assert_eq!(p.ledger.free[1], 1000);
    // neither team was paid anything: their accounts never saw a credit
    assert_eq!(*p.ledger.free.get(10).unwrap_or(&0), 0);
    assert_eq!(*p.ledger.free.get(20).unwrap_or(&0), 0);
}

#[test]
fn finalize_tie_broken_by_earlier_submission() {
    let mut p = fresh();
    p.deposit(1, 1000).unwrap();
    p.create_challenge(1, d(7), 800, None).unwrap();
    p.create_team(10).unwrap();
    p.create_team(20).unwrap();
    p.advance_height(10);
    p.submit_solution(20, 0, 1, d(41), vec![20]).unwrap();
    p.advance_height(11);
    p.submit_solution(10, 0, 0, d(40), vec![10]).unwrap();
    p.advance_height(100);
    p.vote(31, 0, 0).unwrap();
    p.vote(32, 0, 1).unwrap();
    p.advance_height(200);
    p.finalize_challenge(0).unwrap();
    // team B submitted first and wins the tie; its founder takes the reward
    assert_eq!(p.ledger.free[20], 800);
    assert_eq!(p.ledger.free[10], 0);
}

#[test]
fn finalize_unknown_challenge_not_found() {
    let mut p = fresh();
    p.advance_height(200);
    let r = p.finalize_challenge(4);
    assert!(r == Err(Error::NotFoundError));
}

#[test]
fn list_submissions_reports_positions() {
    let mut p = fresh();
    p.create_challenge(9, d(7), 0, None).unwrap();
    p.create_challenge(9, d(8), 0, None).unwrap();
    p.create_team(10).unwrap();
    p.create_team(20).unwrap();
    p.advance_height(10);
    p.submit_solution(10, 0, 0, d(40), vec![10]).unwrap();
    p.submit_solution(20, 1, 1, d(41), vec![20]).unwrap();
    p.submit_solution(20, 0, 1, d(42), vec![20]).unwrap();
    assert_eq!(p.list_submissions(0), vec![0, 2]);
    assert_eq!(p.list_submissions(1), vec![1]);
    assert_eq!(p.list_submissions(7), Vec::<usize>::new());
}

#[test]
fn rewards_of_distinct_challenges_stay_apart() {
    let mut p = fresh();
    p.deposit(1, 300).unwrap();
    p.deposit(2, 400).unwrap();
    p.create_challenge(1, d(7), 300, None).unwrap();
    p.create_challenge(2, d(8), 400, None).unwrap();
    assert_eq!(p.ledger.locked, vec![300, 400]);
    // conservation: what the ledger holds locked is exactly what the
    // unfinalized challenges are still owed
    let locked_sum: u64 = p.ledger.locked.iter().sum();
    let owed: u64 = p.challenges.iter().filter(|c| !c.finalized).map(|c| c.reward).sum();
    assert_eq!(locked_sum, owed);
    p.advance_height(200);
    p.finalize_challenge(1).unwrap();
    assert_eq!(p.ledger.locked, vec![300, 0]);
    assert_eq!(p.ledger.free[2], 400);
    assert_eq!(p.ledger.free[1], 0);
    p.finalize_challenge(0).unwrap();
    assert_eq!(p.ledger.free[1], 300);
    assert_eq!(p.ledger.total, 700);
    let locked_sum: u64 = p.ledger.locked.iter().sum();
    let owed: u64 = p.challenges.iter().filter(|c| !c.finalized).map(|c| c.reward).sum();
    assert_eq!(locked_sum, owed);
}
