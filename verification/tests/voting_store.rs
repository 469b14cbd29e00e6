//! Tests of the store: token-gated submission, the double-submission
//! guard, receipts, and the tabulation fetch.

use rankchoice::api::ErrorCode;
use rankchoice::ids::Uid;
use rankchoice::store::{Candidate, Poll, Store, Voter};
use rankchoice::token::new_ballot_token;
use rankchoice::validate::BallotRanking;

// 2025-09-09T09:33:20Z
const NOW: i64 = 1757410400;

fn uid(n: u64) -> Uid {
    Uid::new(0, n)
}

fn entry(candidate: u64, rank: i32) -> BallotRanking {
    BallotRanking { candidate_id: uid(candidate), rank }
}

/// A store with one poll (id 10), three candidates (1..=3) and one
/// invited voter (id 20) holding the given token.
fn store_with_voter(is_public: bool, token: &str) -> Store {
    let mut s = Store::new();
    s.add_poll(
        Poll {
            id: uid(10),
            user_id: uid(90),
            title: "Board election".to_string(),
            is_public,
            opens_at: None,
            closes_at: None,
        },
    )
    .unwrap();
    for (n, name) in [(1u64, "Alice"), (2, "Bob"), (3, "Charlie")] {
        s.add_candidate(
            Candidate {
                id: uid(n),
                poll_id: uid(10),
                name: name.to_string(),
                display_order: n as u32,
            },
        )
        .unwrap();
    }
    s.create_voter(
        Voter {
            id: uid(20),
            poll_id: uid(10),
            email: Some("voter@example.com".to_string()),
            ballot_token: token.to_string(),
            invited_at: NOW - 1000,
            voted_at: None,
        },
    )
    .unwrap();
    s
}

#[test]
fn test_voter_has_voted() {
    let mut voter = Voter {
        id: uid(20),
        poll_id: uid(10),
        email: None,
        ballot_token: "test".to_string(),
        invited_at: NOW,
        voted_at: None,
    };

    assert!(!voter.has_voted());

    voter.voted_at = Some(NOW);
    assert!(voter.has_voted());
}

#[test]
fn test_ballot_token_generation() {
    let token1 = new_ballot_token(NOW);
    let token2 = new_ballot_token(NOW);

    assert_ne!(token1, token2);
    assert!(token1.starts_with("VOTE-"));
    assert_eq!(token1.len(), 16); // VOTE-YYYY-XXXXXX = 16 chars
    assert!(token1.starts_with("VOTE-2025-"));
}

#[test]
fn test_submit_ballot_success() {
    let mut s = store_with_voter(false, "tok-1");
    let r = s.submit_ballot(
        &"tok-1".to_string(),
        vec![entry(1, 1), entry(2, 2)],
        NOW,
        uid(500),
    );
    assert_eq!(r.unwrap(), uid(500));
    assert_eq!(s.ballots.len(), 1);
    assert_eq!(s.voters[0].voted_at, Some(NOW));
}

#[test]
fn test_double_submission_same_token() {
    let mut s = store_with_voter(false, "tok-1");
    let first = s.submit_ballot(
        &"tok-1".to_string(),
        vec![entry(1, 1), entry(2, 2)],
        NOW,
        uid(500),
    );
    let second = s.submit_ballot(
        &"tok-1".to_string(),
        vec![entry(1, 1), entry(2, 2)],
        NOW + 5,
        uid(501),
    );
    assert!(first.is_ok());
    assert_eq!(second.unwrap_err(), ErrorCode::AlreadyVoted);
    // exactly one row in the ballot table
    assert_eq!(s.ballots.len(), 1);
}

#[test]
fn test_unknown_token_not_found() {
    let mut s = store_with_voter(false, "tok-1");
    let r = s.submit_ballot(&"missing".to_string(), vec![entry(1, 1)], NOW, uid(500));
    assert_eq!(r.unwrap_err(), ErrorCode::NotFound);
    assert_eq!(s.ballots.len(), 0);
}

#[test]
fn test_submit_empty_ballot_rejected() {
    let mut s = store_with_voter(false, "tok-1");
    let r = s.submit_ballot(&"tok-1".to_string(), Vec::new(), NOW, uid(500));
    assert_eq!(r.unwrap_err(), ErrorCode::ValidationError);
}

#[test]
fn test_submit_unknown_candidate_rejected() {
    let mut s = store_with_voter(false, "tok-1");
    let r = s.submit_ballot(&"tok-1".to_string(), vec![entry(99, 1)], NOW, uid(500));
    assert_eq!(r.unwrap_err(), ErrorCode::InvalidCandidate);
}

#[test]
fn test_submit_non_sequential_ranks_rejected() {
    let mut s = store_with_voter(false, "tok-1");
    let r = s.submit_ballot(
        &"tok-1".to_string(),
        vec![entry(1, 1), entry(2, 3)],
        NOW,
        uid(500),
    );
    assert_eq!(r.unwrap_err(), ErrorCode::ValidationError);
}

#[test]
fn test_submit_duplicate_candidate_rejected() {
    let mut s = store_with_voter(false, "tok-1");
    let r = s.submit_ballot(
        &"tok-1".to_string(),
        vec![entry(1, 1), entry(1, 2)],
        NOW,
        uid(500),
    );
    assert_eq!(r.unwrap_err(), ErrorCode::ValidationError);
}

#[test]
fn test_submit_to_closed_poll_rejected() {
    let mut s = Store::new();
    s.add_poll(
        Poll {
            id: uid(10),
            user_id: uid(90),
            title: "Closed poll".to_string(),
            is_public: false,
            opens_at: None,
            closes_at: Some(NOW - 100),
        },
    )
    .unwrap();
    s.add_candidate(
        Candidate { id: uid(1), poll_id: uid(10), name: "Alice".to_string(), display_order: 1 },
    )
    .unwrap();
    s.add_candidate(
        Candidate { id: uid(2), poll_id: uid(10), name: "Bob".to_string(), display_order: 2 },
    )
    .unwrap();
    s.create_voter(
        Voter {
            id: uid(20),
            poll_id: uid(10),
            email: None,
            ballot_token: "tok-1".to_string(),
            invited_at: NOW - 1000,
            voted_at: None,
        },
    )
    .unwrap();
    let r = s.submit_ballot(&"tok-1".to_string(), vec![entry(1, 1)], NOW, uid(500));
    assert_eq!(r.unwrap_err(), ErrorCode::PollClosed);
}

#[test]
fn test_anonymous_vote_on_non_public_poll() {
    let mut s = store_with_voter(false, "tok-1");
    let r = s.submit_anonymous_ballot(&uid(10), vec![entry(1, 1)], NOW, uid(500));
    assert_eq!(r.unwrap_err(), ErrorCode::PollNotPublic);
    // no row inserted
    assert_eq!(s.ballots.len(), 0);
}

#[test]
fn test_anonymous_vote_on_public_poll() {
    let mut s = store_with_voter(true, "tok-1");
    let r = s.submit_anonymous_ballot(&uid(10), vec![entry(2, 1), entry(3, 2)], NOW, uid(500));
    assert_eq!(r.unwrap(), uid(500));
    assert_eq!(s.ballots.len(), 1);
    assert_eq!(s.ballots[0].voter_id, None);
    assert_eq!(s.count_anonymous_ballots(&uid(10)), 1);
}

#[test]
fn test_receipt_round_trip() {
    let mut s = store_with_voter(false, "tok-1");
    let ballot_id = Uid::new(0xabcd1234_00000000, 7);
    s.submit_ballot(
        &"tok-1".to_string(),
        vec![entry(1, 1), entry(2, 2)],
        NOW,
        ballot_id,
    )
    .unwrap();
    let receipt = s.get_voting_receipt(&"tok-1".to_string()).unwrap();
    assert_eq!(receipt.ballot_id, ballot_id);
    assert_eq!(receipt.submitted_at, NOW);
    assert_eq!(receipt.poll_id, uid(10));
    // the code issued at submission time: prefix, the submission year,
    // and the first segment of the ballot identifier
    assert_eq!(receipt.receipt_code, format!("VOTE-2025-{:08x}", 0xabcd1234u64));
    // fetching again yields the same code
    let again = s.get_voting_receipt(&"tok-1".to_string()).unwrap();
    assert_eq!(again.receipt_code, receipt.receipt_code);
}

#[test]
fn test_receipt_before_voting() {
    let s = store_with_voter(false, "tok-1");
    let r = s.get_voting_receipt(&"tok-1".to_string());
    assert_eq!(r.unwrap_err(), ErrorCode::NotVoted);
}

#[test]
fn test_receipt_unknown_token() {
    let s = store_with_voter(false, "tok-1");
    let r = s.get_voting_receipt(&"missing".to_string());
    assert_eq!(r.unwrap_err(), ErrorCode::NotFound);
}

#[test]
fn test_find_ballots_sorts_rankings_by_rank() {
    let mut s = store_with_voter(true, "tok-1");
    // ranks arrive out of order; the tabulation fetch sorts them
    s.submit_ballot(
        &"tok-1".to_string(),
        vec![entry(3, 2), entry(1, 3), entry(2, 1)],
        NOW,
        uid(500),
    )
    .unwrap();
    let ballots = s.find_ballots_for_tabulation(&uid(10));
    assert_eq!(ballots.len(), 1);
    assert_eq!(ballots[0].id, uid(500));
    assert_eq!(ballots[0].rankings, vec![uid(2), uid(3), uid(1)]);
    assert_eq!(ballots[0].voter_id, uid(20));
}

#[test]
fn test_find_ballots_filters_by_poll() {
    let mut s = store_with_voter(true, "tok-1");
    s.submit_anonymous_ballot(&uid(10), vec![entry(1, 1)], NOW, uid(500)).unwrap();
    assert_eq!(s.find_ballots_for_tabulation(&uid(10)).len(), 1);
    assert_eq!(s.find_ballots_for_tabulation(&uid(11)).len(), 0);
    // anonymous ballots carry the zero identifier at the tabulator boundary
    assert_eq!(s.find_ballots_for_tabulation(&uid(10))[0].voter_id, Uid::new(0, 0));
}

#[test]
fn test_invite_voter() {
    let mut s = store_with_voter(false, "tok-1");
    let r = s.invite_voter(&uid(10), Some("new@example.com".to_string()), NOW);
    let idx = r.unwrap();
    assert_eq!(idx, 1);
    assert_eq!(s.voters.len(), 2);
    assert_eq!(s.voters[1].poll_id, uid(10));
    assert!(s.voters[1].ballot_token.starts_with("VOTE-2025-"));
    assert_eq!(s.voters[1].ballot_token.len(), 16);
    let tail = &s.voters[1].ballot_token[10..];
    assert!(tail.chars().all(|c| c.is_ascii_uppercase() || c.is_ascii_digit()));
    assert!(s.voters[1].voted_at.is_none());

    let missing = s.invite_voter(&uid(999), None, NOW);
    assert_eq!(missing.unwrap_err(), ErrorCode::NotFound);
}

#[test]
fn test_voter_counts() {
    let mut s = store_with_voter(false, "tok-1");
    s.invite_voter(&uid(10), None, NOW).unwrap();
    let (total, voted) = s.voter_counts_for_poll(&uid(10));
    assert_eq!((total, voted), (2, 0));
    s.submit_ballot(&"tok-1".to_string(), vec![entry(1, 1)], NOW, uid(500)).unwrap();
    let (total, voted) = s.voter_counts_for_poll(&uid(10));
    assert_eq!((total, voted), (2, 1));
}

#[test]
fn test_get_ballot_by_token() {
    let mut s = store_with_voter(false, "tok-1");
    assert_eq!(s.get_ballot_view(&"tok-1".to_string(), NOW).unwrap(), (0, 0));
    assert_eq!(
        s.get_ballot_view(&"missing".to_string(), NOW).unwrap_err(),
        ErrorCode::NotFound
    );
    s.submit_ballot(&"tok-1".to_string(), vec![entry(1, 1)], NOW, uid(500)).unwrap();
    assert_eq!(
        s.get_ballot_view(&"tok-1".to_string(), NOW).unwrap_err(),
        ErrorCode::AlreadyVoted
    );
}

#[test]
fn test_mark_as_voted() {
    let mut s = store_with_voter(false, "tok-1");
    assert!(s.mark_as_voted(&uid(20), NOW));
    assert_eq!(s.voters[0].voted_at, Some(NOW));
    // the eligible-to-voted transition happens at most once: a second
    // call is refused and the original timestamp stands
    assert!(!s.mark_as_voted(&uid(20), NOW + 5));
    assert_eq!(s.voters[0].voted_at, Some(NOW));
    assert!(!s.mark_as_voted(&uid(999), NOW));
}
