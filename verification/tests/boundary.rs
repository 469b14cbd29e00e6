//! Tests of the boundary pieces: the validator, the response envelope,
//! pagination, poll status, final rankings and the token formats.

use rankchoice::api::{create_api_response, create_error_response, paginated_response,
    reject_error, voters_list_response, ApiMetadata, ErrorCode};
use rankchoice::ids::Uid;
use rankchoice::rcv::{Ballot, Candidate, SingleWinnerRCV};
use rankchoice::results::{final_rankings, poll_status, PollStatus};
use rankchoice::token::new_registration_token;
use rankchoice::validate::{validate_submission, BallotRanking, RejectReason};

const NOW: i64 = 1757410400;

fn uid(n: u64) -> Uid {
    Uid::new(0, n)
}

fn entry(candidate: u64, rank: i32) -> BallotRanking {
    BallotRanking { candidate_id: uid(candidate), rank }
}

fn cands() -> Vec<Uid> {
    vec![uid(1), uid(2), uid(3)]
}

#[test]
fn test_validator_accepts_dense_ranks() {
    let r = validate_submission(
        &cands(),
        &vec![entry(2, 2), entry(1, 1), entry(3, 3)],
        true,
        None,
        None,
        NOW,
        false,
        false,
    );
    assert!(r.is_ok());
}

#[test]
fn test_validator_rejects_empty() {
    let r = validate_submission(&cands(), &Vec::new(), true, None, None, NOW, false, false);
    assert_eq!(r.unwrap_err(), RejectReason::Empty);
}

#[test]
fn test_validator_rejects_unknown_candidate() {
    let r = validate_submission(
        &cands(),
        &vec![entry(1, 1), entry(9, 2)],
        true,
        None,
        None,
        NOW,
        false,
        false,
    );
    assert_eq!(r.unwrap_err(), RejectReason::UnknownCandidate(uid(9)));
}

#[test]
fn test_validator_rejects_duplicate_candidate() {
    let r = validate_submission(
        &cands(),
        &vec![entry(1, 1), entry(1, 2)],
        true,
        None,
        None,
        NOW,
        false,
        false,
    );
    assert_eq!(r.unwrap_err(), RejectReason::DuplicateCandidate(uid(1)));
}

#[test]
fn test_validator_rejects_non_sequential_ranks() {
    let r = validate_submission(
        &cands(),
        &vec![entry(1, 1), entry(2, 4)],
        true,
        None,
        None,
        NOW,
        false,
        false,
    );
    assert_eq!(r.unwrap_err(), RejectReason::NonSequentialRanks);
    // ranks must start at 1
    let r2 = validate_submission(
        &cands(),
        &vec![entry(1, 2), entry(2, 3)],
        true,
        None,
        None,
        NOW,
        false,
        false,
    );
    assert_eq!(r2.unwrap_err(), RejectReason::NonSequentialRanks);
}

#[test]
fn test_validator_rejects_closed_poll() {
    let r = validate_submission(
        &cands(),
        &vec![entry(1, 1)],
        true,
        Some(NOW + 10),
        None,
        NOW,
        false,
        false,
    );
    assert_eq!(r.unwrap_err(), RejectReason::PollClosed);
    let r2 = validate_submission(
        &cands(),
        &vec![entry(1, 1)],
        true,
        None,
        Some(NOW - 10),
        NOW,
        false,
        false,
    );
    assert_eq!(r2.unwrap_err(), RejectReason::PollClosed);
}

#[test]
fn test_validator_rejects_anonymous_on_private_poll() {
    let r = validate_submission(&cands(), &vec![entry(1, 1)], false, None, None, NOW, true, false);
    assert_eq!(r.unwrap_err(), RejectReason::PollNotPublic);
}

#[test]
fn test_validator_rejects_already_voted() {
    let r = validate_submission(&cands(), &vec![entry(1, 1)], false, None, None, NOW, false, true);
    assert_eq!(r.unwrap_err(), RejectReason::AlreadyVoted);
}

#[test]
fn test_reject_error_codes() {
    assert_eq!(reject_error(RejectReason::Empty), ErrorCode::ValidationError);
    assert_eq!(reject_error(RejectReason::UnknownCandidate(uid(1))), ErrorCode::InvalidCandidate);
    assert_eq!(reject_error(RejectReason::DuplicateCandidate(uid(1))), ErrorCode::ValidationError);
    assert_eq!(reject_error(RejectReason::NonSequentialRanks), ErrorCode::ValidationError);
    assert_eq!(reject_error(RejectReason::PollClosed), ErrorCode::PollClosed);
    assert_eq!(reject_error(RejectReason::PollNotPublic), ErrorCode::PollNotPublic);
    assert_eq!(reject_error(RejectReason::AlreadyVoted), ErrorCode::AlreadyVoted);
}

#[test]
fn test_error_code_strings() {
    assert_eq!(ErrorCode::ValidationError.code_str(), "VALIDATION_ERROR");
    assert_eq!(ErrorCode::InvalidCandidate.code_str(), "INVALID_CANDIDATE");
    assert_eq!(ErrorCode::NotFound.code_str(), "NOT_FOUND");
    assert_eq!(ErrorCode::AlreadyVoted.code_str(), "ALREADY_VOTED");
    assert_eq!(ErrorCode::NotVoted.code_str(), "NOT_VOTED");
    assert_eq!(ErrorCode::PollClosed.code_str(), "POLL_CLOSED");
    assert_eq!(ErrorCode::PollNotPublic.code_str(), "POLL_NOT_PUBLIC");
    assert_eq!(ErrorCode::InternalError.code_str(), "INTERNAL_ERROR");
}

fn meta() -> ApiMetadata {
    ApiMetadata { timestamp: "2025-09-09T09:33:20Z".to_string(), version: "0.1.0".to_string() }
}

#[test]
fn test_api_response_success_envelope() {
    let r = create_api_response(41usize, meta());
    assert!(r.success);
    assert_eq!(r.data, Some(41));
    assert!(r.error.is_none());
    assert_eq!(r.metadata.version, "0.1.0");
}

#[test]
fn test_api_response_error_envelope() {
    let r = create_error_response::<usize>(
        ErrorCode::NotFound.code_str(),
        "Poll not found".to_string(),
        meta(),
    );
    assert!(!r.success);
    assert!(r.data.is_none());
    let e = r.error.unwrap();
    assert_eq!(e.code, "NOT_FOUND");
    assert_eq!(e.message, "Poll not found");
}

#[test]
fn test_pagination_rounds_up() {
    let page = paginated_response(vec![1, 2, 3], 45, 1, 20);
    assert_eq!(page.total_pages, 3);
    let exact = paginated_response::<i32>(Vec::new(), 40, 2, 20);
    assert_eq!(exact.total_pages, 2);
    let empty = paginated_response::<i32>(Vec::new(), 0, 1, 20);
    assert_eq!(empty.total_pages, 0);
}

#[test]
fn test_voters_list_counts() {
    let r = voters_list_response(Vec::new(), 0, 3);
    assert_eq!(r.total, 0);
    assert_eq!(r.voted_count, 3);
    assert_eq!(r.pending_count, 0);
}

#[test]
fn test_poll_status_values() {
    assert_eq!(poll_status(0, false, None, NOW), PollStatus::NoVotes);
    assert_eq!(poll_status(5, true, None, NOW), PollStatus::WinnerDeclared);
    assert_eq!(poll_status(5, false, None, NOW), PollStatus::InProgress);
    assert_eq!(poll_status(5, true, Some(NOW - 1), NOW), PollStatus::Completed);
    assert_eq!(poll_status(5, false, Some(NOW + 1), NOW), PollStatus::InProgress);
    assert_eq!(PollStatus::NoVotes.status_str(), "no_votes");
    assert_eq!(PollStatus::Completed.status_str(), "completed");
    assert_eq!(PollStatus::WinnerDeclared.status_str(), "winner_declared");
    assert_eq!(PollStatus::InProgress.status_str(), "in_progress");
}

#[test]
fn test_final_rankings_order() {
    let candidates = vec![
        Candidate { id: uid(1), name: "Alice".to_string() },
        Candidate { id: uid(2), name: "Bob".to_string() },
        Candidate { id: uid(3), name: "Charlie".to_string() },
    ];
    let ballots = vec![
        Ballot { id: uid(100), voter_id: uid(200), rankings: vec![uid(1), uid(2)] },
        Ballot { id: uid(101), voter_id: uid(201), rankings: vec![uid(1), uid(3)] },
        Ballot { id: uid(102), voter_id: uid(202), rankings: vec![uid(2), uid(1)] },
        Ballot { id: uid(103), voter_id: uid(203), rankings: vec![uid(2), uid(3)] },
        Ballot { id: uid(104), voter_id: uid(204), rankings: vec![uid(3), uid(1)] },
    ];
    let result = SingleWinnerRCV::new(candidates.clone(), ballots).tabulate().unwrap();
    let rankings = final_rankings(&result, &candidates);
    assert_eq!(rankings.len(), 3);
    assert_eq!(rankings[0].position, 1);
    assert_eq!(rankings[0].candidate_id, uid(1));
    assert_eq!(rankings[0].name, "Alice");
    assert_eq!(rankings[0].votes, 3);
    assert!(rankings[0].eliminated_round.is_none());
    assert_eq!(rankings[1].votes, 2);
    assert_eq!(rankings[2].candidate_id, uid(3));
    assert_eq!(rankings[2].votes, 0);
    assert_eq!(rankings[2].eliminated_round, Some(1));
}

#[test]
fn test_registration_token_format() {
    let t1 = new_registration_token();
    let t2 = new_registration_token();
    assert!(t1.starts_with("reg_"));
    assert_eq!(t1.len(), 40);
    assert_ne!(t1, t2);
    // reg_ + 8-4-4-4-12 hyphenated hex
    let body: Vec<&str> = t1[4..].split('-').collect();
    assert_eq!(body.iter().map(|s| s.len()).collect::<Vec<_>>(), vec![8, 4, 4, 4, 12]);
}
