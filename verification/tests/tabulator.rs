//! Tests of the instant-runoff tabulation engine.

use rankchoice::ids::Uid;
use rankchoice::rcv::{Ballot, Candidate, RcvResult, SingleWinnerRCV, TabulationError,
    TieBreakMethod, TieBreakReason};

fn uid(n: u64) -> Uid {
    Uid::new(0, n)
}

fn cand(n: u64, name: &str) -> Candidate {
    Candidate { id: uid(n), name: name.to_string() }
}

fn ballot(n: u64, rankings: Vec<Uid>) -> Ballot {
    Ballot { id: uid(1000 + n), voter_id: uid(2000 + n), rankings }
}

fn create_test_candidates() -> Vec<Candidate> {
    vec![cand(1, "Alice"), cand(2, "Bob"), cand(3, "Charlie")]
}

#[test]
fn test_simple_majority_winner() {
    let candidates = create_test_candidates();
    let alice_id = candidates[0].id;
    let bob_id = candidates[1].id;
    let charlie_id = candidates[2].id;

    // 3 votes for Alice (60%), 2 votes for others
    let ballots = vec![
        ballot(1, vec![alice_id, bob_id, charlie_id]),
        ballot(2, vec![alice_id, charlie_id, bob_id]),
        ballot(3, vec![alice_id, bob_id]),
        ballot(4, vec![bob_id, alice_id]),
        ballot(5, vec![charlie_id, alice_id]),
    ];

    let rcv = SingleWinnerRCV::new(candidates, ballots);
    let result = rcv.tabulate().unwrap();

    assert_eq!(result.rounds.len(), 1);
    assert_eq!(result.winner, Some(alice_id));
    assert_eq!(result.rounds[0].votes_for(&alice_id), 3);
    // majority threshold is half the active vote total: 5 / 2
    assert_eq!(result.rounds[0].total_votes, 5);
}

#[test]
fn test_rcv_elimination_and_transfer() {
    let candidates = create_test_candidates();
    let alice_id = candidates[0].id;
    let bob_id = candidates[1].id;
    let charlie_id = candidates[2].id;

    // No majority in first round, Charlie eliminated, votes transfer to Alice
    let ballots = vec![
        ballot(1, vec![alice_id, bob_id]),
        ballot(2, vec![alice_id, charlie_id]),
        ballot(3, vec![bob_id, alice_id]),
        ballot(4, vec![bob_id, charlie_id]),
        ballot(5, vec![charlie_id, alice_id]),
    ];

    let rcv = SingleWinnerRCV::new(candidates, ballots);
    let result = rcv.tabulate().unwrap();

    assert_eq!(result.rounds.len(), 2);
    assert_eq!(result.rounds[0].eliminated(), Some(charlie_id));
    assert_eq!(result.winner, Some(alice_id));

    // First round: Alice=2, Bob=2, Charlie=1
    assert_eq!(result.rounds[0].votes_for(&alice_id), 2);
    assert_eq!(result.rounds[0].votes_for(&bob_id), 2);
    assert_eq!(result.rounds[0].votes_for(&charlie_id), 1);

    // Second round: Alice=3, Bob=2 (Charlie's vote transferred to Alice)
    assert_eq!(result.rounds[1].votes_for(&alice_id), 3);
    assert_eq!(result.rounds[1].votes_for(&bob_id), 2);
}

#[test]
fn test_comprehensive_tiebreaker() {
    let candidates = create_test_candidates();
    let alice_id = candidates[0].id;
    let bob_id = candidates[1].id;
    let charlie_id = candidates[2].id;

    // Round 1 result: Charlie=2, Alice=1, Bob=1 (Alice and Bob tied for last)
    // First-choice counts and residual transfers tie as well, so the
    // seeded draw decides.
    let ballots = vec![
        ballot(1, vec![charlie_id, alice_id]),
        ballot(2, vec![charlie_id, bob_id]),
        ballot(3, vec![alice_id, charlie_id]),
        ballot(4, vec![bob_id, alice_id]),
    ];

    let rcv = SingleWinnerRCV::new(candidates, ballots);
    let result = rcv.tabulate().unwrap();

    assert!(result.rounds.len() >= 1);

    let had_tiebreaker = result
        .rounds
        .iter()
        .any(|round| round.eliminated_ix.is_some() && round.tiebreak_reason.is_some());

    assert!(had_tiebreaker, "Expected at least one round to use a tiebreaker");
    assert_eq!(result.winner, Some(charlie_id));
}

#[test]
fn test_exhausted_ballots() {
    let candidates = create_test_candidates();
    let alice_id = candidates[0].id;
    let bob_id = candidates[1].id;
    let charlie_id = candidates[2].id;

    // Charlie clearly has fewest votes and gets eliminated, leaving one
    // ballot exhausted.
    let ballots = vec![
        ballot(1, vec![alice_id, bob_id]),
        ballot(2, vec![alice_id, bob_id]),
        ballot(3, vec![bob_id, alice_id]),
        ballot(4, vec![bob_id, alice_id]),
        ballot(5, vec![charlie_id]),
    ];

    let rcv = SingleWinnerRCV::new(candidates, ballots);
    let result = rcv.tabulate().unwrap();

    assert!(result.rounds.len() >= 2);
    assert_eq!(result.rounds[0].eliminated(), Some(charlie_id));

    let final_round = result.rounds.last().unwrap();
    assert_eq!(final_round.exhausted_ballots, 1);

    // First round vote counts: Alice=2, Bob=2, Charlie=1
    assert_eq!(result.rounds[0].votes_for(&alice_id), 2);
    assert_eq!(result.rounds[0].votes_for(&bob_id), 2);
    assert_eq!(result.rounds[0].votes_for(&charlie_id), 1);

    // the winner is declared once only one candidate remains active
    assert!(result.winner.is_some());
}

#[test]
fn test_invalid_ballot_validation() {
    let candidates = create_test_candidates();
    let alice_id = candidates[0].id;

    // Ballot with duplicate candidate
    let ballots = vec![ballot(1, vec![alice_id, alice_id])];

    let rcv = SingleWinnerRCV::new(candidates, ballots);
    let result = rcv.tabulate();

    assert!(result.is_err());
    assert!(result.unwrap_err().message().contains("Duplicate candidate"));
}

#[test]
fn test_tie_breaking_previous_rounds() {
    let candidates = create_test_candidates();
    let alice_id = candidates[0].id;
    let bob_id = candidates[1].id;
    let charlie_id = candidates[2].id;

    let ballots = vec![
        ballot(1, vec![alice_id, bob_id]),
        ballot(2, vec![alice_id, charlie_id]),
        ballot(3, vec![bob_id, alice_id]),
        ballot(4, vec![charlie_id, alice_id]),
    ];

    let rcv = SingleWinnerRCV::new(candidates, ballots)
        .with_tie_break_method(TieBreakMethod::PriorRoundPerformance);
    let result = rcv.tabulate().unwrap();

    // Alice should win with majority after transfers
    assert_eq!(result.winner, Some(alice_id));
    assert!(result.rounds.len() >= 2);
}

#[test]
fn test_permutation_invariance() {
    let candidates = create_test_candidates();
    let a = candidates[0].id;
    let b = candidates[1].id;
    let c = candidates[2].id;

    let forward = vec![
        ballot(1, vec![a, b]),
        ballot(2, vec![a, c]),
        ballot(3, vec![b, a]),
        ballot(4, vec![b, c]),
        ballot(5, vec![c, a]),
    ];
    let mut reversed = forward.clone();
    reversed.reverse();

    let r1 = SingleWinnerRCV::new(candidates.clone(), forward).tabulate().unwrap();
    let r2 = SingleWinnerRCV::new(candidates, reversed).tabulate().unwrap();

    assert_eq!(r1.winner, r2.winner);
    assert_eq!(r1.rounds.len(), r2.rounds.len());
    assert_eq!(r1.exhausted_ballots, r2.exhausted_ballots);
    for (x, y) in r1.rounds.iter().zip(r2.rounds.iter()) {
        assert_eq!(x.votes_for(&a), y.votes_for(&a));
        assert_eq!(x.votes_for(&b), y.votes_for(&b));
        assert_eq!(x.votes_for(&c), y.votes_for(&c));
        assert_eq!(x.eliminated(), y.eliminated());
        assert_eq!(x.winner(), y.winner());
        assert_eq!(x.tiebreak_reason, y.tiebreak_reason);
        assert_eq!(x.exhausted_ballots, y.exhausted_ballots);
        assert_eq!(x.total_votes, y.total_votes);
    }
}

#[test]
fn test_determinism_across_runs() {
    let candidates = create_test_candidates();
    let a = candidates[0].id;
    let b = candidates[1].id;
    let c = candidates[2].id;

    // a full tie, so the seeded draw decides; equal seeds give equal output
    let make = || {
        vec![
            ballot(1, vec![a, b]),
            ballot(2, vec![b, c]),
            ballot(3, vec![c, a]),
        ]
    };
    let r1 = SingleWinnerRCV::new(candidates.clone(), make()).tabulate().unwrap();
    let r2 = SingleWinnerRCV::new(candidates.clone(), make()).tabulate().unwrap();

    assert_eq!(r1.winner, r2.winner);
    assert_eq!(r1.rounds.len(), r2.rounds.len());
    for (x, y) in r1.rounds.iter().zip(r2.rounds.iter()) {
        assert_eq!(x.eliminated(), y.eliminated());
        assert_eq!(x.tiebreak_reason, y.tiebreak_reason);
    }
    // a different seed is a different configuration and may differ;
    // it must still be internally deterministic
    let r3 = SingleWinnerRCV::new(candidates.clone(), make())
        .with_tie_break_method(TieBreakMethod::Random(7))
        .tabulate()
        .unwrap();
    let r4 = SingleWinnerRCV::new(candidates, make())
        .with_tie_break_method(TieBreakMethod::Random(7))
        .tabulate()
        .unwrap();
    assert_eq!(r3.winner, r4.winner);
}

#[test]
fn test_round_count_bounded_by_candidates() {
    let candidates = vec![cand(1, "A"), cand(2, "B"), cand(3, "C"), cand(4, "D")];
    let ids: Vec<Uid> = candidates.iter().map(|c| c.id).collect();
    let ballots = vec![
        ballot(1, vec![ids[0], ids[1]]),
        ballot(2, vec![ids[1], ids[2]]),
        ballot(3, vec![ids[2], ids[3]]),
        ballot(4, vec![ids[3], ids[0]]),
        ballot(5, vec![ids[0], ids[2]]),
    ];
    let result = SingleWinnerRCV::new(candidates, ballots).tabulate().unwrap();
    assert!(result.rounds.len() >= 1);
    assert!(result.rounds.len() <= 4);
}

#[test]
fn test_votes_conserved_every_round() {
    let candidates = create_test_candidates();
    let a = candidates[0].id;
    let b = candidates[1].id;
    let c = candidates[2].id;
    let ballots = vec![
        ballot(1, vec![a, b]),
        ballot(2, vec![a, b]),
        ballot(3, vec![b, a]),
        ballot(4, vec![b, a]),
        ballot(5, vec![c]),
    ];
    let total_ballots = ballots.len() as u64;
    let result = SingleWinnerRCV::new(candidates, ballots).tabulate().unwrap();
    for round in &result.rounds {
        let sum: u64 = round.vote_counts.iter().sum();
        assert_eq!(sum + round.exhausted_ballots as u64, total_ballots);
        assert_eq!(sum, round.total_votes);
    }
}

#[test]
fn test_eliminated_candidate_stays_at_zero() {
    let candidates = vec![cand(1, "A"), cand(2, "B"), cand(3, "C"), cand(4, "D")];
    let ids: Vec<Uid> = candidates.iter().map(|c| c.id).collect();
    let ballots = vec![
        ballot(1, vec![ids[0], ids[1], ids[2], ids[3]]),
        ballot(2, vec![ids[0], ids[2]]),
        ballot(3, vec![ids[1], ids[0]]),
        ballot(4, vec![ids[1], ids[3]]),
        ballot(5, vec![ids[2], ids[1]]),
        ballot(6, vec![ids[2], ids[0]]),
        ballot(7, vec![ids[3]]),
    ];
    let result = SingleWinnerRCV::new(candidates, ballots).tabulate().unwrap();
    for (k, round) in result.rounds.iter().enumerate() {
        if let Some(e) = round.eliminated() {
            for later in result.rounds.iter().skip(k + 1) {
                assert_eq!(later.votes_for(&e), 0);
            }
        }
    }
}

#[test]
fn test_insufficient_candidates() {
    let candidates = vec![cand(1, "Alone")];
    let ballots = vec![ballot(1, vec![uid(1)])];
    let result = SingleWinnerRCV::new(candidates, ballots).tabulate();
    assert_eq!(result.unwrap_err(), TabulationError::InsufficientCandidates);
}

#[test]
fn test_unknown_candidate_in_ballot() {
    let candidates = create_test_candidates();
    let ballots = vec![ballot(1, vec![uid(99)])];
    let rcv = SingleWinnerRCV::new(candidates, ballots);
    assert!(rcv.validate_ballots().is_err());
    let err = rcv.tabulate().unwrap_err();
    assert_eq!(err, TabulationError::InvalidCandidate(uid(99)));
    assert!(err.message().contains("Invalid candidate"));
}

#[test]
fn test_no_ballots_no_winner() {
    let candidates = create_test_candidates();
    let result: RcvResult = SingleWinnerRCV::new(candidates, Vec::new()).tabulate().unwrap();
    assert_eq!(result.rounds.len(), 1);
    assert_eq!(result.winner, None);
    assert_eq!(result.total_ballots, 0);
    assert_eq!(result.exhausted_ballots, 0);
}

#[test]
fn test_seeded_draw_picks_within_tied_set() {
    // two candidates, one ballot each: every ladder rule ties, so the
    // seeded draw decides; the eliminated candidate must be one of the
    // two and the other wins
    let candidates = vec![cand(1, "A"), cand(2, "B")];
    let a = candidates[0].id;
    let b = candidates[1].id;
    let ballots = vec![ballot(1, vec![a]), ballot(2, vec![b])];
    let result = SingleWinnerRCV::new(candidates, ballots).tabulate().unwrap();
    let eliminated = result.rounds[0].eliminated().unwrap();
    let winner = result.winner.unwrap();
    assert!(eliminated == a || eliminated == b);
    assert!(winner == a || winner == b);
    assert_ne!(eliminated, winner);
    assert_eq!(result.rounds[0].tiebreak_reason, Some(TieBreakReason::Random));
}
