//! Poll results as the API boundary presents them: the poll status and
//! the final standing of every candidate, ordered by final-round votes.
//! Percentages are derived presentation and live outside the engine.

use vstd::prelude::*;

use crate::ids::Uid;
use crate::rcv::{Candidate, RcvResult, Round};
use crate::rcv_model::RoundModel;

verus! {

/// The lifecycle state a results response reports.
#[derive(Debug, Clone, Copy, PartialEq, Eq, Structural)]
pub enum PollStatus {
    NoVotes,
    InProgress,
    WinnerDeclared,
    Completed,
}

impl PollStatus {
    /// The wire form of the status.
    pub fn status_str(&self) -> (r: String)
        ensures
            *self is NoVotes ==> r@ == "no_votes"@,
            *self is InProgress ==> r@ == "in_progress"@,
            *self is WinnerDeclared ==> r@ == "winner_declared"@,
            *self is Completed ==> r@ == "completed"@,
    {
        match self {
            PollStatus::NoVotes => String::from_str("no_votes"),
            PollStatus::InProgress => String::from_str("in_progress"),
            PollStatus::WinnerDeclared => String::from_str("winner_declared"),
            PollStatus::Completed => String::from_str("completed"),
        }
    }
}

/// The status of a poll's results: no votes yet; completed once the poll
/// has closed; a declared winner while it is still open; else counting
/// continues.
pub open spec fn spec_poll_status(
    total_ballots: int,
    winner_present: bool,
    is_closed: bool,
) -> PollStatus {
    if total_ballots == 0 {
        PollStatus::NoVotes
    } else if is_closed {
        PollStatus::Completed
    } else if winner_present {
        PollStatus::WinnerDeclared
    } else {
        PollStatus::InProgress
    }
}

/// Compute the status from the ballot count, the winner flag and the
/// poll's closing time.
pub fn poll_status(total_ballots: usize, winner_present: bool, closes_at: Option<i64>, now: i64) -> (r:
    PollStatus)
    ensures
        r == spec_poll_status(
            total_ballots as int,
            winner_present,
            match closes_at {
                Some(c) => now > c,
                None => false,
            },
        ),
{
    let is_closed = match closes_at {
        Some(c) => now > c,
        None => false,
    };
    if total_ballots == 0 {
        PollStatus::NoVotes
    } else if is_closed {
        PollStatus::Completed
    } else if winner_present {
        PollStatus::WinnerDeclared
    } else {
        PollStatus::InProgress
    }
}

/// One row of the final standings.
#[derive(Debug)]
pub struct FinalRanking {
    /// 1-based position, best first.
    pub position: usize,
    pub candidate_id: Uid,
    pub name: String,
    /// Final-round vote total.
    pub votes: u64,
    /// The round in which the candidate was eliminated, if any.
    pub eliminated_round: Option<usize>,
}

/// The round number of the round that eliminated candidate index `ci`,
/// searching from round `j` on.
pub open spec fn elim_round_from(rounds: Seq<RoundModel>, ci: int, j: int) -> Option<int>
    decreases rounds.len() - j,
{
    if j < 0 || j >= rounds.len() {
        None
    } else if rounds[j].eliminated_ix == Some(ci) {
        Some(rounds[j].round_number)
    } else {
        elim_round_from(rounds, ci, j + 1)
    }
}

/// The round that eliminated candidate index `ci`, if any.
fn eliminated_round_of(rounds: &Vec<Round>, ci: usize) -> (r: Option<usize>)
    ensures
        match elim_round_from(rounds@.map_values(|rr: Round| rr@), ci as int, 0) {
            Some(n) => r is Some && r->Some_0 == n,
            None => r is None,
        },
{
    let ghost rm = rounds@.map_values(|rr: Round| rr@);
    let n = rounds.len();
    let mut j: usize = 0;
    while j < n
        invariant
            0 <= j <= n,
            n == rounds@.len(),
            rm == rounds@.map_values(|rr: Round| rr@),
            rm.len() == n,
            elim_round_from(rm, ci as int, 0) == elim_round_from(rm, ci as int, j as int),
        decreases n - j,
    {
        proof {
            assert(rm[j as int] == rounds@[j as int]@);
        }
        let hit = match rounds[j].eliminated_ix {
            Some(e) => e == ci,
            None => false,
        };
        if hit {
            assert(rm[j as int].eliminated_ix == Some(ci as int));
            return Some(rounds[j].round_number);
        }
        assert(rm[j as int].eliminated_ix != Some(ci as int));
        j += 1;
    }
    None
}

/// Descending order on the vote component.
pub open spec fn sorted_desc(s: Seq<(u64, usize)>) -> bool {
    forall|i: int, j: int| 0 <= i < j < s.len() ==> (#[trigger] s[i]).0 >= (#[trigger] s[j]).0
}

/// The row `f` reports some candidate faithfully: its identifier and
/// name, its final-round vote total, and the round that eliminated it.
pub open spec fn ranking_matches(
    cands: Seq<Candidate>,
    roundsm: Seq<RoundModel>,
    counts: Seq<u64>,
    f: FinalRanking,
) -> bool {
    exists|ci: int|
        0 <= ci < cands.len() && f.candidate_id == (#[trigger] cands[ci]).id && f.name@ == cands[
        ci].name@ && f.votes == counts[ci] && (match f.eliminated_round {
            Some(n) => elim_round_from(roundsm, ci, 0) == Some(n as int),
            None => elim_round_from(roundsm, ci, 0) is None,
        })
}

/// Candidate index `ci`'s final vote total appears among the rows.
pub open spec fn vote_total_represented(r: Seq<FinalRanking>, counts: Seq<u64>, ci: int) -> bool {
    exists|k: int| 0 <= k < r.len() && (#[trigger] r[k]).votes == counts[ci]
}

/// Sort (votes, candidate index) pairs by votes, highest first, keeping
/// exactly the same pairs.
fn sort_pairs_desc(src: &Vec<(u64, usize)>) -> (r: Vec<(u64, usize)>)
    ensures
        r@.to_multiset() == src@.to_multiset(),
        sorted_desc(r@),
        r@.len() == src@.len(),
{
    broadcast use vstd::seq_lib::group_to_multiset_ensures;

    let n = src.len();
    let mut out: Vec<(u64, usize)> = Vec::new();
    let mut i: usize = 0;
    proof {
        assert(src@.subrange(0, 0) =~= Seq::<(u64, usize)>::empty());
        assert(out@.to_multiset() =~= src@.subrange(0, 0).to_multiset());
    }
    while i < n
        invariant
            0 <= i <= n,
            n == src@.len(),
            out@.len() == i,
            out@.to_multiset() == src@.subrange(0, i as int).to_multiset(),
            sorted_desc(out@),
        decreases n - i,
    {
        broadcast use vstd::seq_lib::group_to_multiset_ensures;

        let x = src[i];
        let m = out.len();
        let mut j: usize = 0;
        while j < m
            invariant
                0 <= j <= m,
                m == out@.len(),
                forall|jj: int| 0 <= jj < j ==> (#[trigger] out@[jj]).0 >= x.0,
            ensures
                0 <= j <= m,
                m == out@.len(),
                forall|jj: int| 0 <= jj < j ==> (#[trigger] out@[jj]).0 >= x.0,
                j < m ==> out@[j as int].0 < x.0,
            decreases m - j,
        {
            if out[j].0 < x.0 {
                assert(out@[j as int].0 < x.0);
                break ;
            }
            assert(out@[j as int].0 >= x.0);
            j += 1;
        }
        let ghost out0 = out@;
        out.insert(j, x);
        proof {
            assert(out@ == out0.insert(j as int, x));
            vstd::seq_lib::to_multiset_insert(out0, j as int, x);
            assert(src@.subrange(0, i as int + 1) =~= src@.subrange(0, i as int).push(
                src@[i as int],
            ));
            assert(out@.to_multiset() =~= src@.subrange(0, i as int + 1).to_multiset());
            assert forall|a: int, b: int| 0 <= a < b < out@.len() implies (#[trigger] out@[a]).0
                >= (#[trigger] out@[b]).0 by {
                if b < j {
                    assert(out@[a] == out0[a] && out@[b] == out0[b]);
                } else if a < j && b == j {
                    assert(out@[a] == out0[a]);
                    assert(out@[b] == x);
                } else if a < j && b > j {
                    assert(out@[a] == out0[a] && out@[b] == out0[b - 1]);
                    if b - 1 > j {
                        assert(out0[j as int].0 >= out0[b - 1].0);
                    }
                    assert(out0[j as int].0 < x.0);
                    assert(out0[a].0 >= x.0);
                } else if a == j {
                    assert(out@[a] == x);
                    assert(out@[b] == out0[b - 1]);
                    assert(out0[j as int].0 < x.0);
                    if b - 1 > j {
                        assert(out0[j as int].0 >= out0[b - 1].0);
                    }
                } else {
                    assert(out@[a] == out0[a - 1] && out@[b] == out0[b - 1]);
                }
            }
        }
        i += 1;
    }
    proof {
        assert(src@.subrange(0, n as int) =~= src@);
    }
    out
}

/// The final standings: every candidate, ordered by final-round votes
/// (highest first), with 1-based positions and, for eliminated
/// candidates, the round that eliminated them.
pub fn final_rankings(result: &RcvResult, candidates: &Vec<Candidate>) -> (r: Vec<FinalRanking>)
    requires
        result.rounds@.len() > 0,
        result.rounds@.last().vote_counts@.len() == candidates@.len(),
    ensures
        r@.len() == candidates@.len(),
        forall|k: int| 0 <= k < r@.len() ==> (#[trigger] r@[k]).position == k + 1,
        forall|i: int, j: int|
            0 <= i < j < r@.len() ==> (#[trigger] r@[i]).votes >= (#[trigger] r@[j]).votes,
        forall|k: int|
            0 <= k < r@.len() ==> ranking_matches(
                candidates@,
                result.rounds@.map_values(|rr: Round| rr@),
                result.rounds@.last().vote_counts@,
                #[trigger] r@[k],
            ),
        forall|ci: int|
            0 <= ci < candidates@.len() ==> #[trigger] vote_total_represented(
                r@,
                result.rounds@.last().vote_counts@,
                ci,
            ),
{
    broadcast use vstd::seq_lib::group_to_multiset_ensures;

    let n = candidates.len();
    let last_ix = result.rounds.len() - 1;
    let mut pairs: Vec<(u64, usize)> = Vec::new();
    let mut ci: usize = 0;
    while ci < n
        invariant
            0 <= ci <= n,
            n == candidates@.len(),
            last_ix == result.rounds@.len() - 1,
            result.rounds@.len() > 0,
            result.rounds@.last().vote_counts@.len() == n,
            pairs@.len() == ci,
            forall|k: int|
                0 <= k < ci ==> #[trigger] pairs@[k] == (
                    result.rounds@.last().vote_counts@[k],
                    k as usize,
                ),
        decreases n - ci,
    {
        let votes = result.rounds[last_ix].vote_counts[ci];
        pairs.push((votes, ci));
        ci += 1;
    }
    let sorted = sort_pairs_desc(&pairs);
    proof {
        assert forall|kk: int| 0 <= kk < n implies 0 <= (#[trigger] sorted@[kk]).1 < n
            && sorted@[kk].0 == result.rounds@.last().vote_counts@[sorted@[kk].1 as int] by {
            let p = sorted@[kk];
            assert(sorted@.contains(p));
            assert(sorted@.to_multiset().count(p) > 0);
            assert(pairs@.to_multiset().count(p) > 0);
            assert(pairs@.contains(p));
            let idx = choose|idx: int| 0 <= idx < pairs@.len() && pairs@[idx] == p;
            assert(pairs@[idx] == (result.rounds@.last().vote_counts@[idx], idx as usize));
        }
    }
    let ghost rm = result.rounds@.map_values(|rr: Round| rr@);
    let mut out: Vec<FinalRanking> = Vec::new();
    let mut k: usize = 0;
    while k < n
        invariant
            0 <= k <= n,
            n == candidates@.len(),
            result.rounds@.len() > 0,
            result.rounds@.last().vote_counts@.len() == n,
            rm == result.rounds@.map_values(|rr: Round| rr@),
            sorted@.len() == n,
            sorted_desc(sorted@),
            forall|kk: int|
                0 <= kk < n ==> 0 <= (#[trigger] sorted@[kk]).1 < n && sorted@[kk].0
                    == result.rounds@.last().vote_counts@[sorted@[kk].1 as int],
            out@.len() == k,
            forall|kk: int| 0 <= kk < k ==> (#[trigger] out@[kk]).position == kk + 1,
            forall|kk: int| 0 <= kk < k ==> (#[trigger] out@[kk]).votes == sorted@[kk].0,
            forall|kk: int|
                0 <= kk < k ==> ranking_matches(
                    candidates@,
                    rm,
                    result.rounds@.last().vote_counts@,
                    #[trigger] out@[kk],
                ),
        decreases n - k,
    {
        let (votes, cand_ix) = sorted[k];
        let er = eliminated_round_of(&result.rounds, cand_ix);
        let f = FinalRanking {
            position: k + 1,
            candidate_id: candidates[cand_ix].id,
            name: candidates[cand_ix].name.clone(),
            votes,
            eliminated_round: er,
        };
        let ghost out0 = out@;
        out.push(f);
        proof {
            assert forall|kk: int| 0 <= kk < k + 1 implies ranking_matches(
                candidates@,
                rm,
                result.rounds@.last().vote_counts@,
                #[trigger] out@[kk],
            ) by {
                if kk < k {
                    assert(out@[kk] == out0[kk]);
                    assert(ranking_matches(
                        candidates@,
                        rm,
                        result.rounds@.last().vote_counts@,
                        out0[kk],
                    ));
                } else {
                    assert(out@[kk] == f);
                    let cc = cand_ix as int;
                    assert(f.candidate_id == candidates@[cc].id);
                    assert(f.votes == result.rounds@.last().vote_counts@[cc]);
                    assert(ranking_matches(
                        candidates@,
                        rm,
                        result.rounds@.last().vote_counts@,
                        f,
                    ));
                }
            }
        }
        k += 1;
    }
    proof {
        assert forall|cc: int| 0 <= cc < candidates@.len() implies #[trigger] vote_total_represented(
            out@,
            result.rounds@.last().vote_counts@,
            cc,
        ) by {
            let p = (result.rounds@.last().vote_counts@[cc], cc as usize);
            assert(pairs@[cc] == p);
            assert(pairs@.contains(p));
            assert(pairs@.to_multiset().count(p) > 0);
            assert(sorted@.to_multiset().count(p) > 0);
            assert(sorted@.contains(p));
            let kk = choose|kk: int| 0 <= kk < sorted@.len() && sorted@[kk] == p;
            assert(out@[kk].votes == sorted@[kk].0);
            assert(vote_total_represented(out@, result.rounds@.last().vote_counts@, cc));
        }
    }
    out
}

} // verus!
