//! The single-winner instant-runoff tabulation engine.
//!
//! `SingleWinnerRCV` consumes a candidate list and a ballot list and
//! produces the ordered rounds, the winner (if any) and the exhaustion
//! statistics.  Its contract states that the returned value equals the
//! mathematical model in `rcv_model`, so tabulation is deterministic and
//! invariant under any permutation of the ballots.

use vstd::prelude::*;

use crate::counting::{lemma_sum_by_push, lemma_sum_by_update, sum_by};
use crate::ids::Uid;
use crate::rcv_model::{choose_elimination, count_eq, counts_of, credit_of, credit_sum,
    credit_weight, exhausted_count, exhausted_weight, find_cand, find_winner, find_winner_from,
    first_active, first_choice_count, first_choice_weight, first_eq,
    lemma_choose_elimination_in_tied, lemma_find_cand, lemma_first_active_in_bounds,
    lemma_first_eq, lemma_tied_upto_members, min_active_upto, pick_unique_max, pick_unique_min,
    present_upto, round_counts_fn, seeded_choice, seq_max_upto, seq_min_upto, strategy_prior,
    strategy_prior_from, sum_int, tally, tied_upto, vote_weight, ResultModel, RoundModel};

verus! {

/// Relies on `rand::rngs::StdRng::seed_from_u64` and `Rng::gen_range`:
/// the generator is keyed by the seed alone, so the drawn index is a
/// function of the seed and the bound, and lies below the bound.  One
/// caveat: uniform `usize` sampling consumes native-width words, so the
/// drawn index is reproducible among targets of one pointer width but
/// may differ between 32-bit and 64-bit targets.
#[verifier::external_body]
fn seeded_index(seed: u64, bound: usize) -> (r: usize)
    requires
        bound > 0,
    ensures
        r == seeded_choice(seed, bound),
        r < bound,
{
    let mut rng = <rand::rngs::StdRng as rand::SeedableRng>::seed_from_u64(seed);
    rand::Rng::gen_range(&mut rng, 0..bound)
}

/// A voter's ordered preference list: candidate identifiers from most to
/// least preferred.
#[derive(Debug, Clone)]
pub struct Ballot {
    pub id: Uid,
    pub voter_id: Uid,
    pub rankings: Vec<Uid>,
}

/// A candidate as the tabulator sees it.
#[derive(Debug, Clone)]
pub struct Candidate {
    pub id: Uid,
    pub name: String,
}

/// How the seeded tie-break draw is keyed.
#[derive(Debug, Clone, Copy, PartialEq, Eq, Structural)]
pub enum TieBreakMethod {
    FirstChoiceVotes,
    PriorRoundPerformance,
    MostVotesToDistribute,
    Random(u64),
}

/// Which ladder rule decided an elimination.
#[derive(Debug, Clone, Copy, PartialEq, Eq, Structural)]
pub enum TieBreakReason {
    FirstChoiceVotes,
    PriorRoundPerformance,
    MostVotesToDistribute,
    Random,
}

/// Why a tabulation was refused.
#[derive(Debug, Clone, Copy, PartialEq, Eq, Structural)]
pub enum TabulationError {
    /// A ballot ranks an identifier that is not a candidate.
    InvalidCandidate(Uid),
    /// A ballot ranks the same candidate twice.
    DuplicateCandidate(Uid),
    /// Fewer than two candidates.
    InsufficientCandidates,
}

impl TabulationError {
    /// A short human-readable description of the error.
    pub fn message(&self) -> (r: String)
        ensures
            self is InvalidCandidate ==> r@ == "Invalid candidate ID in ballot"@,
            self is DuplicateCandidate ==> r@ == "Duplicate candidate ranking in ballot"@,
            self is InsufficientCandidates ==> r@ == "Need at least 2 candidates for RCV"@,
    {
        match self {
            TabulationError::InvalidCandidate(_) => String::from_str(
                "Invalid candidate ID in ballot",
            ),
            TabulationError::DuplicateCandidate(_) => String::from_str(
                "Duplicate candidate ranking in ballot",
            ),
            TabulationError::InsufficientCandidates => String::from_str(
                "Need at least 2 candidates for RCV",
            ),
        }
    }
}

/// One tabulation round.
#[derive(Debug, Clone)]
pub struct Round {
    /// 1-based round number.
    pub round_number: usize,
    /// The candidate identifiers, in the order of the tabulator's input.
    pub candidates: Vec<Uid>,
    /// Vote total per candidate, aligned with `candidates`; 0 for
    /// candidates eliminated before this round.
    pub vote_counts: Vec<u64>,
    /// Which candidates were still active while this round was tallied.
    pub active: Vec<bool>,
    /// The position in `candidates` eliminated this round, if any.
    pub eliminated_ix: Option<usize>,
    /// The position in `candidates` that reached a majority, if any.
    pub winner_ix: Option<usize>,
    /// Ballots whose every ranked candidate was already eliminated.
    pub exhausted_ballots: usize,
    /// Sum of all vote counts this round; the majority threshold is half
    /// of this.
    pub total_votes: u64,
    /// Which ladder rule decided the elimination, where one was needed.
    pub tiebreak_reason: Option<TieBreakReason>,
}

impl View for Round {
    type V = RoundModel;

    open spec fn view(&self) -> RoundModel {
        RoundModel {
            round_number: self.round_number as int,
            candidates: self.candidates@,
            counts: self.vote_counts@.map_values(|x: u64| x as int),
            active: self.active@,
            eliminated_ix: match self.eliminated_ix {
                Some(i) => Some(i as int),
                None => None,
            },
            winner_ix: match self.winner_ix {
                Some(i) => Some(i as int),
                None => None,
            },
            exhausted_ballots: self.exhausted_ballots as int,
            total_votes: self.total_votes as int,
            tiebreak_reason: self.tiebreak_reason,
        }
    }
}

impl Round {
    /// The vote total of the candidate with identifier `c` in this round
    /// (of its first occurrence, where identifiers repeat).
    pub fn votes_for(&self, c: &Uid) -> (r: u64)
        ensures
            r as int == match find_cand(self.candidates@, *c) {
                Some(i) => if i < self.vote_counts@.len() {
                    self.vote_counts@[i] as int
                } else {
                    0
                },
                None => 0,
            },
    {
        proof {
            lemma_find_cand(self.candidates@, *c);
        }
        let n = self.candidates.len();
        let mut i: usize = 0;
        while i < n
            invariant
                n == self.candidates@.len(),
                0 <= i <= n,
                forall|j: int| 0 <= j < i ==> self.candidates@[j] != *c,
                match find_cand(self.candidates@, *c) {
                    Some(k) => 0 <= k < n && self.candidates@[k] == *c && (forall|j: int|
                        0 <= j < k ==> self.candidates@[j] != *c),
                    None => forall|j: int| 0 <= j < n ==> self.candidates@[j] != *c,
                },
            decreases n - i,
        {
            if self.candidates[i].hi == c.hi && self.candidates[i].lo == c.lo {
                assert(self.candidates@[i as int] == *c);
                if i < self.vote_counts.len() {
                    return self.vote_counts[i];
                } else {
                    return 0;
                }
            }
            assert(self.candidates@[i as int] != *c);
            i += 1;
        }
        0
    }

    /// The candidate eliminated this round, if any.
    pub fn eliminated(&self) -> (r: Option<Uid>)
        ensures
            r == match self@.eliminated_ix {
                Some(i) => if 0 <= i < self.candidates@.len() {
                    Some(self.candidates@[i])
                } else {
                    None::<Uid>
                },
                None => None::<Uid>,
            },
    {
        match self.eliminated_ix {
            Some(i) => if i < self.candidates.len() {
                Some(self.candidates[i])
            } else {
                None
            },
            None => None,
        }
    }

    /// The candidate declared the majority winner this round, if any.
    pub fn winner(&self) -> (r: Option<Uid>)
        ensures
            r == match self@.winner_ix {
                Some(i) => if 0 <= i < self.candidates@.len() {
                    Some(self.candidates@[i])
                } else {
                    None::<Uid>
                },
                None => None::<Uid>,
            },
    {
        match self.winner_ix {
            Some(i) => if i < self.candidates.len() {
                Some(self.candidates[i])
            } else {
                None
            },
            None => None,
        }
    }
}

/// The ranking sequences of a list of ballots.
pub open spec fn rankings_of(bs: Seq<Ballot>) -> Seq<Seq<Uid>> {
    bs.map_values(|b: Ballot| b.rankings@)
}

/// A vector of counts as a sequence of integers.
pub open spec fn counts_int(v: Seq<u64>) -> Seq<int> {
    v.map_values(|x: u64| x as int)
}

/// The first validation error of ballot `b` at or after position `p`:
/// an identifier that is no candidate, or one ranked earlier on the same
/// ballot.
pub open spec fn ballot_error_from(cands: Seq<Uid>, b: Seq<Uid>, p: int) -> Option<TabulationError>
    decreases b.len() - p,
{
    if p < 0 || p >= b.len() {
        None
    } else if find_cand(cands, b[p]) is None {
        Some(TabulationError::InvalidCandidate(b[p]))
    } else if b.subrange(0, p).contains(b[p]) {
        Some(TabulationError::DuplicateCandidate(b[p]))
    } else {
        ballot_error_from(cands, b, p + 1)
    }
}

/// The first validation error over the ballots, scanned in order.
pub open spec fn ballots_error_from(
    cands: Seq<Uid>,
    ballots: Seq<Seq<Uid>>,
    k: int,
) -> Option<TabulationError>
    decreases ballots.len() - k,
{
    if k < 0 || k >= ballots.len() {
        None
    } else {
        match ballot_error_from(cands, ballots[k], 0) {
            Some(e) => Some(e),
            None => ballots_error_from(cands, ballots, k + 1),
        }
    }
}

/// What ballot validation reports: `None` when every ballot ranks only
/// known candidates and ranks none of them twice.
pub open spec fn spec_validate(cands: Seq<Uid>, ballots: Seq<Seq<Uid>>) -> Option<TabulationError> {
    ballots_error_from(cands, ballots, 0)
}

/// The index of the first candidate in `ids` equal to `id`.
fn find_uid(ids: &Vec<Uid>, id: &Uid) -> (r: Option<usize>)
    ensures
        match find_cand(ids@, *id) {
            Some(i) => r is Some && r->Some_0 == i,
            None => r is None,
        },
        r is Some ==> 0 <= r->Some_0 < ids@.len(),
{
    proof {
        lemma_find_cand(ids@, *id);
    }
    let n = ids.len();
    let mut i: usize = 0;
    while i < n
        invariant
            n == ids@.len(),
            0 <= i <= n,
            forall|j: int| 0 <= j < i ==> ids@[j] != *id,
            match find_cand(ids@, *id) {
                Some(k) => 0 <= k < n && ids@[k] == *id && (forall|j: int|
                    0 <= j < k ==> ids@[j] != *id),
                None => forall|j: int| 0 <= j < n ==> ids@[j] != *id,
            },
        decreases n - i,
    {
        if ids[i].hi == id.hi && ids[i].lo == id.lo {
            assert(ids@[i as int] == *id);
            return Some(i);
        }
        assert(ids@[i as int] != *id);
        i += 1;
    }
    None
}

/// The ballot's highest-ranked candidate that is still active, as an
/// index into `ids`: the vote the ballot casts this round.
fn first_active_vote(rankings: &Vec<Uid>, ids: &Vec<Uid>, active: &Vec<bool>) -> (r: Option<usize>)
    requires
        active@.len() == ids@.len(),
    ensures
        match first_active(rankings@, ids@, active@) {
            Some(i) => r is Some && r->Some_0 == i,
            None => r is None,
        },
        r is Some ==> r->Some_0 < ids@.len() && active@[r->Some_0 as int],
{
    let n = rankings.len();
    assert(rankings@.subrange(0, n as int) =~= rankings@);
    let mut p: usize = 0;
    while p < n
        invariant
            n == rankings@.len(),
            0 <= p <= n,
            active@.len() == ids@.len(),
            first_active(rankings@, ids@, active@) == first_active(
                rankings@.subrange(p as int, n as int),
                ids@,
                active@,
            ),
        decreases n - p,
    {
        let ghost suffix = rankings@.subrange(p as int, n as int);
        assert(suffix[0] == rankings@[p as int]);
        assert(suffix.drop_first() =~= rankings@.subrange(p as int + 1, n as int));
        match find_uid(ids, &rankings[p]) {
            Some(i) => {
                if active[i] {
                    assert(first_active(suffix, ids@, active@) == Some(i as int));
                    return Some(i);
                }
                assert(first_active(suffix, ids@, active@) == first_active(
                    suffix.drop_first(),
                    ids@,
                    active@,
                ));
            },
            None => {
                assert(first_active(suffix, ids@, active@) == first_active(
                    suffix.drop_first(),
                    ids@,
                    active@,
                ));
            },
        }
        p += 1;
    }
    assert(rankings@.subrange(n as int, n as int) =~= Seq::<Uid>::empty());
    None
}

/// A vector of candidate indices as a sequence of integers.
pub open spec fn idxs_int(v: Seq<usize>) -> Seq<int> {
    v.map_values(|x: usize| x as int)
}

/// Tally one round: each ballot's vote goes to its highest-ranked active
/// candidate, and a ballot whose every ranked candidate was eliminated
/// counts as exhausted.  Returns the per-candidate counts, their sum, and
/// the exhausted count; counts and exhausted always add up to the number
/// of ballots.
fn tally_round(ballots: &Vec<Ballot>, ids: &Vec<Uid>, active: &Vec<bool>) -> (r: (
    Vec<u64>,
    u64,
    usize,
))
    requires
        active@.len() == ids@.len(),
    ensures
        r.0@.len() == ids@.len(),
        counts_int(r.0@) == counts_of(ids@, active@, rankings_of(ballots@)),
        r.1 as int == sum_int(counts_int(r.0@)),
        r.2 as int == exhausted_count(ids@, active@, rankings_of(ballots@)),
        r.1 as int + r.2 as int == ballots@.len(),
        forall|i: int| 0 <= i < r.0@.len() && !active@[i] ==> r.0@[i] == 0,
{
    let n = ids.len();
    let nb = ballots.len();
    let ghost ranks = rankings_of(ballots@);
    let mut counts: Vec<u64> = Vec::new();
    let mut ci: usize = 0;
    while ci < n
        invariant
            0 <= ci <= n,
            counts@.len() == ci,
            forall|i: int| 0 <= i < ci ==> counts@[i] == 0,
        decreases n - ci,
    {
        counts.push(0);
        ci += 1;
    }
    let mut total: u64 = 0;
    let mut exhausted: usize = 0;
    let mut k: usize = 0;
    proof {
        assert(ranks.subrange(0, 0) =~= Seq::<Seq<Uid>>::empty());
        assert forall|i: int| 0 <= i < n implies counts@[i] as int == tally(
            ids@,
            active@,
            ranks.subrange(0, 0),
            i,
        ) by {}
        crate::rcv_model::lemma_sum_int_zero(counts_int(counts@));
    }
    while k < nb
        invariant
            0 <= k <= nb,
            nb == ballots@.len(),
            n == ids@.len() == active@.len(),
            counts@.len() == n,
            ranks == rankings_of(ballots@),
            ranks.len() == nb,
            forall|i: int| 0 <= i < n ==> counts@[i] as int == tally(
                ids@,
                active@,
                ranks.subrange(0, k as int),
                i,
            ),
            forall|i: int| 0 <= i < n ==> counts@[i] <= k,
            forall|i: int| 0 <= i < n && !active@[i] ==> counts@[i] == 0,
            total as int == sum_int(counts_int(counts@)),
            exhausted as int == exhausted_count(ids@, active@, ranks.subrange(0, k as int)),
            total as int + exhausted as int == k,
        decreases nb - k,
    {
        let ghost pre = ranks.subrange(0, k as int);
        let ghost pre2 = ranks.subrange(0, k as int + 1);
        let ghost b = ranks[k as int];
        proof {
            assert(pre2 =~= pre.push(b));
            assert(b == ballots@[k as int].rankings@);
        }
        match first_active_vote(&ballots[k].rankings, ids, active) {
            Some(i) => {
                let ghost old_counts = counts@;
                let c = counts[i];
                counts.set(i, c + 1);
                total = total + 1;
                proof {
                    assert forall|j: int| 0 <= j < n implies counts@[j] as int == tally(
                        ids@,
                        active@,
                        pre2,
                        j,
                    ) by {
                        lemma_sum_by_push(pre, vote_weight(ids@, active@, j), b);
                        if j == i {
                            assert(vote_weight(ids@, active@, j)(b) == 1);
                        } else {
                            assert(vote_weight(ids@, active@, j)(b) == 0);
                        }
                    }
                    assert(counts_int(counts@) =~= counts_int(old_counts).update(
                        i as int,
                        c as int + 1,
                    ));
                    lemma_sum_by_update(counts_int(old_counts), |x: int| x, i as int, c as int + 1);
                    lemma_sum_by_push(pre, exhausted_weight(ids@, active@), b);
                    assert(exhausted_weight(ids@, active@)(b) == 0);
                }
            },
            None => {
                exhausted = exhausted + 1;
                proof {
                    assert forall|j: int| 0 <= j < n implies counts@[j] as int == tally(
                        ids@,
                        active@,
                        pre2,
                        j,
                    ) by {
                        lemma_sum_by_push(pre, vote_weight(ids@, active@, j), b);
                        assert(vote_weight(ids@, active@, j)(b) == 0);
                    }
                    lemma_sum_by_push(pre, exhausted_weight(ids@, active@), b);
                    assert(exhausted_weight(ids@, active@)(b) == 1);
                }
            },
        }
        k += 1;
    }
    proof {
        assert(ranks.subrange(0, nb as int) =~= ranks);
        assert(counts_int(counts@) =~= counts_of(ids@, active@, ranks));
    }
    (counts, total, exhausted)
}

/// The first active candidate whose total exceeds half the active vote
/// total, if any: the round's majority winner.
fn find_winner_exec(counts: &Vec<u64>, active: &Vec<bool>, total: u64) -> (r: Option<usize>)
    requires
        counts@.len() == active@.len(),
    ensures
        match find_winner(counts_int(counts@), active@, total as int) {
            Some(i) => r is Some && r->Some_0 == i,
            None => r is None,
        },
        r is Some ==> r->Some_0 < counts@.len(),
{
    let n = counts.len();
    let ghost ci = counts_int(counts@);
    let mut i: usize = 0;
    while i < n
        invariant
            0 <= i <= n,
            n == counts@.len() == active@.len(),
            ci == counts_int(counts@),
            find_winner(ci, active@, total as int) == find_winner_from(
                ci,
                active@,
                total as int,
                i as int,
            ),
        decreases n - i,
    {
        if active[i] && (counts[i] as u128) * 2 > (total as u128) {
            assert(2 * ci[i as int] > total as int);
            return Some(i);
        }
        assert(!(active@[i as int] && 2 * ci[i as int] > total as int));
        i += 1;
    }
    None
}

/// The least vote total among active candidates, and the ascending list
/// of active candidate indices that attain it.
fn min_and_tied(counts: &Vec<u64>, active: &Vec<bool>) -> (r: (u64, Vec<usize>))
    requires
        counts@.len() == active@.len(),
        exists|i: int| 0 <= i < active@.len() && active@[i],
    ensures
        Some(r.0 as int) == min_active_upto(
            counts_int(counts@),
            active@,
            counts@.len() as int,
        ),
        idxs_int(r.1@) == tied_upto(
            counts_int(counts@),
            active@,
            r.0 as int,
            counts@.len() as int,
        ),
        r.1@.len() > 0,
        forall|j: int| 0 <= j < r.1@.len() ==> r.1@[j] < counts@.len() && active@[r.1@[j] as int],
{
    let n = counts.len();
    let ghost ci = counts_int(counts@);
    let mut best: Option<u64> = None;
    let mut i: usize = 0;
    while i < n
        invariant
            0 <= i <= n,
            n == counts@.len() == active@.len(),
            ci == counts_int(counts@),
            match best {
                Some(m) => Some(m as int) == min_active_upto(ci, active@, i as int),
                None => min_active_upto(ci, active@, i as int) is None,
            },
        decreases n - i,
    {
        if active[i] {
            best = match best {
                Some(m) => if counts[i] < m {
                    Some(counts[i])
                } else {
                    Some(m)
                },
                None => Some(counts[i]),
            };
        }
        i += 1;
    }
    proof {
        crate::rcv_model::lemma_min_active_some(ci, active@, n as int);
    }
    let m = match best {
        Some(m) => m,
        None => 0,  // unreachable: some candidate is active
    };
    let mut tied: Vec<usize> = Vec::new();
    let mut t: usize = 0;
    proof {
        assert(idxs_int(tied@) =~= tied_upto(ci, active@, m as int, 0));
    }
    while t < n
        invariant
            0 <= t <= n,
            n == counts@.len() == active@.len(),
            ci == counts_int(counts@),
            idxs_int(tied@) == tied_upto(ci, active@, m as int, t as int),
            forall|j: int| 0 <= j < tied@.len() ==> tied@[j] < n && active@[tied@[j] as int],
        decreases n - t,
    {
        if active[t] && counts[t] == m {
            tied.push(t);
            assert(idxs_int(tied@) =~= tied_upto(ci, active@, m as int, t as int + 1));
        } else {
            assert(idxs_int(tied@) =~= tied_upto(ci, active@, m as int, t as int + 1));
        }
        t += 1;
    }
    proof {
        crate::rcv_model::lemma_min_attained(ci, active@, n as int);
    }
    (m, tied)
}

/// A vector of tie-break tallies as a sequence of integers.
pub open spec fn vals_int(v: Seq<u128>) -> Seq<int> {
    v.map_values(|x: u128| x as int)
}

/// Whether `v` holds `x`.
fn contains_uid(v: &Vec<Uid>, x: &Uid) -> (r: bool)
    ensures
        r == v@.contains(*x),
{
    let n = v.len();
    let mut i: usize = 0;
    while i < n
        invariant
            0 <= i <= n,
            n == v@.len(),
            forall|j: int| 0 <= j < i ==> v@[j] != *x,
        decreases n - i,
    {
        if v[i].hi == x.hi && v[i].lo == x.lo {
            assert(v@[i as int] == *x);
            return true;
        }
        assert(v@[i as int] != *x);
        i += 1;
    }
    assert(forall|j: int| 0 <= j < v@.len() ==> v@[j] != *x);
    false
}

/// If `values` attains its minimum exactly once, the member of `tied` at
/// that position.
fn pick_unique_min_exec(vals: &Vec<u128>, tied: &Vec<usize>) -> (r: Option<usize>)
    requires
        vals@.len() == tied@.len(),
    ensures
        match pick_unique_min(vals_int(vals@), idxs_int(tied@)) {
            Some(t) => r is Some && r->Some_0 == t,
            None => r is None,
        },
{
    let n = vals.len();
    let ghost vi = vals_int(vals@);
    if n == 0 {
        return None;
    }
    let mut m: u128 = vals[0];
    let mut i: usize = 1;
    while i < n
        invariant
            1 <= i <= n,
            n == vals@.len(),
            vi == vals_int(vals@),
            m as int == seq_min_upto(vi, i as int),
        decreases n - i,
    {
        if vals[i] < m {
            m = vals[i];
        }
        i += 1;
    }
    let cnt = count_eq_exec(vals, m);
    if cnt == 1 {
        let mut j: usize = 0;
        while j < n
            invariant
                0 <= j <= n,
                n == vals@.len() == tied@.len(),
                vi == vals_int(vals@),
                m as int == seq_min_upto(vi, n as int),
                count_eq(vi, m as int) == 1,
                forall|q: int| 0 <= q < j ==> vi[q] != m as int,
            decreases n - j,
        {
            if vals[j] == m {
                proof {
                    lemma_first_eq(vi, m as int);
                    assert(vi[j as int] == m as int);
                    let k = first_eq(vi, m as int)->Some_0;
                    assert(k == j as int);
                }
                return Some(tied[j]);
            }
            assert(vi[j as int] != m as int);
            j += 1;
        }
        proof {
            crate::rcv_model::lemma_count_eq_none(vi, m as int);
        }
        None
    } else {
        None
    }
}

/// If `values` attains its maximum exactly once, the member of `tied` at
/// that position.
fn pick_unique_max_exec(vals: &Vec<u128>, tied: &Vec<usize>) -> (r: Option<usize>)
    requires
        vals@.len() == tied@.len(),
    ensures
        match pick_unique_max(vals_int(vals@), idxs_int(tied@)) {
            Some(t) => r is Some && r->Some_0 == t,
            None => r is None,
        },
{
    let n = vals.len();
    let ghost vi = vals_int(vals@);
    if n == 0 {
        return None;
    }
    let mut m: u128 = vals[0];
    let mut i: usize = 1;
    while i < n
        invariant
            1 <= i <= n,
            n == vals@.len(),
            vi == vals_int(vals@),
            m as int == seq_max_upto(vi, i as int),
        decreases n - i,
    {
        if vals[i] >= m {
            m = vals[i];
        }
        i += 1;
    }
    let cnt = count_eq_exec(vals, m);
    if cnt == 1 {
        let mut j: usize = 0;
        while j < n
            invariant
                0 <= j <= n,
                n == vals@.len() == tied@.len(),
                vi == vals_int(vals@),
                m as int == seq_max_upto(vi, n as int),
                count_eq(vi, m as int) == 1,
                forall|q: int| 0 <= q < j ==> vi[q] != m as int,
            decreases n - j,
        {
            if vals[j] == m {
                proof {
                    lemma_first_eq(vi, m as int);
                    assert(vi[j as int] == m as int);
                    let k = first_eq(vi, m as int)->Some_0;
                    assert(k == j as int);
                }
                return Some(tied[j]);
            }
            assert(vi[j as int] != m as int);
            j += 1;
        }
        proof {
            crate::rcv_model::lemma_count_eq_none(vi, m as int);
        }
        None
    } else {
        None
    }
}

/// How many entries of `vals` equal `m`.
fn count_eq_exec(vals: &Vec<u128>, m: u128) -> (r: usize)
    ensures
        r as int == count_eq(vals_int(vals@), m as int),
        r <= vals@.len(),
{
    let n = vals.len();
    let ghost vi = vals_int(vals@);
    let mut cnt: usize = 0;
    let mut i: usize = 0;
    proof {
        assert(vi.subrange(0, 0) =~= Seq::<int>::empty());
        crate::rcv_model::lemma_count_eq_none(vi.subrange(0, 0), m as int);
    }
    while i < n
        invariant
            0 <= i <= n,
            n == vals@.len(),
            vi == vals_int(vals@),
            cnt as int == count_eq(vi.subrange(0, i as int), m as int),
            cnt <= i,
        decreases n - i,
    {
        proof {
            assert(vi.subrange(0, i as int + 1) =~= vi.subrange(0, i as int).push(vi[i as int]));
            crate::rcv_model::lemma_count_eq_push(vi.subrange(0, i as int), m as int, vi[i as int]);
        }
        if vals[i] == m {
            cnt += 1;
        }
        i += 1;
    }
    proof {
        assert(vi.subrange(0, n as int) =~= vi);
    }
    cnt
}

/// First-preference vote totals for each tied candidate, across all
/// ballots and ignoring eliminations.
fn fc_values_exec(ballots: &Vec<Ballot>, ids: &Vec<Uid>, tied: &Vec<usize>) -> (r: Vec<u128>)
    requires
        forall|j: int| 0 <= j < tied@.len() ==> tied@[j] < ids@.len(),
    ensures
        vals_int(r@) == idxs_int(tied@).map_values(
            |t: int| first_choice_count(rankings_of(ballots@), ids@[t]),
        ),
{
    let ghost ranks = rankings_of(ballots@);
    let ghost target = idxs_int(tied@).map_values(|t: int| first_choice_count(ranks, ids@[t]));
    let nt = tied.len();
    let nb = ballots.len();
    let mut vals: Vec<u128> = Vec::new();
    let mut j: usize = 0;
    while j < nt
        invariant
            0 <= j <= nt,
            nt == tied@.len(),
            nb == ballots@.len(),
            ranks == rankings_of(ballots@),
            ranks.len() == nb,
            forall|q: int| 0 <= q < nt ==> tied@[q] < ids@.len(),
            target == idxs_int(tied@).map_values(|t: int| first_choice_count(ranks, ids@[t])),
            target.len() == nt,
            vals@.len() == j,
            forall|q: int| 0 <= q < j ==> vals_int(vals@)[q] == target[q],
        decreases nt - j,
    {
        let id = ids[tied[j]];
        let ghost w = first_choice_weight(id);
        let mut cnt: u64 = 0;
        let mut k: usize = 0;
        proof {
            assert(ranks.subrange(0, 0) =~= Seq::<Seq<Uid>>::empty());
        }
        while k < nb
            invariant
                0 <= k <= nb,
                nb == ballots@.len(),
                ranks == rankings_of(ballots@),
                ranks.len() == nb,
                w == first_choice_weight(id),
                cnt as int == sum_by(ranks.subrange(0, k as int), w),
                cnt <= k,
            decreases nb - k,
        {
            proof {
                assert(ranks.subrange(0, k as int + 1) =~= ranks.subrange(0, k as int).push(
                    ranks[k as int],
                ));
                lemma_sum_by_push(ranks.subrange(0, k as int), w, ranks[k as int]);
                assert(ranks[k as int] == ballots@[k as int].rankings@);
            }
            let bk = &ballots[k].rankings;
            if bk.len() > 0 && bk[0].hi == id.hi && bk[0].lo == id.lo {
                assert(bk@[0] == id);
                assert(w(ranks[k as int]) == 1);
                cnt += 1;
            } else {
                assert(w(ranks[k as int]) == 0);
            }
            k += 1;
        }
        proof {
            assert(ranks.subrange(0, nb as int) =~= ranks);
            assert(target[j as int] == first_choice_count(ranks, ids@[tied@[j as int] as int]));
            assert(ids@[tied@[j as int] as int] == id);
        }
        vals.push(cnt as u128);
        j += 1;
    }
    proof {
        assert(vals_int(vals@) =~= target);
    }
    vals
}

/// The residual preferences a ballot would transfer past its earliest
/// tied candidate, credited to that candidate.
fn credit_exec(b: &Vec<Uid>, tids: &Vec<Uid>, id: &Uid) -> (r: usize)
    ensures
        r as int == credit_of(b@, tids@, *id),
{
    let n = b.len();
    assert(b@.subrange(0, n as int) =~= b@);
    let mut p: usize = 0;
    while p < n
        invariant
            0 <= p <= n,
            n == b@.len(),
            credit_of(b@, tids@, *id) == credit_of(b@.subrange(p as int, n as int), tids@, *id),
        decreases n - p,
    {
        let ghost suffix = b@.subrange(p as int, n as int);
        assert(suffix[0] == b@[p as int]);
        assert(suffix.drop_first() =~= b@.subrange(p as int + 1, n as int));
        if contains_uid(tids, &b[p]) {
            if b[p].hi == id.hi && b[p].lo == id.lo {
                assert(b@[p as int] == *id);
                assert(credit_of(suffix, tids@, *id) == suffix.len() - 1);
                return n - p - 1;
            } else {
                assert(b@[p as int] != *id);
                assert(credit_of(suffix, tids@, *id) == 0);
                return 0;
            }
        }
        p += 1;
    }
    assert(b@.subrange(n as int, n as int) =~= Seq::<Uid>::empty());
    0
}

/// Residual-preference totals for each tied candidate.
fn credit_values_exec(ballots: &Vec<Ballot>, ids: &Vec<Uid>, tied: &Vec<usize>) -> (r: Vec<u128>)
    requires
        forall|j: int| 0 <= j < tied@.len() ==> tied@[j] < ids@.len(),
    ensures
        ({
            let tied_ids = idxs_int(tied@).map_values(|t: int| ids@[t]);
            vals_int(r@) == idxs_int(tied@).map_values(
                |t: int| credit_sum(rankings_of(ballots@), tied_ids, ids@[t]),
            )
        }),
{
    let ghost ranks = rankings_of(ballots@);
    let nt = tied.len();
    let nb = ballots.len();
    let mut tids: Vec<Uid> = Vec::new();
    let mut j: usize = 0;
    while j < nt
        invariant
            0 <= j <= nt,
            nt == tied@.len(),
            forall|q: int| 0 <= q < nt ==> tied@[q] < ids@.len(),
            tids@ =~= idxs_int(tied@).map_values(|t: int| ids@[t]).subrange(0, j as int),
        decreases nt - j,
    {
        tids.push(ids[tied[j]]);
        j += 1;
    }
    let ghost tied_ids = idxs_int(tied@).map_values(|t: int| ids@[t]);
    proof {
        assert(tids@ =~= tied_ids);
    }
    let ghost target = idxs_int(tied@).map_values(|t: int| credit_sum(ranks, tied_ids, ids@[t]));
    let mut vals: Vec<u128> = Vec::new();
    let mut j: usize = 0;
    while j < nt
        invariant
            0 <= j <= nt,
            nt == tied@.len(),
            nb == ballots@.len(),
            ranks == rankings_of(ballots@),
            ranks.len() == nb,
            forall|q: int| 0 <= q < nt ==> tied@[q] < ids@.len(),
            tids@ == tied_ids,
            target == idxs_int(tied@).map_values(|t: int| credit_sum(ranks, tied_ids, ids@[t])),
            target.len() == nt,
            vals@.len() == j,
            forall|q: int| 0 <= q < j ==> vals_int(vals@)[q] == target[q],
        decreases nt - j,
    {
        let id = ids[tied[j]];
        let ghost w = credit_weight(tied_ids, id);
        let mut acc: u128 = 0;
        let mut k: usize = 0;
        proof {
            assert(ranks.subrange(0, 0) =~= Seq::<Seq<Uid>>::empty());
        }
        while k < nb
            invariant
                0 <= k <= nb,
                nb == ballots@.len(),
                ranks == rankings_of(ballots@),
                ranks.len() == nb,
                tids@ == tied_ids,
                w == credit_weight(tied_ids, id),
                acc as int == sum_by(ranks.subrange(0, k as int), w),
                acc as int <= k as int * 0xffff_ffff_ffff_ffffu64 as int,
            decreases nb - k,
        {
            proof {
                assert(ranks.subrange(0, k as int + 1) =~= ranks.subrange(0, k as int).push(
                    ranks[k as int],
                ));
                lemma_sum_by_push(ranks.subrange(0, k as int), w, ranks[k as int]);
                assert(ranks[k as int] == ballots@[k as int].rankings@);
            }
            let c = credit_exec(&ballots[k].rankings, &tids, &id);
            proof {
                assert(w(ranks[k as int]) == c as int);
                let m: int = 0xffff_ffff_ffff_ffffu64 as int;
                assert(c as int <= m);
                assert(k as int * m + m == (k as int + 1) * m) by (nonlinear_arith);
                assert((k as int + 1) * m <= m * m + m) by (nonlinear_arith)
                    requires 0 <= k as int + 1 <= m + 1 && m >= 0;
                assert(m * m + m <= u128::MAX as int);
            }
            acc = acc + (c as u128);
            k += 1;
        }
        proof {
            assert(ranks.subrange(0, nb as int) =~= ranks);
            assert(target[j as int] == credit_sum(ranks, tied_ids, ids@[tied@[j as int] as int]));
            assert(ids@[tied@[j as int] as int] == id);
        }
        vals.push(acc);
        j += 1;
    }
    proof {
        assert(vals_int(vals@) =~= target);
    }
    vals
}

/// A complete tabulation outcome.
#[derive(Debug, Clone)]
pub struct RcvResult {
    pub rounds: Vec<Round>,
    pub winner: Option<Uid>,
    pub total_ballots: usize,
    pub exhausted_ballots: usize,
}

impl View for RcvResult {
    type V = ResultModel;

    open spec fn view(&self) -> ResultModel {
        ResultModel {
            rounds: self.rounds@.map_values(|r: Round| r@),
            winner: self.winner,
            total_ballots: self.total_ballots as int,
            exhausted_ballots: self.exhausted_ballots as int,
        }
    }
}

/// Ladder rule 2 executor: walking earlier rounds most recent first, find
/// the tied candidate with the unique lowest tally in the most recent
/// round where two or more tied candidates were active.
fn strategy_prior_exec(tied: &Vec<usize>, rounds: &Vec<Round>, n: usize) -> (r: Option<usize>)
    requires
        forall|q: int|
            0 <= q < rounds@.len() ==> (#[trigger] rounds@[q]).active@.len() == n
                && rounds@[q].vote_counts@.len() == n,
        forall|j: int| 0 <= j < tied@.len() ==> tied@[j] < n,
    ensures
        ({
            let prior = rounds@.map_values(|rr: Round| rr@);
            match strategy_prior(idxs_int(tied@), prior) {
                Some(t) => r is Some && r->Some_0 == t,
                None => r is None,
            }
        }),
{
    let ghost prior = rounds@.map_values(|rr: Round| rr@);
    let ghost tm = idxs_int(tied@);
    let nr = rounds.len();
    let nt = tied.len();
    let mut j: usize = nr;
    while j > 0
        invariant
            0 <= j <= nr,
            nr == rounds@.len(),
            nt == tied@.len(),
            prior == rounds@.map_values(|rr: Round| rr@),
            prior.len() == nr,
            tm == idxs_int(tied@),
            forall|q: int|
                0 <= q < nr ==> (#[trigger] rounds@[q]).active@.len() == n
                    && rounds@[q].vote_counts@.len() == n,
            forall|q: int| 0 <= q < nt ==> tied@[q] < n,
            strategy_prior(tm, prior) == strategy_prior_from(tm, prior, j as int - 1),
        decreases j,
    {
        j -= 1;
        let ghost rm = prior[j as int];
        proof {
            assert(rm == rounds@[j as int]@);
        }
        let mut s: Vec<usize> = Vec::new();
        let mut votes: Vec<u128> = Vec::new();
        let mut mm: usize = 0;
        proof {
            assert(idxs_int(s@) =~= present_upto(tm, rm, 0));
            assert(vals_int(votes@) =~= idxs_int(s@).map_values(round_counts_fn(rm)));
        }
        while mm < nt
            invariant
                0 <= mm <= nt,
                0 <= j < nr,
                nr == rounds@.len(),
                nt == tied@.len(),
                prior == rounds@.map_values(|rr: Round| rr@),
                prior.len() == nr,
                tm == idxs_int(tied@),
                rm == prior[j as int],
                rm == rounds@[j as int]@,
                forall|q: int|
                    0 <= q < nr ==> (#[trigger] rounds@[q]).active@.len() == n
                        && rounds@[q].vote_counts@.len() == n,
                forall|q: int| 0 <= q < nt ==> tied@[q] < n,
                idxs_int(s@) == present_upto(tm, rm, mm as int),
                vals_int(votes@) == idxs_int(s@).map_values(round_counts_fn(rm)),
                votes@.len() == s@.len(),
            decreases nt - mm,
        {
            assert(tm[mm as int] == tied@[mm as int] as int);
            let ghost s0 = s@;
            let ghost v0 = votes@;
            if rounds[j].active[tied[mm]] {
                assert(rm.active[tm[mm as int]]);
                s.push(tied[mm]);
                votes.push(rounds[j].vote_counts[tied[mm]] as u128);
                proof {
                    assert(idxs_int(s@) =~= present_upto(tm, rm, mm as int + 1));
                    assert(rm.counts[tm[mm as int]] == rounds@[j as int].vote_counts@[
                        tied@[mm as int] as int] as int);
                    let f = round_counts_fn(rm);
                    assert forall|q: int| 0 <= q < votes@.len() implies vals_int(votes@)[q]
                        == idxs_int(s@).map_values(f)[q] by {
                        if q < v0.len() {
                            assert(vals_int(v0)[q] == idxs_int(s0).map_values(f)[q]);
                            assert(idxs_int(s0).map_values(f)[q] == f(idxs_int(s0)[q]));
                            assert(idxs_int(s@)[q] == idxs_int(s0)[q]);
                            assert(idxs_int(s@).map_values(f)[q] == f(idxs_int(s@)[q]));
                            assert(vals_int(votes@)[q] == vals_int(v0)[q]);
                        } else {
                            assert(q == votes@.len() - 1);
                            assert(idxs_int(s@)[q] == tm[mm as int]);
                            assert(idxs_int(s@).map_values(f)[q] == f(tm[mm as int]));
                        }
                    }
                    assert(vals_int(votes@) =~= idxs_int(s@).map_values(f));
                }
            } else {
                proof {
                    assert(!rm.active[tm[mm as int]]);
                    assert(idxs_int(s@) =~= present_upto(tm, rm, mm as int + 1));
                }
            }
            mm += 1;
        }
        let ghost sm = idxs_int(s@);
        let ghost vm = vals_int(votes@);
        proof {
            assert(sm == present_upto(tm, rm, nt as int));
        }
        if s.len() > 1 {
            match pick_unique_min_exec(&votes, &s) {
                Some(t) => {
                    assert(strategy_prior_from(tm, prior, j as int) == pick_unique_min(vm, sm));
                    return Some(t);
                },
                None => {
                    assert(strategy_prior_from(tm, prior, j as int) == strategy_prior_from(
                        tm,
                        prior,
                        j as int - 1,
                    ));
                },
            }
        } else {
            assert(strategy_prior_from(tm, prior, j as int) == strategy_prior_from(
                tm,
                prior,
                j as int - 1,
            ));
        }
    }
    None
}

/// Choose the candidate to eliminate in a round with no winner: the one
/// with the fewest votes, ties resolved by the deterministic ladder.
/// Returns the candidate index and the ladder rule used, if any.
fn choose_elim_exec(
    ballots: &Vec<Ballot>,
    ids: &Vec<Uid>,
    counts: &Vec<u64>,
    active: &Vec<bool>,
    rounds: &Vec<Round>,
    seed: u64,
) -> (r: (usize, Option<TieBreakReason>))
    requires
        counts@.len() == ids@.len(),
        active@.len() == ids@.len(),
        exists|i: int| 0 <= i < active@.len() && active@[i],
        forall|q: int|
            0 <= q < rounds@.len() ==> (#[trigger] rounds@[q]).active@.len() == ids@.len()
                && rounds@[q].vote_counts@.len() == ids@.len(),
    ensures
        ({
            let prior = rounds@.map_values(|rr: Round| rr@);
            let m = choose_elimination(
                ids@,
                rankings_of(ballots@),
                counts_int(counts@),
                active@,
                prior,
                seed,
            );
            r.0 == m.0 && r.1 == m.1
        }),
        r.0 < ids@.len(),
        active@[r.0 as int],
{
    let ghost prior = rounds@.map_values(|rr: Round| rr@);
    let ghost ci = counts_int(counts@);
    let ghost ranks = rankings_of(ballots@);
    let n = ids.len();
    let (m, tied) = min_and_tied(counts, active);
    let ghost tm = idxs_int(tied@);
    proof {
        lemma_tied_upto_members(ci, active@, m as int, n as int);
    }
    let out = if tied.len() == 1 {
        (tied[0], None)
    } else {
        match pick_unique_min_exec(&fc_values_exec(ballots, ids, &tied), &tied) {
            Some(t) => (t, Some(TieBreakReason::FirstChoiceVotes)),
            None => match strategy_prior_exec(&tied, rounds, n) {
                Some(t) => (t, Some(TieBreakReason::PriorRoundPerformance)),
                None => match pick_unique_max_exec(&credit_values_exec(ballots, ids, &tied), &tied) {
                    Some(t) => (t, Some(TieBreakReason::MostVotesToDistribute)),
                    None => {
                        let k = seeded_index(seed, tied.len());
                        (tied[k], Some(TieBreakReason::Random))
                    },
                },
            },
        }
    };
    proof {
        lemma_choose_elimination_in_tied(ids@, ranks, ci, active@, prior, seed);
        let e = choose_elimination(ids@, ranks, ci, active@, prior, seed).0;
        let k = choose|k: int| 0 <= k < tm.len() && tm[k] == e;
        assert(tied@[k] as int == e);
    }
    out
}

/// The single-winner instant-runoff engine.
pub struct SingleWinnerRCV {
    pub candidates: Vec<Candidate>,
    pub ballots: Vec<Ballot>,
    pub tie_break_method: TieBreakMethod,
}

impl SingleWinnerRCV {
    /// The candidate identifiers, in input order.
    pub open spec fn cand_ids(&self) -> Seq<Uid> {
        self.candidates@.map_values(|c: Candidate| c.id)
    }

    /// The ballots as ranking sequences, in input order.
    pub open spec fn ballot_ranks(&self) -> Seq<Seq<Uid>> {
        rankings_of(self.ballots@)
    }

    /// The seed that keys the final tie-break rule.
    pub open spec fn seed(&self) -> u64 {
        match self.tie_break_method {
            TieBreakMethod::Random(s) => s,
            _ => 42,
        }
    }

    pub fn new(candidates: Vec<Candidate>, ballots: Vec<Ballot>) -> (r: SingleWinnerRCV)
        ensures
            r.candidates == candidates,
            r.ballots == ballots,
            r.tie_break_method == TieBreakMethod::Random(42u64),
            r.seed() == 42,
    {
        SingleWinnerRCV { candidates, ballots, tie_break_method: TieBreakMethod::Random(42) }
    }

    pub fn with_tie_break_method(self, method: TieBreakMethod) -> (r: SingleWinnerRCV)
        ensures
            r.candidates == self.candidates,
            r.ballots == self.ballots,
            r.tie_break_method == method,
    {
        SingleWinnerRCV { tie_break_method: method, ..self }
    }

    /// Check every ballot before tabulation: each ranked identifier must
    /// be a candidate and none may repeat within a ballot.  Reports the
    /// first violation, scanning ballots in order and each ballot front
    /// to back.
    pub fn validate_ballots(&self) -> (r: Result<(), TabulationError>)
        ensures
            r is Ok <==> spec_validate(self.cand_ids(), self.ballot_ranks()) is None,
            r is Err ==> Some(r->Err_0) == spec_validate(self.cand_ids(), self.ballot_ranks()),
    {
        let ghost cands = self.cand_ids();
        let ghost all = self.ballot_ranks();
        let mut ids: Vec<Uid> = Vec::new();
        let mut ci: usize = 0;
        while ci < self.candidates.len()
            invariant
                0 <= ci <= self.candidates@.len(),
                ids@ =~= self.cand_ids().subrange(0, ci as int),
            decreases self.candidates@.len() - ci,
        {
            ids.push(self.candidates[ci].id);
            ci += 1;
        }
        assert(ids@ =~= cands);

        let nb = self.ballots.len();
        let mut k: usize = 0;
        while k < nb
            invariant
                0 <= k <= nb,
                nb == self.ballots@.len(),
                ids@ == cands,
                cands == self.cand_ids(),
                all == self.ballot_ranks(),
                all.len() == nb,
                ballots_error_from(cands, all, 0) == ballots_error_from(cands, all, k as int),
            decreases nb - k,
        {
            assert(all[k as int] == self.ballots@[k as int].rankings@);
            match check_ballot(&ids, &self.ballots[k].rankings) {
                Ok(()) => {},
                Err(e) => {
                    assert(ballots_error_from(cands, all, k as int) == Some(e));
                    return Err(e);
                },
            }
            k += 1;
        }
        assert(spec_validate(cands, all) is None);
        Ok(())
    }

    /// Perform the instant-runoff tabulation.
    ///
    /// On valid input — every ranked identifier a candidate, none ranked
    /// twice on one ballot, at least two candidates — the result equals
    /// the mathematical model `spec_tabulate`: rounds proceed tally,
    /// majority check, elimination by fewest votes with the deterministic
    /// tie-break ladder.  The result is therefore deterministic and
    /// invariant under permutation of the ballots.  At most one round per
    /// candidate is produced, every round's vote counts and exhausted
    /// ballots add up to the number of ballots, and a candidate
    /// eliminated in one round has zero votes in every later round.
    pub fn tabulate(&self) -> (r: Result<RcvResult, TabulationError>)
        ensures
            r is Ok <==> (spec_validate(self.cand_ids(), self.ballot_ranks()) is None
                && self.candidates@.len() >= 2),
            r is Err ==> r->Err_0 == (match spec_validate(self.cand_ids(), self.ballot_ranks()) {
                Some(e) => e,
                None => TabulationError::InsufficientCandidates,
            }),
            r is Ok ==> r->Ok_0@ == crate::rcv_model::spec_tabulate(
                self.cand_ids(),
                self.ballot_ranks(),
                self.seed(),
            ),
            r is Ok ==> 1 <= r->Ok_0.rounds@.len() <= self.candidates@.len(),
            r is Ok ==> forall|k: int|
                0 <= k < r->Ok_0.rounds@.len() ==> sum_int((#[trigger] r->Ok_0.rounds@[k])@.counts)
                    + r->Ok_0.rounds@[k]@.exhausted_ballots == self.ballots@.len(),
            r is Ok ==> forall|k: int, j: int|
                0 <= k < j < r->Ok_0.rounds@.len() && (#[trigger] r->Ok_0.rounds@[k])@.eliminated_ix
                    is Some ==> (#[trigger] r->Ok_0.rounds@[j])@.counts[r->Ok_0.rounds@[
                    k]@.eliminated_ix->Some_0] == 0,
    {
        match self.validate_ballots() {
            Ok(()) => {},
            Err(e) => {
                return Err(e);
            },
        }
        if self.candidates.len() < 2 {
            return Err(TabulationError::InsufficientCandidates);
        }

        let ghost cands = self.cand_ids();
        let ghost ranks = self.ballot_ranks();
        let seed_val = match self.tie_break_method {
            TieBreakMethod::Random(s) => s,
            _ => 42,
        };
        let ghost target = crate::rcv_model::spec_rounds(
            cands,
            ranks,
            Seq::new(cands.len(), |i: int| true),
            1,
            Seq::empty(),
            seed_val,
        );

        let n = self.candidates.len();
        let nb = self.ballots.len();
        let mut ids: Vec<Uid> = Vec::new();
        let mut ci: usize = 0;
        while ci < n
            invariant
                0 <= ci <= n,
                n == self.candidates@.len(),
                ids@ =~= self.cand_ids().subrange(0, ci as int),
            decreases n - ci,
        {
            ids.push(self.candidates[ci].id);
            ci += 1;
        }
        assert(ids@ =~= cands);

        let mut active: Vec<bool> = Vec::new();
        let mut ai: usize = 0;
        while ai < n
            invariant
                0 <= ai <= n,
                active@.len() == ai,
                forall|i: int| 0 <= i < ai ==> active@[i],
            decreases n - ai,
        {
            active.push(true);
            ai += 1;
        }
        proof {
            crate::rcv_model::lemma_count_true_all(active@);
            assert(active@ =~= Seq::new(cands.len(), |i: int| true));
        }

        let mut rounds: Vec<Round> = Vec::new();
        let mut remaining: usize = n;
        let mut round_no: usize = 1;
        proof {
            assert(rounds@.map_values(|rr: Round| rr@) =~= Seq::<RoundModel>::empty());
        }
        while remaining >= 2
            invariant_except_break
                2 <= remaining,
                1 <= round_no,
                rounds@.len() == round_no - 1,
                rounds@.len() as int == n - remaining,
                target == crate::rcv_model::spec_rounds(
                    cands,
                    ranks,
                    active@,
                    round_no as int,
                    rounds@.map_values(|rr: Round| rr@),
                    seed_val,
                ),
            invariant
                n == self.candidates@.len() >= 2,
                nb == self.ballots@.len(),
                cands == self.cand_ids(),
                ranks == self.ballot_ranks(),
                seed_val == self.seed(),
                ids@ == cands,
                ids@.len() == n,
                active@.len() == n,
                remaining as int == crate::rcv_model::count_true(active@),
                1 <= remaining <= n,
                forall|q: int|
                    0 <= q < rounds@.len() ==> {
                        let rv = #[trigger] rounds@[q];
                        rv.active@.len() == n && rv.vote_counts@.len() == n
                            && rv.candidates@.len() == n && (rv@.eliminated_ix is Some
                            ==> 0 <= rv@.eliminated_ix->Some_0 < n && !active@[
                            rv@.eliminated_ix->Some_0]) && (rv@.winner_ix is Some
                            ==> 0 <= rv@.winner_ix->Some_0 < n)
                    },
                forall|q: int, i: int|
                    #![trigger rounds@[q]@.active[i]]
                    0 <= q < rounds@.len() && 0 <= i < n && !rounds@[q]@.active[i]
                        ==> rounds@[q]@.counts[i] == 0,
                forall|q: int, j: int|
                    0 <= q < j < rounds@.len() && (#[trigger] rounds@[q])@.eliminated_ix is Some
                        ==> !(#[trigger] rounds@[j])@.active[rounds@[q]@.eliminated_ix->Some_0],
                forall|q: int|
                    0 <= q < rounds@.len() ==> sum_int((#[trigger] rounds@[q])@.counts)
                        + rounds@[q]@.exhausted_ballots == nb,
            ensures
                1 <= rounds@.len() <= n - 1,
                target == rounds@.map_values(|rr: Round| rr@),
                ({
                    let lastm = rounds@.map_values(|rr: Round| rr@).last();
                    &&& (lastm.eliminated_ix is None ==> active@ == lastm.active && remaining >= 2)
                    &&& (lastm.eliminated_ix is Some ==> active@ == lastm.active.update(
                        lastm.eliminated_ix->Some_0,
                        false,
                    ) && remaining == 1)
                }),
            decreases remaining,
        {
            let ghost prior = rounds@.map_values(|rr: Round| rr@);
            let (counts, total, exhausted) = tally_round(&self.ballots, &ids, &active);
            let winner_ix = find_winner_exec(&counts, &active, total);
            let mut elim: Option<usize> = None;
            let mut reason: Option<TieBreakReason> = None;
            if winner_ix.is_none() && total > 0 {
                proof {
                    crate::rcv_model::lemma_count_true_pos(active@);
                }
                let (e, why) = choose_elim_exec(&self.ballots, &ids, &counts, &active, &rounds,
                    seed_val);
                elim = Some(e);
                reason = why;
            }
            let round = Round {
                round_number: round_no,
                candidates: copy_uids(&ids),
                vote_counts: counts,
                active: copy_bools(&active),
                eliminated_ix: elim,
                winner_ix,
                exhausted_ballots: exhausted,
                total_votes: total,
                tiebreak_reason: reason,
            };
            let ghost rm = crate::rcv_model::round_model(
                cands,
                ranks,
                active@,
                round_no as int,
                prior,
                seed_val,
            );
            proof {
                assert(round@ == rm);
            }
            rounds.push(round);
            proof {
                assert(rounds@.map_values(|rr: Round| rr@) =~= prior.push(rm));
            }
            match elim {
                None => {
                    break ;
                },
                Some(e) => {
                    let ghost active0 = active@;
                    active.set(e, false);
                    proof {
                        crate::rcv_model::lemma_count_true_update_false(active0, e as int);
                    }
                    remaining = remaining - 1;
                    if remaining <= 1 {
                        break ;
                    }
                    round_no = round_no + 1;
                },
            }
        }

        let ghost final_rounds = rounds@.map_values(|rr: Round| rr@);
        let ghost lastm = final_rounds.last();
        let nr = rounds.len();
        let last_winner_ix = rounds[nr - 1].winner_ix;
        let last_exhausted = rounds[nr - 1].exhausted_ballots;
        proof {
            assert(rounds@[nr - 1]@ == lastm);
        }
        let winner: Option<Uid> = match last_winner_ix {
            Some(i) => Some(ids[i]),
            None => {
                if remaining == 1 {
                    proof {
                        crate::rcv_model::lemma_count_true_pos(active@);
                        crate::rcv_model::lemma_first_true(active@);
                        if crate::rcv_model::first_true(active@) is None {
                            crate::rcv_model::lemma_count_true_none(active@);
                        }
                    }
                    match first_true_index(&active) {
                        Some(i) => Some(ids[i]),
                        None => None,  // unreachable: one candidate is active
                    }
                } else {
                    None
                }
            },
        };
        proof {
            assert(winner == crate::rcv_model::final_winner(cands, final_rounds));
        }

        let result = RcvResult {
            rounds,
            winner,
            total_ballots: nb,
            exhausted_ballots: last_exhausted,
        };
        Ok(result)
    }
}

/// Permutation invariance: two engines over the same candidates and seed
/// whose ballots hold the same rankings in any order produce the same
/// result — the same rounds, tie-break reasons, winner and exhaustion
/// count.  Combined with `tabulate`'s contract, reordering the ballot
/// list cannot change what `tabulate` returns.
pub proof fn lemma_tabulate_permutation_invariant(a: SingleWinnerRCV, b: SingleWinnerRCV)
    requires
        a.cand_ids() == b.cand_ids(),
        a.seed() == b.seed(),
        a.ballot_ranks().to_multiset() == b.ballot_ranks().to_multiset(),
    ensures
        crate::rcv_model::spec_tabulate(a.cand_ids(), a.ballot_ranks(), a.seed())
            == crate::rcv_model::spec_tabulate(b.cand_ids(), b.ballot_ranks(), b.seed()),
{
    crate::rcv_model::lemma_spec_tabulate_permutation(
        a.cand_ids(),
        a.ballot_ranks(),
        b.ballot_ranks(),
        a.seed(),
    );
}

/// Determinism: tabulation is a mathematical function of the candidate
/// list, the ballots and the seed, so two engines with equal inputs
/// produce equal results — across invocations and hosts.
pub proof fn lemma_tabulate_deterministic(a: SingleWinnerRCV, b: SingleWinnerRCV)
    requires
        a.cand_ids() == b.cand_ids(),
        a.seed() == b.seed(),
        a.ballot_ranks() == b.ballot_ranks(),
    ensures
        crate::rcv_model::spec_tabulate(a.cand_ids(), a.ballot_ranks(), a.seed())
            == crate::rcv_model::spec_tabulate(b.cand_ids(), b.ballot_ranks(), b.seed()),
{
}

/// The position of the first set flag, if any.
fn first_true_index(active: &Vec<bool>) -> (r: Option<usize>)
    ensures
        match crate::rcv_model::first_true(active@) {
            Some(i) => r is Some && r->Some_0 == i,
            None => r is None,
        },
        r is Some ==> r->Some_0 < active@.len(),
{
    proof {
        crate::rcv_model::lemma_first_true(active@);
    }
    let n = active.len();
    let mut i: usize = 0;
    while i < n
        invariant
            0 <= i <= n,
            n == active@.len(),
            forall|j: int| 0 <= j < i ==> !active@[j],
            match crate::rcv_model::first_true(active@) {
                Some(t) => 0 <= t < n && active@[t] && (forall|j: int| 0 <= j < t ==> !active@[j]),
                None => forall|j: int| 0 <= j < n ==> !active@[j],
            },
        decreases n - i,
    {
        if active[i] {
            return Some(i);
        }
        i += 1;
    }
    None
}

/// A fresh copy of a vector of identifiers.
fn copy_uids(v: &Vec<Uid>) -> (r: Vec<Uid>)
    ensures
        r@ == v@,
{
    let n = v.len();
    let mut out: Vec<Uid> = Vec::new();
    let mut i: usize = 0;
    while i < n
        invariant
            0 <= i <= n,
            n == v@.len(),
            out@ =~= v@.subrange(0, i as int),
        decreases n - i,
    {
        out.push(v[i]);
        i += 1;
    }
    assert(out@ =~= v@);
    out
}

/// A fresh copy of a vector of flags.
fn copy_bools(v: &Vec<bool>) -> (r: Vec<bool>)
    ensures
        r@ == v@,
{
    let n = v.len();
    let mut out: Vec<bool> = Vec::new();
    let mut i: usize = 0;
    while i < n
        invariant
            0 <= i <= n,
            n == v@.len(),
            out@ =~= v@.subrange(0, i as int),
        decreases n - i,
    {
        out.push(v[i]);
        i += 1;
    }
    assert(out@ =~= v@);
    out
}

/// Check a single ballot against the candidate list: every ranked
/// identifier must be a candidate, and none may appear twice.
fn check_ballot(ids: &Vec<Uid>, b: &Vec<Uid>) -> (r: Result<(), TabulationError>)
    ensures
        r is Ok <==> ballot_error_from(ids@, b@, 0) is None,
        r is Err ==> Some(r->Err_0) == ballot_error_from(ids@, b@, 0),
{
    let nr = b.len();
    let mut p: usize = 0;
    while p < nr
        invariant
            0 <= p <= nr,
            nr == b@.len(),
            ballot_error_from(ids@, b@, 0) == ballot_error_from(ids@, b@, p as int),
        decreases nr - p,
    {
        if find_uid(ids, &b[p]).is_none() {
            assert(ballot_error_from(ids@, b@, p as int) == Some(
                TabulationError::InvalidCandidate(b@[p as int]),
            ));
            return Err(TabulationError::InvalidCandidate(b[p]));
        }
        let mut j: usize = 0;
        while j < p
            invariant
                0 <= j <= p < nr,
                nr == b@.len(),
                ballot_error_from(ids@, b@, 0) == ballot_error_from(ids@, b@, p as int),
                find_cand(ids@, b@[p as int]) is Some,
                forall|q: int| 0 <= q < j ==> b@[q] != b@[p as int],
            decreases p - j,
        {
            if b[j].hi == b[p].hi && b[j].lo == b[p].lo {
                assert(b@[j as int] == b@[p as int]);
                assert(b@.subrange(0, p as int)[j as int] == b@[j as int]);
                assert(b@.subrange(0, p as int).contains(b@[p as int]));
                assert(ballot_error_from(ids@, b@, p as int) == Some(
                    TabulationError::DuplicateCandidate(b@[p as int]),
                ));
                return Err(TabulationError::DuplicateCandidate(b[p]));
            }
            assert(b@[j as int] != b@[p as int]);
            j += 1;
        }
        proof {
            let pre = b@.subrange(0, p as int);
            assert forall|q: int| 0 <= q < pre.len() implies pre[q] != b@[p as int] by {
                assert(pre[q] == b@[q]);
            }
            assert(!pre.contains(b@[p as int]));
        }
        p += 1;
    }
    Ok(())
}

} // verus!
