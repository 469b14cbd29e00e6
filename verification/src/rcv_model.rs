//! The mathematical model of single-winner instant-runoff tabulation.
//!
//! Every function here is specification-only.  The executable engine in
//! `rcv` proves that what it returns equals this model applied to its
//! inputs; determinism and permutation invariance of tabulation are then
//! theorems about these functions alone.
//!
//! Candidates are addressed by their index in the candidate list.  A ballot
//! is the sequence of candidate identifiers it ranks, most preferred first.

use vstd::prelude::*;

use crate::counting::sum_by;
use crate::ids::Uid;
use crate::rcv::TieBreakReason;

verus! {

/// Names the index that the seeded tie-break draw returns: the outside
/// generator is keyed by the seed alone, so the draw is a function of the
/// seed and the bound.
pub uninterp spec fn seeded_choice(seed: u64, bound: usize) -> usize;

/// One tabulation round, in mathematical form.
pub ghost struct RoundModel {
    /// 1-based round number.
    pub round_number: int,
    /// The candidate identifiers, fixed across rounds.
    pub candidates: Seq<Uid>,
    /// Current vote total per candidate index; 0 for eliminated candidates.
    pub counts: Seq<int>,
    /// Which candidates were still active while this round was tallied.
    pub active: Seq<bool>,
    /// The candidate index eliminated this round, if any.
    pub eliminated_ix: Option<int>,
    /// The candidate index that reached a majority this round, if any.
    pub winner_ix: Option<int>,
    /// Ballots whose every ranked candidate was already eliminated.
    pub exhausted_ballots: int,
    /// Sum of all counts this round.
    pub total_votes: int,
    /// Which ladder rule decided the elimination, where one was needed.
    pub tiebreak_reason: Option<TieBreakReason>,
}

/// A full tabulation outcome, in mathematical form.
pub ghost struct ResultModel {
    pub rounds: Seq<RoundModel>,
    pub winner: Option<Uid>,
    pub total_ballots: int,
    pub exhausted_ballots: int,
}

/// The smaller of two integers.
pub open spec fn min2(a: int, b: int) -> int {
    if a <= b {
        a
    } else {
        b
    }
}

/// The index of the first occurrence of `id` in `cands`.
pub open spec fn find_cand(cands: Seq<Uid>, id: Uid) -> Option<int>
    decreases cands.len(),
{
    if cands.len() == 0 {
        None
    } else if cands[0] == id {
        Some(0int)
    } else {
        match find_cand(cands.drop_first(), id) {
            Some(i) => Some(i + 1),
            None => None,
        }
    }
}

pub proof fn lemma_find_cand(cands: Seq<Uid>, id: Uid)
    ensures
        match find_cand(cands, id) {
            Some(i) => 0 <= i < cands.len() && cands[i] == id && (forall|j: int|
                0 <= j < i ==> cands[j] != id),
            None => forall|j: int| 0 <= j < cands.len() ==> cands[j] != id,
        },
    decreases cands.len(),
{
    if cands.len() > 0 && cands[0] != id {
        let d = cands.drop_first();
        lemma_find_cand(d, id);
        match find_cand(d, id) {
            Some(i) => {
                assert(cands[i + 1] == d[i]);
                assert forall|j: int| 0 <= j < i + 1 implies cands[j] != id by {
                    if j > 0 {
                        assert(d[j - 1] == cands[j]);
                    }
                }
            },
            None => {
                assert forall|j: int| 0 <= j < cands.len() implies cands[j] != id by {
                    if j > 0 {
                        assert(d[j - 1] == cands[j]);
                    }
                }
            },
        }
    }
}

/// The highest-preference candidate of ballot `b` that is still active:
/// the vote this ballot casts.  `None` means the ballot is exhausted.
pub open spec fn first_active(b: Seq<Uid>, cands: Seq<Uid>, active: Seq<bool>) -> Option<int>
    decreases b.len(),
{
    if b.len() == 0 {
        None
    } else {
        match find_cand(cands, b[0]) {
            Some(i) => if active[i] {
                Some(i)
            } else {
                first_active(b.drop_first(), cands, active)
            },
            None => first_active(b.drop_first(), cands, active),
        }
    }
}

pub proof fn lemma_first_active_in_bounds(b: Seq<Uid>, cands: Seq<Uid>, active: Seq<bool>)
    ensures
        match first_active(b, cands, active) {
            Some(i) => 0 <= i < cands.len() && active[i],
            None => true,
        },
    decreases b.len(),
{
    if b.len() > 0 {
        lemma_find_cand(cands, b[0]);
        lemma_first_active_in_bounds(b.drop_first(), cands, active);
    }
}

/// Weight of one ballot toward candidate index `i`: 1 when the ballot's
/// vote goes to `i`, else 0.
pub open spec fn vote_weight(cands: Seq<Uid>, active: Seq<bool>, i: int) -> spec_fn(Seq<Uid>) -> int {
    |b: Seq<Uid>|
        if first_active(b, cands, active) == Some(i) {
            1int
        } else {
            0int
        }
}

/// Weight of one ballot toward the exhausted count.
pub open spec fn exhausted_weight(cands: Seq<Uid>, active: Seq<bool>) -> spec_fn(Seq<Uid>) -> int {
    |b: Seq<Uid>|
        if first_active(b, cands, active) is None {
            1int
        } else {
            0int
        }
}

/// Current vote total of candidate index `i`.
pub open spec fn tally(
    cands: Seq<Uid>,
    active: Seq<bool>,
    ballots: Seq<Seq<Uid>>,
    i: int,
) -> int {
    sum_by(ballots, vote_weight(cands, active, i))
}

/// Number of exhausted ballots.
pub open spec fn exhausted_count(cands: Seq<Uid>, active: Seq<bool>, ballots: Seq<Seq<Uid>>) -> int {
    sum_by(ballots, exhausted_weight(cands, active))
}

/// The per-candidate vote totals of one round.
pub open spec fn counts_of(cands: Seq<Uid>, active: Seq<bool>, ballots: Seq<Seq<Uid>>) -> Seq<int> {
    Seq::new(cands.len(), |i: int| tally(cands, active, ballots, i))
}

/// The sum of a sequence of integers.
pub open spec fn sum_int(s: Seq<int>) -> int {
    sum_by(s, |x: int| x)
}

/// A sequence of zeroes sums to zero.
pub proof fn lemma_sum_int_zero(s: Seq<int>)
    requires
        forall|i: int| 0 <= i < s.len() ==> s[i] == 0,
    ensures
        sum_int(s) == 0,
    decreases s.len(),
{
    if s.len() > 0 {
        lemma_sum_int_zero(s.drop_last());
    }
}

/// How many entries of `s` are true.
pub open spec fn count_true(s: Seq<bool>) -> int {
    sum_by(s, |x: bool| if x { 1int } else { 0int })
}

pub proof fn lemma_count_true_update_false(s: Seq<bool>, i: int)
    requires
        0 <= i < s.len(),
        s[i],
    ensures
        count_true(s.update(i, false)) == count_true(s) - 1,
    decreases s.len(),
{
    let f = |x: bool| if x { 1int } else { 0int };
    if i == s.len() - 1 {
        assert(s.update(i, false).drop_last() =~= s.drop_last());
    } else {
        assert(s.update(i, false).drop_last() =~= s.drop_last().update(i, false));
        assert(s.update(i, false).last() == s.last());
        lemma_count_true_update_false(s.drop_last(), i);
    }
}

pub proof fn lemma_count_true_push(s: Seq<bool>, b: bool)
    ensures
        count_true(s.push(b)) == count_true(s) + if b {
            1int
        } else {
            0int
        },
{
    assert(s.push(b).drop_last() =~= s);
    assert(s.push(b).last() == b);
}

pub proof fn lemma_count_true_all(s: Seq<bool>)
    requires
        forall|i: int| 0 <= i < s.len() ==> s[i],
    ensures
        count_true(s) == s.len(),
    decreases s.len(),
{
    if s.len() > 0 {
        lemma_count_true_all(s.drop_last());
    }
}

pub proof fn lemma_count_true_none(s: Seq<bool>)
    requires
        forall|i: int| 0 <= i < s.len() ==> !s[i],
    ensures
        count_true(s) == 0,
    decreases s.len(),
{
    if s.len() > 0 {
        lemma_count_true_none(s.drop_last());
    }
}

/// The first active candidate index whose total exceeds half the active
/// vote total, searching upward from index `i`.
pub open spec fn find_winner_from(counts: Seq<int>, active: Seq<bool>, total: int, i: int) -> Option<
    int,
>
    decreases counts.len() - i,
{
    if i < 0 || i >= counts.len() {
        None
    } else if active[i] && 2 * counts[i] > total {
        Some(i)
    } else {
        find_winner_from(counts, active, total, i + 1)
    }
}

/// The majority winner of a round, if any.
pub open spec fn find_winner(counts: Seq<int>, active: Seq<bool>, total: int) -> Option<int> {
    find_winner_from(counts, active, total, 0)
}

/// The least vote total among the first `n` candidates that are active.
pub open spec fn min_active_upto(counts: Seq<int>, active: Seq<bool>, n: int) -> Option<int>
    decreases n,
{
    if n <= 0 {
        None
    } else {
        let rest = min_active_upto(counts, active, n - 1);
        if !active[n - 1] {
            rest
        } else {
            match rest {
                None => Some(counts[n - 1]),
                Some(m) => Some(min2(m, counts[n - 1])),
            }
        }
    }
}

/// Where any entry of `active` is true, `count_true` is positive and the
/// minimum over active candidates exists.
pub proof fn lemma_count_true_pos(s: Seq<bool>)
    requires
        count_true(s) > 0,
    ensures
        exists|i: int| 0 <= i < s.len() && s[i],
    decreases s.len(),
{
    if s.len() > 0 {
        if s.last() {
            assert(s[s.len() - 1]);
        } else {
            lemma_count_true_pos(s.drop_last());
            let i = choose|i: int| 0 <= i < s.drop_last().len() && s.drop_last()[i];
            assert(s[i]);
        }
    }
}

pub proof fn lemma_min_active_some(counts: Seq<int>, active: Seq<bool>, n: int)
    requires
        exists|i: int| 0 <= i < n && active[i],
    ensures
        min_active_upto(counts, active, n) is Some,
    decreases n,
{
    if n > 0 {
        if active[n - 1] {
        } else {
            let i = choose|i: int| 0 <= i < n && active[i];
            assert(0 <= i < n - 1 && active[i]);
            lemma_min_active_some(counts, active, n - 1);
        }
    }
}

/// The active candidate indices among the first `n` whose total equals `m`,
/// in ascending order.
pub open spec fn tied_upto(counts: Seq<int>, active: Seq<bool>, m: int, n: int) -> Seq<int>
    decreases n,
{
    if n <= 0 {
        Seq::empty()
    } else {
        let rest = tied_upto(counts, active, m, n - 1);
        if active[n - 1] && counts[n - 1] == m {
            rest.push(n - 1)
        } else {
            rest
        }
    }
}

pub proof fn lemma_tied_upto_members(counts: Seq<int>, active: Seq<bool>, m: int, n: int)
    ensures
        forall|k: int|
            0 <= k < tied_upto(counts, active, m, n).len() ==> {
                let t = #[trigger] tied_upto(counts, active, m, n)[k];
                0 <= t < n && active[t] && counts[t] == m
            },
    decreases n,
{
    if n > 0 {
        lemma_tied_upto_members(counts, active, m, n - 1);
        let rest = tied_upto(counts, active, m, n - 1);
        let cur = tied_upto(counts, active, m, n);
        assert forall|k: int| 0 <= k < cur.len() implies {
            let t = #[trigger] cur[k];
            0 <= t < n && active[t] && counts[t] == m
        } by {
            if active[n - 1] && counts[n - 1] == m {
                if k < rest.len() {
                    assert(cur[k] == rest[k]);
                } else {
                    assert(cur[k] == n - 1);
                }
            } else {
                assert(cur[k] == rest[k]);
            }
        }
    }
}

/// The minimum is attained, so the tied set at the minimum is non-empty.
pub proof fn lemma_min_attained(counts: Seq<int>, active: Seq<bool>, n: int)
    ensures
        match min_active_upto(counts, active, n) {
            Some(m) => tied_upto(counts, active, m, n).len() > 0,
            None => true,
        },
    decreases n,
{
    if n > 0 {
        lemma_min_attained(counts, active, n - 1);
        if active[n - 1] {
            match min_active_upto(counts, active, n - 1) {
                None => {},
                Some(m0) => {
                    if counts[n - 1] < m0 {
                    } else {
                        lemma_tied_upto_same_min(counts, active, m0, n);
                    }
                },
            }
        }
    }
}

proof fn lemma_tied_upto_same_min(counts: Seq<int>, active: Seq<bool>, m: int, n: int)
    requires
        n >= 1,
    ensures
        tied_upto(counts, active, m, n).len() >= tied_upto(counts, active, m, n - 1).len(),
{
}

/// The index of the first occurrence of `v` in `s`.
pub open spec fn first_eq(s: Seq<int>, v: int) -> Option<int>
    decreases s.len(),
{
    if s.len() == 0 {
        None
    } else if s[0] == v {
        Some(0int)
    } else {
        match first_eq(s.drop_first(), v) {
            Some(i) => Some(i + 1),
            None => None,
        }
    }
}

pub proof fn lemma_first_eq(s: Seq<int>, v: int)
    ensures
        match first_eq(s, v) {
            Some(i) => 0 <= i < s.len() && s[i] == v && (forall|j: int|
                0 <= j < i ==> s[j] != v),
            None => forall|j: int| 0 <= j < s.len() ==> s[j] != v,
        },
    decreases s.len(),
{
    if s.len() > 0 && s[0] != v {
        let d = s.drop_first();
        lemma_first_eq(d, v);
        match first_eq(d, v) {
            Some(i) => {
                assert(s[i + 1] == d[i]);
                assert forall|j: int| 0 <= j < i + 1 implies s[j] != v by {
                    if j > 0 {
                        assert(d[j - 1] == s[j]);
                    }
                }
            },
            None => {
                assert forall|j: int| 0 <= j < s.len() implies s[j] != v by {
                    if j > 0 {
                        assert(d[j - 1] == s[j]);
                    }
                }
            },
        }
    }
}

/// The least value among the first `n` entries of `s` (`n >= 1`).
pub open spec fn seq_min_upto(s: Seq<int>, n: int) -> int
    decreases n,
{
    if n <= 1 {
        s[0]
    } else {
        min2(seq_min_upto(s, n - 1), s[n - 1])
    }
}

/// The greatest value among the first `n` entries of `s` (`n >= 1`).
pub open spec fn seq_max_upto(s: Seq<int>, n: int) -> int
    decreases n,
{
    if n <= 1 {
        s[0]
    } else {
        let rest = seq_max_upto(s, n - 1);
        if s[n - 1] >= rest {
            s[n - 1]
        } else {
            rest
        }
    }
}

/// How many entries of `s` equal `v`.
pub open spec fn count_eq(s: Seq<int>, v: int) -> int {
    sum_by(s, |x: int| if x == v { 1int } else { 0int })
}

/// Extending a sequence adjusts the count of `v` by whether the new entry
/// equals it.
pub proof fn lemma_count_eq_push(s: Seq<int>, v: int, x: int)
    ensures
        count_eq(s.push(x), v) == count_eq(s, v) + if x == v {
            1int
        } else {
            0int
        },
{
    assert(s.push(x).drop_last() =~= s);
    assert(s.push(x).last() == x);
}

/// Where no entry equals `v`, the count of `v` is zero.
pub proof fn lemma_count_eq_none(s: Seq<int>, v: int)
    requires
        forall|i: int| 0 <= i < s.len() ==> s[i] != v,
    ensures
        count_eq(s, v) == 0,
    decreases s.len(),
{
    if s.len() > 0 {
        lemma_count_eq_none(s.drop_last(), v);
    }
}

/// Number of first-preference votes for candidate identifier `id` across
/// all ballots, ignoring eliminations.
pub open spec fn first_choice_weight(id: Uid) -> spec_fn(Seq<Uid>) -> int {
    |b: Seq<Uid>|
        if b.len() > 0 && b[0] == id {
            1int
        } else {
            0int
        }
}

pub open spec fn first_choice_count(ballots: Seq<Seq<Uid>>, id: Uid) -> int {
    sum_by(ballots, first_choice_weight(id))
}

/// If the ballot's earliest-ranked member of the tied set is `id`, the
/// number of further preferences after it; otherwise 0.
pub open spec fn credit_of(b: Seq<Uid>, tied_ids: Seq<Uid>, id: Uid) -> int
    decreases b.len(),
{
    if b.len() == 0 {
        0
    } else if tied_ids.contains(b[0]) {
        if b[0] == id {
            b.len() - 1
        } else {
            0
        }
    } else {
        credit_of(b.drop_first(), tied_ids, id)
    }
}

pub open spec fn credit_weight(tied_ids: Seq<Uid>, id: Uid) -> spec_fn(Seq<Uid>) -> int {
    |b: Seq<Uid>| credit_of(b, tied_ids, id)
}

pub open spec fn credit_sum(ballots: Seq<Seq<Uid>>, tied_ids: Seq<Uid>, id: Uid) -> int {
    sum_by(ballots, credit_weight(tied_ids, id))
}

/// If `values` has a unique minimum, the member of `tied` at its position.
pub open spec fn pick_unique_min(values: Seq<int>, tied: Seq<int>) -> Option<int> {
    if values.len() == 0 {
        None
    } else {
        let m = seq_min_upto(values, values.len() as int);
        if count_eq(values, m) == 1 {
            match first_eq(values, m) {
                Some(k) => Some(tied[k]),
                None => None,
            }
        } else {
            None
        }
    }
}

/// If `values` has a unique maximum, the member of `tied` at its position.
pub open spec fn pick_unique_max(values: Seq<int>, tied: Seq<int>) -> Option<int> {
    if values.len() == 0 {
        None
    } else {
        let m = seq_max_upto(values, values.len() as int);
        if count_eq(values, m) == 1 {
            match first_eq(values, m) {
                Some(k) => Some(tied[k]),
                None => None,
            }
        } else {
            None
        }
    }
}

/// Ladder rule 1: eliminate the tied candidate with the fewest
/// first-preference votes, when that candidate is unique.
pub open spec fn strategy_first_choice(
    ballots: Seq<Seq<Uid>>,
    cands: Seq<Uid>,
    tied: Seq<int>,
) -> Option<int> {
    pick_unique_min(tied.map_values(|t: int| first_choice_count(ballots, cands[t])), tied)
}

/// The members of `tied` that were active in round `r`, ascending.
pub open spec fn present_upto(tied: Seq<int>, r: RoundModel, n: int) -> Seq<int>
    decreases n,
{
    if n <= 0 {
        Seq::empty()
    } else {
        let rest = present_upto(tied, r, n - 1);
        if r.active[tied[n - 1]] {
            rest.push(tied[n - 1])
        } else {
            rest
        }
    }
}

/// The vote total of candidate index `t` in round `r`.
pub open spec fn round_counts_fn(r: RoundModel) -> spec_fn(int) -> int {
    |t: int| r.counts[t]
}

/// Ladder rule 2: walking earlier rounds most recent first, eliminate the
/// tied candidate with the unique lowest tally in the most recent round
/// where at least two tied candidates had tallies and the minimum is unique.
///
/// A round's tallies are read densely: every candidate still active in
/// that round has a tally, possibly 0.  "Has no tally in a round" — the
/// members skipped for that round — therefore means exactly the
/// candidates already eliminated when the round was counted, not active
/// candidates that happened to receive no votes.
pub open spec fn strategy_prior_from(tied: Seq<int>, prior: Seq<RoundModel>, j: int) -> Option<int>
    decreases j + 1,
{
    if j < 0 || j >= prior.len() {
        None
    } else {
        let s = present_upto(tied, prior[j], tied.len() as int);
        let votes = s.map_values(round_counts_fn(prior[j]));
        if s.len() > 1 && pick_unique_min(votes, s) is Some {
            pick_unique_min(votes, s)
        } else {
            strategy_prior_from(tied, prior, j - 1)
        }
    }
}

pub open spec fn strategy_prior(tied: Seq<int>, prior: Seq<RoundModel>) -> Option<int> {
    strategy_prior_from(tied, prior, prior.len() - 1)
}

/// Ladder rule 3: eliminate the tied candidate whose elimination would
/// leave the most residual preferences to transfer, when unique.
pub open spec fn strategy_distribute(
    ballots: Seq<Seq<Uid>>,
    cands: Seq<Uid>,
    tied: Seq<int>,
) -> Option<int> {
    let tied_ids = tied.map_values(|t: int| cands[t]);
    pick_unique_max(tied.map_values(|t: int| credit_sum(ballots, tied_ids, cands[t])), tied)
}

/// Ladder rule 4: the seeded draw, clamped into the tied set so the model
/// is total whatever the named draw denotes.
pub open spec fn strategy_random(tied: Seq<int>, seed: u64) -> int {
    let k = seeded_choice(seed, tied.len() as usize);
    if k < tied.len() {
        tied[k as int]
    } else {
        tied[0]
    }
}

/// The candidate index to eliminate and the rule that decided it, given a
/// round with no winner and at least two active candidates.
pub open spec fn choose_elimination(
    cands: Seq<Uid>,
    ballots: Seq<Seq<Uid>>,
    counts: Seq<int>,
    active: Seq<bool>,
    prior: Seq<RoundModel>,
    seed: u64,
) -> (int, Option<TieBreakReason>) {
    match min_active_upto(counts, active, counts.len() as int) {
        None => (0int, None),
        Some(m) => {
            let tied = tied_upto(counts, active, m, counts.len() as int);
            if tied.len() == 1 {
                (tied[0], None)
            } else {
                match strategy_first_choice(ballots, cands, tied) {
                    Some(t) => (t, Some(TieBreakReason::FirstChoiceVotes)),
                    None => match strategy_prior(tied, prior) {
                        Some(t) => (t, Some(TieBreakReason::PriorRoundPerformance)),
                        None => match strategy_distribute(ballots, cands, tied) {
                            Some(t) => (t, Some(TieBreakReason::MostVotesToDistribute)),
                            None => (strategy_random(tied, seed), Some(TieBreakReason::Random)),
                        },
                    },
                }
            }
        },
    }
}

/// Whatever rule decides, the eliminated candidate is a member of the tied
/// set, hence active with the minimum vote total.
pub proof fn lemma_choose_elimination_in_tied(
    cands: Seq<Uid>,
    ballots: Seq<Seq<Uid>>,
    counts: Seq<int>,
    active: Seq<bool>,
    prior: Seq<RoundModel>,
    seed: u64,
)
    requires
        min_active_upto(counts, active, counts.len() as int) is Some,
    ensures
        ({
            let m = min_active_upto(counts, active, counts.len() as int)->Some_0;
            let tied = tied_upto(counts, active, m, counts.len() as int);
            tied.contains(choose_elimination(cands, ballots, counts, active, prior, seed).0)
        }),
{
    let m = min_active_upto(counts, active, counts.len() as int)->Some_0;
    let tied = tied_upto(counts, active, m, counts.len() as int);
    lemma_min_attained(counts, active, counts.len() as int);
    if tied.len() == 1 {
        assert(tied.contains(tied[0]));
    } else {
        match strategy_first_choice(ballots, cands, tied) {
            Some(t) => {
                lemma_pick_unique_min_in(
                    tied.map_values(|t: int| first_choice_count(ballots, cands[t])),
                    tied,
                );
            },
            None => match strategy_prior(tied, prior) {
                Some(t) => {
                    lemma_strategy_prior_in(tied, prior, prior.len() - 1);
                },
                None => match strategy_distribute(ballots, cands, tied) {
                    Some(t) => {
                        let tied_ids = tied.map_values(|t: int| cands[t]);
                        lemma_pick_unique_max_in(
                            tied.map_values(|t: int| credit_sum(ballots, tied_ids, cands[t])),
                            tied,
                        );
                    },
                    None => {
                        let k = seeded_choice(seed, tied.len() as usize);
                        if k < tied.len() {
                            assert(tied.contains(tied[k as int]));
                        } else {
                            assert(tied.contains(tied[0]));
                        }
                    },
                },
            },
        }
    }
}

proof fn lemma_pick_unique_min_in(values: Seq<int>, tied: Seq<int>)
    requires
        values.len() == tied.len(),
        pick_unique_min(values, tied) is Some,
    ensures
        tied.contains(pick_unique_min(values, tied)->Some_0),
{
    let m = seq_min_upto(values, values.len() as int);
    lemma_first_eq(values, m);
    let k = first_eq(values, m)->Some_0;
    assert(tied[k] == pick_unique_min(values, tied)->Some_0);
    assert(tied.contains(tied[k]));
}

proof fn lemma_pick_unique_max_in(values: Seq<int>, tied: Seq<int>)
    requires
        values.len() == tied.len(),
        pick_unique_max(values, tied) is Some,
    ensures
        tied.contains(pick_unique_max(values, tied)->Some_0),
{
    let m = seq_max_upto(values, values.len() as int);
    lemma_first_eq(values, m);
    let k = first_eq(values, m)->Some_0;
    assert(tied[k] == pick_unique_max(values, tied)->Some_0);
    assert(tied.contains(tied[k]));
}

proof fn lemma_present_upto_members(tied: Seq<int>, r: RoundModel, n: int)
    requires
        n <= tied.len(),
    ensures
        forall|k: int|
            0 <= k < present_upto(tied, r, n).len() ==> tied.contains(
                #[trigger] present_upto(tied, r, n)[k],
            ),
    decreases n,
{
    if n > 0 {
        lemma_present_upto_members(tied, r, n - 1);
        assert(0 <= n - 1 < tied.len());
        assert(tied.contains(tied[n - 1]));
        let rest = present_upto(tied, r, n - 1);
        let cur = present_upto(tied, r, n);
        assert forall|k: int| 0 <= k < cur.len() implies tied.contains(cur[k]) by {
            if r.active[tied[n - 1]] {
                if k < rest.len() {
                    assert(cur[k] == rest[k]);
                } else {
                    assert(cur[k] == tied[n - 1]);
                }
            } else {
                assert(cur[k] == rest[k]);
            }
        }
    }
}

proof fn lemma_strategy_prior_in(tied: Seq<int>, prior: Seq<RoundModel>, j: int)
    requires
        strategy_prior_from(tied, prior, j) is Some,
    ensures
        tied.contains(strategy_prior_from(tied, prior, j)->Some_0),
    decreases j + 1,
{
    if 0 <= j < prior.len() {
        let s = present_upto(tied, prior[j], tied.len() as int);
        let votes = s.map_values(round_counts_fn(prior[j]));
        if s.len() > 1 && pick_unique_min(votes, s) is Some {
            lemma_pick_unique_min_in(votes, s);
            lemma_present_upto_members(tied, prior[j], tied.len() as int);
            let v = pick_unique_min(votes, s)->Some_0;
            let k = choose|k: int| 0 <= k < s.len() && s[k] == v;
        } else {
            lemma_strategy_prior_in(tied, prior, j - 1);
        }
    }
}

/// One round of the model: tally, winner check, and (when there is no
/// winner, votes remain, and more than one candidate is active) the
/// elimination choice.
pub open spec fn round_model(
    cands: Seq<Uid>,
    ballots: Seq<Seq<Uid>>,
    active: Seq<bool>,
    round_number: int,
    prior: Seq<RoundModel>,
    seed: u64,
) -> RoundModel {
    let counts = counts_of(cands, active, ballots);
    let total = sum_int(counts);
    let exhausted = exhausted_count(cands, active, ballots);
    let winner = find_winner(counts, active, total);
    if winner is None && total > 0 && count_true(active) > 1 {
        let (e, reason) = choose_elimination(cands, ballots, counts, active, prior, seed);
        RoundModel {
            round_number,
            candidates: cands,
            counts,
            active,
            eliminated_ix: Some(e),
            winner_ix: None,
            exhausted_ballots: exhausted,
            total_votes: total,
            tiebreak_reason: reason,
        }
    } else {
        RoundModel {
            round_number,
            candidates: cands,
            counts,
            active,
            eliminated_ix: None,
            winner_ix: winner,
            exhausted_ballots: exhausted,
            total_votes: total,
            tiebreak_reason: None,
        }
    }
}

/// The rounds of the tabulation from the given state onward, appended to
/// `prior`.  Recursion stops when a round declares a winner, eliminates
/// nobody (no votes remain), or leaves at most one active candidate.
pub open spec fn spec_rounds(
    cands: Seq<Uid>,
    ballots: Seq<Seq<Uid>>,
    active: Seq<bool>,
    round_number: int,
    prior: Seq<RoundModel>,
    seed: u64,
) -> Seq<RoundModel>
    decreases count_true(active),
    when active.len() == cands.len()
    via spec_rounds_decreases
{
    let r = round_model(cands, ballots, active, round_number, prior, seed);
    let out = prior.push(r);
    match r.eliminated_ix {
        None => out,
        Some(e) => {
            let active2 = active.update(e, false);
            if count_true(active2) <= 1 {
                out
            } else {
                spec_rounds(cands, ballots, active2, round_number + 1, out, seed)
            }
        },
    }
}

#[via_fn]
proof fn spec_rounds_decreases(
    cands: Seq<Uid>,
    ballots: Seq<Seq<Uid>>,
    active: Seq<bool>,
    round_number: int,
    prior: Seq<RoundModel>,
    seed: u64,
) {
    let r = round_model(cands, ballots, active, round_number, prior, seed);
    match r.eliminated_ix {
        None => {},
        Some(e) => {
            let counts = counts_of(cands, active, ballots);
            let total = sum_int(counts);
            lemma_count_true_pos(active);
            lemma_min_active_some(counts, active, counts.len() as int);
            lemma_choose_elimination_in_tied(cands, ballots, counts, active, prior, seed);
            let m = min_active_upto(counts, active, counts.len() as int)->Some_0;
            let tied = tied_upto(counts, active, m, counts.len() as int);
            lemma_tied_upto_members(counts, active, m, counts.len() as int);
            let k = choose|k: int| 0 <= k < tied.len() && tied[k] == e;
            lemma_count_true_update_false(active, e);
        },
    }
}

/// The index of the single true entry of `s`, if exactly one is true.
pub open spec fn first_true(s: Seq<bool>) -> Option<int>
    decreases s.len(),
{
    if s.len() == 0 {
        None
    } else if s[0] {
        Some(0int)
    } else {
        match first_true(s.drop_first()) {
            Some(i) => Some(i + 1),
            None => None,
        }
    }
}

pub proof fn lemma_first_true(s: Seq<bool>)
    ensures
        match first_true(s) {
            Some(i) => 0 <= i < s.len() && s[i] && (forall|j: int| 0 <= j < i ==> !s[j]),
            None => forall|j: int| 0 <= j < s.len() ==> !s[j],
        },
    decreases s.len(),
{
    if s.len() > 0 && !s[0] {
        let d = s.drop_first();
        lemma_first_true(d);
        match first_true(d) {
            Some(i) => {
                assert(s[i + 1] == d[i]);
                assert forall|j: int| 0 <= j < i + 1 implies !s[j] by {
                    if j > 0 {
                        assert(d[j - 1] == s[j]);
                    }
                }
            },
            None => {
                assert forall|j: int| 0 <= j < s.len() implies !s[j] by {
                    if j > 0 {
                        assert(d[j - 1] == s[j]);
                    }
                }
            },
        }
    }
}

/// The active set that remains after the last round's elimination.
pub open spec fn active_after(r: RoundModel) -> Seq<bool> {
    match r.eliminated_ix {
        Some(e) => r.active.update(e, false),
        None => r.active,
    }
}

/// The final winner: the last round's declared winner; else the sole
/// remaining active candidate; else none (every ballot exhausted while two
/// or more candidates stood).
pub open spec fn final_winner(cands: Seq<Uid>, rounds: Seq<RoundModel>) -> Option<Uid> {
    if rounds.len() == 0 {
        None
    } else {
        let last = rounds.last();
        match last.winner_ix {
            Some(i) => Some(cands[i]),
            None => {
                let remaining = active_after(last);
                if count_true(remaining) == 1 {
                    match first_true(remaining) {
                        Some(i) => Some(cands[i]),
                        None => None,
                    }
                } else {
                    None
                }
            },
        }
    }
}

/// Every per-ballot aggregate is a weighted sum over the ballots, so two
/// ballot sequences with equal multisets give equal tallies.
pub proof fn lemma_counts_perm(
    cands: Seq<Uid>,
    active: Seq<bool>,
    b1: Seq<Seq<Uid>>,
    b2: Seq<Seq<Uid>>,
)
    requires
        b1.to_multiset() == b2.to_multiset(),
    ensures
        counts_of(cands, active, b1) == counts_of(cands, active, b2),
        exhausted_count(cands, active, b1) == exhausted_count(cands, active, b2),
{
    assert forall|i: int| 0 <= i < cands.len() implies tally(cands, active, b1, i) == tally(
        cands,
        active,
        b2,
        i,
    ) by {
        crate::counting::lemma_sum_by_permutation(b1, b2, vote_weight(cands, active, i));
    }
    assert(counts_of(cands, active, b1) =~= counts_of(cands, active, b2));
    crate::counting::lemma_sum_by_permutation(b1, b2, exhausted_weight(cands, active));
}

proof fn lemma_choose_elimination_perm(
    cands: Seq<Uid>,
    b1: Seq<Seq<Uid>>,
    b2: Seq<Seq<Uid>>,
    counts: Seq<int>,
    active: Seq<bool>,
    prior: Seq<RoundModel>,
    seed: u64,
)
    requires
        b1.to_multiset() == b2.to_multiset(),
    ensures
        choose_elimination(cands, b1, counts, active, prior, seed) == choose_elimination(
            cands,
            b2,
            counts,
            active,
            prior,
            seed,
        ),
{
    match min_active_upto(counts, active, counts.len() as int) {
        None => {},
        Some(m) => {
            let tied = tied_upto(counts, active, m, counts.len() as int);
            assert forall|t: int| true implies #[trigger] first_choice_count(b1, cands[t])
                == first_choice_count(b2, cands[t]) by {
                crate::counting::lemma_sum_by_permutation(b1, b2, first_choice_weight(cands[t]));
            }
            assert(tied.map_values(|t: int| first_choice_count(b1, cands[t])) =~= tied.map_values(
                |t: int| first_choice_count(b2, cands[t]),
            ));
            let tied_ids = tied.map_values(|t: int| cands[t]);
            assert forall|t: int| true implies #[trigger] credit_sum(b1, tied_ids, cands[t])
                == credit_sum(b2, tied_ids, cands[t]) by {
                crate::counting::lemma_sum_by_permutation(b1, b2, credit_weight(tied_ids, cands[t]));
            }
            assert(tied.map_values(|t: int| credit_sum(b1, tied_ids, cands[t])) =~= tied.map_values(
                |t: int| credit_sum(b2, tied_ids, cands[t]),
            ));
        },
    }
}

proof fn lemma_round_model_perm(
    cands: Seq<Uid>,
    b1: Seq<Seq<Uid>>,
    b2: Seq<Seq<Uid>>,
    active: Seq<bool>,
    round_number: int,
    prior: Seq<RoundModel>,
    seed: u64,
)
    requires
        b1.to_multiset() == b2.to_multiset(),
    ensures
        round_model(cands, b1, active, round_number, prior, seed) == round_model(
            cands,
            b2,
            active,
            round_number,
            prior,
            seed,
        ),
{
    lemma_counts_perm(cands, active, b1, b2);
    let counts = counts_of(cands, active, b1);
    lemma_choose_elimination_perm(cands, b1, b2, counts, active, prior, seed);
}

proof fn lemma_spec_rounds_perm(
    cands: Seq<Uid>,
    b1: Seq<Seq<Uid>>,
    b2: Seq<Seq<Uid>>,
    active: Seq<bool>,
    round_number: int,
    prior: Seq<RoundModel>,
    seed: u64,
)
    requires
        b1.to_multiset() == b2.to_multiset(),
        active.len() == cands.len(),
    ensures
        spec_rounds(cands, b1, active, round_number, prior, seed) == spec_rounds(
            cands,
            b2,
            active,
            round_number,
            prior,
            seed,
        ),
    decreases count_true(active),
{
    lemma_round_model_perm(cands, b1, b2, active, round_number, prior, seed);
    let r = round_model(cands, b1, active, round_number, prior, seed);
    match r.eliminated_ix {
        None => {},
        Some(e) => {
            let active2 = active.update(e, false);
            if count_true(active2) <= 1 {
            } else {
                let counts = counts_of(cands, active, b1);
                lemma_count_true_pos(active);
                lemma_min_active_some(counts, active, counts.len() as int);
                lemma_choose_elimination_in_tied(cands, b1, counts, active, prior, seed);
                let m = min_active_upto(counts, active, counts.len() as int)->Some_0;
                let tied = tied_upto(counts, active, m, counts.len() as int);
                lemma_tied_upto_members(counts, active, m, counts.len() as int);
                let k = choose|k: int| 0 <= k < tied.len() && tied[k] == e;
                lemma_count_true_update_false(active, e);
                lemma_spec_rounds_perm(cands, b1, b2, active2, round_number + 1, prior.push(r), seed);
            }
        },
    }
}

/// Permutation invariance: tabulation depends on the ballots only through
/// their multiset, so any reordering of the ballot list leaves every round,
/// every tie-break reason and the winner unchanged.
pub proof fn lemma_spec_tabulate_permutation(
    cands: Seq<Uid>,
    b1: Seq<Seq<Uid>>,
    b2: Seq<Seq<Uid>>,
    seed: u64,
)
    requires
        b1.to_multiset() == b2.to_multiset(),
    ensures
        spec_tabulate(cands, b1, seed) == spec_tabulate(cands, b2, seed),
{
    broadcast use vstd::seq_lib::group_to_multiset_ensures;

    let init = Seq::new(cands.len(), |i: int| true);
    lemma_spec_rounds_perm(cands, b1, b2, init, 1, Seq::empty(), seed);
    assert(b1.len() == b1.to_multiset().len());
    assert(b2.len() == b2.to_multiset().len());
}

/// Determinism: the model is a mathematical function, so tabulating equal
/// inputs with equal seeds gives equal results.
pub proof fn lemma_spec_tabulate_deterministic(
    cands1: Seq<Uid>,
    b1: Seq<Seq<Uid>>,
    seed1: u64,
    cands2: Seq<Uid>,
    b2: Seq<Seq<Uid>>,
    seed2: u64,
)
    requires
        cands1 == cands2,
        b1 == b2,
        seed1 == seed2,
    ensures
        spec_tabulate(cands1, b1, seed1) == spec_tabulate(cands2, b2, seed2),
{
}

/// The complete model of `tabulate` on validated input.
pub open spec fn spec_tabulate(cands: Seq<Uid>, ballots: Seq<Seq<Uid>>, seed: u64) -> ResultModel {
    let rounds = spec_rounds(cands, ballots, Seq::new(cands.len(), |i: int| true), 1, Seq::empty(), seed);
    ResultModel {
        rounds,
        winner: final_winner(cands, rounds),
        total_ballots: ballots.len() as int,
        exhausted_ballots: if rounds.len() == 0 {
            0
        } else {
            rounds.last().exhausted_ballots
        },
    }
}

} // verus!
