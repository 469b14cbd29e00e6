//! The ballot submission validator: structural checks on a submitted
//! ballot before it is persisted.  Every rejection carries exactly one
//! reason, the first violation in a fixed order.

use vstd::prelude::*;

use crate::ids::Uid;
use crate::rcv_model::{find_cand, lemma_find_cand};

verus! {

/// One entry of a submitted ballot: a candidate and its 1-based rank.
#[derive(Debug, Clone, Copy, PartialEq, Eq, Structural)]
pub struct BallotRanking {
    pub candidate_id: Uid,
    pub rank: i32,
}

/// Why a submission was rejected.
#[derive(Debug, Clone, Copy, PartialEq, Eq, Structural)]
pub enum RejectReason {
    /// No rankings at all.
    Empty,
    /// A ranked identifier that is not a candidate of the poll.
    UnknownCandidate(Uid),
    /// A candidate ranked twice.
    DuplicateCandidate(Uid),
    /// The sorted ranks are not exactly 1, 2, ..., n.
    NonSequentialRanks,
    /// The current time lies outside the poll's voting window.
    PollClosed,
    /// An anonymous submission against a poll that is not public.
    PollNotPublic,
    /// The invited voter has already voted.
    AlreadyVoted,
}

/// The candidate of the first entry at or after `p` whose identifier is
/// not in `cands`.
pub open spec fn first_unknown_from(cands: Seq<Uid>, entries: Seq<BallotRanking>, p: int) -> Option<
    Uid,
>
    decreases entries.len() - p,
{
    if p < 0 || p >= entries.len() {
        None
    } else if find_cand(cands, entries[p].candidate_id) is None {
        Some(entries[p].candidate_id)
    } else {
        first_unknown_from(cands, entries, p + 1)
    }
}

/// The candidate of the first entry at or after `p` that repeats an
/// earlier entry's candidate.
pub open spec fn first_duplicate_from(entries: Seq<BallotRanking>, p: int) -> Option<Uid>
    decreases entries.len() - p,
{
    if p < 0 || p >= entries.len() {
        None
    } else if exists|q: int| 0 <= q < p && entries[q].candidate_id == entries[p].candidate_id {
        Some(entries[p].candidate_id)
    } else {
        first_duplicate_from(entries, p + 1)
    }
}

/// How many entries carry rank `k`.
pub open spec fn rank_count(entries: Seq<BallotRanking>, k: int) -> int {
    crate::counting::sum_by(
        entries,
        |e: BallotRanking|
            if e.rank == k {
                1int
            } else {
                0int
            },
    )
}

/// The ranks are dense: sorted, they read exactly 1, 2, ..., n.  Stated
/// equivalently: each of 1..=n occurs exactly once among the n ranks.
pub open spec fn ranks_sequential(entries: Seq<BallotRanking>) -> bool {
    forall|k: int| 1 <= k <= entries.len() ==> #[trigger] rank_count(entries, k) == 1
}

/// Whether `now` lies inside the poll's voting window; an absent bound is
/// open-ended.
pub open spec fn spec_poll_open(opens_at: Option<i64>, closes_at: Option<i64>, now: i64) -> bool {
    (match opens_at {
        Some(o) => now >= o,
        None => true,
    }) && (match closes_at {
        Some(c) => now <= c,
        None => true,
    })
}

/// What validation reports: the first violation in the order Empty,
/// UnknownCandidate, DuplicateCandidate, NonSequentialRanks, PollClosed,
/// PollNotPublic, AlreadyVoted; `None` means the submission is accepted.
pub open spec fn spec_validate_submission(
    cands: Seq<Uid>,
    entries: Seq<BallotRanking>,
    is_public: bool,
    opens_at: Option<i64>,
    closes_at: Option<i64>,
    now: i64,
    anonymous: bool,
    has_voted: bool,
) -> Option<RejectReason> {
    if entries.len() == 0 {
        Some(RejectReason::Empty)
    } else if first_unknown_from(cands, entries, 0) is Some {
        Some(RejectReason::UnknownCandidate(first_unknown_from(cands, entries, 0)->Some_0))
    } else if first_duplicate_from(entries, 0) is Some {
        Some(RejectReason::DuplicateCandidate(first_duplicate_from(entries, 0)->Some_0))
    } else if !ranks_sequential(entries) {
        Some(RejectReason::NonSequentialRanks)
    } else if !spec_poll_open(opens_at, closes_at, now) {
        Some(RejectReason::PollClosed)
    } else if anonymous && !is_public {
        Some(RejectReason::PollNotPublic)
    } else if !anonymous && has_voted {
        Some(RejectReason::AlreadyVoted)
    } else {
        None
    }
}

/// Find the first entry whose identifier is not a candidate.
fn find_unknown(cands: &Vec<Uid>, entries: &Vec<BallotRanking>) -> (r: Option<Uid>)
    ensures
        r == first_unknown_from(cands@, entries@, 0),
{
    let n = entries.len();
    let mut p: usize = 0;
    while p < n
        invariant
            0 <= p <= n,
            n == entries@.len(),
            first_unknown_from(cands@, entries@, 0) == first_unknown_from(
                cands@,
                entries@,
                p as int,
            ),
        decreases n - p,
    {
        proof {
            lemma_find_cand(cands@, entries@[p as int].candidate_id);
        }
        let mut found = false;
        let mut i: usize = 0;
        let nc = cands.len();
        while i < nc
            invariant
                0 <= i <= nc,
                nc == cands@.len(),
                0 <= p < n,
                n == entries@.len(),
                !found ==> forall|j: int| 0 <= j < i ==> cands@[j] != entries@[p as int].candidate_id,
                found ==> find_cand(cands@, entries@[p as int].candidate_id) is Some,
            decreases nc - i,
        {
            if cands[i].hi == entries[p].candidate_id.hi && cands[i].lo == entries[p].candidate_id.lo {
                assert(cands@[i as int] == entries@[p as int].candidate_id);
                proof {
                    lemma_find_cand(cands@, entries@[p as int].candidate_id);
                }
                found = true;
                i = nc;
            } else {
                assert(cands@[i as int] != entries@[p as int].candidate_id);
                i += 1;
            }
        }
        if !found {
            proof {
                lemma_find_cand(cands@, entries@[p as int].candidate_id);
            }
            assert(find_cand(cands@, entries@[p as int].candidate_id) is None);
            return Some(entries[p].candidate_id);
        }
        p += 1;
    }
    None
}

/// Find the first entry that repeats an earlier entry's candidate.
fn find_duplicate(entries: &Vec<BallotRanking>) -> (r: Option<Uid>)
    ensures
        r == first_duplicate_from(entries@, 0),
{
    let n = entries.len();
    let mut p: usize = 0;
    while p < n
        invariant
            0 <= p <= n,
            n == entries@.len(),
            first_duplicate_from(entries@, 0) == first_duplicate_from(entries@, p as int),
        decreases n - p,
    {
        let mut q: usize = 0;
        while q < p
            invariant
                0 <= q <= p < n,
                n == entries@.len(),
                first_duplicate_from(entries@, 0) == first_duplicate_from(entries@, p as int),
                forall|j: int| 0 <= j < q ==> entries@[j].candidate_id != entries@[
                    p as int].candidate_id,
            decreases p - q,
        {
            if entries[q].candidate_id.hi == entries[p].candidate_id.hi
                && entries[q].candidate_id.lo == entries[p].candidate_id.lo {
                assert(entries@[q as int].candidate_id == entries@[p as int].candidate_id);
                return Some(entries[p].candidate_id);
            }
            assert(entries@[q as int].candidate_id != entries@[p as int].candidate_id);
            q += 1;
        }
        assert(!(exists|j: int|
            0 <= j < p && entries@[j].candidate_id == entries@[p as int].candidate_id));
        p += 1;
    }
    None
}

/// Check that the ranks are exactly 1..=n, each occurring once.
fn check_ranks_sequential(entries: &Vec<BallotRanking>) -> (r: bool)
    ensures
        r == ranks_sequential(entries@),
{
    let n = entries.len();
    if n > i32::MAX as usize {
        proof {
            let k: int = i32::MAX as int + 1;
            crate::validate::lemma_rank_count_none(entries@, k);
            assert(rank_count(entries@, k) == 0);
            assert(!ranks_sequential(entries@));
        }
        return false;
    }
    let mut k: usize = 1;
    while k <= n
        invariant
            1 <= k <= n + 1,
            n == entries@.len(),
            n <= i32::MAX as usize,
            forall|j: int| 1 <= j < k ==> #[trigger] rank_count(entries@, j) == 1,
        decreases n + 1 - k,
    {
        let cnt = count_rank(entries, k as i32);
        if cnt != 1 {
            assert(rank_count(entries@, k as int) != 1);
            assert(!ranks_sequential(entries@));
            return false;
        }
        assert(rank_count(entries@, k as int) == 1);
        k += 1;
    }
    true
}

/// How many entries carry rank `k`.
fn count_rank(entries: &Vec<BallotRanking>, k: i32) -> (r: usize)
    ensures
        r as int == rank_count(entries@, k as int),
        r <= entries@.len(),
{
    let n = entries.len();
    let mut cnt: usize = 0;
    let mut i: usize = 0;
    proof {
        assert(entries@.subrange(0, 0) =~= Seq::<BallotRanking>::empty());
    }
    while i < n
        invariant
            0 <= i <= n,
            n == entries@.len(),
            cnt as int == rank_count(entries@.subrange(0, i as int), k as int),
            cnt <= i,
        decreases n - i,
    {
        proof {
            assert(entries@.subrange(0, i as int + 1) =~= entries@.subrange(0, i as int).push(
                entries@[i as int],
            ));
            lemma_rank_count_push(entries@.subrange(0, i as int), k as int, entries@[i as int]);
        }
        if entries[i].rank == k {
            cnt += 1;
        }
        i += 1;
    }
    proof {
        assert(entries@.subrange(0, n as int) =~= entries@);
    }
    cnt
}

proof fn lemma_rank_count_push(s: Seq<BallotRanking>, k: int, e: BallotRanking)
    ensures
        rank_count(s.push(e), k) == rank_count(s, k) + if e.rank == k {
            1int
        } else {
            0int
        },
{
    assert(s.push(e).drop_last() =~= s);
    assert(s.push(e).last() == e);
}

/// Where no entry carries rank `k`, its count is zero.
pub proof fn lemma_rank_count_none(s: Seq<BallotRanking>, k: int)
    requires
        forall|i: int| 0 <= i < s.len() ==> s[i].rank != k,
    ensures
        rank_count(s, k) == 0,
    decreases s.len(),
{
    if s.len() > 0 {
        lemma_rank_count_none(s.drop_last(), k);
    }
}

/// A ballot with no duplicate report ranks pairwise distinct
/// candidates: together with dense ranks, what validation guarantees of
/// every accepted ballot.
pub proof fn lemma_no_duplicate_means_distinct(entries: Seq<BallotRanking>, p: int)
    requires
        0 <= p,
        first_duplicate_from(entries, p) is None,
    ensures
        forall|i: int, j: int|
            0 <= i < j < entries.len() && p <= j ==> entries[i].candidate_id != entries[
                j].candidate_id,
    decreases entries.len() - p,
{
    if p < entries.len() {
        lemma_no_duplicate_means_distinct(entries, p + 1);
        assert forall|i: int, j: int|
            0 <= i < j < entries.len() && p <= j implies entries[i].candidate_id != entries[
            j].candidate_id by {
            if j == p {
                assert(!(exists|q: int|
                    0 <= q < p && entries[q].candidate_id == entries[p].candidate_id));
            }
        }
    }
}

/// Dense ranks are `i32` values, so a sequential ballot has at most
/// `i32::MAX` rankings.
pub proof fn lemma_sequential_len_bound(entries: Seq<BallotRanking>)
    requires
        ranks_sequential(entries),
    ensures
        entries.len() <= i32::MAX,
{
    if entries.len() > i32::MAX {
        let k: int = i32::MAX as int + 1;
        assert(rank_count(entries, k) == 1);
        assert forall|i: int| 0 <= i < entries.len() implies entries[i].rank != k by {
            assert(entries[i].rank <= i32::MAX);
        }
        lemma_rank_count_none(entries, k);
    }
}

/// Validate a ballot submission against the poll it targets.
///
/// Accepts exactly the submissions with at least one ranking, every
/// ranked identifier a candidate of the poll, no candidate ranked twice,
/// dense ranks 1..=n, the poll open at `now`, the poll public where the
/// submission is anonymous, and the invited voter not yet voted.  A
/// rejection reports the first violation, in that order.
pub fn validate_submission(
    cands: &Vec<Uid>,
    entries: &Vec<BallotRanking>,
    is_public: bool,
    opens_at: Option<i64>,
    closes_at: Option<i64>,
    now: i64,
    anonymous: bool,
    has_voted: bool,
) -> (r: Result<(), RejectReason>)
    ensures
        r is Ok <==> spec_validate_submission(
            cands@,
            entries@,
            is_public,
            opens_at,
            closes_at,
            now,
            anonymous,
            has_voted,
        ) is None,
        r is Err ==> Some(r->Err_0) == spec_validate_submission(
            cands@,
            entries@,
            is_public,
            opens_at,
            closes_at,
            now,
            anonymous,
            has_voted,
        ),
        r is Ok ==> entries@.len() > 0 && ranks_sequential(entries@) && first_duplicate_from(
            entries@,
            0,
        ) is None && first_unknown_from(cands@, entries@, 0) is None,
{
    if entries.len() == 0 {
        return Err(RejectReason::Empty);
    }
    match find_unknown(cands, entries) {
        Some(id) => {
            return Err(RejectReason::UnknownCandidate(id));
        },
        None => {},
    }
    match find_duplicate(entries) {
        Some(id) => {
            return Err(RejectReason::DuplicateCandidate(id));
        },
        None => {},
    }
    if !check_ranks_sequential(entries) {
        return Err(RejectReason::NonSequentialRanks);
    }
    let open = match opens_at {
        Some(o) => now >= o,
        None => true,
    } && match closes_at {
        Some(c) => now <= c,
        None => true,
    };
    if !open {
        return Err(RejectReason::PollClosed);
    }
    if anonymous && !is_public {
        return Err(RejectReason::PollNotPublic);
    }
    if !anonymous && has_voted {
        return Err(RejectReason::AlreadyVoted);
    }
    Ok(())
}

} // verus!
