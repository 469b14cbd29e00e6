//! The in-memory poll/voter/ballot store: the state the voting service
//! keeps, with the integrity invariants the persistence layer must
//! enforce.  Chief among them: an invited voter is referenced by at most
//! one ballot, and the voted-at mark is set in the same step that inserts
//! the ballot.

use vstd::prelude::*;

use crate::api::{spec_reject_error, reject_error, ErrorCode};
use crate::counting::{lemma_sum_by_push, sum_by};
use crate::ids::Uid;
use crate::token::MAX_TOKEN_TIMESTAMP;
use crate::validate::{first_duplicate_from, ranks_sequential, spec_validate_submission,
    validate_submission, BallotRanking};

verus! {

/// A poll as the voting core sees it.
#[derive(Debug)]
pub struct Poll {
    pub id: Uid,
    pub user_id: Uid,
    pub title: String,
    pub is_public: bool,
    pub opens_at: Option<i64>,
    pub closes_at: Option<i64>,
}

/// A candidate row: bound to its poll and carrying a display order.
#[derive(Debug)]
pub struct Candidate {
    pub id: Uid,
    pub poll_id: Uid,
    pub name: String,
    pub display_order: u32,
}

/// An invited voter: bound to a poll, holding a single-use ballot token,
/// eligible until `voted_at` is set.
#[derive(Debug)]
pub struct Voter {
    pub id: Uid,
    pub poll_id: Uid,
    pub email: Option<String>,
    pub ballot_token: String,
    pub invited_at: i64,
    pub voted_at: Option<i64>,
}

impl Voter {
    /// Whether this voter has already submitted a ballot.
    pub fn has_voted(&self) -> (r: bool)
        ensures
            r == (self.voted_at is Some),
    {
        self.voted_at.is_some()
    }
}

/// A persisted ballot with its rankings; `voter_id` is absent for
/// anonymous ballots.
#[derive(Debug)]
pub struct StoredBallot {
    pub id: Uid,
    pub poll_id: Uid,
    pub voter_id: Option<Uid>,
    pub submitted_at: i64,
    pub rankings: Vec<BallotRanking>,
}

/// The store's full state.
#[derive(Debug)]
pub struct Store {
    pub polls: Vec<Poll>,
    pub candidates: Vec<Candidate>,
    pub voters: Vec<Voter>,
    pub ballots: Vec<StoredBallot>,
}

pub open spec fn distinct_poll_ids(polls: Seq<Poll>) -> bool {
    forall|i: int, j: int| 0 <= i < j < polls.len() ==> polls[i].id != polls[j].id
}

pub open spec fn distinct_candidate_ids(cands: Seq<Candidate>) -> bool {
    forall|i: int, j: int| 0 <= i < j < cands.len() ==> cands[i].id != cands[j].id
}

/// Voters carry unique identifiers and unique ballot tokens.
pub open spec fn distinct_voters(voters: Seq<Voter>) -> bool {
    forall|i: int, j: int|
        0 <= i < j < voters.len() ==> voters[i].id != voters[j].id
            && voters[i].ballot_token@ != voters[j].ballot_token@
}

pub open spec fn distinct_ballot_ids(ballots: Seq<StoredBallot>) -> bool {
    forall|i: int, j: int| 0 <= i < j < ballots.len() ==> ballots[i].id != ballots[j].id
}

/// At most one ballot references any invited voter: the double-submission
/// guard, enforced by the atomic submit operation.
pub open spec fn one_ballot_per_voter(ballots: Seq<StoredBallot>) -> bool {
    forall|i: int, j: int|
        0 <= i < j < ballots.len() && ballots[i].voter_id is Some ==> ballots[j].voter_id
            != ballots[i].voter_id
}

/// Every persisted ballot passed validation: at least one ranking, no
/// candidate twice, dense ranks, and a timestamp whose year has four
/// digits.
pub open spec fn ballot_shape_ok(b: StoredBallot) -> bool {
    &&& b.rankings@.len() > 0
    &&& ranks_sequential(b.rankings@)
    &&& first_duplicate_from(b.rankings@, 0) is None
    &&& 0 <= b.submitted_at < MAX_TOKEN_TIMESTAMP
}

/// A ballot that references a voter references an existing one.
pub open spec fn ballots_reference_voters(voters: Seq<Voter>, ballots: Seq<StoredBallot>) -> bool {
    forall|bi: int|
        0 <= bi < ballots.len() && (#[trigger] ballots[bi]).voter_id is Some ==> exists|vi: int|
            0 <= vi < voters.len() && voters[vi].id == ballots[bi].voter_id->Some_0
}

/// A voter referenced by a ballot is marked voted: the voted-at
/// transition is atomic with the ballot's insertion.
pub open spec fn voted_consistent(voters: Seq<Voter>, ballots: Seq<StoredBallot>) -> bool {
    forall|bi: int, vi: int|
        0 <= bi < ballots.len() && 0 <= vi < voters.len() && (#[trigger] ballots[bi]).voter_id
            == Some((#[trigger] voters[vi]).id) ==> voters[vi].voted_at is Some
}

impl Store {
    /// The store's integrity invariant, established by `new` and
    /// preserved by every operation.
    pub open spec fn wf(&self) -> bool {
        &&& distinct_poll_ids(self.polls@)
        &&& distinct_candidate_ids(self.candidates@)
        &&& distinct_voters(self.voters@)
        &&& distinct_ballot_ids(self.ballots@)
        &&& one_ballot_per_voter(self.ballots@)
        &&& (forall|i: int| 0 <= i < self.ballots@.len() ==> ballot_shape_ok(#[trigger] self.ballots@[i]))
        &&& ballots_reference_voters(self.voters@, self.ballots@)
        &&& voted_consistent(self.voters@, self.ballots@)
    }

    /// An empty store.
    pub fn new() -> (r: Store)
        ensures
            r.wf(),
            r.polls@.len() == 0,
            r.candidates@.len() == 0,
            r.voters@.len() == 0,
            r.ballots@.len() == 0,
    {
        Store { polls: Vec::new(), candidates: Vec::new(), voters: Vec::new(), ballots: Vec::new() }
    }
}

/// The index of the first poll with identifier `id`.
pub open spec fn spec_find_poll(polls: Seq<Poll>, id: Uid) -> Option<int>
    decreases polls.len(),
{
    if polls.len() == 0 {
        None
    } else if polls[0].id == id {
        Some(0int)
    } else {
        match spec_find_poll(polls.drop_first(), id) {
            Some(i) => Some(i + 1),
            None => None,
        }
    }
}

pub proof fn lemma_spec_find_poll(polls: Seq<Poll>, id: Uid)
    ensures
        match spec_find_poll(polls, id) {
            Some(i) => 0 <= i < polls.len() && polls[i].id == id && (forall|j: int|
                0 <= j < i ==> polls[j].id != id),
            None => forall|j: int| 0 <= j < polls.len() ==> polls[j].id != id,
        },
    decreases polls.len(),
{
    if polls.len() > 0 && polls[0].id != id {
        let d = polls.drop_first();
        lemma_spec_find_poll(d, id);
        match spec_find_poll(d, id) {
            Some(i) => {
                assert(polls[i + 1] == d[i]);
                assert forall|j: int| 0 <= j < i + 1 implies polls[j].id != id by {
                    if j > 0 {
                        assert(d[j - 1] == polls[j]);
                    }
                }
            },
            None => {
                assert forall|j: int| 0 <= j < polls.len() implies polls[j].id != id by {
                    if j > 0 {
                        assert(d[j - 1] == polls[j]);
                    }
                }
            },
        }
    }
}

/// The index of the first voter holding `token`.
pub open spec fn spec_find_voter_by_token(voters: Seq<Voter>, token: Seq<char>) -> Option<int>
    decreases voters.len(),
{
    if voters.len() == 0 {
        None
    } else if voters[0].ballot_token@ == token {
        Some(0int)
    } else {
        match spec_find_voter_by_token(voters.drop_first(), token) {
            Some(i) => Some(i + 1),
            None => None,
        }
    }
}

pub proof fn lemma_spec_find_voter_by_token(voters: Seq<Voter>, token: Seq<char>)
    ensures
        match spec_find_voter_by_token(voters, token) {
            Some(i) => 0 <= i < voters.len() && voters[i].ballot_token@ == token && (forall|j: int|
                0 <= j < i ==> voters[j].ballot_token@ != token),
            None => forall|j: int| 0 <= j < voters.len() ==> voters[j].ballot_token@ != token,
        },
    decreases voters.len(),
{
    if voters.len() > 0 && voters[0].ballot_token@ != token {
        let d = voters.drop_first();
        lemma_spec_find_voter_by_token(d, token);
        match spec_find_voter_by_token(d, token) {
            Some(i) => {
                assert(voters[i + 1] == d[i]);
                assert forall|j: int| 0 <= j < i + 1 implies voters[j].ballot_token@ != token by {
                    if j > 0 {
                        assert(d[j - 1] == voters[j]);
                    }
                }
            },
            None => {
                assert forall|j: int| 0 <= j < voters.len() implies voters[j].ballot_token@
                    != token by {
                    if j > 0 {
                        assert(d[j - 1] == voters[j]);
                    }
                }
            },
        }
    }
}

/// The index of the first voter with identifier `id`.
pub open spec fn spec_find_voter(voters: Seq<Voter>, id: Uid) -> Option<int>
    decreases voters.len(),
{
    if voters.len() == 0 {
        None
    } else if voters[0].id == id {
        Some(0int)
    } else {
        match spec_find_voter(voters.drop_first(), id) {
            Some(i) => Some(i + 1),
            None => None,
        }
    }
}

pub proof fn lemma_spec_find_voter(voters: Seq<Voter>, id: Uid)
    ensures
        match spec_find_voter(voters, id) {
            Some(i) => 0 <= i < voters.len() && voters[i].id == id && (forall|j: int|
                0 <= j < i ==> voters[j].id != id),
            None => forall|j: int| 0 <= j < voters.len() ==> voters[j].id != id,
        },
    decreases voters.len(),
{
    if voters.len() > 0 && voters[0].id != id {
        let d = voters.drop_first();
        lemma_spec_find_voter(d, id);
        match spec_find_voter(d, id) {
            Some(i) => {
                assert(voters[i + 1] == d[i]);
                assert forall|j: int| 0 <= j < i + 1 implies voters[j].id != id by {
                    if j > 0 {
                        assert(d[j - 1] == voters[j]);
                    }
                }
            },
            None => {
                assert forall|j: int| 0 <= j < voters.len() implies voters[j].id != id by {
                    if j > 0 {
                        assert(d[j - 1] == voters[j]);
                    }
                }
            },
        }
    }
}

/// The index of the first ballot with identifier `id`.
pub open spec fn spec_find_ballot(ballots: Seq<StoredBallot>, id: Uid) -> Option<int>
    decreases ballots.len(),
{
    if ballots.len() == 0 {
        None
    } else if ballots[0].id == id {
        Some(0int)
    } else {
        match spec_find_ballot(ballots.drop_first(), id) {
            Some(i) => Some(i + 1),
            None => None,
        }
    }
}

pub proof fn lemma_spec_find_ballot(ballots: Seq<StoredBallot>, id: Uid)
    ensures
        match spec_find_ballot(ballots, id) {
            Some(i) => 0 <= i < ballots.len() && ballots[i].id == id && (forall|j: int|
                0 <= j < i ==> ballots[j].id != id),
            None => forall|j: int| 0 <= j < ballots.len() ==> ballots[j].id != id,
        },
    decreases ballots.len(),
{
    if ballots.len() > 0 && ballots[0].id != id {
        let d = ballots.drop_first();
        lemma_spec_find_ballot(d, id);
        match spec_find_ballot(d, id) {
            Some(i) => {
                assert(ballots[i + 1] == d[i]);
                assert forall|j: int| 0 <= j < i + 1 implies ballots[j].id != id by {
                    if j > 0 {
                        assert(d[j - 1] == ballots[j]);
                    }
                }
            },
            None => {
                assert forall|j: int| 0 <= j < ballots.len() implies ballots[j].id != id by {
                    if j > 0 {
                        assert(d[j - 1] == ballots[j]);
                    }
                }
            },
        }
    }
}

/// The index of the first ballot referencing voter `id`.
pub open spec fn spec_find_ballot_of_voter(ballots: Seq<StoredBallot>, id: Uid) -> Option<int>
    decreases ballots.len(),
{
    if ballots.len() == 0 {
        None
    } else if ballots[0].voter_id == Some(id) {
        Some(0int)
    } else {
        match spec_find_ballot_of_voter(ballots.drop_first(), id) {
            Some(i) => Some(i + 1),
            None => None,
        }
    }
}

pub proof fn lemma_spec_find_ballot_of_voter(ballots: Seq<StoredBallot>, id: Uid)
    ensures
        match spec_find_ballot_of_voter(ballots, id) {
            Some(i) => 0 <= i < ballots.len() && ballots[i].voter_id == Some(id) && (forall|j: int|
                0 <= j < i ==> ballots[j].voter_id != Some(id)),
            None => forall|j: int| 0 <= j < ballots.len() ==> ballots[j].voter_id != Some(id),
        },
    decreases ballots.len(),
{
    if ballots.len() > 0 && ballots[0].voter_id != Some(id) {
        let d = ballots.drop_first();
        lemma_spec_find_ballot_of_voter(d, id);
        match spec_find_ballot_of_voter(d, id) {
            Some(i) => {
                assert(ballots[i + 1] == d[i]);
                assert forall|j: int| 0 <= j < i + 1 implies ballots[j].voter_id != Some(id) by {
                    if j > 0 {
                        assert(d[j - 1] == ballots[j]);
                    }
                }
            },
            None => {
                assert forall|j: int| 0 <= j < ballots.len() implies ballots[j].voter_id != Some(
                    id,
                ) by {
                    if j > 0 {
                        assert(d[j - 1] == ballots[j]);
                    }
                }
            },
        }
    }
}

/// The identifiers of the first `n` candidate rows that belong to poll
/// `pid`, in store order.
pub open spec fn cand_ids_for_upto(cands: Seq<Candidate>, pid: Uid, n: int) -> Seq<Uid>
    decreases n,
{
    if n <= 0 {
        Seq::empty()
    } else {
        let rest = cand_ids_for_upto(cands, pid, n - 1);
        if cands[n - 1].poll_id == pid {
            rest.push(cands[n - 1].id)
        } else {
            rest
        }
    }
}

/// The identifiers of the poll's candidates, in store order.
pub open spec fn spec_cand_ids_for(cands: Seq<Candidate>, pid: Uid) -> Seq<Uid> {
    cand_ids_for_upto(cands, pid, cands.len() as int)
}

impl Store {
    /// Locate a poll by identifier.
    pub fn find_poll_index(&self, id: &Uid) -> (r: Option<usize>)
        ensures
            match spec_find_poll(self.polls@, *id) {
                Some(i) => r is Some && r->Some_0 == i,
                None => r is None,
            },
            r is Some ==> r->Some_0 < self.polls@.len(),
    {
        proof {
            lemma_spec_find_poll(self.polls@, *id);
        }
        let n = self.polls.len();
        let mut i: usize = 0;
        while i < n
            invariant
                0 <= i <= n,
                n == self.polls@.len(),
                forall|j: int| 0 <= j < i ==> self.polls@[j].id != *id,
                match spec_find_poll(self.polls@, *id) {
                    Some(k) => 0 <= k < n && self.polls@[k].id == *id && (forall|j: int|
                        0 <= j < k ==> self.polls@[j].id != *id),
                    None => forall|j: int| 0 <= j < n ==> self.polls@[j].id != *id,
                },
            decreases n - i,
        {
            if self.polls[i].id.hi == id.hi && self.polls[i].id.lo == id.lo {
                assert(self.polls@[i as int].id == *id);
                return Some(i);
            }
            assert(self.polls@[i as int].id != *id);
            i += 1;
        }
        None
    }

    /// Locate a voter by ballot token: the sole authentication for
    /// reading and submitting a ballot.
    pub fn find_voter_by_token(&self, token: &String) -> (r: Option<usize>)
        ensures
            match spec_find_voter_by_token(self.voters@, token@) {
                Some(i) => r is Some && r->Some_0 == i,
                None => r is None,
            },
            r is Some ==> r->Some_0 < self.voters@.len(),
    {
        proof {
            lemma_spec_find_voter_by_token(self.voters@, token@);
        }
        let n = self.voters.len();
        let mut i: usize = 0;
        while i < n
            invariant
                0 <= i <= n,
                n == self.voters@.len(),
                forall|j: int| 0 <= j < i ==> self.voters@[j].ballot_token@ != token@,
                match spec_find_voter_by_token(self.voters@, token@) {
                    Some(k) => 0 <= k < n && self.voters@[k].ballot_token@ == token@ && (forall|
                        j: int,
                    | 0 <= j < k ==> self.voters@[j].ballot_token@ != token@),
                    None => forall|j: int| 0 <= j < n ==> self.voters@[j].ballot_token@ != token@,
                },
            decreases n - i,
        {
            if self.voters[i].ballot_token == *token {
                assert(self.voters@[i as int].ballot_token@ == token@);
                return Some(i);
            }
            assert(self.voters@[i as int].ballot_token@ != token@);
            i += 1;
        }
        None
    }

    /// Locate a ballot by identifier.
    pub fn find_ballot_index(&self, id: &Uid) -> (r: Option<usize>)
        ensures
            match spec_find_ballot(self.ballots@, *id) {
                Some(i) => r is Some && r->Some_0 == i,
                None => r is None,
            },
            r is Some ==> r->Some_0 < self.ballots@.len(),
    {
        proof {
            lemma_spec_find_ballot(self.ballots@, *id);
        }
        let n = self.ballots.len();
        let mut i: usize = 0;
        while i < n
            invariant
                0 <= i <= n,
                n == self.ballots@.len(),
                forall|j: int| 0 <= j < i ==> self.ballots@[j].id != *id,
                match spec_find_ballot(self.ballots@, *id) {
                    Some(k) => 0 <= k < n && self.ballots@[k].id == *id && (forall|j: int|
                        0 <= j < k ==> self.ballots@[j].id != *id),
                    None => forall|j: int| 0 <= j < n ==> self.ballots@[j].id != *id,
                },
            decreases n - i,
        {
            if self.ballots[i].id.hi == id.hi && self.ballots[i].id.lo == id.lo {
                assert(self.ballots@[i as int].id == *id);
                return Some(i);
            }
            assert(self.ballots@[i as int].id != *id);
            i += 1;
        }
        None
    }

    /// Locate the ballot of an invited voter, if one exists.
    pub fn find_ballot_of_voter(&self, voter_id: &Uid) -> (r: Option<usize>)
        ensures
            match spec_find_ballot_of_voter(self.ballots@, *voter_id) {
                Some(i) => r is Some && r->Some_0 == i,
                None => r is None,
            },
            r is Some ==> r->Some_0 < self.ballots@.len(),
    {
        proof {
            lemma_spec_find_ballot_of_voter(self.ballots@, *voter_id);
        }
        let n = self.ballots.len();
        let mut i: usize = 0;
        while i < n
            invariant
                0 <= i <= n,
                n == self.ballots@.len(),
                forall|j: int| 0 <= j < i ==> self.ballots@[j].voter_id != Some(*voter_id),
                match spec_find_ballot_of_voter(self.ballots@, *voter_id) {
                    Some(k) => 0 <= k < n && self.ballots@[k].voter_id == Some(*voter_id) && (
                    forall|j: int| 0 <= j < k ==> self.ballots@[j].voter_id != Some(*voter_id)),
                    None => forall|j: int|
                        0 <= j < n ==> self.ballots@[j].voter_id != Some(*voter_id),
                },
            decreases n - i,
        {
            let hit = match &self.ballots[i].voter_id {
                Some(v) => v.hi == voter_id.hi && v.lo == voter_id.lo,
                None => false,
            };
            if hit {
                assert(self.ballots@[i as int].voter_id == Some(*voter_id));
                return Some(i);
            }
            assert(self.ballots@[i as int].voter_id != Some(*voter_id));
            i += 1;
        }
        None
    }

    /// The candidate identifiers of a poll, in store order.
    pub fn poll_candidate_ids(&self, poll_id: &Uid) -> (r: Vec<Uid>)
        ensures
            r@ == spec_cand_ids_for(self.candidates@, *poll_id),
    {
        let n = self.candidates.len();
        let mut out: Vec<Uid> = Vec::new();
        let mut i: usize = 0;
        proof {
            assert(out@ =~= cand_ids_for_upto(self.candidates@, *poll_id, 0));
        }
        while i < n
            invariant
                0 <= i <= n,
                n == self.candidates@.len(),
                out@ == cand_ids_for_upto(self.candidates@, *poll_id, i as int),
            decreases n - i,
        {
            if self.candidates[i].poll_id.hi == poll_id.hi && self.candidates[i].poll_id.lo
                == poll_id.lo {
                assert(self.candidates@[i as int].poll_id == *poll_id);
                out.push(self.candidates[i].id);
                assert(out@ =~= cand_ids_for_upto(self.candidates@, *poll_id, i as int + 1));
            } else {
                assert(self.candidates@[i as int].poll_id != *poll_id);
                assert(out@ =~= cand_ids_for_upto(self.candidates@, *poll_id, i as int + 1));
            }
            i += 1;
        }
        out
    }
}

/// The voter `v` with its voted-at mark set to `now`.
pub open spec fn marked_voted(v: Voter, now: i64) -> Voter {
    Voter {
        id: v.id,
        poll_id: v.poll_id,
        email: v.email,
        ballot_token: v.ballot_token,
        invited_at: v.invited_at,
        voted_at: Some(now),
    }
}

impl Store {
    /// Locate a voter by identifier.
    pub fn find_voter_index(&self, id: &Uid) -> (r: Option<usize>)
        ensures
            match spec_find_voter(self.voters@, *id) {
                Some(i) => r is Some && r->Some_0 == i,
                None => r is None,
            },
            r is Some ==> r->Some_0 < self.voters@.len(),
    {
        proof {
            lemma_spec_find_voter(self.voters@, *id);
        }
        let n = self.voters.len();
        let mut i: usize = 0;
        while i < n
            invariant
                0 <= i <= n,
                n == self.voters@.len(),
                forall|j: int| 0 <= j < i ==> self.voters@[j].id != *id,
                match spec_find_voter(self.voters@, *id) {
                    Some(k) => 0 <= k < n && self.voters@[k].id == *id && (forall|j: int|
                        0 <= j < k ==> self.voters@[j].id != *id),
                    None => forall|j: int| 0 <= j < n ==> self.voters@[j].id != *id,
                },
            decreases n - i,
        {
            if self.voters[i].id.hi == id.hi && self.voters[i].id.lo == id.lo {
                assert(self.voters@[i as int].id == *id);
                return Some(i);
            }
            assert(self.voters@[i as int].id != *id);
            i += 1;
        }
        None
    }

    /// Insert a poll; refused when its identifier is already taken.
    pub fn add_poll(&mut self, poll: Poll) -> (r: Result<(), ErrorCode>)
        requires
            old(self).wf(),
        ensures
            final(self).wf(),
            r is Ok <==> spec_find_poll(old(self).polls@, poll.id) is None,
            r is Ok ==> final(self).polls@ == old(self).polls@.push(poll),
            r is Err ==> final(self).polls@ == old(self).polls@ && r->Err_0 == ErrorCode::InternalError,
            final(self).candidates@ == old(self).candidates@,
            final(self).voters@ == old(self).voters@,
            final(self).ballots@ == old(self).ballots@,
    {
        proof {
            lemma_spec_find_poll(self.polls@, poll.id);
        }
        if self.find_poll_index(&poll.id).is_some() {
            return Err(ErrorCode::InternalError);
        }
        let ghost old_polls = self.polls@;
        self.polls.push(poll);
        proof {
            assert forall|i: int, j: int| 0 <= i < j < self.polls@.len() implies self.polls@[i].id
                != self.polls@[j].id by {
                if j < old_polls.len() {
                    assert(self.polls@[i] == old_polls[i] && self.polls@[j] == old_polls[j]);
                } else {
                    assert(self.polls@[i] == old_polls[i]);
                }
            }
        }
        Ok(())
    }

    /// Insert a candidate row; refused when its identifier is taken.
    pub fn add_candidate(&mut self, cand: Candidate) -> (r: Result<(), ErrorCode>)
        requires
            old(self).wf(),
        ensures
            final(self).wf(),
            r is Ok <==> (forall|i: int|
                0 <= i < old(self).candidates@.len() ==> (#[trigger] old(self).candidates@[i]).id
                    != cand.id),
            r is Ok ==> final(self).candidates@ == old(self).candidates@.push(cand),
            r is Err ==> final(self).candidates@ == old(self).candidates@ && r->Err_0
                == ErrorCode::InternalError,
            final(self).polls@ == old(self).polls@,
            final(self).voters@ == old(self).voters@,
            final(self).ballots@ == old(self).ballots@,
    {
        let n = self.candidates.len();
        let mut i: usize = 0;
        while i < n
            invariant
                0 <= i <= n,
                n == self.candidates@.len(),
                *self == *old(self),
                self.wf(),
                forall|j: int| 0 <= j < i ==> self.candidates@[j].id != cand.id,
            decreases n - i,
        {
            if self.candidates[i].id.hi == cand.id.hi && self.candidates[i].id.lo == cand.id.lo {
                assert(self.candidates@[i as int].id == cand.id);
                return Err(ErrorCode::InternalError);
            }
            assert(self.candidates@[i as int].id != cand.id);
            i += 1;
        }
        let ghost old_cands = self.candidates@;
        self.candidates.push(cand);
        proof {
            assert forall|i: int, j: int| 0 <= i < j < self.candidates@.len() implies self.candidates@[
                i].id != self.candidates@[j].id by {
                if j < old_cands.len() {
                    assert(self.candidates@[i] == old_cands[i] && self.candidates@[j]
                        == old_cands[j]);
                } else {
                    assert(self.candidates@[i] == old_cands[i]);
                }
            }
        }
        Ok(())
    }

    /// Insert an eligible voter; refused when its identifier or its
    /// ballot token is already taken.
    pub fn create_voter(&mut self, voter: Voter) -> (r: Result<(), ErrorCode>)
        requires
            old(self).wf(),
            voter.voted_at is None,
        ensures
            final(self).wf(),
            r is Ok <==> (spec_find_voter(old(self).voters@, voter.id) is None
                && spec_find_voter_by_token(old(self).voters@, voter.ballot_token@) is None),
            r is Ok ==> final(self).voters@ == old(self).voters@.push(voter),
            r is Err ==> final(self).voters@ == old(self).voters@ && r->Err_0 == ErrorCode::InternalError,
            final(self).polls@ == old(self).polls@,
            final(self).candidates@ == old(self).candidates@,
            final(self).ballots@ == old(self).ballots@,
    {
        proof {
            lemma_spec_find_voter(self.voters@, voter.id);
            lemma_spec_find_voter_by_token(self.voters@, voter.ballot_token@);
        }
        if self.find_voter_index(&voter.id).is_some() {
            return Err(ErrorCode::InternalError);
        }
        if self.find_voter_by_token(&voter.ballot_token).is_some() {
            return Err(ErrorCode::InternalError);
        }
        let ghost old_voters = self.voters@;
        let ghost old_ballots = self.ballots@;
        self.voters.push(voter);
        proof {
            assert forall|i: int, j: int| 0 <= i < j < self.voters@.len() implies self.voters@[
                i].id != self.voters@[j].id && self.voters@[i].ballot_token@ != self.voters@[
                j].ballot_token@ by {
                if j < old_voters.len() {
                    assert(self.voters@[i] == old_voters[i] && self.voters@[j] == old_voters[j]);
                } else {
                    assert(self.voters@[i] == old_voters[i]);
                }
            }
            assert(ballots_reference_voters(self.voters@, self.ballots@)) by {
                assert forall|bi: int|
                    0 <= bi < self.ballots@.len() && (#[trigger] self.ballots@[bi]).voter_id
                        is Some implies exists|vi: int|
                    0 <= vi < self.voters@.len() && self.voters@[vi].id == self.ballots@[
                    bi].voter_id->Some_0 by {
                    let vi = choose|vi: int|
                        0 <= vi < old_voters.len() && old_voters[vi].id == old_ballots[
                        bi].voter_id->Some_0;
                    assert(self.voters@[vi].id == self.ballots@[bi].voter_id->Some_0);
                }
            }
            assert(voted_consistent(self.voters@, self.ballots@)) by {
                assert forall|bi: int, vi: int|
                    0 <= bi < self.ballots@.len() && 0 <= vi < self.voters@.len() && (
                    #[trigger] self.ballots@[bi]).voter_id == Some(
                        (#[trigger] self.voters@[vi]).id,
                    ) implies self.voters@[vi].voted_at is Some by {
                    if vi < old_voters.len() {
                        assert(old_ballots[bi].voter_id == Some(old_voters[vi].id));
                    } else {
                        // the new voter: some existing voter carries the
                        // referenced id, and ids are unique
                        let wi = choose|wi: int|
                            0 <= wi < old_voters.len() && old_voters[wi].id == old_ballots[
                            bi].voter_id->Some_0;
                        assert(old_voters[wi].id == voter.id);
                        assert(false);
                    }
                }
            }
        }
        Ok(())
    }

    /// Create and insert a voter for a poll: a fresh identifier and a
    /// fresh single-use ballot token.  Returns the new voter's position.
    ///
    /// Success cannot be promised outright: the identifier and the token
    /// are random draws, and a draw that collides with an existing row is
    /// refused rather than overwritten.  Everything else is pinned:
    /// `NotFound` exactly when the poll is absent, `InternalError` for a
    /// collision, and on success a voter row holding the given poll,
    /// email and time, not yet voted, with a token of the issued shape.
    pub fn invite_voter(&mut self, poll_id: &Uid, email: Option<String>, now: i64) -> (r: Result<
        usize,
        ErrorCode,
    >)
        requires
            old(self).wf(),
            0 <= now < MAX_TOKEN_TIMESTAMP,
        ensures
            final(self).wf(),
            final(self).polls@ == old(self).polls@,
            final(self).candidates@ == old(self).candidates@,
            final(self).ballots@ == old(self).ballots@,
            r is Err ==> final(self).voters@ == old(self).voters@,
            r == Err::<usize, ErrorCode>(ErrorCode::NotFound) <==> spec_find_poll(
                old(self).polls@,
                *poll_id,
            ) is None,
            spec_find_poll(old(self).polls@, *poll_id) is Some && r is Err ==> r->Err_0
                == ErrorCode::InternalError,
            r is Ok ==> ({
                let v = final(self).voters@.last();
                &&& r->Ok_0 == old(self).voters@.len()
                &&& final(self).voters@ == old(self).voters@.push(v)
                &&& v.poll_id == *poll_id
                &&& v.email == email
                &&& v.invited_at == now
                &&& v.voted_at is None
                &&& crate::token::is_ballot_token(
                    v.ballot_token@,
                    crate::token::year_of(now) as int,
                )
                &&& v.ballot_token@.len() == 16
            }),
    {
        if self.find_poll_index(poll_id).is_none() {
            return Err(ErrorCode::NotFound);
        }
        let id = crate::token::fresh_uid();
        let tok = crate::token::new_ballot_token(now);
        let idx = self.voters.len();
        let voter = Voter {
            id,
            poll_id: *poll_id,
            email,
            ballot_token: tok,
            invited_at: now,
            voted_at: None,
        };
        match self.create_voter(voter) {
            Ok(()) => Ok(idx),
            Err(e) => Err(e),
        }
    }

    /// Set a voter's voted-at mark, conditional on it being unset: the
    /// eligible-to-voted transition happens at most once.  Returns true
    /// exactly when the voter exists and had not voted; a voter already
    /// marked keeps its original timestamp and the store is unchanged.
    pub fn mark_as_voted(&mut self, voter_id: &Uid, now: i64) -> (r: bool)
        requires
            old(self).wf(),
        ensures
            final(self).wf(),
            r == (match spec_find_voter(old(self).voters@, *voter_id) {
                Some(vi) => old(self).voters@[vi].voted_at is None,
                None => false,
            }),
            r ==> final(self).voters@ == old(self).voters@.update(
                spec_find_voter(old(self).voters@, *voter_id)->Some_0,
                marked_voted(
                    old(self).voters@[spec_find_voter(old(self).voters@, *voter_id)->Some_0],
                    now,
                ),
            ),
            !r ==> final(self).voters@ == old(self).voters@,
            final(self).polls@ == old(self).polls@,
            final(self).candidates@ == old(self).candidates@,
            final(self).ballots@ == old(self).ballots@,
    {
        let vi = match self.find_voter_index(voter_id) {
            Some(vi) => vi,
            None => {
                return false;
            },
        };
        if self.voters[vi].has_voted() {
            return false;
        }
        let ghost old_voters = self.voters@;
        let v_old = self.voters.remove(vi);
        let v_new = Voter {
            id: v_old.id,
            poll_id: v_old.poll_id,
            email: v_old.email,
            ballot_token: v_old.ballot_token,
            invited_at: v_old.invited_at,
            voted_at: Some(now),
        };
        self.voters.insert(vi, v_new);
        proof {
            assert(self.voters@ =~= old_voters.update(
                vi as int,
                marked_voted(old_voters[vi as int], now),
            ));
            lemma_mark_voted_preserves_wf(old_voters, self.ballots@, vi as int, now);
        }
        true
    }
}

/// What submitting an invited ballot decides, as a function of the
/// store's state and the request: find the voter by token, find its
/// poll, validate the submission, and refuse a ballot identifier that is
/// already taken.
pub open spec fn spec_submit_decision(
    polls: Seq<Poll>,
    cands: Seq<Candidate>,
    voters: Seq<Voter>,
    ballots: Seq<StoredBallot>,
    token: Seq<char>,
    entries: Vec<BallotRanking>,
    now: i64,
    new_id: Uid,
) -> Result<Uid, ErrorCode> {
    match spec_find_voter_by_token(voters, token) {
        None => Err(ErrorCode::NotFound),
        Some(vi) => {
            let voter = voters[vi];
            match spec_find_poll(polls, voter.poll_id) {
                None => Err(ErrorCode::NotFound),
                Some(pi) => {
                    let poll = polls[pi];
                    match spec_validate_submission(
                        spec_cand_ids_for(cands, poll.id),
                        entries@,
                        poll.is_public,
                        poll.opens_at,
                        poll.closes_at,
                        now,
                        false,
                        voter.voted_at is Some,
                    ) {
                        Some(reason) => Err(spec_reject_error(reason)),
                        None => if spec_find_ballot(ballots, new_id) is Some {
                            Err(ErrorCode::InternalError)
                        } else {
                            Ok(new_id)
                        },
                    }
                },
            }
        },
    }
}

/// The ballot list after an invited submission: on success, the new
/// ballot is appended; otherwise nothing changes.
pub open spec fn spec_submit_ballots(
    polls: Seq<Poll>,
    cands: Seq<Candidate>,
    voters: Seq<Voter>,
    ballots: Seq<StoredBallot>,
    token: Seq<char>,
    entries: Vec<BallotRanking>,
    now: i64,
    new_id: Uid,
) -> Seq<StoredBallot> {
    if spec_submit_decision(polls, cands, voters, ballots, token, entries, now, new_id) is Ok {
        let vi = spec_find_voter_by_token(voters, token)->Some_0;
        ballots.push(
            StoredBallot {
                id: new_id,
                poll_id: voters[vi].poll_id,
                voter_id: Some(voters[vi].id),
                submitted_at: now,
                rankings: entries,
            },
        )
    } else {
        ballots
    }
}

/// The voter list after an invited submission: on success, the voter is
/// marked voted in the same step; otherwise nothing changes.
pub open spec fn spec_submit_voters(
    polls: Seq<Poll>,
    cands: Seq<Candidate>,
    voters: Seq<Voter>,
    ballots: Seq<StoredBallot>,
    token: Seq<char>,
    entries: Vec<BallotRanking>,
    now: i64,
    new_id: Uid,
) -> Seq<Voter> {
    if spec_submit_decision(polls, cands, voters, ballots, token, entries, now, new_id) is Ok {
        let vi = spec_find_voter_by_token(voters, token)->Some_0;
        voters.update(vi, marked_voted(voters[vi], now))
    } else {
        voters
    }
}

/// What submitting an anonymous ballot decides: find the poll, validate
/// the submission as anonymous, and refuse a taken ballot identifier.
pub open spec fn spec_submit_anon_decision(
    polls: Seq<Poll>,
    cands: Seq<Candidate>,
    ballots: Seq<StoredBallot>,
    poll_id: Uid,
    entries: Vec<BallotRanking>,
    now: i64,
    new_id: Uid,
) -> Result<Uid, ErrorCode> {
    match spec_find_poll(polls, poll_id) {
        None => Err(ErrorCode::NotFound),
        Some(pi) => {
            let poll = polls[pi];
            match spec_validate_submission(
                spec_cand_ids_for(cands, poll.id),
                entries@,
                poll.is_public,
                poll.opens_at,
                poll.closes_at,
                now,
                true,
                false,
            ) {
                Some(reason) => Err(spec_reject_error(reason)),
                None => if spec_find_ballot(ballots, new_id) is Some {
                    Err(ErrorCode::InternalError)
                } else {
                    Ok(new_id)
                },
            }
        },
    }
}

/// The ballot list after an anonymous submission.
pub open spec fn spec_submit_anon_ballots(
    polls: Seq<Poll>,
    cands: Seq<Candidate>,
    ballots: Seq<StoredBallot>,
    poll_id: Uid,
    entries: Vec<BallotRanking>,
    now: i64,
    new_id: Uid,
) -> Seq<StoredBallot> {
    if spec_submit_anon_decision(polls, cands, ballots, poll_id, entries, now, new_id) is Ok {
        ballots.push(
            StoredBallot {
                id: new_id,
                poll_id,
                voter_id: None,
                submitted_at: now,
                rankings: entries,
            },
        )
    } else {
        ballots
    }
}

impl Store {
    /// Submit an invited ballot: authenticate by token, validate, then —
    /// in one atomic step — insert the ballot and mark the voter voted.
    /// The new ballot identifier is supplied by the caller and must be
    /// fresh; a clash is reported, never overwritten.
    pub fn submit_ballot(
        &mut self,
        token: &String,
        entries: Vec<BallotRanking>,
        now: i64,
        new_ballot_id: Uid,
    ) -> (r: Result<Uid, ErrorCode>)
        requires
            old(self).wf(),
            0 <= now < MAX_TOKEN_TIMESTAMP,
        ensures
            final(self).wf(),
            r == spec_submit_decision(
                old(self).polls@,
                old(self).candidates@,
                old(self).voters@,
                old(self).ballots@,
                token@,
                entries,
                now,
                new_ballot_id,
            ),
            final(self).polls@ == old(self).polls@,
            final(self).candidates@ == old(self).candidates@,
            final(self).ballots@ == spec_submit_ballots(
                old(self).polls@,
                old(self).candidates@,
                old(self).voters@,
                old(self).ballots@,
                token@,
                entries,
                now,
                new_ballot_id,
            ),
            final(self).voters@ == spec_submit_voters(
                old(self).polls@,
                old(self).candidates@,
                old(self).voters@,
                old(self).ballots@,
                token@,
                entries,
                now,
                new_ballot_id,
            ),
    {
        let vi = match self.find_voter_by_token(token) {
            Some(vi) => vi,
            None => {
                return Err(ErrorCode::NotFound);
            },
        };
        let voter_id = self.voters[vi].id;
        let voter_poll = self.voters[vi].poll_id;
        let has_voted = self.voters[vi].has_voted();
        let pi = match self.find_poll_index(&voter_poll) {
            Some(pi) => pi,
            None => {
                return Err(ErrorCode::NotFound);
            },
        };
        let poll_id = self.polls[pi].id;
        let is_public = self.polls[pi].is_public;
        let opens_at = self.polls[pi].opens_at;
        let closes_at = self.polls[pi].closes_at;
        let cand_ids = self.poll_candidate_ids(&poll_id);
        match validate_submission(
            &cand_ids,
            &entries,
            is_public,
            opens_at,
            closes_at,
            now,
            false,
            has_voted,
        ) {
            Err(reason) => {
                return Err(reject_error(reason));
            },
            Ok(()) => {},
        }
        if self.find_ballot_index(&new_ballot_id).is_some() {
            return Err(ErrorCode::InternalError);
        }

        let ghost old_voters = self.voters@;
        let ghost old_ballots = self.ballots@;
        proof {
            lemma_spec_find_ballot(old_ballots, new_ballot_id);
        }
        let ballot = StoredBallot {
            id: new_ballot_id,
            poll_id: voter_poll,
            voter_id: Some(voter_id),
            submitted_at: now,
            rankings: entries,
        };
        self.ballots.push(ballot);
        let v_old = self.voters.remove(vi);
        let v_new = Voter {
            id: v_old.id,
            poll_id: v_old.poll_id,
            email: v_old.email,
            ballot_token: v_old.ballot_token,
            invited_at: v_old.invited_at,
            voted_at: Some(now),
        };
        self.voters.insert(vi, v_new);
        proof {
            assert(self.voters@ =~= old_voters.update(
                vi as int,
                marked_voted(old_voters[vi as int], now),
            ));
            lemma_mark_voted_preserves_wf(old_voters, old_ballots, vi as int, now);
            let voters2 = self.voters@;
            let ballots2 = self.ballots@;
            // no earlier ballot references this voter: it had not voted
            assert forall|bi: int|
                0 <= bi < old_ballots.len() implies (#[trigger] old_ballots[bi]).voter_id != Some(
                voter_id,
            ) by {
                if old_ballots[bi].voter_id == Some(voter_id) {
                    assert(old_ballots[bi].voter_id == Some(old_voters[vi as int].id));
                    assert(old_voters[vi as int].voted_at is Some);
                }
            }
            assert forall|i: int, j: int| 0 <= i < j < ballots2.len() implies ballots2[i].id
                != ballots2[j].id by {
                if j < old_ballots.len() {
                    assert(ballots2[i] == old_ballots[i] && ballots2[j] == old_ballots[j]);
                } else {
                    assert(ballots2[i] == old_ballots[i]);
                }
            }
            assert(one_ballot_per_voter(ballots2)) by {
                assert forall|i: int, j: int|
                    0 <= i < j < ballots2.len() && ballots2[i].voter_id is Some implies ballots2[
                    j].voter_id != ballots2[i].voter_id by {
                    if j < old_ballots.len() {
                        assert(ballots2[i] == old_ballots[i] && ballots2[j] == old_ballots[j]);
                    } else {
                        assert(ballots2[i] == old_ballots[i]);
                        assert(ballots2[j].voter_id == Some(voter_id));
                    }
                }
            }
            assert forall|i: int| 0 <= i < ballots2.len() implies ballot_shape_ok(
                #[trigger] ballots2[i],
            ) by {
                if i < old_ballots.len() {
                    assert(ballots2[i] == old_ballots[i]);
                }
            }
            assert(ballots_reference_voters(voters2, ballots2)) by {
                assert forall|bi: int|
                    0 <= bi < ballots2.len() && (#[trigger] ballots2[bi]).voter_id
                        is Some implies exists|wi: int|
                    0 <= wi < voters2.len() && voters2[wi].id == ballots2[bi].voter_id->Some_0 by {
                    if bi < old_ballots.len() {
                        assert(ballots2[bi] == old_ballots[bi]);
                    } else {
                        assert(voters2[vi as int].id == voter_id);
                    }
                }
            }
            assert(voted_consistent(voters2, ballots2)) by {
                assert forall|bi: int, wi: int|
                    0 <= bi < ballots2.len() && 0 <= wi < voters2.len() && (
                    #[trigger] ballots2[bi]).voter_id == Some(
                        (#[trigger] voters2[wi]).id,
                    ) implies voters2[wi].voted_at is Some by {
                    if bi < old_ballots.len() {
                        assert(ballots2[bi] == old_ballots[bi]);
                    } else {
                        if wi != vi as int {
                            assert(voters2[wi].id == old_voters[wi].id);
                            assert(voters2[vi as int].id == old_voters[vi as int].id);
                            assert(old_voters[wi].id != old_voters[vi as int].id);
                            assert(false);
                        }
                    }
                }
            }
        }
        Ok(new_ballot_id)
    }

    /// Submit an anonymous ballot against a public poll: validate, then
    /// insert a ballot carrying no voter.
    pub fn submit_anonymous_ballot(
        &mut self,
        poll_id: &Uid,
        entries: Vec<BallotRanking>,
        now: i64,
        new_ballot_id: Uid,
    ) -> (r: Result<Uid, ErrorCode>)
        requires
            old(self).wf(),
            0 <= now < MAX_TOKEN_TIMESTAMP,
        ensures
            final(self).wf(),
            r == spec_submit_anon_decision(
                old(self).polls@,
                old(self).candidates@,
                old(self).ballots@,
                *poll_id,
                entries,
                now,
                new_ballot_id,
            ),
            final(self).polls@ == old(self).polls@,
            final(self).candidates@ == old(self).candidates@,
            final(self).voters@ == old(self).voters@,
            final(self).ballots@ == spec_submit_anon_ballots(
                old(self).polls@,
                old(self).candidates@,
                old(self).ballots@,
                *poll_id,
                entries,
                now,
                new_ballot_id,
            ),
    {
        let pi = match self.find_poll_index(poll_id) {
            Some(pi) => pi,
            None => {
                return Err(ErrorCode::NotFound);
            },
        };
        let pid = self.polls[pi].id;
        let is_public = self.polls[pi].is_public;
        let opens_at = self.polls[pi].opens_at;
        let closes_at = self.polls[pi].closes_at;
        let cand_ids = self.poll_candidate_ids(&pid);
        match validate_submission(
            &cand_ids,
            &entries,
            is_public,
            opens_at,
            closes_at,
            now,
            true,
            false,
        ) {
            Err(reason) => {
                return Err(reject_error(reason));
            },
            Ok(()) => {},
        }
        if self.find_ballot_index(&new_ballot_id).is_some() {
            return Err(ErrorCode::InternalError);
        }
        let ghost old_ballots = self.ballots@;
        proof {
            lemma_spec_find_ballot(old_ballots, new_ballot_id);
        }
        let ballot = StoredBallot {
            id: new_ballot_id,
            poll_id: pid,
            voter_id: None,
            submitted_at: now,
            rankings: entries,
        };
        self.ballots.push(ballot);
        proof {
            let ballots2 = self.ballots@;
            lemma_spec_find_poll(self.polls@, *poll_id);
            assert(pid == *poll_id);
            assert forall|i: int, j: int| 0 <= i < j < ballots2.len() implies ballots2[i].id
                != ballots2[j].id by {
                if j < old_ballots.len() {
                    assert(ballots2[i] == old_ballots[i] && ballots2[j] == old_ballots[j]);
                } else {
                    assert(ballots2[i] == old_ballots[i]);
                }
            }
            assert(one_ballot_per_voter(ballots2)) by {
                assert forall|i: int, j: int|
                    0 <= i < j < ballots2.len() && ballots2[i].voter_id is Some implies ballots2[
                    j].voter_id != ballots2[i].voter_id by {
                    if j < old_ballots.len() {
                        assert(ballots2[i] == old_ballots[i] && ballots2[j] == old_ballots[j]);
                    } else {
                        assert(ballots2[i] == old_ballots[i]);
                    }
                }
            }
            assert forall|i: int| 0 <= i < ballots2.len() implies ballot_shape_ok(
                #[trigger] ballots2[i],
            ) by {
                if i < old_ballots.len() {
                    assert(ballots2[i] == old_ballots[i]);
                }
            }
            assert(ballots_reference_voters(self.voters@, ballots2)) by {
                assert forall|bi: int|
                    0 <= bi < ballots2.len() && (#[trigger] ballots2[bi]).voter_id
                        is Some implies exists|wi: int|
                    0 <= wi < self.voters@.len() && self.voters@[wi].id == ballots2[
                    bi].voter_id->Some_0 by {
                    assert(ballots2[bi] == old_ballots[bi]);
                }
            }
            assert(voted_consistent(self.voters@, ballots2)) by {
                assert forall|bi: int, wi: int|
                    0 <= bi < ballots2.len() && 0 <= wi < self.voters@.len() && (
                    #[trigger] ballots2[bi]).voter_id == Some(
                        (#[trigger] self.voters@[wi]).id,
                    ) implies self.voters@[wi].voted_at is Some by {
                    assert(ballots2[bi] == old_ballots[bi]);
                }
            }
        }
        Ok(new_ballot_id)
    }
}

/// A voting receipt: the handle a voter can fetch later to prove the
/// ballot exists, without revealing its rankings.
#[derive(Debug)]
pub struct VotingReceiptInfo {
    pub ballot_id: Uid,
    pub poll_id: Uid,
    pub submitted_at: i64,
    pub receipt_code: String,
}

/// Some entry of `entries` carries rank `q + 1` and candidate `c`: the
/// ballot ranks `c` at position `q` once rankings are sorted by rank.
pub open spec fn rank_matches(entries: Seq<BallotRanking>, q: int, c: Uid) -> bool {
    exists|e: int|
        0 <= e < entries.len() && (#[trigger] entries[e]).rank == q + 1 && entries[e].candidate_id
            == c
}

/// What fetching a receipt by token decides: the voter must exist and
/// have voted, and its ballot is looked up by the voter reference.
pub open spec fn spec_receipt_decision(
    voters: Seq<Voter>,
    ballots: Seq<StoredBallot>,
    token: Seq<char>,
) -> Result<(Uid, i64, Uid), ErrorCode> {
    match spec_find_voter_by_token(voters, token) {
        None => Err(ErrorCode::NotFound),
        Some(vi) => {
            if voters[vi].voted_at is None {
                Err(ErrorCode::NotVoted)
            } else {
                match spec_find_ballot_of_voter(ballots, voters[vi].id) {
                    None => Err(ErrorCode::NotFound),
                    Some(bi) => Ok((ballots[bi].id, ballots[bi].submitted_at, voters[vi].poll_id)),
                }
            }
        },
    }
}

/// The first `n` ballots that belong to poll `pid`, in store order.
pub open spec fn poll_ballots_upto(ballots: Seq<StoredBallot>, pid: Uid, n: int) -> Seq<
    StoredBallot,
>
    decreases n,
{
    if n <= 0 {
        Seq::empty()
    } else {
        let rest = poll_ballots_upto(ballots, pid, n - 1);
        if ballots[n - 1].poll_id == pid {
            rest.push(ballots[n - 1])
        } else {
            rest
        }
    }
}

/// Every ballot of the poll, in store order.
pub open spec fn spec_poll_ballots(ballots: Seq<StoredBallot>, pid: Uid) -> Seq<StoredBallot> {
    poll_ballots_upto(ballots, pid, ballots.len() as int)
}

/// Weight of a voter toward a poll's voter total.
pub open spec fn poll_voter_weight(pid: Uid) -> spec_fn(Voter) -> int {
    |v: Voter|
        if v.poll_id == pid {
            1int
        } else {
            0int
        }
}

/// Weight of a voter toward a poll's voted total.
pub open spec fn poll_voted_weight(pid: Uid) -> spec_fn(Voter) -> int {
    |v: Voter|
        if v.poll_id == pid && v.voted_at is Some {
            1int
        } else {
            0int
        }
}

/// Weight of a ballot toward a poll's anonymous-ballot total.
pub open spec fn anon_ballot_weight(pid: Uid) -> spec_fn(StoredBallot) -> int {
    |b: StoredBallot|
        if b.poll_id == pid && b.voter_id is None {
            1int
        } else {
            0int
        }
}

impl Store {
    /// Fetch the voting receipt for a token: the receipt code is a pure
    /// function of the ballot's identifier and the year it was
    /// submitted, so it reproduces the code issued at submission.
    pub fn get_voting_receipt(&self, token: &String) -> (r: Result<VotingReceiptInfo, ErrorCode>)
        requires
            self.wf(),
        ensures
            match r {
                Ok(info) => spec_receipt_decision(self.voters@, self.ballots@, token@) == Ok::<
                    (Uid, i64, Uid),
                    ErrorCode,
                >((info.ballot_id, info.submitted_at, info.poll_id)) && info.receipt_code@
                    == crate::token::spec_receipt_code(
                    false,
                    crate::token::year_of(info.submitted_at) as int,
                    info.ballot_id,
                ),
                Err(e) => spec_receipt_decision(self.voters@, self.ballots@, token@) == Err::<
                    (Uid, i64, Uid),
                    ErrorCode,
                >(e),
            },
    {
        let vi = match self.find_voter_by_token(token) {
            Some(vi) => vi,
            None => {
                return Err(ErrorCode::NotFound);
            },
        };
        if !self.voters[vi].has_voted() {
            return Err(ErrorCode::NotVoted);
        }
        let voter_id = self.voters[vi].id;
        let poll_id = self.voters[vi].poll_id;
        let bi = match self.find_ballot_of_voter(&voter_id) {
            Some(bi) => bi,
            None => {
                return Err(ErrorCode::NotFound);
            },
        };
        let ballot_id = self.ballots[bi].id;
        let submitted_at = self.ballots[bi].submitted_at;
        assert(ballot_shape_ok(self.ballots@[bi as int]));
        let year = crate::token::timestamp_year(submitted_at);
        let code = crate::token::receipt_code(false, year, &ballot_id);
        Ok(
            VotingReceiptInfo {
                ballot_id,
                poll_id,
                submitted_at,
                receipt_code: code,
            },
        )
    }

    /// Every ballot of a poll, shaped for the tabulator: rankings in
    /// ascending rank order, anonymous ballots carrying the zero voter
    /// identifier.
    pub fn find_ballots_for_tabulation(&self, poll_id: &Uid) -> (r: Vec<crate::rcv::Ballot>)
        requires
            self.wf(),
        ensures
            ({
                let src = spec_poll_ballots(self.ballots@, *poll_id);
                &&& r@.len() == src.len()
                &&& forall|m: int|
                    0 <= m < src.len() ==> {
                        let out = #[trigger] r@[m];
                        let sb = src[m];
                        &&& out.id == sb.id
                        &&& out.voter_id == (match sb.voter_id {
                            Some(v) => v,
                            None => Uid { hi: 0, lo: 0 },
                        })
                        &&& out.rankings@.len() == sb.rankings@.len()
                        &&& forall|q: int|
                            #![trigger out.rankings@[q]]
                            0 <= q < out.rankings@.len() ==> rank_matches(
                                sb.rankings@,
                                q,
                                out.rankings@[q],
                            )
                    }
            }),
    {
        let nb = self.ballots.len();
        let mut out: Vec<crate::rcv::Ballot> = Vec::new();
        let mut bi: usize = 0;
        proof {
            assert(poll_ballots_upto(self.ballots@, *poll_id, 0) =~= Seq::<StoredBallot>::empty());
        }
        while bi < nb
            invariant
                0 <= bi <= nb,
                nb == self.ballots@.len(),
                self.wf(),
                ({
                    let src = poll_ballots_upto(self.ballots@, *poll_id, bi as int);
                    &&& out@.len() == src.len()
                    &&& forall|m: int|
                        0 <= m < src.len() ==> {
                            let o = #[trigger] out@[m];
                            let sb = src[m];
                            &&& o.id == sb.id
                            &&& o.voter_id == (match sb.voter_id {
                                Some(v) => v,
                                None => Uid { hi: 0, lo: 0 },
                            })
                            &&& o.rankings@.len() == sb.rankings@.len()
                            &&& forall|q: int|
                                #![trigger o.rankings@[q]]
                                0 <= q < o.rankings@.len() ==> rank_matches(
                                    sb.rankings@,
                                    q,
                                    o.rankings@[q],
                                )
                        }
                }),
            decreases nb - bi,
        {
            let ghost src0 = poll_ballots_upto(self.ballots@, *poll_id, bi as int);
            if self.ballots[bi].poll_id.hi == poll_id.hi && self.ballots[bi].poll_id.lo
                == poll_id.lo {
                assert(self.ballots@[bi as int].poll_id == *poll_id);
                let sb = &self.ballots[bi];
                assert(ballot_shape_ok(self.ballots@[bi as int]));
                let nr = sb.rankings.len();
                proof {
                    crate::validate::lemma_sequential_len_bound(sb.rankings@);
                }
                let mut ranks: Vec<Uid> = Vec::new();
                let mut q: usize = 0;
                while q < nr
                    invariant
                        0 <= q <= nr,
                        nr == sb.rankings@.len(),
                        ranks_sequential(sb.rankings@),
                        nr <= i32::MAX,
                        ranks@.len() == q,
                        forall|qq: int|
                            #![trigger ranks@[qq]]
                            0 <= qq < q ==> rank_matches(sb.rankings@, qq, ranks@[qq]),
                    decreases nr - q,
                {
                    assert(crate::validate::rank_count(sb.rankings@, q as int + 1) == 1);
                    let c = candidate_with_rank(&sb.rankings, (q + 1) as i32);
                    let ghost ranks0 = ranks@;
                    ranks.push(c);
                    proof {
                        assert(rank_matches(sb.rankings@, q as int, c));
                        assert forall|qq: int|
                            #![trigger ranks@[qq]]
                            0 <= qq < q + 1 implies rank_matches(sb.rankings@, qq, ranks@[qq]) by {
                            if qq < q {
                                assert(ranks@[qq] == ranks0[qq]);
                                assert(rank_matches(sb.rankings@, qq, ranks0[qq]));
                            } else {
                                assert(ranks@[qq] == c);
                            }
                        }
                    }
                    q += 1;
                }
                let voter_uid = match &sb.voter_id {
                    Some(v) => Uid { hi: v.hi, lo: v.lo },
                    None => Uid { hi: 0, lo: 0 },
                };
                proof {
                    match sb.voter_id {
                        Some(v) => {
                            assert(voter_uid == v);
                        },
                        None => {},
                    }
                }
                let b = crate::rcv::Ballot {
                    id: sb.id,
                    voter_id: voter_uid,
                    rankings: ranks,
                };
                let ghost out0 = out@;
                out.push(b);
                proof {
                    let here = self.ballots@[bi as int];
                    let src1 = poll_ballots_upto(self.ballots@, *poll_id, bi as int + 1);
                    assert(src1 =~= src0.push(here));
                    assert forall|m: int| 0 <= m < src1.len() implies {
                        let o = #[trigger] out@[m];
                        let sbm = src1[m];
                        &&& o.id == sbm.id
                        &&& o.voter_id == (match sbm.voter_id {
                            Some(v) => v,
                            None => Uid { hi: 0, lo: 0 },
                        })
                        &&& o.rankings@.len() == sbm.rankings@.len()
                        &&& forall|q: int|
                            #![trigger o.rankings@[q]]
                            0 <= q < o.rankings@.len() ==> rank_matches(
                                sbm.rankings@,
                                q,
                                o.rankings@[q],
                            )
                    } by {
                        if m < src0.len() {
                            assert(out@[m] == out0[m]);
                            assert(src1[m] == src0[m]);
                        } else {
                            assert(out@[m] == b);
                            assert(src1[m] == here);
                        }
                    }
                }
            } else {
                assert(self.ballots@[bi as int].poll_id != *poll_id);
                proof {
                    assert(poll_ballots_upto(self.ballots@, *poll_id, bi as int + 1) =~= src0);
                }
            }
            bi += 1;
        }
        out
    }

    /// The number of voters invited to a poll and the number of those
    /// that have voted.
    pub fn voter_counts_for_poll(&self, poll_id: &Uid) -> (r: (usize, usize))
        ensures
            r.0 as int == sum_by(self.voters@, poll_voter_weight(*poll_id)),
            r.1 as int == sum_by(self.voters@, poll_voted_weight(*poll_id)),
            r.1 <= r.0 <= self.voters@.len(),
    {
        let n = self.voters.len();
        let mut total: usize = 0;
        let mut voted: usize = 0;
        let mut i: usize = 0;
        proof {
            assert(self.voters@.subrange(0, 0) =~= Seq::<Voter>::empty());
        }
        while i < n
            invariant
                0 <= i <= n,
                n == self.voters@.len(),
                total as int == sum_by(self.voters@.subrange(0, i as int), poll_voter_weight(*poll_id)),
                voted as int == sum_by(self.voters@.subrange(0, i as int), poll_voted_weight(*poll_id)),
                voted <= total <= i,
            decreases n - i,
        {
            proof {
                let pre = self.voters@.subrange(0, i as int);
                assert(self.voters@.subrange(0, i as int + 1) =~= pre.push(
                    self.voters@[i as int],
                ));
                lemma_sum_by_push(pre, poll_voter_weight(*poll_id), self.voters@[i as int]);
                lemma_sum_by_push(pre, poll_voted_weight(*poll_id), self.voters@[i as int]);
            }
            if self.voters[i].poll_id.hi == poll_id.hi && self.voters[i].poll_id.lo == poll_id.lo {
                assert(self.voters@[i as int].poll_id == *poll_id);
                total += 1;
                if self.voters[i].has_voted() {
                    voted += 1;
                }
            } else {
                assert(self.voters@[i as int].poll_id != *poll_id);
            }
            i += 1;
        }
        proof {
            assert(self.voters@.subrange(0, n as int) =~= self.voters@);
        }
        (total, voted)
    }

    /// The number of anonymous ballots a poll holds.
    pub fn count_anonymous_ballots(&self, poll_id: &Uid) -> (r: usize)
        ensures
            r as int == sum_by(self.ballots@, anon_ballot_weight(*poll_id)),
            r <= self.ballots@.len(),
    {
        let n = self.ballots.len();
        let mut cnt: usize = 0;
        let mut i: usize = 0;
        proof {
            assert(self.ballots@.subrange(0, 0) =~= Seq::<StoredBallot>::empty());
        }
        while i < n
            invariant
                0 <= i <= n,
                n == self.ballots@.len(),
                cnt as int == sum_by(
                    self.ballots@.subrange(0, i as int),
                    anon_ballot_weight(*poll_id),
                ),
                cnt <= i,
            decreases n - i,
        {
            proof {
                let pre = self.ballots@.subrange(0, i as int);
                assert(self.ballots@.subrange(0, i as int + 1) =~= pre.push(
                    self.ballots@[i as int],
                ));
                lemma_sum_by_push(pre, anon_ballot_weight(*poll_id), self.ballots@[i as int]);
            }
            let is_anon = match &self.ballots[i].voter_id {
                Some(_) => false,
                None => true,
            };
            if is_anon && self.ballots[i].poll_id.hi == poll_id.hi && self.ballots[i].poll_id.lo
                == poll_id.lo {
                assert(self.ballots@[i as int].poll_id == *poll_id);
                cnt += 1;
            } else {
                assert(anon_ballot_weight(*poll_id)(self.ballots@[i as int]) == 0);
            }
            i += 1;
        }
        proof {
            assert(self.ballots@.subrange(0, n as int) =~= self.ballots@);
        }
        cnt
    }
}

/// The candidate ranked at position `k` of a validated ballot: the
/// unique entry carrying that rank.
fn candidate_with_rank(entries: &Vec<BallotRanking>, k: i32) -> (r: Uid)
    requires
        crate::validate::rank_count(entries@, k as int) == 1,
    ensures
        rank_matches(entries@, k as int - 1, r),
{
    let n = entries.len();
    let mut i: usize = 0;
    while i < n
        invariant
            0 <= i <= n,
            n == entries@.len(),
            crate::validate::rank_count(entries@, k as int) == 1,
            forall|j: int| 0 <= j < i ==> (#[trigger] entries@[j]).rank != k,
        decreases n - i,
    {
        if entries[i].rank == k {
            assert(entries@[i as int].rank == k);
            assert(rank_matches(entries@, k as int - 1, entries@[i as int].candidate_id));
            return entries[i].candidate_id;
        }
        assert(entries@[i as int].rank != k);
        i += 1;
    }
    proof {
        crate::validate::lemma_rank_count_none(entries@, k as int);
        assert(false);
    }
    Uid { hi: 0, lo: 0 }
}

/// What fetching a ballot form by token decides: the token must name a
/// voter that has not voted, on a poll that exists and is open.
pub open spec fn spec_ballot_view_decision(
    polls: Seq<Poll>,
    voters: Seq<Voter>,
    token: Seq<char>,
    now: i64,
) -> Result<(int, int), ErrorCode> {
    match spec_find_voter_by_token(voters, token) {
        None => Err(ErrorCode::NotFound),
        Some(vi) => {
            if voters[vi].voted_at is Some {
                Err(ErrorCode::AlreadyVoted)
            } else {
                match spec_find_poll(polls, voters[vi].poll_id) {
                    None => Err(ErrorCode::NotFound),
                    Some(pi) => {
                        if !crate::validate::spec_poll_open(
                            polls[pi].opens_at,
                            polls[pi].closes_at,
                            now,
                        ) {
                            Err(ErrorCode::PollClosed)
                        } else {
                            Ok((pi, vi))
                        }
                    },
                }
            }
        },
    }
}

impl Store {
    /// Resolve a ballot token for display: on success the positions of
    /// the poll and the voter; otherwise why the form cannot be shown.
    pub fn get_ballot_view(&self, token: &String, now: i64) -> (r: Result<(usize, usize), ErrorCode>)
        ensures
            match spec_ballot_view_decision(self.polls@, self.voters@, token@, now) {
                Ok((pi, vi)) => r is Ok && r->Ok_0.0 == pi && r->Ok_0.1 == vi && pi
                    < self.polls@.len() && vi < self.voters@.len(),
                Err(e) => r is Err && r->Err_0 == e,
            },
    {
        let vi = match self.find_voter_by_token(token) {
            Some(vi) => vi,
            None => {
                return Err(ErrorCode::NotFound);
            },
        };
        if self.voters[vi].has_voted() {
            return Err(ErrorCode::AlreadyVoted);
        }
        let pi = match self.find_poll_index(&self.voters[vi].poll_id) {
            Some(pi) => pi,
            None => {
                return Err(ErrorCode::NotFound);
            },
        };
        let open = match self.polls[pi].opens_at {
            Some(o) => now >= o,
            None => true,
        } && match self.polls[pi].closes_at {
            Some(c) => now <= c,
            None => true,
        };
        if !open {
            return Err(ErrorCode::PollClosed);
        }
        Ok((pi, vi))
    }
}

/// In a well-formed store, at most one row in the ballot table
/// references any invited voter.
pub proof fn lemma_one_ballot_per_voter(s: &Store)
    requires
        s.wf(),
    ensures
        one_ballot_per_voter(s.ballots@),
{
}

/// Updating one voter without touching its token leaves the token lookup
/// unchanged.
proof fn lemma_find_token_after_update(voters: Seq<Voter>, token: Seq<char>, vi: int, v2: Voter)
    requires
        0 <= vi < voters.len(),
        v2.ballot_token == voters[vi].ballot_token,
        spec_find_voter_by_token(voters, token) == Some(vi),
    ensures
        spec_find_voter_by_token(voters.update(vi, v2), token) == Some(vi),
{
    let voters2 = voters.update(vi, v2);
    lemma_spec_find_voter_by_token(voters, token);
    lemma_spec_find_voter_by_token(voters2, token);
    assert(voters2[vi].ballot_token@ == token);
    match spec_find_voter_by_token(voters2, token) {
        None => {
            assert(false);
        },
        Some(k) => {
            if k < vi {
                assert(voters2[k].ballot_token@ == token);
                assert(voters[k] == voters2[k]);
            } else if k > vi {
                assert(voters2[vi].ballot_token@ != token);
            }
        },
    }
}

/// Submitting a ballot twice with the same token gives exactly one
/// success and one `ALREADY_VOTED` rejection: after a successful
/// submission, any replay with that token — whatever ballot, identifier
/// or time it uses, provided it would otherwise be acceptable — is
/// rejected with `AlreadyVoted`, and a rejected submission changes
/// nothing.
pub proof fn lemma_double_submission(
    polls: Seq<Poll>,
    cands: Seq<Candidate>,
    voters: Seq<Voter>,
    ballots: Seq<StoredBallot>,
    token: Seq<char>,
    entries: Vec<BallotRanking>,
    now: i64,
    id1: Uid,
    entries2: Vec<BallotRanking>,
    now2: i64,
    id2: Uid,
)
    requires
        spec_submit_decision(polls, cands, voters, ballots, token, entries, now, id1) is Ok,
        ({
            let vi = spec_find_voter_by_token(voters, token)->Some_0;
            let pi = spec_find_poll(polls, voters[vi].poll_id)->Some_0;
            let poll = polls[pi];
            spec_validate_submission(
                spec_cand_ids_for(cands, poll.id),
                entries2@,
                poll.is_public,
                poll.opens_at,
                poll.closes_at,
                now2,
                false,
                false,
            ) is None
        }),
    ensures
        spec_submit_decision(
            polls,
            cands,
            spec_submit_voters(polls, cands, voters, ballots, token, entries, now, id1),
            spec_submit_ballots(polls, cands, voters, ballots, token, entries, now, id1),
            token,
            entries2,
            now2,
            id2,
        ) == Err::<Uid, ErrorCode>(ErrorCode::AlreadyVoted),
{
    let vi = spec_find_voter_by_token(voters, token)->Some_0;
    lemma_spec_find_voter_by_token(voters, token);
    let v2 = marked_voted(voters[vi], now);
    let voters2 = spec_submit_voters(polls, cands, voters, ballots, token, entries, now, id1);
    assert(voters2 == voters.update(vi, v2));
    lemma_find_token_after_update(voters, token, vi, v2);
    assert(voters2[vi].voted_at is Some);
    assert(voters2[vi].poll_id == voters[vi].poll_id);
}

/// Fetching the receipt by token after a successful submission yields
/// the receipt of the submitted ballot: the same identifier and the same
/// submission time, hence the same receipt code as the submission
/// response.
pub proof fn lemma_receipt_round_trip(
    polls: Seq<Poll>,
    cands: Seq<Candidate>,
    voters: Seq<Voter>,
    ballots: Seq<StoredBallot>,
    token: Seq<char>,
    entries: Vec<BallotRanking>,
    now: i64,
    id1: Uid,
)
    requires
        distinct_voters(voters),
        voted_consistent(voters, ballots),
        spec_submit_decision(polls, cands, voters, ballots, token, entries, now, id1) is Ok,
    ensures
        ({
            let vi = spec_find_voter_by_token(voters, token)->Some_0;
            spec_receipt_decision(
                spec_submit_voters(polls, cands, voters, ballots, token, entries, now, id1),
                spec_submit_ballots(polls, cands, voters, ballots, token, entries, now, id1),
                token,
            ) == Ok::<(Uid, i64, Uid), ErrorCode>((id1, now, voters[vi].poll_id))
        }),
{
    let vi = spec_find_voter_by_token(voters, token)->Some_0;
    lemma_spec_find_voter_by_token(voters, token);
    let v2 = marked_voted(voters[vi], now);
    let voters2 = spec_submit_voters(polls, cands, voters, ballots, token, entries, now, id1);
    let ballots2 = spec_submit_ballots(polls, cands, voters, ballots, token, entries, now, id1);
    assert(voters2 == voters.update(vi, v2));
    lemma_find_token_after_update(voters, token, vi, v2);
    assert(voters2[vi].voted_at is Some);
    // the voter had not voted, so no earlier ballot references it
    let pi = spec_find_poll(polls, voters[vi].poll_id)->Some_0;
    let poll = polls[pi];
    assert(voters[vi].voted_at is None);
    assert forall|bi: int| 0 <= bi < ballots.len() implies (#[trigger] ballots[bi]).voter_id
        != Some(voters[vi].id) by {
        if ballots[bi].voter_id == Some(voters[vi].id) {
            assert(voters[vi].voted_at is Some);
        }
    }
    lemma_spec_find_ballot_of_voter(ballots2, voters[vi].id);
    assert(ballots2[ballots.len() as int].voter_id == Some(voters[vi].id));
    match spec_find_ballot_of_voter(ballots2, voters[vi].id) {
        None => {
            assert(false);
        },
        Some(bi) => {
            if bi < ballots.len() {
                assert(ballots2[bi] == ballots[bi]);
                assert(false);
            }
            assert(bi == ballots.len());
            assert(ballots2[bi].id == id1 && ballots2[bi].submitted_at == now);
        },
    }
    assert(voters2[vi].id == voters[vi].id && voters2[vi].poll_id == voters[vi].poll_id);
}

/// An anonymous submission against a poll that is not public is rejected
/// with `PollNotPublic` and inserts no row, whenever the ballot itself is
/// well-formed and the poll is open.
/// A rejected anonymous submission inserts no row, whatever the
/// rejection: the ballot table after the call equals the one before.
pub proof fn lemma_anonymous_rejection_inserts_nothing(
    polls: Seq<Poll>,
    cands: Seq<Candidate>,
    ballots: Seq<StoredBallot>,
    poll_id: Uid,
    entries: Vec<BallotRanking>,
    now: i64,
    new_id: Uid,
)
    requires
        spec_submit_anon_decision(polls, cands, ballots, poll_id, entries, now, new_id) is Err,
    ensures
        spec_submit_anon_ballots(polls, cands, ballots, poll_id, entries, now, new_id) == ballots,
{
}

pub proof fn lemma_anonymous_requires_public(
    polls: Seq<Poll>,
    cands: Seq<Candidate>,
    ballots: Seq<StoredBallot>,
    poll_id: Uid,
    entries: Vec<BallotRanking>,
    now: i64,
    new_id: Uid,
)
    requires
        spec_find_poll(polls, poll_id) is Some,
        ({
            let poll = polls[spec_find_poll(polls, poll_id)->Some_0];
            &&& !poll.is_public
            &&& entries@.len() > 0
            &&& crate::validate::first_unknown_from(
                spec_cand_ids_for(cands, poll.id),
                entries@,
                0,
            ) is None
            &&& crate::validate::first_duplicate_from(entries@, 0) is None
            &&& ranks_sequential(entries@)
            &&& crate::validate::spec_poll_open(poll.opens_at, poll.closes_at, now)
        }),
    ensures
        spec_submit_anon_decision(polls, cands, ballots, poll_id, entries, now, new_id) == Err::<
            Uid,
            ErrorCode,
        >(ErrorCode::PollNotPublic),
        spec_submit_anon_ballots(polls, cands, ballots, poll_id, entries, now, new_id) == ballots,
{
}

/// Marking a voter voted keeps identifiers, tokens and every other
/// invariant intact.
proof fn lemma_mark_voted_preserves_wf(
    voters: Seq<Voter>,
    ballots: Seq<StoredBallot>,
    vi: int,
    now: i64,
)
    requires
        0 <= vi < voters.len(),
        distinct_voters(voters),
        ballots_reference_voters(voters, ballots),
        voted_consistent(voters, ballots),
    ensures
        ({
            let voters2 = voters.update(vi, marked_voted(voters[vi], now));
            &&& distinct_voters(voters2)
            &&& ballots_reference_voters(voters2, ballots)
            &&& voted_consistent(voters2, ballots)
        }),
{
    let voters2 = voters.update(vi, marked_voted(voters[vi], now));
    assert forall|i: int, j: int| 0 <= i < j < voters2.len() implies voters2[i].id != voters2[j].id
        && voters2[i].ballot_token@ != voters2[j].ballot_token@ by {
        assert(voters2[i].id == voters[i].id && voters2[j].id == voters[j].id);
        assert(voters2[i].ballot_token == voters[i].ballot_token);
        assert(voters2[j].ballot_token == voters[j].ballot_token);
    }
    assert forall|bi: int|
        0 <= bi < ballots.len() && (#[trigger] ballots[bi]).voter_id is Some implies exists|wi: int|
        0 <= wi < voters2.len() && voters2[wi].id == ballots[bi].voter_id->Some_0 by {
        let wi = choose|wi: int|
            0 <= wi < voters.len() && voters[wi].id == ballots[bi].voter_id->Some_0;
        assert(voters2[wi].id == ballots[bi].voter_id->Some_0);
    }
    assert forall|bi: int, wi: int|
        0 <= bi < ballots.len() && 0 <= wi < voters2.len() && (#[trigger] ballots[bi]).voter_id
            == Some((#[trigger] voters2[wi]).id) implies voters2[wi].voted_at is Some by {
        if wi != vi {
            assert(voters2[wi] == voters[wi]);
            assert(ballots[bi].voter_id == Some(voters[wi].id));
        }
    }
}

} // verus!
