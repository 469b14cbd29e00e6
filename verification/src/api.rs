//! The JSON envelope of the service: every response carries a success
//! flag, optional data, an optional coded error and metadata.  Error
//! codes form a fixed taxonomy.

use vstd::prelude::*;

use crate::validate::RejectReason;

verus! {

/// The stable error codes of the service.
#[derive(Debug, Clone, Copy, PartialEq, Eq, Structural)]
pub enum ErrorCode {
    ValidationError,
    InvalidCandidate,
    InvalidId,
    NotFound,
    AlreadyVoted,
    NotVoted,
    PollClosed,
    PollNotPublic,
    TabulationFailed,
    Unauthorized,
    InternalError,
}

impl ErrorCode {
    /// The wire form of the code.
    pub fn code_str(&self) -> (r: String)
        ensures
            *self is ValidationError ==> r@ == "VALIDATION_ERROR"@,
            *self is InvalidCandidate ==> r@ == "INVALID_CANDIDATE"@,
            *self is InvalidId ==> r@ == "INVALID_ID"@,
            *self is NotFound ==> r@ == "NOT_FOUND"@,
            *self is AlreadyVoted ==> r@ == "ALREADY_VOTED"@,
            *self is NotVoted ==> r@ == "NOT_VOTED"@,
            *self is PollClosed ==> r@ == "POLL_CLOSED"@,
            *self is PollNotPublic ==> r@ == "POLL_NOT_PUBLIC"@,
            *self is TabulationFailed ==> r@ == "TABULATION_FAILED"@,
            *self is Unauthorized ==> r@ == "UNAUTHORIZED"@,
            *self is InternalError ==> r@ == "INTERNAL_ERROR"@,
    {
        match self {
            ErrorCode::ValidationError => String::from_str("VALIDATION_ERROR"),
            ErrorCode::InvalidCandidate => String::from_str("INVALID_CANDIDATE"),
            ErrorCode::InvalidId => String::from_str("INVALID_ID"),
            ErrorCode::NotFound => String::from_str("NOT_FOUND"),
            ErrorCode::AlreadyVoted => String::from_str("ALREADY_VOTED"),
            ErrorCode::NotVoted => String::from_str("NOT_VOTED"),
            ErrorCode::PollClosed => String::from_str("POLL_CLOSED"),
            ErrorCode::PollNotPublic => String::from_str("POLL_NOT_PUBLIC"),
            ErrorCode::TabulationFailed => String::from_str("TABULATION_FAILED"),
            ErrorCode::Unauthorized => String::from_str("UNAUTHORIZED"),
            ErrorCode::InternalError => String::from_str("INTERNAL_ERROR"),
        }
    }
}

/// The error code a validation rejection collapses to: structural faults
/// are validation errors, an unknown candidate has its own code, and the
/// state-dependent rejections keep theirs.
pub open spec fn spec_reject_error(reason: RejectReason) -> ErrorCode {
    match reason {
        RejectReason::Empty => ErrorCode::ValidationError,
        RejectReason::UnknownCandidate(_) => ErrorCode::InvalidCandidate,
        RejectReason::DuplicateCandidate(_) => ErrorCode::ValidationError,
        RejectReason::NonSequentialRanks => ErrorCode::ValidationError,
        RejectReason::PollClosed => ErrorCode::PollClosed,
        RejectReason::PollNotPublic => ErrorCode::PollNotPublic,
        RejectReason::AlreadyVoted => ErrorCode::AlreadyVoted,
    }
}

/// Map a validation rejection to its wire error code.
pub fn reject_error(reason: RejectReason) -> (r: ErrorCode)
    ensures
        r == spec_reject_error(reason),
{
    match reason {
        RejectReason::Empty => ErrorCode::ValidationError,
        RejectReason::UnknownCandidate(_) => ErrorCode::InvalidCandidate,
        RejectReason::DuplicateCandidate(_) => ErrorCode::ValidationError,
        RejectReason::NonSequentialRanks => ErrorCode::ValidationError,
        RejectReason::PollClosed => ErrorCode::PollClosed,
        RejectReason::PollNotPublic => ErrorCode::PollNotPublic,
        RejectReason::AlreadyVoted => ErrorCode::AlreadyVoted,
    }
}

/// A coded error in the envelope.
#[derive(Debug, Clone)]
pub struct ApiError {
    pub code: String,
    pub message: String,
}

/// Envelope metadata: a timestamp and the service version, supplied by
/// the caller.
#[derive(Debug, Clone)]
pub struct ApiMetadata {
    pub timestamp: String,
    pub version: String,
}

/// The JSON envelope: success with data, or failure with a coded error.
#[derive(Debug)]
pub struct ApiResponse<T> {
    pub success: bool,
    pub data: Option<T>,
    pub error: Option<ApiError>,
    pub metadata: ApiMetadata,
}

/// A successful envelope around `data`.
pub fn create_api_response<T>(data: T, metadata: ApiMetadata) -> (r: ApiResponse<T>)
    ensures
        r.success,
        r.data == Some(data),
        r.error is None,
        r.metadata == metadata,
{
    ApiResponse { success: true, data: Some(data), error: None, metadata }
}

/// A failed envelope around a coded error.
pub fn create_error_response<T>(code: String, message: String, metadata: ApiMetadata) -> (r:
    ApiResponse<T>)
    ensures
        !r.success,
        r.data is None,
        r.error matches Some(e) && e.code == code && e.message == message,
        r.metadata == metadata,
{
    ApiResponse {
        success: false,
        data: None,
        error: Some(ApiError { code, message }),
        metadata,
    }
}

/// A page of a listing, with the page arithmetic done exactly.
#[derive(Debug)]
pub struct PaginatedResponse<T> {
    pub items: Vec<T>,
    pub total: i64,
    pub page: i32,
    pub limit: i32,
    pub total_pages: i32,
}

/// Assemble a page: `total_pages` is the ceiling of `total / limit`.
pub fn paginated_response<T>(items: Vec<T>, total: i64, page: i32, limit: i32) -> (r:
    PaginatedResponse<T>)
    requires
        1 <= limit <= 100,
        0 <= total <= i32::MAX,
    ensures
        r.items == items,
        r.total == total,
        r.page == page,
        r.limit == limit,
        r.total_pages as int == (total as int + limit as int - 1) / (limit as int),
{
    proof {
        assert(0 <= (total as int + limit as int - 1) / (limit as int) <= total as int) by (nonlinear_arith)
            requires 1 <= limit as int && 0 <= total as int;
    }
    let total_pages = ((total + limit as i64 - 1) / (limit as i64)) as i32;
    PaginatedResponse { items, total, page, limit, total_pages }
}

/// A request to invite a voter to a poll.
#[derive(Debug)]
pub struct CreateVoterRequest {
    pub email: Option<String>,
}

/// One voter as the management listing reports it.
#[derive(Debug)]
pub struct VoterResponse {
    pub id: String,
    pub poll_id: String,
    pub email: Option<String>,
    pub ballot_token: String,
    pub has_voted: bool,
    pub invited_at: String,
    pub voted_at: Option<String>,
    pub voting_url: String,
}

/// The voter listing of a poll, with its tallies: anonymous ballots
/// count toward the voted total, and only invited voters can be pending.
#[derive(Debug)]
pub struct VotersListResponse {
    pub voters: Vec<VoterResponse>,
    pub total: usize,
    pub voted_count: usize,
    pub pending_count: usize,
}

/// Assemble a voter listing from the invited voters and the anonymous
/// ballot count.
pub fn voters_list_response(
    voters: Vec<VoterResponse>,
    registered_voted: usize,
    anonymous_ballots: usize,
) -> (r: VotersListResponse)
    requires
        registered_voted <= voters@.len(),
        registered_voted + anonymous_ballots <= usize::MAX,
    ensures
        r.voters == voters,
        r.total == voters@.len(),
        r.voted_count == registered_voted + anonymous_ballots,
        r.pending_count == voters@.len() - registered_voted,
{
    let total = voters.len();
    let voted_count = registered_voted + anonymous_ballots;
    let pending_count = total - registered_voted;
    VotersListResponse { voters, total, voted_count, pending_count }
}

/// A self-registration link for a poll.
#[derive(Debug)]
pub struct RegistrationLinkResponse {
    pub poll_id: String,
    pub registration_token: String,
    pub registration_url: String,
    pub expires_at: Option<String>,
    pub created_at: String,
}

/// The receipt part of a submission response.
#[derive(Debug)]
pub struct VotingReceipt {
    pub receipt_code: String,
    pub verification_url: String,
}

/// A request to add a candidate.
#[derive(Debug)]
pub struct CreateCandidateRequest {
    pub name: String,
    pub description: Option<String>,
}

/// A request to change a candidate.
#[derive(Debug)]
pub struct UpdateCandidateRequest {
    pub name: Option<String>,
    pub description: Option<String>,
}

/// The query parameters of the poll listing.
#[derive(Debug)]
pub struct PollListQuery {
    pub page: Option<i32>,
    pub limit: Option<i32>,
    pub status: Option<String>,
    pub sort: Option<String>,
    pub order: Option<String>,
}

} // verus!
