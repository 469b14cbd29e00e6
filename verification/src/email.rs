//! The wire contract of the outbound email collaborator.  Sending is an
//! outside concern; the core only states the shapes exchanged.

use vstd::prelude::*;

verus! {

/// A request to invite one voter by email.
#[derive(Debug)]
pub struct VoterInvitationRequest {
    pub poll_title: String,
    pub poll_description: Option<String>,
    pub voting_url: String,
    pub poll_owner_name: String,
    pub poll_owner_email: String,
    pub closes_at: Option<String>,
    pub voter_name: Option<String>,
    pub to: String,
}

/// One recipient of a bulk invitation.
#[derive(Debug)]
pub struct EmailRecipient {
    pub email: String,
    pub name: Option<String>,
}

/// A request to invite many voters at once.
#[derive(Debug)]
pub struct BulkVoterInvitationRequest {
    pub poll_title: String,
    pub poll_description: Option<String>,
    pub voting_url: String,
    pub poll_owner_name: String,
    pub poll_owner_email: String,
    pub closes_at: Option<String>,
    pub recipients: Vec<EmailRecipient>,
}

/// What the email collaborator reports back.
#[derive(Debug)]
pub struct EmailResponse {
    pub success: bool,
    pub data: Option<EmailResponseData>,
    pub error: Option<EmailError>,
}

/// Delivery details of a successful send.
#[derive(Debug)]
pub struct EmailResponseData {
    pub message_id: Option<String>,
    pub recipient: Option<String>,
    pub sent: Option<usize>,
    pub failed: Option<usize>,
    pub failed_recipients: Option<Vec<String>>,
}

/// A coded failure from the email collaborator.
#[derive(Debug)]
pub struct EmailError {
    pub code: String,
    pub message: String,
}

} // verus!
