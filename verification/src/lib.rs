//! Single-winner ranked-choice voting: an instant-runoff tabulation engine
//! with a ballot validator, an in-memory poll/voter/ballot store, and the
//! token and receipt codes that gate ballot submission.

pub mod api;
pub mod auth;
pub mod counting;
pub mod email;
pub mod ids;
pub mod rcv;
pub mod rcv_model;
pub mod results;
pub mod store;
pub mod token;
pub mod validate;
