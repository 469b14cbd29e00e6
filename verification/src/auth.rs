//! Authentication data carried across the boundary.  Token issuance and
//! verification themselves are outside collaborators; the core only
//! carries their claims.

use vstd::prelude::*;

verus! {

/// The claims a session token carries.
#[derive(Debug, Clone)]
pub struct Claims {
    /// Subject: the user identifier.
    pub sub: String,
    pub email: String,
    pub role: String,
    /// Expiration time, seconds since the epoch.
    pub exp: usize,
    /// Issued-at time, seconds since the epoch.
    pub iat: usize,
}

impl Claims {
    /// Whether the token has expired at `now`.
    pub fn is_expired(&self, now: usize) -> (r: bool)
        ensures
            r == (self.exp < now),
    {
        self.exp < now
    }
}

/// The authenticated caller of a request.
#[derive(Debug, Clone)]
pub struct CurrentUser {
    pub claims: Claims,
}

/// A registration request.
#[derive(Debug)]
pub struct CreateUserRequest {
    pub email: String,
    pub password: String,
    pub name: Option<String>,
}

/// A login request.
#[derive(Debug)]
pub struct LoginRequest {
    pub email: String,
    pub password: String,
}

/// A token refresh request.
#[derive(Debug)]
pub struct RefreshTokenRequest {
    pub refresh_token: String,
}

/// A token refresh response.
#[derive(Debug)]
pub struct RefreshTokenResponse {
    pub token: String,
}

} // verus!
