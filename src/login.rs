//! Login failures and how they are answered.
use vstd::prelude::*;

verus! {

/// Declares anyhow's `Error` so that a login error can carry its cause; the
/// value is only carried, never inspected.
#[verifier::external_type_specification]
#[verifier::external_body]
pub struct ExAnyhowError(anyhow::Error);

/// Why a login attempt failed, with the underlying cause.
pub enum LoginError {
    AuthError(anyhow::Error),
    UnexpectedError(anyhow::Error),
}

impl LoginError {
    /// The HTTP status: 401 for rejected credentials, 500 otherwise.
    pub fn status_code(&self) -> (r: u16)
        ensures
            r == (if self is AuthError { 401u16 } else { 500u16 }),
    {
        match self {
            LoginError::AuthError(_) => 401,
            LoginError::UnexpectedError(_) => 500,
        }
    }

    /// The message shown to the user.
    pub fn to_string(&self) -> (r: String)
        ensures
            r@ == (if self is AuthError { "Authentication Failed"@ } else { "Something went wrong"@ }),
    {
        match self {
            LoginError::AuthError(_) => String::from_str("Authentication Failed"),
            LoginError::UnexpectedError(_) => String::from_str("Something went wrong"),
        }
    }
}

} // verus!
