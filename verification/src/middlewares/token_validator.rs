//! Who is logged in.

use crate::services::users::TokenClaims;
use vstd::prelude::*;

verus! {

/// What the guard of the pages for users says to a request.
#[derive(Debug, Clone, Copy, PartialEq, Eq, Structural)]
pub enum TokenDecision {
    /// The request goes on, in the name of the token's user.
    Proceed(TokenClaims),
    /// The browser is sent to the login page.
    RedirectToLogin,
}

/// The guard of the pages for users.
#[derive(Debug, Clone, Copy, PartialEq, Eq, Structural)]
pub struct TokenValidator;

impl TokenValidator {
    /// Decides on a request from the claims of its login token, or `None`
    /// where the token is missing or not genuine.
    pub fn decide(&self, claims: Option<TokenClaims>) -> (decision: TokenDecision)
        ensures
            decision == match claims {
                Some(c) => TokenDecision::Proceed(c),
                None => TokenDecision::RedirectToLogin,
            },
    {
        match claims {
            Some(c) => TokenDecision::Proceed(c),
            None => TokenDecision::RedirectToLogin,
        }
    }
}

} // verus!
