//! Who may ask for an import.

use crate::services::users::User;
use crate::text::same_text;
use vstd::prelude::*;

verus! {

/// What the guard of the import pages says to a request.
#[derive(Debug, Clone, Copy, PartialEq, Eq, Structural)]
pub enum Privilege {
    /// The request goes on to the page.
    Granted,
    /// The token names no user of the store.
    UnknownUser,
    /// The user may not ask for an import.
    NotPermitted,
}

/// The guard of the import pages.
#[derive(Debug, Clone, Copy, PartialEq, Eq, Structural)]
pub struct PrivilegeValidator;

impl PrivilegeValidator {
    /// Decides on a request from what the store holds of its user: only the
    /// user called `admin` goes on.
    pub fn check(&self, user: Option<&User>) -> (privilege: Privilege)
        ensures
            privilege == match user {
                None => Privilege::UnknownUser,
                Some(u) => if u.username@ == "admin"@ {
                    Privilege::Granted
                } else {
                    Privilege::NotPermitted
                },
            },
    {
        match user {
            None => Privilege::UnknownUser,
            Some(u) => {
                if same_text(u.username.as_str(), "admin") {
                    Privilege::Granted
                } else {
                    Privilege::NotPermitted
                }
            },
        }
    }
}

} // verus!
