//! The users of the service, as the store holds them.

use vstd::prelude::*;

verus! {

/// A user as the store holds it.
#[derive(Debug)]
pub struct User {
    pub id: i32,
    pub username: String,
    pub password_hash: String,
    pub has_import_privileges: bool,
}

/// A user that the store holds not yet: it has no identifier.
#[derive(Debug)]
pub struct UserNoId {
    pub username: String,
    pub password_hash: String,
}

/// What a login token says: whose it is.
#[derive(Debug, Clone, Copy, PartialEq, Eq, Structural)]
pub struct TokenClaims {
    pub id: i32,
}

impl Clone for User {
    fn clone(&self) -> (copy: User)
        ensures
            copy == *self,
    {
        User {
            id: self.id,
            username: self.username.clone(),
            password_hash: self.password_hash.clone(),
            has_import_privileges: self.has_import_privileges,
        }
    }
}

} // verus!
