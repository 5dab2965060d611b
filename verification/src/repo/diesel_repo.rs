//! The row in which a database keeps a user.

use crate::repo::user_repo::User;
use vstd::prelude::*;

verus! {

/// A row of the `users` table.
#[derive(Clone)]
pub struct UserEntry {
    pub id: String,
    pub password_hash: String,
}

impl From<UserEntry> for User {
    fn from(u: UserEntry) -> (r: User) {
        User { id: u.id, password_hash: u.password_hash }
    }
}

impl vstd::std_specs::convert::FromSpecImpl<UserEntry> for User {
    open spec fn obeys_from_spec() -> bool {
        true
    }

    open spec fn from_spec(u: UserEntry) -> User {
        User { id: u.id, password_hash: u.password_hash }
    }
}

impl From<User> for UserEntry {
    fn from(u: User) -> (r: UserEntry) {
        UserEntry { id: u.id, password_hash: u.password_hash }
    }
}

impl vstd::std_specs::convert::FromSpecImpl<User> for UserEntry {
    open spec fn obeys_from_spec() -> bool {
        true
    }

    open spec fn from_spec(u: User) -> UserEntry {
        UserEntry { id: u.id, password_hash: u.password_hash }
    }
}

} // verus!
