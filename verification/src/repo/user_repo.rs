//! Users and the operations of a user store.

use vstd::prelude::*;

verus! {

/// A user: its id and the encoded hash of its password.
#[derive(Clone, Debug, PartialEq)]
pub struct User {
    pub id: String,
    pub password_hash: String,
}

impl User {
    pub fn new(id: String, password_hash: String) -> (r: User)
        ensures
            r.id == id,
            r.password_hash == password_hash,
    {
        User { id, password_hash }
    }
}

/// Why a user store refused an operation.
#[derive(Debug)]
pub enum UserRepoError {
    UserNotFound(String),
    UserAlreadyExists(String),
    Other(String),
}

/// The operations of a user store.
pub trait UserRepo {
    fn get_user(&self, user_id: &str) -> Result<User, UserRepoError>;

    fn create_user(&mut self, user: User) -> Result<(), UserRepoError>;

    fn update_password_hash(&mut self, user_id: &str, password_hash: &str) -> Result<(), UserRepoError>;

    fn delete_user(&mut self, user_id: &str) -> Result<(), UserRepoError>;
}

} // verus!
