//! The errors of the service's endpoints and the HTTP status of each.

use crate::auth::password::PasswordError;
use crate::repo::transaction_repo::TransactionRepoError;
use crate::repo::user_repo::UserRepoError;
use vstd::prelude::*;

verus! {

/// Why an endpoint failed.
#[derive(Debug)]
pub enum HandlerError {
    /// Hashing or checking a password failed.
    AuthError(PasswordError),
    /// Anything else went wrong.
    OtherError(String),
    TransactionNotFoundError(TransactionRepoError),
    UserNotFoundError(UserRepoError),
    UserAlreadyExists(UserRepoError),
    BadRequest(String),
}

impl From<TransactionRepoError> for HandlerError {
    /// A missing transaction stays one; any other store error becomes an
    /// internal error.
    fn from(e: TransactionRepoError) -> (r: HandlerError) {
        match e {
            TransactionRepoError::TransactionNotFound(id) => HandlerError::TransactionNotFoundError(
                TransactionRepoError::TransactionNotFound(id),
            ),
            TransactionRepoError::Other(m) => HandlerError::OtherError(m),
        }
    }
}

impl vstd::std_specs::convert::FromSpecImpl<TransactionRepoError> for HandlerError {
    open spec fn obeys_from_spec() -> bool {
        true
    }

    open spec fn from_spec(e: TransactionRepoError) -> HandlerError {
        match e {
            TransactionRepoError::TransactionNotFound(id) => HandlerError::TransactionNotFoundError(
                TransactionRepoError::TransactionNotFound(id),
            ),
            TransactionRepoError::Other(m) => HandlerError::OtherError(m),
        }
    }
}

impl From<UserRepoError> for HandlerError {
    /// A missing or duplicate user keeps its kind; any other store error
    /// becomes an internal error.
    fn from(e: UserRepoError) -> (r: HandlerError) {
        match e {
            UserRepoError::UserNotFound(id) => HandlerError::UserNotFoundError(UserRepoError::UserNotFound(id)),
            UserRepoError::UserAlreadyExists(id) => HandlerError::UserAlreadyExists(
                UserRepoError::UserAlreadyExists(id),
            ),
            UserRepoError::Other(m) => HandlerError::OtherError(m),
        }
    }
}

impl vstd::std_specs::convert::FromSpecImpl<UserRepoError> for HandlerError {
    open spec fn obeys_from_spec() -> bool {
        true
    }

    open spec fn from_spec(e: UserRepoError) -> HandlerError {
        match e {
            UserRepoError::UserNotFound(id) => HandlerError::UserNotFoundError(UserRepoError::UserNotFound(id)),
            UserRepoError::UserAlreadyExists(id) => HandlerError::UserAlreadyExists(
                UserRepoError::UserAlreadyExists(id),
            ),
            UserRepoError::Other(m) => HandlerError::OtherError(m),
        }
    }
}

impl From<PasswordError> for HandlerError {
    fn from(e: PasswordError) -> (r: HandlerError) {
        HandlerError::AuthError(e)
    }
}

impl vstd::std_specs::convert::FromSpecImpl<PasswordError> for HandlerError {
    open spec fn obeys_from_spec() -> bool {
        true
    }

    open spec fn from_spec(e: PasswordError) -> HandlerError {
        HandlerError::AuthError(e)
    }
}

/// The HTTP status of an error: 404 for a missing transaction or user, 409
/// for a duplicate user, 400 for a bad request and 500 for the rest.
pub open spec fn spec_status_code(e: HandlerError) -> u16 {
    match e {
        HandlerError::TransactionNotFoundError(_) | HandlerError::UserNotFoundError(_) => 404,
        HandlerError::UserAlreadyExists(_) => 409,
        HandlerError::BadRequest(_) => 400,
        _ => 500,
    }
}

impl HandlerError {
    /// The HTTP status that answers this error.
    pub fn status_code(&self) -> (r: u16)
        ensures
            r == spec_status_code(*self),
    {
        match self {
            HandlerError::TransactionNotFoundError(_) | HandlerError::UserNotFoundError(_) => 404,
            HandlerError::UserAlreadyExists(_) => 409,
            HandlerError::BadRequest(_) => 400,
            _ => 500,
        }
    }
}

} // verus!
