//! What the account endpoints decide for a signed-in user.

use crate::auth::handlers::login_accepts;
use crate::auth::password::encode_password;
use crate::error::HandlerError;
use crate::repo::mem_repo::user_repo::MemUserRepo;
use crate::repo::user_repo::{UserRepo, UserRepoError};
use vstd::prelude::*;
use vstd::utf8::encode_utf8;

verus! {

/// The id of a user.
pub type UserId = String;

/// A new password, as a client sends it.
pub struct NewPassword {
    pub new_password: String,
}

/// Changes the signed-in user's password. Without a user the answer is
/// `Ok(false)` (401) and nothing changes; an unknown user gives
/// `UserNotFound`; otherwise the stored hash becomes one that the new
/// password verifies against.
pub fn update_password(user_repo: &mut MemUserRepo, user_id: Option<UserId>, credentials: NewPassword) -> (r: Result<
    bool,
    HandlerError,
>)
    ensures
        user_id is None ==> r == Ok::<bool, HandlerError>(false) && final(user_repo)@ == old(user_repo)@,
        user_id matches Some(id) ==> {
            let pw = encode_utf8(credentials.new_password@);
            &&& pw.len() <= 0xFFFF_FFFF ==> !(r matches Err(HandlerError::AuthError(_)))
            &&& (r matches Err(HandlerError::AuthError(_))) ==> final(user_repo)@ == old(user_repo)@
            &&& !old(user_repo)@.contains_key(id@) ==> final(user_repo)@ == old(user_repo)@ && !(r is Ok)
            &&& !old(user_repo)@.contains_key(id@) && !(r matches Err(HandlerError::AuthError(_))) ==> (r matches Err(
                HandlerError::UserNotFoundError(UserRepoError::UserNotFound(k)),
            ) && k@ == id@)
            &&& old(user_repo)@.contains_key(id@) && !(r matches Err(HandlerError::AuthError(_))) ==> {
                &&& r == Ok::<bool, HandlerError>(true)
                &&& final(user_repo)@.dom() == old(user_repo)@.dom()
                &&& final(user_repo)@ == old(user_repo)@.insert(id@, final(user_repo)@[id@])
                &&& login_accepts(final(user_repo)@, id@, pw)
            }
        },
{
    let id = match user_id {
        None => {
            return Ok(false);
        },
        Some(id) => id,
    };
    let password_hash = match encode_password(credentials.new_password) {
        Ok(h) => h,
        Err(e) => {
            return Err(HandlerError::AuthError(e));
        },
    };
    match user_repo.update_password_hash(id.as_str(), password_hash.as_str()) {
        Ok(()) => {
            assert(user_repo@.contains_key(id@) && user_repo@[id@] == password_hash@);
            Ok(true)
        },
        Err(e) => Err(HandlerError::from(e)),
    }
}

/// Deletes the signed-in user. Without a user the answer is `Ok(false)`
/// (401); an unknown user gives `UserNotFound`.
pub fn delete_user(user_repo: &mut MemUserRepo, user_id: Option<UserId>) -> (r: Result<bool, HandlerError>)
    ensures
        user_id is None ==> r == Ok::<bool, HandlerError>(false) && final(user_repo)@ == old(user_repo)@,
        user_id matches Some(id) ==> {
            &&& old(user_repo)@.contains_key(id@) ==> r == Ok::<bool, HandlerError>(true) && final(user_repo)@ == old(
                user_repo,
            )@.remove(id@)
            &&& !old(user_repo)@.contains_key(id@) ==> (r matches Err(
                HandlerError::UserNotFoundError(UserRepoError::UserNotFound(k)),
            ) && k@ == id@) && final(user_repo)@ == old(user_repo)@
        },
{
    let id = match user_id {
        None => {
            return Ok(false);
        },
        Some(id) => id,
    };
    match user_repo.delete_user(id.as_str()) {
        Ok(()) => Ok(true),
        Err(e) => Err(HandlerError::from(e)),
    }
}

} // verus!
