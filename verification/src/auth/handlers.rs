//! What the sign-up and log-in endpoints decide.

use crate::auth::jwt::{jwt_signed_subject, token_made_at, JWTAuth};
use crate::auth::password::{argon2_verify_encoded, encode_password, verify_password};
use crate::error::HandlerError;
use crate::repo::mem_repo::user_repo::{spec_create_user, spec_delete_user, spec_update_password_hash, MemUserRepo};
use crate::repo::user_repo::{User, UserRepo, UserRepoError};
use vstd::prelude::*;
use vstd::utf8::encode_utf8;

verus! {

/// A log-in with password bytes `pw` is accepted by the store: the user
/// exists and the password verifies against the stored hash.
pub open spec fn login_accepts(users: Map<Seq<char>, Seq<char>>, id: Seq<char>, pw: Seq<u8>) -> bool {
    users.contains_key(id) && argon2_verify_encoded(users[id], pw) == Some(true)
}

/// A user id and password, as a client sends them.
pub struct UserCredentials {
    pub id: String,
    pub password: String,
}

/// Signs a user up: hashes the password and stores the user under the id,
/// unless the id is taken (`UserAlreadyExists`) or hashing fails
/// (`AuthError`, which leaves the store as it was).
pub fn signup(user_repo: &mut MemUserRepo, credentials: UserCredentials) -> (r: Result<(), HandlerError>)
    ensures
        ({
            let id = credentials.id@;
            let pw = encode_utf8(credentials.password@);
            &&& pw.len() <= 0xFFFF_FFFF ==> !(r matches Err(HandlerError::AuthError(_)))
            &&& (r matches Err(HandlerError::AuthError(_))) ==> final(user_repo)@ == old(user_repo)@
            &&& !(r matches Err(HandlerError::AuthError(_))) ==> {
                &&& old(user_repo)@.contains_key(id) ==> {
                    &&& (r matches Err(HandlerError::UserAlreadyExists(UserRepoError::UserAlreadyExists(k))) && k@ == id)
                    &&& final(user_repo)@ == old(user_repo)@
                }
                &&& !old(user_repo)@.contains_key(id) ==> {
                    &&& r is Ok
                    &&& final(user_repo)@.dom() == old(user_repo)@.dom().insert(id)
                    &&& final(user_repo)@ == old(user_repo)@.insert(id, final(user_repo)@[id])
                    &&& login_accepts(final(user_repo)@, id, pw)
                }
            }
        }),
{
    let ghost pw = encode_utf8(credentials.password@);
    let password_hash = match encode_password(credentials.password) {
        Ok(h) => h,
        Err(e) => {
            return Err(HandlerError::AuthError(e));
        },
    };
    let ghost h = password_hash@;
    match user_repo.create_user(User { id: credentials.id, password_hash }) {
        Ok(()) => {
            assert(user_repo@.contains_key(credentials.id@) && user_repo@[credentials.id@] == h);
            Ok(())
        },
        Err(e) => Err(HandlerError::from(e)),
    }
}

/// Logs a user in: where the password matches the stored hash, a token for
/// the user (`Some`); where it does not, `None` (the endpoint answers 401).
/// An unknown user gives `UserNotFound`, a hash that Argon2 cannot check
/// gives `AuthError`, and a token that cannot be made gives `OtherError`.
pub fn get_token(user_repo: &MemUserRepo, jwt_auth: &JWTAuth, credentials: UserCredentials) -> (r: Result<
    Option<String>,
    HandlerError,
>)
    ensures
        ({
            let id = credentials.id@;
            let pw = encode_utf8(credentials.password@);
            &&& !user_repo@.contains_key(id) ==> (r matches Err(
                HandlerError::UserNotFoundError(UserRepoError::UserNotFound(k)),
            ) && k@ == id)
            &&& user_repo@.contains_key(id) ==> {
                let checked = argon2_verify_encoded(user_repo@[id], pw);
                &&& checked is None ==> (r matches Err(HandlerError::AuthError(_)))
                &&& checked == Some(false) ==> (r matches Ok(None))
                &&& checked == Some(true) ==> (r matches Ok(Some(t)) ==> exists|now: u64|
                    #[trigger] token_made_at(jwt_auth.secret(), now, id) == Some(t@))
                &&& r matches Ok(Some(t)) ==> jwt_signed_subject(jwt_auth.secret(), t@) == Some(Some(id))
            }
            &&& login_accepts(user_repo@, id, pw) ==> (r matches Ok(Some(_)) || r matches Err(
                HandlerError::OtherError(_),
            ))
        }),
{
    let user = match user_repo.get_user(credentials.id.as_str()) {
        Ok(u) => u,
        Err(e) => {
            return Err(HandlerError::from(e));
        },
    };
    let matched = match verify_password(credentials.password, user.password_hash) {
        Ok(b) => b,
        Err(e) => {
            return Err(HandlerError::AuthError(e));
        },
    };
    if matched {
        match jwt_auth.create_token(user.id) {
            Ok(t) => Ok(Some(t)),
            Err(_) => Err(HandlerError::OtherError("unable to create a token".to_owned())),
        }
    } else {
        Ok(None)
    }
}

/// A user who has just signed up with a password can log in with it.
pub proof fn law_login_after_signup(users: Map<Seq<char>, Seq<char>>, id: Seq<char>, hash: Seq<char>, pw: Seq<u8>)
    requires
        !users.contains_key(id),
        argon2_verify_encoded(hash, pw) == Some(true),
    ensures
        login_accepts(spec_create_user(users, id, hash).0, id, pw),
{
}

/// After a password change the user logs in with the new password.
pub proof fn law_login_after_password_change(users: Map<Seq<char>, Seq<char>>, id: Seq<char>, hash: Seq<char>, pw: Seq<u8>)
    requires
        users.contains_key(id),
        argon2_verify_encoded(hash, pw) == Some(true),
    ensures
        login_accepts(spec_update_password_hash(users, id, hash).0, id, pw),
{
}

/// A deleted user can no longer log in, with any password.
pub proof fn law_no_login_after_delete(users: Map<Seq<char>, Seq<char>>, id: Seq<char>, pw: Seq<u8>)
    ensures
        !login_accepts(spec_delete_user(users, id).0, id, pw),
{
}

} // verus!
