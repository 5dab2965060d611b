//! Password hashing with Argon2 (default parameters, random 32-byte salt).

use vstd::prelude::*;
use vstd::utf8::encode_utf8;

verus! {

#[verifier::external_type_specification]
#[verifier::external_body]
pub struct ExArgon2Error(argon2::Error);

/// What `argon2::hash_encoded` returns for the password bytes and salt with
/// `argon2::Config::default()`: the encoded hash, `None` where it fails.
pub uninterp spec fn argon2_hash_encoded(pwd: Seq<u8>, salt: Seq<u8>) -> Option<Seq<char>>;

/// What `argon2::verify_encoded` returns for the encoded hash and password
/// bytes: whether they match, `None` where it fails (such as on a hash that
/// does not decode).
pub uninterp spec fn argon2_verify_encoded(encoded: Seq<char>, pwd: Seq<u8>) -> Option<bool>;

/// Calls `argon2::hash_encoded(pwd, salt, &Config::default())`. The
/// contract claims that the result is what `argon2_hash_encoded` names; that
/// it succeeds when the salt has at least 8 and at most 2^32 - 1 bytes and
/// the password at most 2^32 - 1 (the default configuration passes every
/// other check of `Context::new`); and that `argon2::verify_encoded` accepts the same
/// password against the encoded hash, which records the variant, version,
/// costs, salt and hash that verification recomputes.
#[verifier::external_body]
fn hash_encoded_default(pwd: &[u8], salt: &[u8]) -> (r: Result<String, argon2::Error>)
    ensures
        r is Ok <==> argon2_hash_encoded(pwd@, salt@) is Some,
        r matches Ok(h) ==> argon2_hash_encoded(pwd@, salt@) == Some(h@),
        8 <= salt@.len() <= 0xFFFF_FFFF && pwd@.len() <= 0xFFFF_FFFF ==> r is Ok,
        r matches Ok(h) ==> argon2_verify_encoded(h@, pwd@) == Some(true),
{
    argon2::hash_encoded(pwd, salt, &argon2::Config::default())
}

/// Calls `argon2::verify_encoded(encoded, pwd)`; the contract claims that the
/// result is what `argon2_verify_encoded` names.
#[verifier::external_body]
fn verify_encoded(encoded: &str, pwd: &[u8]) -> (r: Result<bool, argon2::Error>)
    ensures
        r is Ok <==> argon2_verify_encoded(encoded@, pwd@) is Some,
        r matches Ok(b) ==> argon2_verify_encoded(encoded@, pwd@) == Some(b),
{
    argon2::verify_encoded(encoded, pwd)
}

/// Calls `rand::random::<[u8; 32]>()`: 32 random bytes. Nothing is claimed
/// of them but their number, which the array type fixes.
#[verifier::external_body]
fn random_salt() -> (r: Vec<u8>)
    ensures
        r@.len() == 32,
{
    let salt: [u8; 32] = rand::random();
    salt.to_vec()
}

/// Hashing or verifying a password failed in Argon2.
#[derive(Debug, PartialEq, Eq, Structural)]
pub enum PasswordError {
    Argon2,
}

/// The encoded Argon2 hash of the password under a fresh random salt. It
/// succeeds for every password of fewer than 2^32 bytes, and the password
/// verifies against the hash it gives.
pub fn encode_password(password: String) -> (r: Result<String, PasswordError>)
    ensures
        encode_utf8(password@).len() <= 0xFFFF_FFFF ==> r is Ok,
        r matches Ok(h) ==> exists|salt: Seq<u8>|
            salt.len() == 32 && argon2_hash_encoded(encode_utf8(password@), salt) == Some(h@),
        r matches Ok(h) ==> argon2_verify_encoded(h@, encode_utf8(password@)) == Some(true),
{
    let salt = random_salt();
    let pwd = password.as_str().as_bytes();
    match hash_encoded_default(pwd, salt.as_slice()) {
        Ok(h) => Ok(h),
        Err(_) => Err(PasswordError::Argon2),
    }
}

/// Whether the password matches the encoded hash; an error where Argon2
/// cannot check it.
pub fn verify_password(password: String, password_hash: String) -> (r: Result<bool, PasswordError>)
    ensures
        r is Ok <==> argon2_verify_encoded(password_hash@, encode_utf8(password@)) is Some,
        r matches Ok(b) ==> argon2_verify_encoded(password_hash@, encode_utf8(password@)) == Some(b),
{
    match verify_encoded(password_hash.as_str(), password.as_str().as_bytes()) {
        Ok(b) => Ok(b),
        Err(_) => Err(PasswordError::Argon2),
    }
}

} // verus!
