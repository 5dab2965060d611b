//! Bearer tokens: HS256-signed JSON web tokens whose subject is a user id
//! and which expire thirty days after they are made.

use base64::Engine;
use jsonwebtoken::{DecodingKey, EncodingKey, Header, Validation};
use serde_json::Value;
use std::collections::BTreeMap;
use crate::repo::transaction_repo::opt_view;
use vstd::prelude::*;

verus! {

#[verifier::external_type_specification]
#[verifier::external_body]
pub struct ExJwtError(jsonwebtoken::errors::Error);

/// How long a token stays valid, in seconds (thirty days).
pub const EXPIRE_TIME: u64 = 2592000;

/// What `jsonwebtoken::encode` returns for the default (HS256) header, the
/// claims `{"exp": exp, "sub": sub}` and the HMAC secret: the token, `None`
/// where encoding fails.
pub uninterp spec fn jwt_encode(secret: Seq<u8>, exp: u64, sub: Seq<char>) -> Option<Seq<char>>;

/// What `jsonwebtoken::decode` with `DecodingKey::from_secret(secret)` and
/// `Validation::default()` accepts of the token when the check of its expiry
/// against the clock is left aside: `None` where the token is refused (it is
/// not three parts, its header is not HS256, its signature does not verify
/// under `secret`, its claims are not a JSON object with a numeric `exp`, or
/// they carry an `aud` claim, which the default validation does not accept),
/// else `Some` of its `sub` claim where that is a string and `Some(None)`
/// where it is absent or not a string.
pub uninterp spec fn jwt_signed_subject(secret: Seq<u8>, token: Seq<char>) -> Option<Option<Seq<char>>>;

/// The token for `sub` made at time `now`, where its expiry fits.
pub open spec fn token_made_at(secret: Seq<u8>, now: u64, sub: Seq<char>) -> Option<Seq<char>> {
    if now + EXPIRE_TIME <= u64::MAX {
        jwt_encode(secret, (now + EXPIRE_TIME) as u64, sub)
    } else {
        None
    }
}

/// Calls `jsonwebtoken::encode` with `Header::default()`, the claims `exp`
/// and `sub` as a JSON object and `EncodingKey::from_secret(secret)`. The
/// contract claims that the result is what `jwt_encode` names; that it
/// succeeds (an HMAC key matches the HS256 header, the header and claims
/// always serialize, and HMAC signing cannot fail); and that decoding the
/// token with the same secret gives back `sub` (the signature is recomputed
/// over the same message, and the claims carry a numeric `exp`).
#[verifier::external_body]
fn encode_claims(secret: &[u8], exp: u64, sub: &str) -> (r: Result<String, jsonwebtoken::errors::Error>)
    ensures
        r is Ok,
        r is Ok <==> jwt_encode(secret@, exp, sub@) is Some,
        r matches Ok(t) ==> jwt_encode(secret@, exp, sub@) == Some(t@),
        r matches Ok(t) ==> jwt_signed_subject(secret@, t@) == Some(Some(sub@)),
{
    let mut claims: BTreeMap<String, Value> = BTreeMap::new();
    claims.insert("exp".to_string(), Value::from(exp));
    claims.insert("sub".to_string(), Value::from(sub));
    jsonwebtoken::encode(&Header::default(), &claims, &EncodingKey::from_secret(secret))
}

/// Calls `jsonwebtoken::decode` with `DecodingKey::from_secret(secret)` and
/// `Validation::default()` and hands back the `sub` claim where it is a
/// string (`Ok(None)` where it is not). The validation also rejects expired
/// tokens, which depends on the clock, so the contract claims only this: a
/// token that is accepted gives what `jwt_signed_subject` names, and a token
/// refused apart from its expiry is refused.
#[verifier::external_body]
fn decode_subject(secret: &[u8], token: &str) -> (r: Result<Option<String>, jsonwebtoken::errors::Error>)
    ensures
        r matches Ok(d) ==> jwt_signed_subject(secret@, token@) == Some(opt_view(d)),
        jwt_signed_subject(secret@, token@) is None ==> r is Err,
{
    let mut data = jsonwebtoken::decode::<BTreeMap<String, Value>>(
        token,
        &DecodingKey::from_secret(secret),
        &Validation::default(),
    )?;
    match data.claims.remove("sub") {
        Some(Value::String(s)) => Ok(Some(s)),
        _ => Ok(None),
    }
}

/// Calls `std::time::SystemTime::now().duration_since(UNIX_EPOCH)` and gives
/// its whole seconds, `None` where the clock is before 1970. Nothing is
/// claimed of the value.
#[verifier::external_body]
fn seconds_since_epoch() -> (r: Option<u64>) {
    match std::time::SystemTime::now().duration_since(std::time::UNIX_EPOCH) {
        Ok(d) => Some(d.as_secs()),
        Err(_) => None,
    }
}

/// What `base64::engine::general_purpose::STANDARD.decode` returns for the
/// text: the decoded bytes, `None` where it is not valid padded standard
/// base64.
pub uninterp spec fn base64_standard_decode(text: Seq<char>) -> Option<Seq<u8>>;

/// Calls `STANDARD.decode(text)` and drops its error; the contract claims
/// that the result is what `base64_standard_decode` names.
#[verifier::external_body]
fn decode_base64(text: &str) -> (r: Option<Vec<u8>>)
    ensures
        r is Some <==> base64_standard_decode(text@) is Some,
        r matches Some(v) ==> base64_standard_decode(text@) == Some(v@),
{
    base64::engine::general_purpose::STANDARD.decode(text).ok()
}

/// Why a token could not be made or accepted.
#[derive(Debug, PartialEq, Eq, Structural)]
pub enum TokenError {
    /// The token library refused to encode or decode.
    Jwt,
    /// The token carries no string subject.
    MissingSubject,
    /// The clock reads before 1970, or so late that no expiry fits.
    Clock,
}

/// Makes and checks the bearer tokens of users, with one HMAC secret.
#[derive(Clone)]
pub struct JWTAuth {
    secret: Vec<u8>,
}

impl JWTAuth {
    /// The secret that signs and checks tokens.
    pub closed spec fn secret(&self) -> Seq<u8> {
        self.secret@
    }

    /// An authority that signs with the given secret.
    pub fn from_secret(secret: Vec<u8>) -> (r: JWTAuth)
        ensures
            r.secret() == secret@,
    {
        JWTAuth { secret }
    }

    /// An authority whose secret is given in standard base64, as
    /// `jsonwebtoken`'s keys read it; `Jwt` where the text does not decode.
    pub fn from_base64_secret(secret: String) -> (r: Result<JWTAuth, TokenError>)
        ensures
            r is Ok <==> base64_standard_decode(secret@) is Some,
            r matches Ok(a) ==> base64_standard_decode(secret@) == Some(a.secret()),
    {
        match decode_base64(secret.as_str()) {
            Some(bytes) => Ok(JWTAuth::from_secret(bytes)),
            None => Err(TokenError::Jwt),
        }
    }

    /// The expiry of a token made at `now`: thirty days later.
    pub fn generate_exp(now: u64) -> (r: Option<u64>)
        ensures
            now + EXPIRE_TIME <= u64::MAX ==> r == Some((now + EXPIRE_TIME) as u64),
            now + EXPIRE_TIME > u64::MAX ==> r is None,
    {
        now.checked_add(EXPIRE_TIME)
    }

    /// The token of `user_id` made at time `now` (seconds since 1970).
    pub fn create_token_at(&self, user_id: String, now: u64) -> (r: Result<String, TokenError>)
        ensures
            now + EXPIRE_TIME > u64::MAX ==> r == Err::<String, TokenError>(TokenError::Clock),
            now + EXPIRE_TIME <= u64::MAX ==> (r matches Ok(s) && jwt_encode(
                self.secret(),
                (now + EXPIRE_TIME) as u64,
                user_id@,
            ) == Some(s@) && jwt_signed_subject(self.secret(), s@) == Some(Some(user_id@))),
    {
        match JWTAuth::generate_exp(now) {
            None => Err(TokenError::Clock),
            Some(exp) => match encode_claims(self.secret.as_slice(), exp, user_id.as_str()) {
                Ok(t) => Ok(t),
                Err(_) => Err(TokenError::Jwt),
            },
        }
    }

    /// The token of `user_id`, expiring thirty days from now; its signed
    /// subject under this secret is `user_id`. Only a clock before 1970 or
    /// too late for an expiry makes it fail.
    pub fn create_token(&self, user_id: String) -> (r: Result<String, TokenError>)
        ensures
            r matches Ok(s) ==> exists|now: u64| #[trigger] token_made_at(self.secret(), now, user_id@) == Some(s@),
            r matches Ok(s) ==> jwt_signed_subject(self.secret(), s@) == Some(Some(user_id@)),
            r is Err ==> r == Err::<String, TokenError>(TokenError::Clock),
    {
        let ghost sub = user_id@;
        match seconds_since_epoch() {
            None => Err(TokenError::Clock),
            Some(now) => {
                let r = self.create_token_at(user_id, now);
                proof {
                    if r is Ok {
                        assert(token_made_at(self.secret(), now, sub) == Some(r->Ok_0@));
                    }
                }
                r
            },
        }
    }

    /// The user id that a valid, unexpired token signed with this secret
    /// carries as its subject. A token refused apart from its expiry gives
    /// `Jwt`; an accepted one gives its string subject, or `MissingSubject`
    /// where it has none. Whether an expired token is refused depends on the
    /// clock.
    pub fn validate_token(&self, token: &str) -> (r: Result<String, TokenError>)
        ensures
            r matches Ok(s) ==> jwt_signed_subject(self.secret(), token@) == Some(Some(s@)),
            r == Err::<String, TokenError>(TokenError::MissingSubject) ==> jwt_signed_subject(self.secret(), token@)
                == Some(None::<Seq<char>>),
            jwt_signed_subject(self.secret(), token@) is None ==> r == Err::<String, TokenError>(TokenError::Jwt),
            r is Err ==> (r == Err::<String, TokenError>(TokenError::Jwt) || r == Err::<String, TokenError>(
                TokenError::MissingSubject,
            )),
    {
        let decoded = match decode_subject(self.secret.as_slice(), token) {
            Ok(d) => Some(d),
            Err(_) => None,
        };
        subject_from_decoded(decoded)
    }
}

/// What a token check answers for the outcome of decoding: the subject of a
/// token that decoded with a string subject, `MissingSubject` for one that
/// decoded without, and `Jwt` where decoding failed (`None`).
pub fn subject_from_decoded(decoded: Option<Option<String>>) -> (r: Result<String, TokenError>)
    ensures
        decoded matches Some(Some(sub)) ==> r == Ok::<String, TokenError>(sub),
        decoded == Some(None::<String>) ==> r == Err::<String, TokenError>(TokenError::MissingSubject),
        decoded is None ==> r == Err::<String, TokenError>(TokenError::Jwt),
{
    match decoded {
        Some(Some(sub)) => Ok(sub),
        Some(None) => Err(TokenError::MissingSubject),
        None => Err(TokenError::Jwt),
    }
}

} // verus!
