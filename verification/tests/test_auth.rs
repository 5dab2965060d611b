use base64::Engine;
use ledger::auth::handlers::{get_token, signup, UserCredentials};
use ledger::auth::jwt::{subject_from_decoded, JWTAuth, TokenError, EXPIRE_TIME};
use ledger::auth::password::{encode_password, verify_password};
use ledger::error::HandlerError;
use ledger::repo::mem_repo::user_repo::MemUserRepo;
use ledger::repo::user_repo::{UserRepo, UserRepoError};
use ledger::user::{delete_user, update_password, NewPassword};

fn credentials(id: &str, password: &str) -> UserCredentials {
    UserCredentials {
        id: id.to_string(),
        password: password.to_string(),
    }
}

#[test]
fn valid_token() {
    let secret: [u8; 32] = rand::random();
    let jwt_auth = JWTAuth::from_secret(secret.to_vec());

    let token = jwt_auth.create_token("alice".into()).unwrap();
    assert_eq!(jwt_auth.validate_token(&token), Ok("alice".into()));
}

#[test]
fn invalid_token() {
    let secret: [u8; 32] = rand::random();
    let jwt_auth = JWTAuth::from_secret(secret.to_vec());

    let token_bytes: [u8; 32] = rand::random();
    let base64_engine = base64::engine::general_purpose::STANDARD;
    let token = base64_engine.encode(token_bytes);
    assert!(jwt_auth.validate_token(&token).is_err())
}

#[test]
fn returns_user() {
    let secret: [u8; 32] = rand::random();
    let secret = base64::engine::general_purpose::STANDARD.encode(secret);
    let jwt_auth = JWTAuth::from_base64_secret(secret.clone()).unwrap();

    // A token without a subject: the same claims but `sub`, signed with the
    // same secret.
    let key_bytes = base64::engine::general_purpose::STANDARD.decode(&secret).unwrap();
    let mut claims = std::collections::BTreeMap::new();
    claims.insert("exp".to_string(), serde_json::Value::from(4_000_000_000u64));
    let token = jsonwebtoken::encode(
        &jsonwebtoken::Header::default(),
        &claims,
        &jsonwebtoken::EncodingKey::from_secret(&key_bytes),
    )
    .unwrap();
    assert_eq!(jwt_auth.validate_token(&token), Err(TokenError::MissingSubject));

    let token = jwt_auth.create_token("alice".into()).unwrap();
    assert_eq!(jwt_auth.validate_token(&token).unwrap(), "alice".to_string());
}

#[test]
fn token_of_another_secret_is_refused() {
    let jwt_auth = JWTAuth::from_secret(vec![1u8; 32]);
    let other = JWTAuth::from_secret(vec![2u8; 32]);
    let token = other.create_token("alice".into()).unwrap();
    assert_eq!(jwt_auth.validate_token(&token), Err(TokenError::Jwt));
}

#[test]
fn expired_token_is_refused() {
    let jwt_auth = JWTAuth::from_secret(vec![3u8; 32]);
    let token = jwt_auth.create_token_at("alice".into(), 1000).unwrap();
    assert_eq!(jwt_auth.validate_token(&token), Err(TokenError::Jwt));
}

#[test]
fn tokens_made_at_the_same_time_agree() {
    let jwt_auth = JWTAuth::from_secret(vec![4u8; 32]);
    let a = jwt_auth.create_token_at("bob".into(), 1_700_000_000).unwrap();
    let b = jwt_auth.create_token_at("bob".into(), 1_700_000_000).unwrap();
    let c = jwt_auth.create_token_at("bob".into(), 1_700_000_001).unwrap();
    assert_eq!(a, b);
    assert_ne!(a, c);
}

#[test]
fn expiry_is_thirty_days_later() {
    assert_eq!(EXPIRE_TIME, 30 * 24 * 60 * 60);
    assert_eq!(JWTAuth::generate_exp(100), Some(100 + 2_592_000));
    assert_eq!(JWTAuth::generate_exp(u64::MAX - 5), None);
    let jwt_auth = JWTAuth::from_secret(vec![5u8; 32]);
    assert_eq!(
        jwt_auth.create_token_at("carol".into(), u64::MAX),
        Err(TokenError::Clock)
    );
}

#[test]
fn decoded_subjects() {
    assert_eq!(
        subject_from_decoded(Some(Some("dave".to_string()))),
        Ok("dave".to_string())
    );
    assert_eq!(subject_from_decoded(Some(None)), Err(TokenError::MissingSubject));
    assert_eq!(subject_from_decoded(None), Err(TokenError::Jwt));
}

#[test]
fn password_round_trip() {
    let hash = encode_password("hunter2".to_string()).unwrap();
    assert_ne!(hash, "hunter2");
    assert!(hash.starts_with("$argon2"));
    assert_eq!(verify_password("hunter2".to_string(), hash.clone()), Ok(true));
    assert_eq!(verify_password("hunter3".to_string(), hash), Ok(false));
    assert!(verify_password("hunter2".to_string(), "not a hash".to_string()).is_err());
}

#[test]
fn hashes_are_salted() {
    let a = encode_password("same".to_string()).unwrap();
    let b = encode_password("same".to_string()).unwrap();
    assert_ne!(a, b);
}

#[test]
fn signup_then_login() {
    let mut users = MemUserRepo::new();
    let jwt_auth = JWTAuth::from_secret(vec![6u8; 32]);
    signup(&mut users, credentials("erin", "pa55")).unwrap();

    let token = get_token(&users, &jwt_auth, credentials("erin", "pa55"))
        .unwrap()
        .unwrap();
    assert_eq!(jwt_auth.validate_token(&token), Ok("erin".to_string()));

    assert!(matches!(
        get_token(&users, &jwt_auth, credentials("erin", "wrong")),
        Ok(None)
    ));
    match get_token(&users, &jwt_auth, credentials("nobody", "pa55")) {
        Err(HandlerError::UserNotFoundError(UserRepoError::UserNotFound(id))) => assert_eq!(id, "nobody"),
        other => panic!("unexpected {:?}", other),
    }
}

#[test]
fn signup_twice_conflicts() {
    let mut users = MemUserRepo::new();
    signup(&mut users, credentials("erin", "pa55")).unwrap();
    let err = signup(&mut users, credentials("erin", "other")).unwrap_err();
    assert_eq!(err.status_code(), 409);
    let jwt_auth = JWTAuth::from_secret(vec![7u8; 32]);
    assert!(get_token(&users, &jwt_auth, credentials("erin", "pa55")).unwrap().is_some());
}

#[test]
fn stored_hash_that_argon2_cannot_read() {
    let mut users = MemUserRepo::new();
    users
        .create_user(ledger::repo::user_repo::User::new(
            "frank".to_string(),
            "garbage".to_string(),
        ))
        .unwrap();
    let jwt_auth = JWTAuth::from_secret(vec![8u8; 32]);
    let err = get_token(&users, &jwt_auth, credentials("frank", "x")).unwrap_err();
    assert!(matches!(err, HandlerError::AuthError(_)));
    assert_eq!(err.status_code(), 500);
}

#[test]
fn change_password_then_login() {
    let mut users = MemUserRepo::new();
    let jwt_auth = JWTAuth::from_secret(vec![9u8; 32]);
    signup(&mut users, credentials("gina", "old")).unwrap();

    let changed = update_password(
        &mut users,
        Some("gina".to_string()),
        NewPassword {
            new_password: "new".to_string(),
        },
    )
    .unwrap();
    assert!(changed);
    assert!(get_token(&users, &jwt_auth, credentials("gina", "old")).unwrap().is_none());
    assert!(get_token(&users, &jwt_auth, credentials("gina", "new")).unwrap().is_some());

    let anonymous = update_password(
        &mut users,
        None,
        NewPassword {
            new_password: "x".to_string(),
        },
    );
    assert!(matches!(anonymous, Ok(false)));

    let unknown = update_password(
        &mut users,
        Some("nobody".to_string()),
        NewPassword {
            new_password: "x".to_string(),
        },
    )
    .unwrap_err();
    assert_eq!(unknown.status_code(), 404);
}

#[test]
fn deleted_user_cannot_login() {
    let mut users = MemUserRepo::new();
    let jwt_auth = JWTAuth::from_secret(vec![10u8; 32]);
    signup(&mut users, credentials("hal", "pw")).unwrap();
    assert!(matches!(delete_user(&mut users, None), Ok(false)));
    assert!(matches!(delete_user(&mut users, Some("hal".to_string())), Ok(true)));
    assert_eq!(
        delete_user(&mut users, Some("hal".to_string())).unwrap_err().status_code(),
        404
    );
    assert!(get_token(&users, &jwt_auth, credentials("hal", "pw")).is_err());
}

#[test]
fn base64_secrets() {
    let engine = base64::engine::general_purpose::STANDARD;
    let from_text = JWTAuth::from_base64_secret(engine.encode([11u8; 32])).unwrap();
    let from_bytes = JWTAuth::from_secret(vec![11u8; 32]);
    let token = from_bytes.create_token_at("ivy".into(), 1_700_000_000).unwrap();
    assert_eq!(
        from_text.create_token_at("ivy".into(), 1_700_000_000).unwrap(),
        token
    );
    assert_eq!(JWTAuth::from_base64_secret("not base64!".to_string()).err(), Some(TokenError::Jwt));
}

// The bearer check hands on the subject of a valid token and refuses the rest.

#[test]
fn valid_user() {
    let secret: [u8; 32] = rand::random();
    let jwt_auth = JWTAuth::from_secret(secret.to_vec());
    let user_id = "test".to_string();
    let token = jwt_auth.create_token(user_id.clone()).unwrap();
    let header = String::from("Bearer ") + &token;
    let presented = header.strip_prefix("Bearer ").unwrap();
    assert_eq!(jwt_auth.validate_token(presented), Ok(user_id));
}

#[test]
fn invalid_user() {
    let secret: [u8; 32] = rand::random();
    let jwt_auth = JWTAuth::from_secret(secret.to_vec());
    let token = jwt_auth.create_token("other_user".into()).unwrap();
    assert_ne!(jwt_auth.validate_token(&token), Ok("test".to_string()));
}

#[test]
fn no_token() {
    let secret: [u8; 32] = rand::random();
    let jwt_auth = JWTAuth::from_secret(secret.to_vec());
    assert!(jwt_auth.validate_token("").is_err());
}
