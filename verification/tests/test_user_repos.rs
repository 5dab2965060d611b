use ledger::repo::mem_repo::user_repo::MemUserRepo;
use ledger::repo::user_repo::{User, UserRepo, UserRepoError};

fn test_user() -> User {
    User::new(
        "test-user-".to_owned() + &uuid::Uuid::new_v4().to_string(),
        "not a real hash".to_owned(),
    )
}

#[test]
fn test_create_and_get_user() {
    let mut user_repo = MemUserRepo::new();
    let user = test_user();
    user_repo.create_user(user.clone()).unwrap();

    let inserted_user = user_repo.get_user(&user.id).unwrap();
    assert_eq!(user, inserted_user);
}

#[test]
fn test_create_existing_user() {
    let mut user_repo = MemUserRepo::new();
    let user = test_user();
    user_repo.create_user(user.clone()).unwrap();

    let create_result = user_repo.create_user(user.clone());
    assert!(matches!(
        create_result,
        Err(UserRepoError::UserAlreadyExists(_))
    ))
}

#[test]
fn test_update_password() {
    let mut user_repo = MemUserRepo::new();
    let user = test_user();
    user_repo.create_user(user.clone()).unwrap();

    let update_result = user_repo.update_password_hash(&user.id, "new hash");
    assert!(update_result.is_ok());

    let stored_user = user_repo.get_user(&user.id).unwrap();
    assert_eq!(user.id, stored_user.id);
    assert_ne!(user.password_hash, stored_user.password_hash);
}

#[test]
fn test_update_password_invalid_user() {
    let mut user_repo = MemUserRepo::new();
    let update_result = user_repo.update_password_hash("invalid user", "new hash");
    assert!(matches!(update_result, Err(UserRepoError::UserNotFound(_))))
}

#[test]
fn test_delete_user() {
    let mut user_repo = MemUserRepo::new();
    let user = test_user();
    user_repo.create_user(user.clone()).unwrap();

    let delete_result = user_repo.delete_user(&user.id);
    assert!(delete_result.is_ok());

    let get_result = user_repo.get_user(&user.id);
    assert!(get_result.is_err());
}

#[test]
fn test_delete_invalid_user() {
    let mut user_repo = MemUserRepo::new();
    let delete_result = user_repo.delete_user("test-user");
    assert!(matches!(delete_result, Err(UserRepoError::UserNotFound(_))))
}

#[test]
fn errors_name_the_user() {
    let mut user_repo = MemUserRepo::new();
    user_repo.create_user(User::new("ann".to_string(), "h1".to_string())).unwrap();
    match user_repo.create_user(User::new("ann".to_string(), "h2".to_string())) {
        Err(UserRepoError::UserAlreadyExists(id)) => assert_eq!(id, "ann"),
        other => panic!("unexpected {:?}", other),
    }
    assert_eq!(user_repo.get_user("ann").unwrap().password_hash, "h1");
    match user_repo.get_user("ben") {
        Err(UserRepoError::UserNotFound(id)) => assert_eq!(id, "ben"),
        other => panic!("unexpected {:?}", other),
    }
}

#[test]
fn other_users_are_untouched() {
    let mut user_repo = MemUserRepo::new();
    user_repo.create_user(User::new("ann".to_string(), "h1".to_string())).unwrap();
    user_repo.create_user(User::new("ben".to_string(), "h2".to_string())).unwrap();
    user_repo.update_password_hash("ann", "h3").unwrap();
    user_repo.delete_user("ann").unwrap();
    assert!(user_repo.delete_user("ann").is_err());
    assert_eq!(user_repo.get_user("ben").unwrap(), User::new("ben".to_string(), "h2".to_string()));
}
