use ledger::config::{Config, ConfigLoadError};
use ledger::env::{parse_bool, read_var, EnvValue};
use ledger::error::HandlerError;
use ledger::honeycomb_config::{Config as HoneycombServiceConfig, ConfigError};
use ledger::repo::transaction_repo::TransactionRepoError;
use ledger::repo::user_repo::UserRepoError;

fn env(pairs: &[(&str, Option<&str>)]) -> Vec<(String, Option<String>)> {
    pairs
        .iter()
        .map(|(k, v)| (k.to_string(), v.map(|s| s.to_string())))
        .collect()
}

#[test]
fn config_from_env() {
    let vars = env(&[
        ("DATABASE_URL", Some("postgres://db")),
        ("SIGNUPS_ENABLED", Some("true")),
        ("HONEYCOMB_API_KEY", Some("key")),
    ]);
    let config = Config::from_env(&vars).unwrap();
    assert_eq!(config.database_url, "postgres://db");
    assert!(config.signups_enabled);
    assert_eq!(config.honeycomb_api_key, "key");
    assert!(config.ssl.is_none());
}

#[test]
fn config_errors() {
    let missing = Config::from_env(&env(&[("DATABASE_URL", Some("x"))]));
    match missing {
        Err(ConfigLoadError::MissingVar(k)) => assert_eq!(k, "SIGNUPS_ENABLED"),
        _ => panic!("expected a missing variable"),
    }
    let invalid = Config::from_env(&env(&[("SIGNUPS_ENABLED", Some("yes"))]));
    assert!(matches!(invalid, Err(ConfigLoadError::InvalidSignupsEnabled)));
    let no_db = Config::from_env(&env(&[("SIGNUPS_ENABLED", Some("false"))]));
    match no_db {
        Err(ConfigLoadError::MissingVar(k)) => assert_eq!(k, "DATABASE_URL"),
        _ => panic!("expected a missing variable"),
    }
    let no_key = Config::from_env(&env(&[
        ("SIGNUPS_ENABLED", Some("false")),
        ("DATABASE_URL", Some("x")),
        ("HONEYCOMB_API_KEY", None),
    ]));
    match no_key {
        Err(ConfigLoadError::MissingVar(k)) => assert_eq!(k, "HONEYCOMB_API_KEY"),
        _ => panic!("expected a missing variable"),
    }
}

#[test]
fn honeycomb_config_from_env() {
    let vars = env(&[
        ("SIGNUPS_ENABLED", Some("false")),
        ("DATABASE_URL", Some("postgres://db")),
        ("HONEYCOMB_API_URL", Some("key")),
        ("HONEYCOMB_DATASET", Some("ledger")),
    ]);
    let config = HoneycombServiceConfig::from_env(&vars).unwrap();
    assert!(!config.signups_enabled);
    assert_eq!(config.database_url, "postgres://db");
    assert_eq!(config.honeycomb.api_key, "key");
    assert_eq!(config.honeycomb.dataset, "ledger");

    let missing = HoneycombServiceConfig::from_env(&env(&[("SIGNUPS_ENABLED", Some("true"))]));
    assert_eq!(missing.err(), Some(ConfigError::ConfigNotFound));
    let not_unicode = HoneycombServiceConfig::from_env(&env(&[("SIGNUPS_ENABLED", None)]));
    assert_eq!(not_unicode.err(), Some(ConfigError::Parse));
    let not_bool = HoneycombServiceConfig::from_env(&env(&[("SIGNUPS_ENABLED", Some("1"))]));
    assert_eq!(not_bool.err(), Some(ConfigError::Parse));
}

#[test]
fn env_lookup_takes_the_first_entry() {
    let vars = env(&[("A", Some("1")), ("A", Some("2")), ("B", None)]);
    assert!(matches!(read_var(&vars, "A"), EnvValue::Present(s) if s == "1"));
    assert!(matches!(read_var(&vars, "B"), EnvValue::NotUnicode));
    assert!(matches!(read_var(&vars, "C"), EnvValue::NotPresent));
    assert_eq!(parse_bool("true"), Some(true));
    assert_eq!(parse_bool("false"), Some(false));
    assert_eq!(parse_bool("True"), None);
}

#[test]
fn status_codes() {
    let not_found = HandlerError::from(TransactionRepoError::TransactionNotFound(3));
    assert_eq!(not_found.status_code(), 404);
    assert_eq!(HandlerError::from(TransactionRepoError::Other("x".into())).status_code(), 500);
    assert_eq!(HandlerError::from(UserRepoError::UserNotFound("u".into())).status_code(), 404);
    assert_eq!(HandlerError::from(UserRepoError::UserAlreadyExists("u".into())).status_code(), 409);
    assert_eq!(HandlerError::from(UserRepoError::Other("u".into())).status_code(), 500);
    assert_eq!(HandlerError::BadRequest("b".into()).status_code(), 400);
    assert_eq!(HandlerError::OtherError("o".into()).status_code(), 500);
}
