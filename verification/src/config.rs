//! The server's configuration: database, sign-ups, telemetry key and TLS.

use crate::env::{env_lookup, parse_bool, read_var, EnvValue};
use vstd::prelude::*;

verus! {

/// Where the server finds its TLS key and certificate chain.
pub struct SSLConfig {
    pub private_key_file: String,
    pub certificate_chain_file: String,
}

/// The server's configuration.
pub struct Config {
    pub database_url: String,
    pub signups_enabled: bool,
    pub honeycomb_api_key: String,
    pub ssl: Option<SSLConfig>,
}

/// Why the configuration could not be read.
#[derive(Debug)]
pub enum ConfigLoadError {
    /// The variable is not set, or not to Unicode.
    MissingVar(String),
    /// `SIGNUPS_ENABLED` is neither `true` nor `false`.
    InvalidSignupsEnabled,
}

/// The Unicode value of `key` in the snapshot, if it has one.
pub open spec fn env_text(env: Seq<(String, Option<String>)>, key: Seq<char>) -> Option<Seq<char>> {
    match env_lookup(env, key) {
        Some(Some(v)) => Some(v),
        _ => None,
    }
}

/// A readable variable's value, or `MissingVar` with its name.
fn read_env(env: &Vec<(String, Option<String>)>, key: &str) -> (r: Result<String, ConfigLoadError>)
    ensures
        env_text(env@, key@) matches Some(v) ==> (r matches Ok(s) && s@ == v),
        env_text(env@, key@) is None ==> (r matches Err(ConfigLoadError::MissingVar(k)) && k@ == key@),
{
    match read_var(env, key) {
        EnvValue::Present(s) => Ok(s),
        _ => Err(ConfigLoadError::MissingVar(key.to_owned())),
    }
}

impl Config {
    /// The configuration from the environment: `SIGNUPS_ENABLED` (`true` or
    /// `false`), `DATABASE_URL` and `HONEYCOMB_API_KEY`, read in that order,
    /// the first that is missing or invalid giving the error. TLS is off.
    pub fn from_env(env: &Vec<(String, Option<String>)>) -> (r: Result<Config, ConfigLoadError>)
        ensures
            env_text(env@, "SIGNUPS_ENABLED"@) is None ==> (r matches Err(ConfigLoadError::MissingVar(k)) && k@
                == "SIGNUPS_ENABLED"@),
            env_text(env@, "SIGNUPS_ENABLED"@) matches Some(v) ==> {
                if v != "true"@ && v != "false"@ {
                    r matches Err(ConfigLoadError::InvalidSignupsEnabled)
                } else if env_text(env@, "DATABASE_URL"@) is None {
                    r matches Err(ConfigLoadError::MissingVar(k)) && k@ == "DATABASE_URL"@
                } else if env_text(env@, "HONEYCOMB_API_KEY"@) is None {
                    r matches Err(ConfigLoadError::MissingVar(k)) && k@ == "HONEYCOMB_API_KEY"@
                } else {
                    r matches Ok(c) && c.signups_enabled == (v == "true"@) && Some(c.database_url@) == env_text(
                        env@,
                        "DATABASE_URL"@,
                    ) && Some(c.honeycomb_api_key@) == env_text(env@, "HONEYCOMB_API_KEY"@) && c.ssl is None
                }
            },
    {
        let signups_enabled = read_env(env, "SIGNUPS_ENABLED")?;
        let signups_enabled = match parse_bool(signups_enabled.as_str()) {
            Some(b) => b,
            None => {
                return Err(ConfigLoadError::InvalidSignupsEnabled);
            },
        };
        let database_url = read_env(env, "DATABASE_URL")?;
        let honeycomb_api_key = read_env(env, "HONEYCOMB_API_KEY")?;
        Ok(Config { database_url, signups_enabled, honeycomb_api_key, ssl: None })
    }
}

} // verus!
