//! The configuration of the Honeycomb-reporting deployment of the service.

use crate::env::{env_lookup, parse_bool, read_var, EnvValue};
use vstd::prelude::*;

verus! {

/// Where telemetry is reported.
pub struct HoneycombConfig {
    pub api_key: String,
    pub dataset: String,
}

/// The service's configuration.
pub struct Config {
    pub database_url: String,
    pub signups_enabled: bool,
    pub honeycomb: HoneycombConfig,
}

/// Why the configuration could not be read.
#[derive(Debug, PartialEq, Eq, Structural)]
pub enum ConfigError {
    /// A variable is not set.
    ConfigNotFound,
    /// A variable is not Unicode, or `SIGNUPS_ENABLED` is not a boolean.
    Parse,
}

/// A variable's value; `ConfigNotFound` where it is not set and `Parse`
/// where it is not Unicode.
fn read_env(env: &Vec<(String, Option<String>)>, key: &str) -> (r: Result<String, ConfigError>)
    ensures
        env_lookup(env@, key@) is None ==> r == Err::<String, ConfigError>(ConfigError::ConfigNotFound),
        env_lookup(env@, key@) == Some(None::<Seq<char>>) ==> r == Err::<String, ConfigError>(ConfigError::Parse),
        env_lookup(env@, key@) matches Some(Some(v)) ==> (r matches Ok(s) && s@ == v),
{
    match read_var(env, key) {
        EnvValue::Present(s) => Ok(s),
        EnvValue::NotPresent => Err(ConfigError::ConfigNotFound),
        EnvValue::NotUnicode => Err(ConfigError::Parse),
    }
}

/// The error, if any, of reading one variable.
pub open spec fn read_error(v: Option<Option<Seq<char>>>) -> Option<ConfigError> {
    match v {
        None => Some(ConfigError::ConfigNotFound),
        Some(None) => Some(ConfigError::Parse),
        Some(Some(_)) => None,
    }
}

impl Config {
    /// The configuration from the environment: `SIGNUPS_ENABLED`,
    /// `DATABASE_URL`, `HONEYCOMB_API_URL` (the API key) and
    /// `HONEYCOMB_DATASET`, read in that order, the first that fails giving
    /// the error.
    pub fn from_env(env: &Vec<(String, Option<String>)>) -> (r: Result<Config, ConfigError>)
        ensures
            ({
                let se = env_lookup(env@, "SIGNUPS_ENABLED"@);
                let db = env_lookup(env@, "DATABASE_URL"@);
                let key = env_lookup(env@, "HONEYCOMB_API_URL"@);
                let ds = env_lookup(env@, "HONEYCOMB_DATASET"@);
                if read_error(se) is Some {
                    r == Err::<Config, ConfigError>(read_error(se).unwrap())
                } else if se->0->0 != "true"@ && se->0->0 != "false"@ {
                    r == Err::<Config, ConfigError>(ConfigError::Parse)
                } else if read_error(db) is Some {
                    r == Err::<Config, ConfigError>(read_error(db).unwrap())
                } else if read_error(key) is Some {
                    r == Err::<Config, ConfigError>(read_error(key).unwrap())
                } else if read_error(ds) is Some {
                    r == Err::<Config, ConfigError>(read_error(ds).unwrap())
                } else {
                    r matches Ok(c) && c.signups_enabled == (se->0->0 == "true"@) && c.database_url@ == db->0->0
                        && c.honeycomb.api_key@ == key->0->0 && c.honeycomb.dataset@ == ds->0->0
                }
            }),
    {
        let signups_enabled = read_env(env, "SIGNUPS_ENABLED")?;
        let signups_enabled = match parse_bool(signups_enabled.as_str()) {
            Some(b) => b,
            None => {
                return Err(ConfigError::Parse);
            },
        };
        let database_url = read_env(env, "DATABASE_URL")?;
        let api_key = read_env(env, "HONEYCOMB_API_URL")?;
        let dataset = read_env(env, "HONEYCOMB_DATASET")?;
        Ok(Config { database_url, signups_enabled, honeycomb: HoneycombConfig { api_key, dataset } })
    }
}

} // verus!
