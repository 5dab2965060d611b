//! A personal ledger: users, their transactions and transaction templates,
//! the queries over them (filtered and paged listings, monthly totals,
//! balances, categories, tags and transactees), password hashing, bearer
//! tokens and the service configuration.

pub mod amount;
pub mod date;
pub mod keyed;
pub mod repo;
pub mod auth;
pub mod error;
pub mod config;
pub mod env;
pub mod honeycomb_config;
pub mod user;
