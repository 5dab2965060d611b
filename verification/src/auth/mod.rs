//! Authentication: password hashes, bearer tokens and the decisions of the
//! sign-up, log-in and account endpoints.

pub mod handlers;
pub mod jwt;
pub mod password;
