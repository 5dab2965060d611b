//! Storage of users, transactions and transaction templates: the records,
//! the operations on them and an in-memory implementation.

use vstd::prelude::*;

pub mod diesel_repo;
pub mod mem_repo;
pub mod transaction_order;
pub mod transaction_repo;
pub mod transaction_template_repo;
pub mod user_repo;

verus! {

/// A store that can tell whether it is reachable.
pub trait HealthCheck {
    fn check(&self) -> bool;
}

} // verus!
