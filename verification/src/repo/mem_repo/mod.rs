//! In-memory stores.

use vstd::prelude::*;

pub mod transaction_repo;
pub mod transaction_template_repo;
pub mod user_repo;

use transaction_repo::MemTransactionRepo;
use transaction_template_repo::MemTransactionTemplateRepo;
use user_repo::MemUserRepo;

verus! {

/// Empty stores of users, transactions and templates.
pub fn create_repos() -> (r: (MemUserRepo, MemTransactionRepo, MemTransactionTemplateRepo))
    ensures
        r.0@ == Map::<Seq<char>, Seq<char>>::empty(),
        r.1.wf(),
        r.1.transactions().is_empty(),
        r.1.next_id() == 0,
        r.2.wf(),
        r.2.templates().is_empty(),
        r.2.next_id() == 0,
{
    (MemUserRepo::new(), MemTransactionRepo::new(), MemTransactionTemplateRepo::new())
}

} // verus!
