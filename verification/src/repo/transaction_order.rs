//! The order of transactions: by date, and on the same day by id.

use crate::date::{date_lt, Date};
use crate::repo::transaction_repo::{tx_after, Transaction};
use core::cmp::Ordering;
use vstd::prelude::*;
use vstd::std_specs::cmp::PartialOrdSpecImpl;

verus! {

/// How two days compare: by year, then month, then day.
pub open spec fn date_order(a: Date, b: Date) -> Ordering {
    if date_lt(a, b) {
        Ordering::Less
    } else if date_lt(b, a) {
        Ordering::Greater
    } else {
        Ordering::Equal
    }
}

/// How two transactions compare: by date, and on the same day by id.
pub open spec fn transaction_order(a: Transaction, b: Transaction) -> Ordering {
    match date_order(a.date, b.date) {
        Ordering::Equal => if a.id < b.id {
            Ordering::Less
        } else if a.id > b.id {
            Ordering::Greater
        } else {
            Ordering::Equal
        },
        o => o,
    }
}

/// How two days compare.
pub fn compare_dates(a: &Date, b: &Date) -> (r: Ordering)
    ensures
        r == date_order(*a, *b),
{
    if a.precedes(b) {
        Ordering::Less
    } else if b.precedes(a) {
        Ordering::Greater
    } else {
        Ordering::Equal
    }
}

impl PartialOrd for Transaction {
    fn partial_cmp(&self, other: &Transaction) -> (r: Option<Ordering>) {
        match compare_dates(&self.date, &other.date) {
            Ordering::Equal => if self.id < other.id {
                Some(Ordering::Less)
            } else if self.id > other.id {
                Some(Ordering::Greater)
            } else {
                Some(Ordering::Equal)
            },
            Ordering::Less => Some(Ordering::Less),
            Ordering::Greater => Some(Ordering::Greater),
        }
    }
}

impl PartialOrdSpecImpl for Transaction {
    open spec fn obeys_partial_cmp_spec() -> bool {
        true
    }

    open spec fn partial_cmp_spec(&self, other: &Transaction) -> Option<Ordering> {
        Some(transaction_order(*self, *other))
    }
}

/// Listings are sorted by this order, greatest first: for transactions on
/// existing days, one comes before another in a listing exactly when it
/// compares greater.
pub proof fn law_listing_order(a: Transaction, b: Transaction)
    requires
        a.date.wf(),
        b.date.wf(),
    ensures
        tx_after(a@, b@) <==> transaction_order(a, b) == Ordering::Greater,
{
}

} // verus!
