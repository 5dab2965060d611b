//! A transaction store held in memory.

use crate::date::lemma_date_key_injective;
use crate::keyed::{
    has_key, keys_distinct, lemma_to_map_at, lemma_to_map_empty, lemma_to_map_pair, lemma_to_map_push,
    lemma_to_map_remove, lemma_to_map_update, to_map,
};
use crate::amount::{lemma_exact_step, lemma_value_sign, pow10, value_at, Amount, MAX_MANTISSA};
use crate::repo::transaction_repo::{
    strings_view, opt_view, owns, lemma_transactee_count_absent,
    count_in_total, empty_total, has_category, has_tag, has_transactee, is_listing, lemma_listing_is,
    lemma_monthly_totals_prefix, lemma_sum_amounts_prefix, listing, matches_filter, month_of, monthly_totals,
    newest_first, no_filter, page, lemma_listing_magnitude, lemma_max_scale, listing_value, max_scale, sums_fit, listing_magnitude,
    totals_net, totals_gross, lemma_totals_gross_nonneg, page_end, page_start, sum_amounts, transactee_count, tx_after, Filter,
    MonthlyTotal, NewTransaction, PageOptions, Transaction, TransactionMap, TransactionRepoError, TransactionView,
};
use vstd::prelude::*;

verus! {

/// The transactions of a list, as views.
pub open spec fn views(s: Seq<Transaction>) -> Seq<TransactionView> {
    s.map_values(|t: Transaction| t@)
}

/// No two transactions share an id.
pub open spec fn ids_distinct(s: Seq<TransactionView>) -> bool {
    forall|i: int, j: int| 0 <= i < s.len() && 0 <= j < s.len() && i != j ==> s[i].id != s[j].id
}

/// The stored records as map entries: id, then owner and transaction.
pub open spec fn entries_view(s: Seq<(String, Transaction)>) -> Seq<(i32, (Seq<char>, TransactionView))> {
    s.map_values(|r: (String, Transaction)| (r.1.id, (r.0@, r.1@)))
}

/// The dates that bound the filter exist.
pub open spec fn filter_wf(f: Filter) -> bool {
    &&& (f.from matches Some(d) ==> d.wf())
    &&& (f.until matches Some(d) ==> d.wf())
}

/// `a` comes before `b` in a listing.
fn is_after(a: &Transaction, b: &Transaction) -> (r: bool)
    requires
        a.wf(),
        b.wf(),
    ensures
        r == tx_after(a@, b@),
{
    proof {
        lemma_date_key_injective(a.date, b.date);
    }
    if b.date.is_before(&a.date) {
        true
    } else if a.date.same_day(&b.date) {
        a.id > b.id
    } else {
        false
    }
}

/// Whether the transaction passes the filter.
fn passes(t: &Transaction, f: &Filter) -> (r: bool)
    requires
        t.wf(),
        filter_wf(*f),
    ensures
        r == matches_filter(t@, *f),
{
    if let Some(from) = &f.from {
        if t.date.is_before(from) {
            return false;
        }
    }
    if let Some(until) = &f.until {
        if until.is_before(&t.date) {
            return false;
        }
    }
    if let Some(category) = &f.category {
        if t.category != *category {
            return false;
        }
    }
    if let Some(transactee) = &f.transactee {
        match &t.transactee {
            Some(x) => {
                if *x != *transactee {
                    return false;
                }
            },
            None => {
                return false;
            },
        }
    }
    true
}

/// The transactions ordered newest first.
fn sort_newest_first(v: Vec<Transaction>) -> (r: Vec<Transaction>)
    requires
        ids_distinct(views(v@)),
        forall|i: int| 0 <= i < v@.len() ==> (#[trigger] v@[i]).wf(),
    ensures
        newest_first(views(r@)),
        forall|t: TransactionView| views(r@).contains(t) <==> views(v@).contains(t),
        forall|i: int| 0 <= i < r@.len() ==> (#[trigger] r@[i]).wf(),
{
    let ghost orig = views(v@);
    let mut rest = v;
    let mut res: Vec<Transaction> = Vec::new();
    while rest.len() > 0
        invariant
            newest_first(views(res@)),
            forall|t: TransactionView| orig.contains(t) <==> (views(res@).contains(t) || views(rest@).contains(t)),
            ids_distinct(views(rest@)),
            forall|a: int, b: int| 0 <= a < rest@.len() && 0 <= b < res@.len() ==> rest@[a].id != res@[b].id,
            forall|i: int| 0 <= i < rest@.len() ==> (#[trigger] rest@[i]).wf(),
            forall|i: int| 0 <= i < res@.len() ==> (#[trigger] res@[i]).wf(),
        decreases rest@.len(),
    {
        let ghost old_rest = rest@;
        let ghost old_res = res@;
        let t = rest.pop().unwrap();
        assert(t == old_rest.last());
        assert(rest@ == old_rest.drop_last());
        let mut p: usize = 0;
        while p < res.len() && !is_after(&t, &res[p])
            invariant
                p <= res@.len(),
                res@ == old_res,
                t.wf(),
                forall|i: int| 0 <= i < res@.len() ==> (#[trigger] res@[i]).wf(),
                forall|k: int| 0 <= k < p ==> !tx_after(t@, #[trigger] res@[k]@),
            decreases res@.len() - p,
        {
            p = p + 1;
        }
        let ghost tv = t@;
        proof {
            assert forall|k: int| 0 <= k < p implies tx_after(#[trigger] old_res[k]@, tv) by {
                assert(old_rest[old_rest.len() - 1].id != old_res[k].id);
                assert(!tx_after(tv, old_res[k]@));
            }
            if p < old_res.len() {
                assert(tx_after(tv, old_res[p as int]@));
                assert forall|k: int| p <= k < old_res.len() implies tx_after(tv, #[trigger] old_res[k]@) by {
                    if k > p {
                        assert(tx_after(views(old_res)[p as int], views(old_res)[k]));
                    }
                }
            }
        }
        res.insert(p, t);
        proof {
            old_res.insert_ensures(p as int, t);
            let r = views(res@);
            assert forall|i: int, j: int| 0 <= i < j < r.len() implies tx_after(#[trigger] r[i], #[trigger] r[j]) by {
                assert(r[i] == res@[i]@ && r[j] == res@[j]@);
                if i < p && j < p {
                    assert(tx_after(views(old_res)[i], views(old_res)[j]));
                } else if i < p && j == p {
                } else if i < p && j > p {
                    assert(res@[j] == old_res[j - 1]);
                    assert(tx_after(old_res[i]@, tv));
                    assert(tx_after(tv, old_res[j - 1]@));
                } else if i == p {
                    assert(res@[j] == old_res[j - 1]);
                } else {
                    assert(res@[i] == old_res[i - 1]);
                    assert(res@[j] == old_res[j - 1]);
                    assert(tx_after(views(old_res)[i - 1], views(old_res)[j - 1]));
                }
            }
            assert forall|x: TransactionView| orig.contains(x) <==> (views(res@).contains(x) || views(rest@).contains(x)) by {
                if views(old_res).contains(x) {
                    let k = choose|k: int| 0 <= k < old_res.len() && views(old_res)[k] == x;
                    if k < p {
                        assert(views(res@)[k] == x);
                    } else {
                        assert(views(res@)[k + 1] == x);
                    }
                }
                if views(old_rest).contains(x) {
                    let k = choose|k: int| 0 <= k < old_rest.len() && views(old_rest)[k] == x;
                    if k < old_rest.len() - 1 {
                        assert(views(rest@)[k] == x);
                    } else {
                        assert(views(res@)[p as int] == x);
                    }
                }
                if views(res@).contains(x) {
                    let k = choose|k: int| 0 <= k < res@.len() && views(res@)[k] == x;
                    if k < p {
                        assert(views(old_res)[k] == x);
                    } else if k == p {
                        assert(views(old_rest)[old_rest.len() - 1] == x);
                    } else {
                        assert(views(old_res)[k - 1] == x);
                    }
                }
                if views(rest@).contains(x) {
                    let k = choose|k: int| 0 <= k < rest@.len() && views(rest@)[k] == x;
                    assert(views(old_rest)[k] == x);
                }
            }
            assert forall|a: int, b: int| 0 <= a < rest@.len() && 0 <= b < res@.len() implies rest@[a].id
                != res@[b].id by {
                assert(rest@[a] == old_rest[a]);
                if b < p {
                    assert(res@[b] == old_res[b]);
                } else if b == p {
                    assert(views(old_rest)[a].id != views(old_rest)[old_rest.len() - 1].id);
                } else {
                    assert(res@[b] == old_res[b - 1]);
                }
            }
            assert forall|i: int, j: int|
                0 <= i < views(rest@).len() && 0 <= j < views(rest@).len() && i != j implies views(
                rest@,
            )[i].id != views(rest@)[j].id by {
                assert(views(old_rest)[i].id != views(old_rest)[j].id);
            }
            assert forall|i: int| 0 <= i < res@.len() implies (#[trigger] res@[i]).wf() by {
                if i < p {
                    assert(res@[i] == old_res[i]);
                } else if i > p {
                    assert(res@[i] == old_res[i - 1]);
                }
            }
        }
    }
    proof {
        assert forall|t: TransactionView| views(res@).contains(t) <==> orig.contains(t) by {
            if views(rest@).contains(t) {
                let k = choose|k: int| 0 <= k < rest@.len() && views(rest@)[k] == t;
            }
        }
    }
    res
}

/// A month's total with one more transaction counted. Counted in units of
/// `10^-sc` for a scale `sc` at least those of the amounts involved, where
/// the gross of the total and the transaction's magnitude fit in 96 bits
/// nothing is rounded: the net grows by the amount and the gross by its
/// magnitude.
fn count_transaction(total: MonthlyTotal, t: &Transaction, Ghost(sc): Ghost<nat>) -> (r: Option<MonthlyTotal>)
    requires
        total.income.wf(),
        total.expense.wf(),
        t.wf(),
    ensures
        r == count_in_total(total, t@),
        r matches Some(n) ==> n.income.wf() && n.expense.wf(),
        total.income.mantissa >= 0 && total.expense.mantissa >= 0 ==> (r matches Some(n) ==> n.income.mantissa
            >= 0 && n.expense.mantissa >= 0),
        ({
            let vt = value_at(t.amount, sc);
            let mt = if vt >= 0 {
                vt
            } else {
                -vt
            };
            (total.income.scale <= sc && total.expense.scale <= sc && t.amount.scale <= sc
                && total.income.mantissa >= 0 && total.expense.mantissa >= 0 && value_at(total.income, sc)
                + value_at(total.expense, sc) + mt <= MAX_MANTISSA) ==> (r matches Some(n) && n.month
                == total.month && n.income.scale <= sc && n.expense.scale <= sc && value_at(n.income, sc)
                - value_at(n.expense, sc) == value_at(total.income, sc) - value_at(total.expense, sc) + vt
                && value_at(n.income, sc) + value_at(n.expense, sc) == value_at(total.income, sc) + value_at(
                total.expense,
                sc,
            ) + mt)
        }),
{
    proof {
        lemma_value_sign(total.income, sc);
        lemma_value_sign(total.expense, sc);
        lemma_value_sign(t.amount, sc);
    }
    if t.amount.is_positive() {
        proof {
            if total.income.scale <= sc && t.amount.scale <= sc && value_at(total.income, sc) + value_at(
                total.expense,
                sc,
            ) + value_at(t.amount, sc) <= MAX_MANTISSA && total.expense.mantissa >= 0 && total.income.mantissa >= 0 {
                lemma_exact_step(total.income, t.amount, sc, false);
            }
        }
        match total.income.checked_add(&t.amount) {
            Some(i) => Some(MonthlyTotal { month: total.month, income: i, expense: total.expense }),
            None => None,
        }
    } else {
        proof {
            if total.expense.scale <= sc && t.amount.scale <= sc && value_at(total.income, sc) + value_at(
                total.expense,
                sc,
            ) - value_at(t.amount, sc) <= MAX_MANTISSA && total.income.mantissa >= 0 && total.expense.mantissa >= 0 {
                lemma_exact_step(total.expense, t.amount, sc, true);
            }
        }
        match total.expense.checked_sub(&t.amount) {
            Some(e) => Some(MonthlyTotal { month: total.month, income: total.income, expense: e }),
            None => None,
        }
    }
}

/// The monthly totals of a listing, one for each run of transactions of the
/// same month, `None` where a sum overflows.
pub fn compute_monthly_totals(v: &Vec<Transaction>) -> (r: Option<Vec<MonthlyTotal>>)
    requires
        forall|i: int| 0 <= i < v@.len() ==> (#[trigger] v@[i]).wf(),
    ensures
        r is Some <==> monthly_totals(views(v@)) is Some,
        r matches Some(x) ==> monthly_totals(views(v@)) == Some(x@),
        r matches Some(x) ==> forall|i: int|
            0 <= i < x@.len() ==> (#[trigger] x@[i]).income.mantissa >= 0 && x@[i].expense.mantissa >= 0,
        sums_fit(views(v@)) ==> (r matches Some(x) && totals_net(x@, max_scale(views(v@))) == listing_value(
            views(v@),
            max_scale(views(v@)),
        )),
{
    let ghost s = views(v@);
    let ghost sc = max_scale(s);
    let mut res: Vec<MonthlyTotal> = Vec::new();
    let mut i: usize = 0;
    assert(s.take(0) =~= Seq::<TransactionView>::empty());
    proof {
        lemma_max_scale(s);
    }
    while i < v.len()
        invariant
            i <= v@.len(),
            s == views(v@),
            sc == max_scale(s),
            forall|k: int| 0 <= k < s.len() ==> (#[trigger] s[k]).amount.scale <= sc,
            forall|k: int| 0 <= k < v@.len() ==> (#[trigger] v@[k]).wf(),
            monthly_totals(s.take(i as int)) == Some(res@),
            forall|k: int| 0 <= k < res@.len() ==> (#[trigger] res@[k]).income.wf() && res@[k].expense.wf(),
            forall|k: int|
                0 <= k < res@.len() ==> (#[trigger] res@[k]).income.mantissa >= 0 && res@[k].expense.mantissa >= 0,
            sums_fit(s) ==> {
                &&& forall|k: int|
                    0 <= k < res@.len() ==> (#[trigger] res@[k]).income.scale <= sc && res@[k].expense.scale <= sc
                &&& totals_net(res@, sc) == listing_value(s.take(i as int), sc)
                &&& totals_gross(res@, sc) == listing_magnitude(s.take(i as int), sc)
            },
        decreases v@.len() - i,
    {
        let t = &v[i];
        let month = t.date.month_start();
        let ghost old_res = res@;
        proof {
            assert(s.take(i + 1).drop_last() =~= s.take(i as int));
            assert(s.take(i + 1).last() == t@);
            assert(month == month_of(t@));
            assert(s[i as int] == t@);
            if sums_fit(s) {
                lemma_listing_magnitude(s, i + 1, sc);
                lemma_listing_magnitude(s, i as int, sc);
                lemma_totals_gross_nonneg(old_res, sc);
                if old_res.len() > 0 {
                    lemma_totals_gross_nonneg(old_res.drop_last(), sc);
                    assert(old_res.drop_last().len() == old_res.len() - 1);
                }
            }
        }
        let n = res.len();
        if n > 0 && res[n - 1].month.same_day(&month) {
            match count_transaction(res[n - 1], t, Ghost(sc)) {
                Some(nt) => {
                    res.set(n - 1, nt);
                    proof {
                        assert(res@.drop_last() =~= old_res.drop_last());
                        assert(res@.last() == nt);
                    }
                },
                None => {
                    proof {
                        lemma_monthly_totals_prefix(s, i + 1);
                    }
                    return None;
                },
            }
        } else {
            let zero = Amount::zero();
            let fresh = MonthlyTotal { month, income: zero, expense: zero };
            assert(fresh == empty_total(month_of(t@)));
            proof {
                lemma_value_sign(zero, sc);
            }
            match count_transaction(fresh, t, Ghost(sc)) {
                Some(nt) => {
                    res.push(nt);
                    proof {
                        assert(res@.drop_last() =~= old_res);
                        assert(res@.last() == nt);
                    }
                },
                None => {
                    proof {
                        lemma_monthly_totals_prefix(s, i + 1);
                    }
                    return None;
                },
            }
        }
        i = i + 1;
    }
    assert(s.take(v@.len() as int) =~= s);
    Some(res)
}

/// The sum of the amounts of a listing, `None` where it overflows.
pub fn compute_sum(v: &Vec<Transaction>) -> (r: Option<Amount>)
    requires
        forall|i: int| 0 <= i < v@.len() ==> (#[trigger] v@[i]).wf(),
    ensures
        r == sum_amounts(views(v@)),
        r matches Some(a) ==> a.wf(),
        sums_fit(views(v@)) ==> (r matches Some(b) && b.scale <= max_scale(views(v@)) && value_at(
            b,
            max_scale(views(v@)),
        ) == listing_value(views(v@), max_scale(views(v@)))),
{
    let ghost s = views(v@);
    let ghost sc = max_scale(s);
    let mut sum = Amount::zero();
    let mut i: usize = 0;
    assert(s.take(0) =~= Seq::<TransactionView>::empty());
    proof {
        lemma_max_scale(s);
        assert(value_at(sum, sc) == 0) by (nonlinear_arith)
            requires
                sum.mantissa == 0,
                value_at(sum, sc) == sum.mantissa * pow10((sc - sum.scale) as nat),
        ;
    }
    while i < v.len()
        invariant
            i <= v@.len(),
            s == views(v@),
            sc == max_scale(s),
            forall|k: int| 0 <= k < s.len() ==> (#[trigger] s[k]).amount.scale <= sc,
            forall|k: int| 0 <= k < v@.len() ==> (#[trigger] v@[k]).wf(),
            sum_amounts(s.take(i as int)) == Some(sum),
            sum.wf(),
            sums_fit(s) ==> sum.scale <= sc && value_at(sum, sc) == listing_value(s.take(i as int), sc),
        decreases v@.len() - i,
    {
        proof {
            assert(s.take(i + 1).drop_last() =~= s.take(i as int));
            assert(s.take(i + 1).last() == v@[i as int]@);
            if sums_fit(s) {
                assert(s[i as int] == v@[i as int]@);
                lemma_listing_magnitude(s.take(i + 1), i + 1, sc);
                lemma_listing_magnitude(s, i + 1, sc);
                lemma_exact_step(sum, v@[i as int].amount, sc, false);
            }
        }
        match sum.checked_add(&v[i].amount) {
            Some(a) => {
                sum = a;
            },
            None => {
                proof {
                    lemma_sum_amounts_prefix(s, i + 1);
                }
                return None;
            },
        }
        i = i + 1;
    }
    assert(s.take(v@.len() as int) =~= s);
    Some(sum)
}

/// The strings of `v`, in order, that `others` does not hold.
fn strings_not_in(v: &Vec<String>, others: &Vec<String>) -> (r: Vec<String>)
    ensures
        strings_view(r@) == strings_view(v@).filter(|t: Seq<char>| !strings_view(others@).contains(t)),
{
    let ghost sv = strings_view(v@);
    let ghost p = |t: Seq<char>| !strings_view(others@).contains(t);
    let mut res: Vec<String> = Vec::new();
    let mut i: usize = 0;
    proof {
        reveal(Seq::filter);
        assert(sv.take(0) =~= Seq::<Seq<char>>::empty());
    }
    while i < v.len()
        invariant
            i <= v@.len(),
            sv == strings_view(v@),
            p == (|t: Seq<char>| !strings_view(others@).contains(t)),
            strings_view(res@) == sv.take(i as int).filter(p),
        decreases v@.len() - i,
    {
        let ghost before = res@;
        proof {
            reveal(Seq::filter);
            assert(sv.take(i + 1).drop_last() =~= sv.take(i as int));
            assert(sv.take(i + 1).last() == v@[i as int]@);
        }
        if !contains_string(others, &v[i]) {
            res.push(v[i].clone());
            proof {
                assert(strings_view(res@) =~= strings_view(before).push(v@[i as int]@));
            }
        }
        i = i + 1;
    }
    proof {
        assert(sv.take(v@.len() as int) =~= sv);
    }
    res
}

/// How the tags of a transaction change when `existing` becomes `updated`:
/// the tags to add (those of `updated` that `existing` lacks) and the tags
/// to remove (those of `existing` that `updated` lacks), each in its list's
/// order.
pub fn tag_changes(existing: &Vec<String>, updated: &Vec<String>) -> (r: (Vec<String>, Vec<String>))
    ensures
        strings_view(r.0@) == strings_view(updated@).filter(|t: Seq<char>| !strings_view(existing@).contains(t)),
        strings_view(r.1@) == strings_view(existing@).filter(|t: Seq<char>| !strings_view(updated@).contains(t)),
{
    (strings_not_in(updated, existing), strings_not_in(existing, updated))
}

/// Whether the list holds a string equal to `x`.
fn contains_string(v: &Vec<String>, x: &String) -> (r: bool)
    ensures
        r == strings_view(v@).contains(x@),
{
    let mut i: usize = 0;
    while i < v.len()
        invariant
            i <= v@.len(),
            forall|k: int| 0 <= k < i ==> v@[k]@ != x@,
        decreases v@.len() - i,
    {
        if v[i] == *x {
            assert(strings_view(v@)[i as int] == x@);
            return true;
        }
        i = i + 1;
    }
    proof {
        if strings_view(v@).contains(x@) {
            let k = choose|k: int| 0 <= k < strings_view(v@).len() && strings_view(v@)[k] == x@;
            assert(v@[k]@ == x@);
        }
    }
    false
}

/// Adds `x` to a list of distinct strings unless it is there already.
fn add_distinct(v: &mut Vec<String>, x: &String)
    requires
        strings_view(old(v)@).no_duplicates(),
    ensures
        strings_view(final(v)@).no_duplicates(),
        forall|y: Seq<char>| strings_view(final(v)@).contains(y) <==> (strings_view(old(v)@).contains(y) || y == x@),
{
    if !contains_string(v, x) {
        let ghost before = strings_view(v@);
        v.push(x.clone());
        proof {
            assert(strings_view(v@) =~= before.push(x@));
            assert forall|y: Seq<char>| strings_view(v@).contains(y) <==> (before.contains(y) || y == x@) by {
                if before.contains(y) {
                    let k = choose|k: int| 0 <= k < before.len() && before[k] == y;
                    assert(strings_view(v@)[k] == y);
                }
                if y == x@ {
                    assert(strings_view(v@)[before.len() as int] == y);
                }
            }
        }
    }
}

/// The position of `x` in the list, if it is there.
fn index_of_string(v: &Vec<String>, x: &String) -> (r: Option<usize>)
    ensures
        r matches Some(k) ==> k < v@.len() && v@[k as int]@ == x@,
        r is None ==> !strings_view(v@).contains(x@),
{
    let mut i: usize = 0;
    while i < v.len()
        invariant
            i <= v@.len(),
            forall|k: int| 0 <= k < i ==> v@[k]@ != x@,
        decreases v@.len() - i,
    {
        if v[i] == *x {
            return Some(i);
        }
        i = i + 1;
    }
    proof {
        if strings_view(v@).contains(x@) {
            let k = choose|k: int| 0 <= k < strings_view(v@).len() && strings_view(v@)[k] == x@;
            assert(v@[k]@ == x@);
        }
    }
    None
}

/// The distinct transactees of a listing, each with how many of its
/// transactions (of the category, where one is given) name it.
fn count_transactees(v: &Vec<Transaction>, category: &Option<String>) -> (r: (Vec<String>, Vec<usize>))
    ensures
        r.0@.len() == r.1@.len(),
        strings_view(r.0@).no_duplicates(),
        forall|x: Seq<char>| strings_view(r.0@).contains(x) <==> has_transactee(views(v@), x),
        forall|k: int|
            0 <= k < r.0@.len() ==> r.1@[k] == transactee_count(views(v@), #[trigger] r.0@[k]@, opt_view(*category)),
{
    let ghost s = views(v@);
    let ghost c = opt_view(*category);
    let mut names: Vec<String> = Vec::new();
    let mut counts: Vec<usize> = Vec::new();
    let mut i: usize = 0;
    while i < v.len()
        invariant
            i <= v@.len(),
            s == views(v@),
            c == opt_view(*category),
            names@.len() == counts@.len(),
            strings_view(names@).no_duplicates(),
            forall|x: Seq<char>| strings_view(names@).contains(x) <==> has_transactee(s.take(i as int), x),
            forall|k: int|
                0 <= k < names@.len() ==> counts@[k] == transactee_count(s.take(i as int), #[trigger] names@[k]@, c),
            forall|k: int| 0 <= k < counts@.len() ==> #[trigger] counts@[k] <= i,
        decreases v@.len() - i,
    {
        let t = &v[i];
        let in_category = match category {
            Some(cat) => t.category == *cat,
            None => true,
        };
        let ghost p0 = s.take(i as int);
        let ghost p1 = s.take(i + 1);
        proof {
            assert(p1.drop_last() =~= p0);
            assert(p1.last() == t@);
            assert(in_category == (c matches Some(cc) ==> t@.category == cc));
        }
        let ghost old_names = names@;
        let ghost old_counts = counts@;
        proof {
            assert forall|y: Seq<char>|
                transactee_count(p1, y, c) == transactee_count(p0, y, c) + (if t@.transactee == Some(y)
                    && in_category { 1int } else { 0int }) by {}
            assert forall|y: Seq<char>| has_transactee(p1, y) <==> (has_transactee(p0, y) || t@.transactee == Some(y)) by {
                if has_transactee(p1, y) {
                    let k = choose|k: int| 0 <= k < p1.len() && #[trigger] p1[k].transactee == Some(y);
                    if k < i {
                        assert(p0[k].transactee == Some(y));
                    }
                }
                if has_transactee(p0, y) {
                    let k = choose|k: int| 0 <= k < p0.len() && #[trigger] p0[k].transactee == Some(y);
                    assert(p1[k].transactee == Some(y));
                }
                if t@.transactee == Some(y) {
                    assert(p1[i as int].transactee == Some(y));
                }
            }
        }
        match &t.transactee {
            Some(x) => {
                match index_of_string(&names, x) {
                    Some(k) => {
                        if in_category {
                            counts.set(k, counts[k] + 1);
                        }
                        proof {
                            assert(strings_view(names@)[k as int] == x@);
                            assert forall|kk: int| 0 <= kk < names@.len() implies counts@[kk] == transactee_count(
                                p1,
                                #[trigger] names@[kk]@,
                                c,
                            ) by {
                                if kk != k {
                                    assert(strings_view(names@)[kk] != strings_view(names@)[k as int]);
                                }
                            }
                            assert forall|y: Seq<char>| strings_view(names@).contains(y) <==> has_transactee(p1, y) by {
                                if y == x@ {
                                    assert(strings_view(names@)[k as int] == y);
                                }
                            }
                        }
                    },
                    None => {
                        proof {
                            lemma_transactee_count_absent(p0, x@, c);
                        }
                        names.push(x.clone());
                        counts.push(if in_category { 1 } else { 0 });
                        proof {
                            let nv = strings_view(names@);
                            let ov = strings_view(old_names);
                            assert(nv =~= ov.push(x@));
                            assert forall|kk: int| 0 <= kk < names@.len() implies counts@[kk] == transactee_count(
                                p1,
                                #[trigger] names@[kk]@,
                                c,
                            ) by {
                                if kk < old_names.len() {
                                    assert(names@[kk] == old_names[kk]);
                                    assert(ov[kk] != x@) by {
                                        assert(ov.contains(ov[kk]));
                                    }
                                }
                            }
                            assert forall|y: Seq<char>| nv.contains(y) <==> has_transactee(p1, y) by {
                                if ov.contains(y) {
                                    let j = choose|j: int| 0 <= j < ov.len() && ov[j] == y;
                                    assert(nv[j] == y);
                                }
                                if y == x@ {
                                    assert(nv[old_names.len() as int] == y);
                                }
                                if nv.contains(y) {
                                    let j = choose|j: int| 0 <= j < nv.len() && nv[j] == y;
                                    if j < old_names.len() {
                                        assert(ov[j] == y);
                                    }
                                }
                            }
                            assert forall|aa: int, bb: int|
                                0 <= aa < nv.len() && 0 <= bb < nv.len() && aa != bb implies nv[aa] != nv[bb] by {
                                if aa < ov.len() && bb < ov.len() {
                                    assert(ov[aa] != ov[bb]);
                                } else if aa < ov.len() {
                                    assert(ov.contains(ov[aa]));
                                } else {
                                    assert(ov.contains(ov[bb]));
                                }
                            }
                        }
                    },
                }
            },
            None => {
                proof {
                    assert forall|kk: int| 0 <= kk < names@.len() implies counts@[kk] == transactee_count(
                        p1,
                        #[trigger] names@[kk]@,
                        c,
                    ) by {}
                }
            },
        }
        proof {
            assert forall|kk: int| 0 <= kk < counts@.len() implies #[trigger] counts@[kk] <= i + 1 by {
                if kk < old_counts.len() {
                    assert(old_counts[kk] <= i);
                }
            }
        }
        i = i + 1;
    }
    assert(s.take(v@.len() as int) =~= s);
    (names, counts)
}

/// Names ordered by count, highest first; names with the same count keep
/// their order.
fn order_by_count(names: Vec<String>, counts: Vec<usize>, Ghost(key): Ghost<spec_fn(Seq<char>) -> int>) -> (r: Vec<String>)
    requires
        names@.len() == counts@.len(),
        strings_view(names@).no_duplicates(),
        forall|k: int| 0 <= k < names@.len() ==> counts@[k] == key(#[trigger] names@[k]@),
    ensures
        strings_view(r@).no_duplicates(),
        forall|x: Seq<char>| strings_view(r@).contains(x) <==> strings_view(names@).contains(x),
        forall|i: int, j: int| 0 <= i < j < r@.len() ==> key(#[trigger] r@[i]@) >= key(#[trigger] r@[j]@),
{
    let mut out_names: Vec<String> = Vec::new();
    let mut out_counts: Vec<usize> = Vec::new();
    let mut j: usize = 0;
    while j < names.len()
        invariant
            j <= names@.len(),
            names@.len() == counts@.len(),
            strings_view(names@).no_duplicates(),
            forall|k: int| 0 <= k < names@.len() ==> counts@[k] == key(#[trigger] names@[k]@),
            out_names@.len() == out_counts@.len(),
            forall|k: int| 0 <= k < out_names@.len() ==> out_counts@[k] == key(#[trigger] out_names@[k]@),
            forall|a: int, b: int| 0 <= a < b < out_counts@.len() ==> #[trigger] out_counts@[a] >= #[trigger] out_counts@[b],
            strings_view(out_names@).no_duplicates(),
            forall|x: Seq<char>| strings_view(out_names@).contains(x) <==> strings_view(names@).take(j as int).contains(x),
        decreases names@.len() - j,
    {
        let c = counts[j];
        let mut p: usize = 0;
        while p < out_counts.len() && out_counts[p] >= c
            invariant
                p <= out_counts@.len(),
                forall|k: int| 0 <= k < p ==> #[trigger] out_counts@[k] >= c,
            decreases out_counts@.len() - p,
        {
            p = p + 1;
        }
        let ghost old_names = out_names@;
        let ghost old_counts = out_counts@;
        let ghost sv = strings_view(names@);
        let ghost x = names@[j as int]@;
        proof {
            assert(!strings_view(old_names).contains(x)) by {
                if strings_view(old_names).contains(x) {
                    let k = choose|k: int| 0 <= k < sv.take(j as int).len() && sv.take(j as int)[k] == x;
                    assert(sv[k] == sv[j as int]);
                }
            }
        }
        out_names.insert(p, names[j].clone());
        out_counts.insert(p, c);
        proof {
            old_names.insert_ensures(p as int, out_names@[p as int]);
            old_counts.insert_ensures(p as int, c);
            assert forall|k: int| 0 <= k < out_names@.len() implies out_counts@[k] == key(#[trigger] out_names@[k]@) by {
                if k < p {
                    assert(out_names@[k] == old_names[k]);
                } else if k > p {
                    assert(out_names@[k] == old_names[k - 1]);
                }
            }
            assert forall|a: int, b: int| 0 <= a < b < out_counts@.len() implies #[trigger] out_counts@[a]
                >= #[trigger] out_counts@[b] by {
                if a < p && b > p {
                    assert(out_counts@[b] == old_counts[b - 1]);
                } else if a == p && b > p {
                    assert(out_counts@[b] == old_counts[b - 1]);
                    if p < old_counts.len() {
                        assert(old_counts[p as int] < c);
                        assert(old_counts[p as int] >= old_counts[b - 1] || b - 1 == p);
                    }
                } else if a > p {
                    assert(out_counts@[a] == old_counts[a - 1]);
                    assert(out_counts@[b] == old_counts[b - 1]);
                }
            }
            let ov = strings_view(out_names@);
            let pv = strings_view(old_names);
            let s1 = sv.take(j + 1);
            let s0 = sv.take(j as int);
            assert forall|y: Seq<char>| ov.contains(y) <==> s1.contains(y) by {
                if ov.contains(y) {
                    let k = choose|k: int| 0 <= k < ov.len() && ov[k] == y;
                    if k < p {
                        assert(pv[k] == y);
                    } else if k > p {
                        assert(pv[k - 1] == y);
                    }
                    if y != x {
                        assert(pv.contains(y));
                        let m = choose|m: int| 0 <= m < s0.len() && s0[m] == y;
                        assert(s1[m] == y);
                    } else {
                        assert(s1[j as int] == y);
                    }
                }
                if s1.contains(y) {
                    let m = choose|m: int| 0 <= m < s1.len() && s1[m] == y;
                    if m < j {
                        assert(s0[m] == y);
                        assert(pv.contains(y));
                        let k = choose|k: int| 0 <= k < pv.len() && pv[k] == y;
                        if k < p {
                            assert(ov[k] == y);
                        } else {
                            assert(ov[k + 1] == y);
                        }
                    } else {
                        assert(ov[p as int] == y);
                    }
                }
            }
            assert forall|a: int, b: int| 0 <= a < ov.len() && 0 <= b < ov.len() && a != b implies ov[a] != ov[b] by {
                let a2 = if a < p { a } else { a - 1 };
                let b2 = if b < p { b } else { b - 1 };
                if a != p && b != p {
                    assert(ov[a] == pv[a2] && ov[b] == pv[b2]);
                } else if a == p {
                    assert(ov[b] == pv[b2]);
                    assert(pv.contains(pv[b2]));
                } else {
                    assert(ov[a] == pv[a2]);
                    assert(pv.contains(pv[a2]));
                }
            }
        }
        j = j + 1;
    }
    proof {
        assert(strings_view(names@).take(names@.len() as int) =~= strings_view(names@));
    }
    out_names
}

/// Transactions and their owners, kept in memory. Ids are handed out in
/// increasing order, starting at 0.
pub struct MemTransactionRepo {
    records: Vec<(String, Transaction)>,
    next_id: i32,
}

impl MemTransactionRepo {
    /// The records have distinct ids, all below the next id, and valid
    /// dates and amounts.
    pub closed spec fn wf(&self) -> bool {
        &&& keys_distinct(entries_view(self.records@))
        &&& 0 <= self.next_id
        &&& forall|i: int|
            0 <= i < self.records@.len() ==> {
                &&& (#[trigger] self.records@[i]).1.wf()
                &&& 0 <= self.records@[i].1.id < self.next_id
            }
    }

    /// Each id in the store maps to its owner and transaction.
    pub closed spec fn transactions(&self) -> TransactionMap {
        to_map(entries_view(self.records@))
    }

    /// The id that the next new transaction gets.
    pub closed spec fn next_id(&self) -> i32 {
        self.next_id
    }

    /// What holds of every store: each transaction is stored under its own
    /// id, below the next id, and has a valid date and amount.
    pub proof fn lemma_store(&self)
        requires
            self.wf(),
        ensures
            0 <= self.next_id(),
            forall|id: i32|
                #![trigger self.transactions()[id]]
                self.transactions().contains_key(id) ==> {
                    &&& self.transactions()[id].1.id == id
                    &&& 0 <= id < self.next_id()
                    &&& self.transactions()[id].1.date.wf()
                    &&& self.transactions()[id].1.amount.wf()
                },
    {
        assert forall|id: i32|
            #![trigger self.transactions()[id]]
            self.transactions().contains_key(id) implies {
            &&& self.transactions()[id].1.id == id
            &&& 0 <= id < self.next_id()
            &&& self.transactions()[id].1.date.wf()
            &&& self.transactions()[id].1.amount.wf()
        } by {
            let e = entries_view(self.records@);
            let i = choose|i: int| 0 <= i < e.len() && e[i].0 == id;
            lemma_to_map_at(e, i);
            assert(self.records@[i].1.wf());
        }
    }

    /// Whether another transaction can still be given an id.
    pub fn can_create(&self) -> (r: bool)
        ensures
            r == (self.next_id() < i32::MAX),
    {
        self.next_id < i32::MAX
    }

    /// An empty store.
    pub fn new() -> (r: MemTransactionRepo)
        ensures
            r.wf(),
            r.transactions() == Map::<i32, (Seq<char>, TransactionView)>::empty(),
            r.next_id() == 0,
    {
        let r = MemTransactionRepo { records: Vec::new(), next_id: 0 };
        proof {
            lemma_to_map_empty(entries_view(r.records@));
        }
        r
    }

    /// The position of the record with the given id, if there is one.
    fn find(&self, id: i32) -> (r: Option<usize>)
        requires
            self.wf(),
        ensures
            r matches Some(i) ==> i < self.records@.len() && self.records@[i as int].1.id == id,
            r is None ==> !has_key(entries_view(self.records@), id),
    {
        let mut i: usize = 0;
        while i < self.records.len()
            invariant
                i <= self.records@.len(),
                forall|j: int| 0 <= j < i ==> self.records@[j].1.id != id,
            decreases self.records@.len() - i,
        {
            if self.records[i].1.id == id {
                return Some(i);
            }
            i = i + 1;
        }
        proof {
            let e = entries_view(self.records@);
            assert forall|j: int| 0 <= j < e.len() implies e[j].0 != id by {
                assert(e[j].0 == self.records@[j].1.id);
            }
        }
        None
    }

    /// The position of the record of `user` with the given id, if any.
    fn find_owned(&self, user: &String, id: i32) -> (r: Option<usize>)
        requires
            self.wf(),
        ensures
            r matches Some(i) ==> i < self.records@.len() && self.records@[i as int].1.id == id
                && owns(self.transactions(), user@, id),
            r is None ==> !owns(self.transactions(), user@, id),
    {
        match self.find(id) {
            Some(i) => {
                proof {
                    lemma_to_map_at(entries_view(self.records@), i as int);
                }
                if self.records[i].0 == *user {
                    Some(i)
                } else {
                    None
                }
            },
            None => None,
        }
    }

    /// The user's transaction with the given id, or `TransactionNotFound`.
    pub fn get_transaction(&self, user: &str, transaction_id: i32) -> (r: Result<Transaction, TransactionRepoError>)
        requires
            self.wf(),
        ensures
            owns(self.transactions(), user@, transaction_id) ==> (r matches Ok(t) && t@
                == self.transactions()[transaction_id].1),
            !owns(self.transactions(), user@, transaction_id) ==> r == Err::<Transaction, TransactionRepoError>(
                TransactionRepoError::TransactionNotFound(transaction_id),
            ),
    {
        let user = user.to_owned();
        match self.find_owned(&user, transaction_id) {
            Some(i) => {
                proof {
                    lemma_to_map_at(entries_view(self.records@), i as int);
                }
                Ok(self.records[i].1.copy())
            },
            None => Err(TransactionRepoError::TransactionNotFound(transaction_id)),
        }
    }

    /// Stores the new transaction for `user` under the next id and returns it.
    pub fn create_new_transaction(&mut self, user: &str, new_transaction: NewTransaction) -> (r: Result<
        Transaction,
        TransactionRepoError,
    >)
        requires
            old(self).wf(),
            old(self).next_id() < i32::MAX,
            new_transaction.wf(),
        ensures
            r matches Ok(t) && t@ == new_transaction.spec_to_transaction(old(self).next_id()),
            final(self).transactions() == old(self).transactions().insert(
                old(self).next_id(),
                (user@, new_transaction.spec_to_transaction(old(self).next_id())),
            ),
            final(self).wf(),
            final(self).next_id() == old(self).next_id() + 1,
    {
        let id = self.next_id;
        let user = user.to_owned();
        let t = new_transaction.to_transaction(id);
        let stored = t.copy();
        let ghost old_records = self.records@;
        proof {
            let e = entries_view(old_records);
            assert(!has_key(e, id)) by {
                if has_key(e, id) {
                    let i = choose|i: int| 0 <= i < e.len() && e[i].0 == id;
                    assert(old_records[i].1.wf());
                }
            }
            lemma_to_map_push(e, id, (user@, t@));
            assert(entries_view(old_records.push((user, stored))) =~= e.push((id, (user@, t@))));
        }
        self.records.push((user, stored));
        self.next_id = id + 1;
        Ok(t)
    }

    /// Replaces the user's transaction with the given id, keeping the id, or
    /// gives `TransactionNotFound` and changes nothing.
    pub fn update_transaction(&mut self, user: &str, transaction_id: i32, updated_transaction: NewTransaction) -> (r:
        Result<Transaction, TransactionRepoError>)
        requires
            old(self).wf(),
            updated_transaction.wf(),
        ensures
            owns(old(self).transactions(), user@, transaction_id) ==> {
                &&& r matches Ok(t) && t@ == updated_transaction.spec_to_transaction(transaction_id)
                &&& final(self).transactions() == old(self).transactions().insert(
                    transaction_id,
                    (user@, updated_transaction.spec_to_transaction(transaction_id)),
                )
            },
            !owns(old(self).transactions(), user@, transaction_id) ==> {
                &&& r == Err::<Transaction, TransactionRepoError>(
                    TransactionRepoError::TransactionNotFound(transaction_id),
                )
                &&& final(self).transactions() == old(self).transactions()
            },
            final(self).wf(),
            final(self).next_id() == old(self).next_id(),
    {
        let user = user.to_owned();
        match self.find_owned(&user, transaction_id) {
            Some(i) => {
                let t = updated_transaction.to_transaction(transaction_id);
                let stored = t.copy();
                let ghost old_records = self.records@;
                proof {
                    let e = entries_view(old_records);
                    lemma_to_map_at(e, i as int);
                    lemma_to_map_update(e, i as int, (user@, t@));
                    assert(entries_view(old_records.update(i as int, (user, stored))) =~= e.update(
                        i as int,
                        (e[i as int].0, (user@, t@)),
                    ));
                }
                self.records.set(i, (user, stored));
                Ok(t)
            },
            None => Err(TransactionRepoError::TransactionNotFound(transaction_id)),
        }
    }

    /// Removes the user's transaction with the given id and returns it, or
    /// gives `TransactionNotFound` and changes nothing.
    pub fn delete_transaction(&mut self, user: &str, transaction_id: i32) -> (r: Result<
        Transaction,
        TransactionRepoError,
    >)
        requires
            old(self).wf(),
        ensures
            owns(old(self).transactions(), user@, transaction_id) ==> {
                &&& r matches Ok(t) && t@ == old(self).transactions()[transaction_id].1
                &&& final(self).transactions() == old(self).transactions().remove(transaction_id)
            },
            !owns(old(self).transactions(), user@, transaction_id) ==> {
                &&& r == Err::<Transaction, TransactionRepoError>(
                    TransactionRepoError::TransactionNotFound(transaction_id),
                )
                &&& final(self).transactions() == old(self).transactions()
            },
            final(self).wf(),
            final(self).next_id() == old(self).next_id(),
    {
        let user = user.to_owned();
        match self.find_owned(&user, transaction_id) {
            Some(i) => {
                let ghost old_records = self.records@;
                proof {
                    let e = entries_view(old_records);
                    lemma_to_map_at(e, i as int);
                    lemma_to_map_remove(e, i as int);
                    assert(entries_view(old_records.remove(i as int)) =~= e.remove(i as int));
                }
                let (_owner, t) = self.records.remove(i);
                Ok(t)
            },
            None => Err(TransactionRepoError::TransactionNotFound(transaction_id)),
        }
    }

    /// The user's transactions that pass the filter, newest first.
    fn sorted_matching(&self, user: &String, filter: &Filter) -> (r: Vec<Transaction>)
        requires
            self.wf(),
            filter_wf(*filter),
        ensures
            views(r@) == listing(self.transactions(), user@, *filter),
            is_listing(listing(self.transactions(), user@, *filter), self.transactions(), user@, *filter),
            forall|i: int| 0 <= i < r@.len() ==> (#[trigger] r@[i]).wf(),
    {
        let ghost e = entries_view(self.records@);
        let mut collected: Vec<Transaction> = Vec::new();
        let mut i: usize = 0;
        while i < self.records.len()
            invariant
                i <= self.records@.len(),
                e == entries_view(self.records@),
                keys_distinct(e),
                filter_wf(*filter),
                forall|k: int| 0 <= k < self.records@.len() ==> (#[trigger] self.records@[k]).1.wf(),
                forall|t: TransactionView|
                    views(collected@).contains(t) <==> exists|k: int|
                        0 <= k < i && (#[trigger] self.records@[k]).0@ == user@ && self.records@[k].1@ == t
                            && matches_filter(t, *filter),
                ids_distinct(views(collected@)),
                forall|k: int| 0 <= k < collected@.len() ==> (#[trigger] collected@[k]).wf(),
            decreases self.records@.len() - i,
        {
            let ghost before = views(collected@);
            let take = self.records[i].0 == *user && passes(&self.records[i].1, filter);
            if take {
                let t = self.records[i].1.copy();
                collected.push(t);
                proof {
                    assert(views(collected@) =~= before.push(self.records@[i as int].1@));
                    assert forall|a: int, b: int|
                        0 <= a < views(collected@).len() && 0 <= b < views(collected@).len() && a
                            != b implies views(collected@)[a].id != views(collected@)[b].id by {
                        if a == before.len() || b == before.len() {
                            let other = if a == before.len() { b } else { a };
                            assert(before.contains(before[other]));
                            let k = choose|k: int|
                                0 <= k < i && (#[trigger] self.records@[k]).0@ == user@ && self.records@[k].1@
                                    == before[other] && matches_filter(before[other], *filter);
                            assert(e[k].0 != e[i as int].0);
                        }
                    }
                }
            }
            proof {
                let now = views(collected@);
                if take {
                    assert(now == before.push(self.records@[i as int].1@));
                } else {
                    assert(now == before);
                }
                assert forall|t: TransactionView|
                    now.contains(t) <==> exists|k: int|
                        0 <= k < i + 1 && (#[trigger] self.records@[k]).0@ == user@ && self.records@[k].1@
                            == t && matches_filter(t, *filter) by {
                    if before.contains(t) {
                        let k = choose|k: int|
                            0 <= k < i && (#[trigger] self.records@[k]).0@ == user@ && self.records@[k].1@
                                == t && matches_filter(t, *filter);
                        assert(0 <= k < i + 1);
                        if take {
                            let j = choose|j: int| 0 <= j < before.len() && before[j] == t;
                            assert(now[j] == t);
                        }
                    }
                    if now.contains(t) && !before.contains(t) {
                        let j = choose|j: int| 0 <= j < now.len() && now[j] == t;
                        assert(j == before.len());
                    }
                    if exists|k: int|
                        0 <= k < i + 1 && (#[trigger] self.records@[k]).0@ == user@ && self.records@[k].1@
                            == t && matches_filter(t, *filter) {
                        let k = choose|k: int|
                            0 <= k < i + 1 && (#[trigger] self.records@[k]).0@ == user@ && self.records@[k].1@
                                == t && matches_filter(t, *filter);
                        if k == i {
                            assert(now[now.len() - 1] == t);
                        } else {
                            assert(before.contains(t));
                            let j = choose|j: int| 0 <= j < before.len() && before[j] == t;
                            assert(now[j] == t);
                        }
                    }
                }
            }
            i = i + 1;
        }
        let sorted = sort_newest_first(collected);
        proof {
            let m = self.transactions();
            assert forall|t: TransactionView|
                views(sorted@).contains(t) <==> crate::repo::transaction_repo::owned_matching(
                    m,
                    user@,
                    *filter,
                    t,
                ) by {
                lemma_to_map_pair(e, t.id, (user@, t));
                if exists|k: int|
                    0 <= k < self.records@.len() && (#[trigger] self.records@[k]).0@ == user@
                        && self.records@[k].1@ == t && matches_filter(t, *filter) {
                    let k = choose|k: int|
                        0 <= k < self.records@.len() && (#[trigger] self.records@[k]).0@ == user@
                            && self.records@[k].1@ == t && matches_filter(t, *filter);
                    assert(e[k] == (t.id, (user@, t)));
                }
                if exists|k: int| 0 <= k < e.len() && e[k] == (t.id, (user@, t)) {
                    let k = choose|k: int| 0 <= k < e.len() && e[k] == (t.id, (user@, t));
                    assert(self.records@[k].1@ == t);
                }
            }
            assert(is_listing(views(sorted@), m, user@, *filter));
            lemma_listing_is(views(sorted@), m, user@, *filter);
        }
        sorted
    }

    /// The user's transactions that pass the filter, newest first (later
    /// date first, then higher id), cut to the requested page.
    pub fn get_all_transactions(&self, user: &str, filter: Filter, page_options: Option<PageOptions>) -> (r: Result<
        Vec<Transaction>,
        TransactionRepoError,
    >)
        requires
            self.wf(),
            filter_wf(filter),
        ensures
            r matches Ok(v) && views(v@) == page(listing(self.transactions(), user@, filter), page_options),
            is_listing(listing(self.transactions(), user@, filter), self.transactions(), user@, filter),
    {
        let user = user.to_owned();
        let mut all = self.sorted_matching(&user, &filter);
        match page_options {
            None => Ok(all),
            Some(p) => {
                let len = all.len();
                let start: usize = if p.offset < 0 || p.offset as i128 >= len as i128 {
                    len
                } else {
                    p.offset as usize
                };
                let end: usize = if p.limit < 0 || p.limit as i128 >= (len - start) as i128 {
                    len
                } else {
                    start + p.limit as usize
                };
                proof {
                    assert(start == page_start(len as int, p));
                    assert(end == page_end(len as int, p));
                }
                let ghost whole = all@;
                all.truncate(end);
                let tail = all.split_off(start);
                proof {
                    assert(views(tail@) =~= views(whole).subrange(start as int, end as int));
                }
                Ok(tail)
            },
        }
    }

    /// The totals per month of the user's transactions that pass the
    /// filter, latest month first. Summing panics in `Decimal` on overflow,
    /// so the sums are required to fit.
    pub fn get_monthly_totals(&self, user: &str, filter: Filter) -> (r: Result<Vec<MonthlyTotal>, TransactionRepoError>)
        requires
            self.wf(),
            filter_wf(filter),
            monthly_totals(listing(self.transactions(), user@, filter)) is Some,
        ensures
            r matches Ok(v) && monthly_totals(listing(self.transactions(), user@, filter)) == Some(v@),
            r matches Ok(v) ==> forall|i: int|
                0 <= i < v@.len() ==> (#[trigger] v@[i]).income.mantissa >= 0 && v@[i].expense.mantissa >= 0,
            ({
                let l = listing(self.transactions(), user@, filter);
                sums_fit(l) ==> (r matches Ok(v) && totals_net(v@, max_scale(l)) == listing_value(l, max_scale(l)))
            }),
    {
        let user = user.to_owned();
        let all = self.sorted_matching(&user, &filter);
        let totals = compute_monthly_totals(&all);
        Ok(totals.unwrap())
    }

    /// The monthly totals where no sum overflows, `None` where one does.
    pub fn checked_monthly_totals(&self, user: &str, filter: Filter) -> (r: Option<
        Result<Vec<MonthlyTotal>, TransactionRepoError>,
    >)
        requires
            self.wf(),
            filter_wf(filter),
        ensures
            r is None <==> monthly_totals(listing(self.transactions(), user@, filter)) is None,
            r matches Some(x) ==> (x matches Ok(v) && monthly_totals(listing(self.transactions(), user@, filter))
                == Some(v@)),
            r matches Some(x) ==> (x matches Ok(v) && forall|i: int|
                0 <= i < v@.len() ==> (#[trigger] v@[i]).income.mantissa >= 0 && v@[i].expense.mantissa >= 0),
            ({
                let l = listing(self.transactions(), user@, filter);
                sums_fit(l) ==> (r matches Some(x) && x matches Ok(v) && totals_net(v@, max_scale(l))
                    == listing_value(l, max_scale(l)))
            }),
    {
        let owner = user.to_owned();
        let all = self.sorted_matching(&owner, &filter);
        if compute_monthly_totals(&all).is_none() {
            None
        } else {
            Some(self.get_monthly_totals(user, filter))
        }
    }

    /// The sum of the amounts of all the user's transactions. Summing panics
    /// in `Decimal` on overflow, so the sum is required to fit.
    pub fn get_balance(&self, user: &str) -> (r: Result<Amount, TransactionRepoError>)
        requires
            self.wf(),
            sum_amounts(listing(self.transactions(), user@, no_filter())) is Some,
        ensures
            r matches Ok(a) && sum_amounts(listing(self.transactions(), user@, no_filter())) == Some(a),
            ({
                let l = listing(self.transactions(), user@, no_filter());
                sums_fit(l) ==> (r matches Ok(b) && value_at(b, max_scale(l)) == listing_value(l, max_scale(l)))
            }),
    {
        let user = user.to_owned();
        let all = self.sorted_matching(&user, &Filter::none());
        let sum = compute_sum(&all);
        Ok(sum.unwrap())
    }

    /// The balance where the sum fits, `None` where it overflows.
    pub fn checked_balance(&self, user: &str) -> (r: Option<Result<Amount, TransactionRepoError>>)
        requires
            self.wf(),
        ensures
            r is None <==> sum_amounts(listing(self.transactions(), user@, no_filter())) is None,
            r matches Some(x) ==> (x matches Ok(a) && sum_amounts(listing(self.transactions(), user@, no_filter()))
                == Some(a)),
            ({
                let l = listing(self.transactions(), user@, no_filter());
                sums_fit(l) ==> (r matches Some(x) && x matches Ok(b) && value_at(b, max_scale(l)) == listing_value(
                    l,
                    max_scale(l),
                ))
            }),
    {
        let owner = user.to_owned();
        let all = self.sorted_matching(&owner, &Filter::none());
        if compute_sum(&all).is_none() {
            None
        } else {
            Some(self.get_balance(user))
        }
    }

    /// The distinct categories of the user's transactions.
    pub fn get_all_categories(&self, user: &str) -> (r: Result<Vec<String>, TransactionRepoError>)
        requires
            self.wf(),
        ensures
            r matches Ok(v) && strings_view(v@).no_duplicates() && forall|c: Seq<char>|
                strings_view(v@).contains(c) <==> has_category(listing(self.transactions(), user@, no_filter()), c),
    {
        let user = user.to_owned();
        let all = self.sorted_matching(&user, &Filter::none());
        let ghost s = views(all@);
        let mut res: Vec<String> = Vec::new();
        let mut i: usize = 0;
        while i < all.len()
            invariant
                i <= all@.len(),
                s == views(all@),
                strings_view(res@).no_duplicates(),
                forall|c: Seq<char>| strings_view(res@).contains(c) <==> has_category(s.take(i as int), c),
            decreases all@.len() - i,
        {
            add_distinct(&mut res, &all[i].category);
            proof {
                let p1 = s.take(i + 1);
                let p0 = s.take(i as int);
                assert forall|c: Seq<char>| strings_view(res@).contains(c) <==> has_category(p1, c) by {
                    if has_category(p1, c) {
                        let k = choose|k: int| 0 <= k < p1.len() && #[trigger] p1[k].category == c;
                        if k < i {
                            assert(p0[k].category == c);
                        }
                    }
                    if has_category(p0, c) {
                        let k = choose|k: int| 0 <= k < p0.len() && #[trigger] p0[k].category == c;
                        assert(p1[k].category == c);
                    }
                    if c == all@[i as int].category@ {
                        assert(p1[i as int].category == c);
                    }
                }
            }
            i = i + 1;
        }
        assert(s.take(all@.len() as int) =~= s);
        Ok(res)
    }

    /// The distinct tags of the user's transactions.
    pub fn get_all_tags(&self, user: &str) -> (r: Result<Vec<String>, TransactionRepoError>)
        requires
            self.wf(),
        ensures
            r matches Ok(v) && strings_view(v@).no_duplicates() && forall|tag: Seq<char>|
                strings_view(v@).contains(tag) <==> has_tag(listing(self.transactions(), user@, no_filter()), tag),
    {
        let user = user.to_owned();
        let all = self.sorted_matching(&user, &Filter::none());
        let ghost s = views(all@);
        let mut res: Vec<String> = Vec::new();
        let mut i: usize = 0;
        while i < all.len()
            invariant
                i <= all@.len(),
                s == views(all@),
                strings_view(res@).no_duplicates(),
                forall|tag: Seq<char>| strings_view(res@).contains(tag) <==> has_tag(s.take(i as int), tag),
            decreases all@.len() - i,
        {
            let tags = &all[i].tags;
            let ghost tv = strings_view(tags@);
            assert(s[i as int].tags == tv);
            let mut j: usize = 0;
            while j < tags.len()
                invariant
                    j <= tags@.len(),
                    tv == strings_view(tags@),
                    s == views(all@),
                    i < all@.len(),
                    s[i as int].tags == tv,
                    strings_view(res@).no_duplicates(),
                    forall|tag: Seq<char>|
                        strings_view(res@).contains(tag) <==> (has_tag(s.take(i as int), tag) || tv.take(
                            j as int,
                        ).contains(tag)),
                decreases tags@.len() - j,
            {
                add_distinct(&mut res, &tags[j]);
                proof {
                    let q1 = tv.take(j + 1);
                    let q0 = tv.take(j as int);
                    assert forall|tag: Seq<char>|
                        strings_view(res@).contains(tag) <==> (has_tag(s.take(i as int), tag) || q1.contains(tag)) by {
                        if q1.contains(tag) {
                            let k = choose|k: int| 0 <= k < q1.len() && #[trigger] q1[k] == tag;
                            if k < j {
                                assert(q0[k] == tag);
                            }
                        }
                        if q0.contains(tag) {
                            let k = choose|k: int| 0 <= k < q0.len() && #[trigger] q0[k] == tag;
                            assert(q1[k] == tag);
                        }
                        if tag == tags@[j as int]@ {
                            assert(q1[j as int] == tag);
                        }
                    }
                }
                j = j + 1;
            }
            proof {
                assert(tv.take(tags@.len() as int) =~= tv);
                let p1 = s.take(i + 1);
                let p0 = s.take(i as int);
                assert forall|tag: Seq<char>| strings_view(res@).contains(tag) <==> has_tag(p1, tag) by {
                    if has_tag(p1, tag) {
                        let k = choose|k: int| 0 <= k < p1.len() && (#[trigger] p1[k]).tags.contains(tag);
                        if k < i {
                            assert(p0[k].tags.contains(tag));
                        }
                    }
                    if has_tag(p0, tag) {
                        let k = choose|k: int| 0 <= k < p0.len() && (#[trigger] p0[k]).tags.contains(tag);
                        assert(p1[k].tags.contains(tag));
                    }
                    if tv.contains(tag) {
                        assert(p1[i as int].tags.contains(tag));
                    }
                }
            }
            i = i + 1;
        }
        assert(s.take(all@.len() as int) =~= s);
        Ok(res)
    }

    /// The distinct transactees of the user's transactions, those named by
    /// more transactions first. Where a category is given, only the
    /// transactions of that category are counted, but every transactee is
    /// listed.
    pub fn get_all_transactees(&self, user: &str, category: Option<String>) -> (r: Result<
        Vec<String>,
        TransactionRepoError,
    >)
        requires
            self.wf(),
        ensures
            r matches Ok(v) && {
                let l = listing(self.transactions(), user@, no_filter());
                &&& strings_view(v@).no_duplicates()
                &&& forall|x: Seq<char>| strings_view(v@).contains(x) <==> has_transactee(l, x)
                &&& forall|i: int, j: int|
                    0 <= i < j < v@.len() ==> transactee_count(l, #[trigger] v@[i]@, opt_view(category))
                        >= transactee_count(l, #[trigger] v@[j]@, opt_view(category))
            },
    {
        let user = user.to_owned();
        let all = self.sorted_matching(&user, &Filter::none());
        let (names, counts) = count_transactees(&all, &category);
        let ghost l = views(all@);
        let ghost c = opt_view(category);
        let ordered = order_by_count(names, counts, Ghost(|x: Seq<char>| transactee_count(l, x, c)));
        Ok(ordered)
    }
}

} // verus!
