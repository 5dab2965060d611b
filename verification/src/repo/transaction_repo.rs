//! Transactions, the queries over them and the errors of a transaction store.

use crate::amount::{lemma_value_sign, spec_add, spec_sub, value_at, Amount, MAX_MANTISSA};
use crate::date::{date_key, date_lt, lemma_date_key_order, Date};
use vstd::prelude::*;

verus! {

/// Which part of a listing to return: skip `offset` entries, then return at
/// most `limit`.
#[derive(Clone, Copy, Debug, PartialEq, Eq, Structural)]
pub struct PageOptions {
    pub offset: i64,
    pub limit: i64,
}

impl PageOptions {
    pub fn new(offset: i64, limit: i64) -> (r: PageOptions)
        ensures
            r == (PageOptions { offset, limit }),
    {
        PageOptions { offset, limit }
    }
}

/// Why a transaction store refused an operation.
#[derive(Debug)]
pub enum TransactionRepoError {
    TransactionNotFound(i32),
    Other(String),
}

/// Conditions on the transactions to list; an absent condition holds of
/// every transaction.
#[derive(Debug)]
pub struct Filter {
    /// Earliest date (inclusive).
    pub from: Option<Date>,
    /// Latest date (inclusive).
    pub until: Option<Date>,
    pub category: Option<String>,
    pub transactee: Option<String>,
}

impl Filter {
    pub fn new(from: Option<Date>, until: Option<Date>, category: Option<String>, transactee: Option<String>) -> (r: Filter)
        ensures
            r.from == from,
            r.until == until,
            r.category == category,
            r.transactee == transactee,
    {
        Filter { from, until, category, transactee }
    }

    /// The filter that every transaction passes.
    pub fn none() -> (r: Filter)
        ensures
            r.is_none(),
    {
        Filter { from: None, until: None, category: None, transactee: None }
    }

    pub open spec fn is_none(self) -> bool {
        &&& self.from is None
        &&& self.until is None
        &&& self.category is None
        &&& self.transactee is None
    }
}

/// A stored transaction. A positive amount is income, any other is expense.
#[derive(Clone, Debug, PartialEq)]
pub struct Transaction {
    pub id: i32,
    pub category: String,
    pub transactee: Option<String>,
    pub note: Option<String>,
    pub date: Date,
    pub amount: Amount,
    pub tags: Vec<String>,
}

/// What a transaction holds, with strings as character sequences.
pub struct TransactionView {
    pub id: i32,
    pub category: Seq<char>,
    pub transactee: Option<Seq<char>>,
    pub note: Option<Seq<char>>,
    pub date: Date,
    pub amount: Amount,
    pub tags: Seq<Seq<char>>,
}

/// An optional string as an optional character sequence.
pub open spec fn opt_view(s: Option<String>) -> Option<Seq<char>> {
    match s {
        Some(x) => Some(x@),
        None => None,
    }
}

/// A list of strings as character sequences.
pub open spec fn strings_view(v: Seq<String>) -> Seq<Seq<char>> {
    v.map_values(|s: String| s@)
}

impl View for Transaction {
    type V = TransactionView;

    open spec fn view(&self) -> TransactionView {
        TransactionView {
            id: self.id,
            category: self.category@,
            transactee: opt_view(self.transactee),
            note: opt_view(self.note),
            date: self.date,
            amount: self.amount,
            tags: strings_view(self.tags@),
        }
    }
}

/// A transaction before the store gives it an id.
#[derive(Clone, Debug)]
pub struct NewTransaction {
    pub category: String,
    pub transactee: Option<String>,
    pub note: Option<String>,
    pub date: Date,
    pub amount: Amount,
    pub tags: Vec<String>,
}

/// What a month's transactions add up to: the sum of its positive amounts
/// and the negated sum of the others.
#[derive(Clone, Copy, Debug, PartialEq, Eq)]
pub struct MonthlyTotal {
    /// The first day of the month.
    pub month: Date,
    pub income: Amount,
    pub expense: Amount,
}

impl MonthlyTotal {
    pub fn new(month: Date, income: Amount, expense: Amount) -> (r: MonthlyTotal)
        ensures
            r == (MonthlyTotal { month, income, expense }),
    {
        MonthlyTotal { month, income, expense }
    }
}

/// A copy of a string.
pub fn copy_string(s: &String) -> (r: String)
    ensures
        r == *s,
{
    s.clone()
}

/// A copy of an optional string.
pub fn copy_opt_string(s: &Option<String>) -> (r: Option<String>)
    ensures
        r == *s,
{
    match s {
        Some(x) => Some(x.clone()),
        None => None,
    }
}

/// A copy of a list of strings.
pub fn copy_strings(v: &Vec<String>) -> (r: Vec<String>)
    ensures
        r@ == v@,
{
    let mut r: Vec<String> = Vec::new();
    let mut i: usize = 0;
    while i < v.len()
        invariant
            i <= v@.len(),
            r@ == v@.subrange(0, i as int),
        decreases v@.len() - i,
    {
        r.push(v[i].clone());
        i = i + 1;
    }
    assert(r@ =~= v@);
    r
}

impl Transaction {
    pub fn new(
        id: i32,
        category: String,
        transactee: Option<String>,
        note: Option<String>,
        date: Date,
        amount: Amount,
        tags: Vec<String>,
    ) -> (r: Transaction)
        ensures
            r == (Transaction { id, category, transactee, note, date, amount, tags }),
    {
        Transaction { id, category, transactee, note, date, amount, tags }
    }

    /// The date exists and the amount is a valid decimal.
    pub open spec fn wf(self) -> bool {
        self.date.wf() && self.amount.wf()
    }

    /// A field-by-field copy.
    pub fn copy(&self) -> (r: Transaction)
        ensures
            r@ == self@,
    {
        Transaction {
            id: self.id,
            category: copy_string(&self.category),
            transactee: copy_opt_string(&self.transactee),
            note: copy_opt_string(&self.note),
            date: self.date,
            amount: self.amount,
            tags: copy_strings(&self.tags),
        }
    }
}

impl NewTransaction {
    pub fn new(
        category: String,
        transactee: Option<String>,
        note: Option<String>,
        date: Date,
        amount: Amount,
        tags: Vec<String>,
    ) -> (r: NewTransaction)
        ensures
            r == (NewTransaction { category, transactee, note, date, amount, tags }),
    {
        NewTransaction { category, transactee, note, date, amount, tags }
    }

    pub open spec fn wf(self) -> bool {
        self.date.wf() && self.amount.wf()
    }

    /// The transaction that the store makes of this one under the given id.
    pub open spec fn spec_to_transaction(self, id: i32) -> TransactionView {
        TransactionView {
            id,
            category: self.category@,
            transactee: opt_view(self.transactee),
            note: opt_view(self.note),
            date: self.date,
            amount: self.amount,
            tags: strings_view(self.tags@),
        }
    }

    /// The transaction with the given id and this one's fields.
    pub fn to_transaction(self, id: i32) -> (r: Transaction)
        ensures
            r@ == self.spec_to_transaction(id),
    {
        Transaction {
            id,
            category: self.category,
            transactee: self.transactee,
            note: self.note,
            date: self.date,
            amount: self.amount,
            tags: self.tags,
        }
    }
}

// ---------------------------------------------------------------------
// Order, filters and pages.

/// `a` comes before `b` in a listing: it is later, or on the same day and
/// has the higher id.
pub open spec fn tx_after(a: TransactionView, b: TransactionView) -> bool {
    date_key(a.date) > date_key(b.date) || (date_key(a.date) == date_key(b.date) && a.id > b.id)
}

/// Each transaction comes strictly before all that follow it.
pub open spec fn newest_first(s: Seq<TransactionView>) -> bool {
    forall|i: int, j: int| 0 <= i < j < s.len() ==> tx_after(#[trigger] s[i], #[trigger] s[j])
}

/// The transaction passes every condition that the filter sets.
pub open spec fn matches_filter(t: TransactionView, f: Filter) -> bool {
    &&& (f.from matches Some(d) ==> date_key(t.date) >= date_key(d))
    &&& (f.until matches Some(d) ==> date_key(t.date) <= date_key(d))
    &&& (f.category matches Some(c) ==> t.category == c@)
    &&& (f.transactee matches Some(x) ==> t.transactee == Some(x@))
}

/// Where a page starts in a listing of `len` entries (a negative offset
/// skips everything).
pub open spec fn page_start(len: int, p: PageOptions) -> int {
    if p.offset < 0 || p.offset >= len {
        len
    } else {
        p.offset as int
    }
}

/// Where a page ends (a negative limit sets none).
pub open spec fn page_end(len: int, p: PageOptions) -> int {
    let start = page_start(len, p);
    if p.limit < 0 || p.limit >= len - start {
        len
    } else {
        start + p.limit
    }
}

/// The part of a listing that the page options select.
pub open spec fn page<T>(s: Seq<T>, po: Option<PageOptions>) -> Seq<T> {
    match po {
        None => s,
        Some(p) => s.subrange(page_start(s.len() as int, p), page_end(s.len() as int, p)),
    }
}

// ---------------------------------------------------------------------
// The store as a map from ids to owner and transaction.

/// Contents of a transaction store: each id maps to the owner's id and the
/// transaction.
pub type TransactionMap = Map<i32, (Seq<char>, TransactionView)>;

/// `t` is a transaction of `user` that passes `f`.
pub open spec fn owned_matching(m: TransactionMap, user: Seq<char>, f: Filter, t: TransactionView) -> bool {
    &&& m.contains_key(t.id)
    &&& m[t.id] == (user, t)
    &&& matches_filter(t, f)
}

/// `s` lists exactly the transactions of `user` that pass `f`, newest first.
pub open spec fn is_listing(s: Seq<TransactionView>, m: TransactionMap, user: Seq<char>, f: Filter) -> bool {
    &&& newest_first(s)
    &&& forall|t: TransactionView| s.contains(t) <==> owned_matching(m, user, f, t)
}

/// The transactions of `user` that pass `f`, newest first.
pub open spec fn listing(m: TransactionMap, user: Seq<char>, f: Filter) -> Seq<TransactionView> {
    choose|s: Seq<TransactionView>| is_listing(s, m, user, f)
}

/// Two listings of the same transactions, both newest first, are equal.
pub proof fn lemma_newest_first_unique(s1: Seq<TransactionView>, s2: Seq<TransactionView>)
    requires
        newest_first(s1),
        newest_first(s2),
        forall|t: TransactionView| s1.contains(t) <==> s2.contains(t),
    ensures
        s1 == s2,
    decreases s1.len(),
{
    if s1.len() == 0 {
        if s2.len() > 0 {
            assert(s2.contains(s2[0]));
        }
        assert(s1 =~= s2);
    } else {
        assert(s1.contains(s1[0]));
        assert(s2.contains(s1[0]));
        let a = s1[0];
        let b = s2[0];
        if a != b {
            assert(s2.contains(b));
            let k = choose|k: int| 0 <= k < s1.len() && s1[k] == b;
            let m = choose|m: int| 0 <= m < s2.len() && s2[m] == a;
            assert(k != 0);
            assert(m != 0);
            assert(tx_after(s1[0], s1[k]));
            assert(tx_after(s2[0], s2[m]));
            assert(false);
        }
        let r1 = s1.drop_first();
        let r2 = s2.drop_first();
        assert forall|t: TransactionView| r1.contains(t) <==> r2.contains(t) by {
            if r1.contains(t) {
                let k = choose|k: int| 0 <= k < r1.len() && r1[k] == t;
                assert(s1[k + 1] == t);
                assert(tx_after(s1[0], s1[k + 1]));
                assert(s1.contains(t));
                let m = choose|m: int| 0 <= m < s2.len() && s2[m] == t;
                assert(m != 0);
                assert(r2[m - 1] == t);
            }
            if r2.contains(t) {
                let k = choose|k: int| 0 <= k < r2.len() && r2[k] == t;
                assert(s2[k + 1] == t);
                assert(tx_after(s2[0], s2[k + 1]));
                assert(s2.contains(t));
                let m = choose|m: int| 0 <= m < s1.len() && s1[m] == t;
                assert(m != 0);
                assert(r1[m - 1] == t);
            }
        }
        assert(newest_first(r1)) by {
            assert forall|i: int, j: int| 0 <= i < j < r1.len() implies tx_after(r1[i], r1[j]) by {
                assert(r1[i] == s1[i + 1] && r1[j] == s1[j + 1]);
            }
        }
        assert(newest_first(r2)) by {
            assert forall|i: int, j: int| 0 <= i < j < r2.len() implies tx_after(r2[i], r2[j]) by {
                assert(r2[i] == s2[i + 1] && r2[j] == s2[j + 1]);
            }
        }
        lemma_newest_first_unique(r1, r2);
        assert(s1 =~= s2) by {
            assert forall|i: int| 0 <= i < s1.len() implies s1[i] == s2[i] by {
                if i > 0 {
                    assert(s1[i] == r1[i - 1]);
                    assert(s2[i] == r2[i - 1]);
                }
            }
        }
    }
}

/// A listing is what `listing` stands for.
pub proof fn lemma_listing_is(s: Seq<TransactionView>, m: TransactionMap, user: Seq<char>, f: Filter)
    requires
        is_listing(s, m, user, f),
    ensures
        listing(m, user, f) == s,
{
    let l = listing(m, user, f);
    assert(is_listing(l, m, user, f));
    assert forall|t: TransactionView| l.contains(t) <==> s.contains(t) by {}
    lemma_newest_first_unique(l, s);
}

} // verus!

verus! {

// ---------------------------------------------------------------------
// What the store computes from a listing.

/// The filter that every transaction passes.
pub open spec fn no_filter() -> Filter {
    Filter { from: None, until: None, category: None, transactee: None }
}

/// The first day of the transaction's month.
pub open spec fn month_of(t: TransactionView) -> Date {
    Date { year: t.date.year, month: t.date.month, day: 1 }
}

/// A month's total with one more transaction counted: a positive amount is
/// added to the income, any other is subtracted from the expense.
pub open spec fn count_in_total(total: MonthlyTotal, t: TransactionView) -> Option<MonthlyTotal> {
    if t.amount.mantissa > 0 {
        match spec_add(total.income, t.amount) {
            Some(i) => Some(MonthlyTotal { month: total.month, income: i, expense: total.expense }),
            None => None,
        }
    } else {
        match spec_sub(total.expense, t.amount) {
            Some(e) => Some(MonthlyTotal { month: total.month, income: total.income, expense: e }),
            None => None,
        }
    }
}

/// The total of a month in which nothing is counted yet.
pub open spec fn empty_total(month: Date) -> MonthlyTotal {
    MonthlyTotal { month, income: Amount { mantissa: 0, scale: 0 }, expense: Amount { mantissa: 0, scale: 0 } }
}

/// The monthly totals of a listing, taken in order: each transaction is
/// counted in the total of its month, which starts at zero when the month
/// first appears. `None` where a sum overflows.
pub open spec fn monthly_totals(s: Seq<TransactionView>) -> Option<Seq<MonthlyTotal>>
    decreases s.len(),
{
    if s.len() == 0 {
        Some(Seq::empty())
    } else {
        match monthly_totals(s.drop_last()) {
            None => None,
            Some(g) => {
                let t = s.last();
                if g.len() > 0 && g.last().month == month_of(t) {
                    match count_in_total(g.last(), t) {
                        Some(n) => Some(g.update(g.len() - 1, n)),
                        None => None,
                    }
                } else {
                    match count_in_total(empty_total(month_of(t)), t) {
                        Some(n) => Some(g.push(n)),
                        None => None,
                    }
                }
            }
        }
    }
}

/// The sum of the amounts of a listing, added in order starting at zero.
/// `None` where a sum overflows.
pub open spec fn sum_amounts(s: Seq<TransactionView>) -> Option<Amount>
    decreases s.len(),
{
    if s.len() == 0 {
        Some(Amount { mantissa: 0, scale: 0 })
    } else {
        match sum_amounts(s.drop_last()) {
            None => None,
            Some(a) => spec_add(a, s.last().amount),
        }
    }
}

/// The largest scale among the amounts of a listing (0 for none).
pub open spec fn max_scale(s: Seq<TransactionView>) -> nat
    decreases s.len(),
{
    if s.len() == 0 {
        0
    } else {
        let m = max_scale(s.drop_last());
        if s.last().amount.scale > m {
            s.last().amount.scale as nat
        } else {
            m
        }
    }
}

/// The sum of the amounts of a listing, in units of `10^-sc`.
pub open spec fn listing_value(s: Seq<TransactionView>, sc: nat) -> int
    decreases s.len(),
{
    if s.len() == 0 {
        0
    } else {
        listing_value(s.drop_last(), sc) + value_at(s.last().amount, sc)
    }
}

/// The sum of the magnitudes of the amounts of a listing, in units of
/// `10^-sc`.
pub open spec fn listing_magnitude(s: Seq<TransactionView>, sc: nat) -> int
    decreases s.len(),
{
    if s.len() == 0 {
        0
    } else {
        listing_magnitude(s.drop_last(), sc) + if value_at(s.last().amount, sc) >= 0 {
            value_at(s.last().amount, sc)
        } else {
            -value_at(s.last().amount, sc)
        }
    }
}

/// Even the sum of the magnitudes of the listing's amounts, at its largest
/// scale, fits in 96 bits, so that no sum over it needs rounding.
pub open spec fn sums_fit(s: Seq<TransactionView>) -> bool {
    listing_magnitude(s, max_scale(s)) <= MAX_MANTISSA
}

/// The net of a list of monthly totals (incomes less expenses), in units of
/// `10^-sc`.
pub open spec fn totals_net(g: Seq<MonthlyTotal>, sc: nat) -> int
    decreases g.len(),
{
    if g.len() == 0 {
        0
    } else {
        totals_net(g.drop_last(), sc) + value_at(g.last().income, sc) - value_at(g.last().expense, sc)
    }
}

/// The gross of a list of monthly totals (incomes plus expenses), in units
/// of `10^-sc`.
pub open spec fn totals_gross(g: Seq<MonthlyTotal>, sc: nat) -> int
    decreases g.len(),
{
    if g.len() == 0 {
        0
    } else {
        totals_gross(g.drop_last(), sc) + value_at(g.last().income, sc) + value_at(g.last().expense, sc)
    }
}

/// Totals whose incomes and expenses are not negative have a gross that is
/// not negative either.
pub proof fn lemma_totals_gross_nonneg(g: Seq<MonthlyTotal>, sc: nat)
    requires
        forall|k: int| 0 <= k < g.len() ==> (#[trigger] g[k]).income.mantissa >= 0 && g[k].expense.mantissa >= 0,
    ensures
        totals_gross(g, sc) >= 0,
    decreases g.len(),
{
    if g.len() > 0 {
        let r = g.drop_last();
        assert forall|k: int| 0 <= k < r.len() implies (#[trigger] r[k]).income.mantissa >= 0
            && r[k].expense.mantissa >= 0 by {
            assert(r[k] == g[k]);
        }
        lemma_totals_gross_nonneg(r, sc);
        lemma_value_sign(g.last().income, sc);
        lemma_value_sign(g.last().expense, sc);
    }
}

/// Every amount of the listing has a scale at most the largest.
pub proof fn lemma_max_scale(s: Seq<TransactionView>)
    ensures
        forall|k: int| 0 <= k < s.len() ==> (#[trigger] s[k]).amount.scale <= max_scale(s),
    decreases s.len(),
{
    if s.len() > 0 {
        lemma_max_scale(s.drop_last());
        assert forall|k: int| 0 <= k < s.len() implies (#[trigger] s[k]).amount.scale <= max_scale(s) by {
            if k < s.len() - 1 {
                assert(s[k] == s.drop_last()[k]);
            }
        }
    }
}

/// A sum is no larger in magnitude than the sum of the magnitudes, and the
/// magnitudes of a prefix add up to no more than those of the whole.
pub proof fn lemma_listing_magnitude(s: Seq<TransactionView>, i: int, sc: nat)
    requires
        0 <= i <= s.len(),
    ensures
        -listing_magnitude(s, sc) <= listing_value(s, sc) <= listing_magnitude(s, sc),
        0 <= listing_magnitude(s.take(i), sc) <= listing_magnitude(s, sc),
    decreases s.len(),
{
    if s.len() > 0 {
        let r = s.drop_last();
        if i == s.len() {
            assert(s.take(i) =~= s);
            lemma_listing_magnitude(r, r.len() as int, sc);
        } else {
            lemma_listing_magnitude(r, i, sc);
            assert(s.take(i) =~= r.take(i));
        }
    } else {
        assert(s.take(i) =~= s);
    }
}

/// How many transactions of the listing have the given transactee and,
/// where a category is given, that category.
pub open spec fn transactee_count(s: Seq<TransactionView>, name: Seq<char>, category: Option<Seq<char>>) -> int
    decreases s.len(),
{
    if s.len() == 0 {
        0
    } else {
        transactee_count(s.drop_last(), name, category) + if s.last().transactee == Some(name) && (
        category matches Some(c) ==> s.last().category == c) {
            1int
        } else {
            0int
        }
    }
}

/// Some transaction of the listing has the given category.
pub open spec fn has_category(s: Seq<TransactionView>, c: Seq<char>) -> bool {
    exists|i: int| 0 <= i < s.len() && s[i].category == c
}

/// Some transaction of the listing carries the given tag.
pub open spec fn has_tag(s: Seq<TransactionView>, tag: Seq<char>) -> bool {
    exists|i: int| 0 <= i < s.len() && s[i].tags.contains(tag)
}

/// Some transaction of the listing has the given transactee.
pub open spec fn has_transactee(s: Seq<TransactionView>, name: Seq<char>) -> bool {
    exists|i: int| 0 <= i < s.len() && s[i].transactee == Some(name)
}

/// Where the totals of a prefix overflow, so do those of the whole.
pub proof fn lemma_monthly_totals_prefix(s: Seq<TransactionView>, i: int)
    requires
        0 <= i <= s.len(),
        monthly_totals(s.take(i)) is None,
    ensures
        monthly_totals(s) is None,
    decreases s.len() - i,
{
    if i == s.len() {
        assert(s.take(i) =~= s);
    } else {
        assert(s.take(i + 1).drop_last() =~= s.take(i));
        lemma_monthly_totals_prefix(s, i + 1);
    }
}

/// Where the sum of a prefix overflows, so does the sum of the whole.
pub proof fn lemma_sum_amounts_prefix(s: Seq<TransactionView>, i: int)
    requires
        0 <= i <= s.len(),
        sum_amounts(s.take(i)) is None,
    ensures
        sum_amounts(s) is None,
    decreases s.len() - i,
{
    if i == s.len() {
        assert(s.take(i) =~= s);
    } else {
        assert(s.take(i + 1).drop_last() =~= s.take(i));
        lemma_sum_amounts_prefix(s, i + 1);
    }
}

} // verus!

verus! {

/// A transactee that no transaction of the listing has is counted nowhere.
pub proof fn lemma_transactee_count_absent(s: Seq<TransactionView>, name: Seq<char>, category: Option<Seq<char>>)
    requires
        !has_transactee(s, name),
    ensures
        transactee_count(s, name, category) == 0,
    decreases s.len(),
{
    if s.len() > 0 {
        assert(!has_transactee(s.drop_last(), name)) by {
            if has_transactee(s.drop_last(), name) {
                let k = choose|k: int| 0 <= k < s.drop_last().len() && s.drop_last()[k].transactee == Some(name);
                assert(s[k].transactee == Some(name));
            }
        }
        assert(s.last() == s[s.len() - 1]);
        lemma_transactee_count_absent(s.drop_last(), name, category);
    }
}

} // verus!

verus! {

// ---------------------------------------------------------------------
// Laws of a transaction store.

/// A transaction that was just created can be read back by its owner, with
/// the fields it was created with and the id it was given.
pub proof fn law_get_after_create(m: TransactionMap, id: i32, user: Seq<char>, new: NewTransaction)
    requires
        !m.contains_key(id),
    ensures
        ({
            let m2 = m.insert(id, (user, new.spec_to_transaction(id)));
            &&& owns(m2, user, id)
            &&& m2[id].1 == new.spec_to_transaction(id)
            &&& m2[id].1.id == id
            &&& forall|other: i32| other != id ==> m2.contains_key(other) == m.contains_key(other)
        }),
{
}

/// Only the owner of a transaction can read, update or delete it: for any
/// other user it does not exist.
pub proof fn law_owner_only(m: TransactionMap, id: i32, user: Seq<char>, other: Seq<char>, t: TransactionView)
    requires
        user != other,
    ensures
        !owns(m.insert(id, (user, t)), other, id),
{
}

/// Once deleted, a transaction can no longer be read, updated or deleted.
pub proof fn law_get_after_delete(m: TransactionMap, id: i32, user: Seq<char>)
    ensures
        !owns(m.remove(id), user, id),
{
}

/// After an update, the owner reads the new fields under the same id.
pub proof fn law_get_after_update(m: TransactionMap, id: i32, user: Seq<char>, updated: NewTransaction)
    requires
        owns(m, user, id),
    ensures
        ({
            let m2 = m.insert(id, (user, updated.spec_to_transaction(id)));
            &&& owns(m2, user, id)
            &&& m2[id].1 == updated.spec_to_transaction(id)
            &&& m2[id].1.id == id
        }),
{
}

/// Two transactions created for a user who owned none are, together, the
/// whole listing of that user without a filter: it holds both of them and
/// nothing else, whatever other users own.
pub proof fn law_listing_of_created(
    m: TransactionMap,
    user: Seq<char>,
    t1: TransactionView,
    t2: TransactionView,
    s: Seq<TransactionView>,
)
    requires
        forall|id: i32| m.contains_key(id) ==> (#[trigger] m[id]).0 != user,
        t1.id != t2.id,
        is_listing(s, m.insert(t1.id, (user, t1)).insert(t2.id, (user, t2)), user, no_filter()),
    ensures
        s.len() == 2,
        s.contains(t1),
        s.contains(t2),
{
    let m2 = m.insert(t1.id, (user, t1)).insert(t2.id, (user, t2));
    assert(owned_matching(m2, user, no_filter(), t1));
    assert(owned_matching(m2, user, no_filter(), t2));
    assert(s.contains(t1) && s.contains(t2));
    assert forall|i: int| 0 <= i < s.len() implies #[trigger] s[i] == t1 || s[i] == t2 by {
        assert(s.contains(s[i]));
        assert(owned_matching(m2, user, no_filter(), s[i]));
    }
    let i1 = choose|i: int| 0 <= i < s.len() && s[i] == t1;
    let i2 = choose|i: int| 0 <= i < s.len() && s[i] == t2;
    assert(i1 != i2);
    if s.len() > 2 {
        assert(tx_after(s[0], s[1]) && tx_after(s[0], s[2]) && tx_after(s[1], s[2]));
        assert(s[0] == t1 || s[0] == t2);
        assert(s[1] == t1 || s[1] == t2);
        assert(s[2] == t1 || s[2] == t2);
        assert(false);
    }
}

/// Each stored transaction belongs to exactly one user, who can read it and
/// whom alone it is visible to; a create under an id that is not in use
/// keeps that so and gives the new transaction an id no other has.
pub proof fn law_create_keeps_ownership(m: TransactionMap, id: i32, user: Seq<char>, t: TransactionView)
    requires
        !m.contains_key(id),
    ensures
        forall|other: i32| #[trigger] m.contains_key(other) ==> other != id,
        ({
            let m2 = m.insert(id, (user, t));
            forall|k: i32, v: Seq<char>|
                m2.contains_key(k) ==> (#[trigger] owns(m2, v, k) <==> v == m2[k].0) && (k != id ==> m2[k] == m[k])
        }),
{
}

/// Where no sum over a user's listing needs rounding (`sums_fit`), its
/// monthly totals net out to its balance: incomes less expenses over all
/// months equal the sum of all amounts. The two premises are what
/// `get_monthly_totals` (without a filter) and `get_balance` ensure of the
/// same listing.
pub proof fn law_totals_match_balance(l: Seq<TransactionView>, g: Seq<MonthlyTotal>, b: Amount)
    requires
        sums_fit(l),
        totals_net(g, max_scale(l)) == listing_value(l, max_scale(l)),
        value_at(b, max_scale(l)) == listing_value(l, max_scale(l)),
    ensures
        totals_net(g, max_scale(l)) == value_at(b, max_scale(l)),
{
}

/// What a filtered listing holds, said by the fields of the transactions
/// and the calendar: every listed transaction is one of the user's, dated
/// on or after `from` and on or before `until` (as calendar days), of the
/// category and naming the transactee where those are given (one without a
/// transactee never passes a transactee filter); and every transaction of
/// the user that meets those conditions is listed.
pub proof fn law_listing_filter(s: Seq<TransactionView>, m: TransactionMap, user: Seq<char>, f: Filter)
    requires
        is_listing(s, m, user, f),
        forall|id: i32| #[trigger] m.contains_key(id) ==> m[id].1.id == id && m[id].1.date.wf(),
        f.from matches Some(d) ==> d.wf(),
        f.until matches Some(d) ==> d.wf(),
    ensures
        forall|i: int|
            0 <= i < s.len() ==> {
                let t = #[trigger] s[i];
                &&& m.contains_key(t.id) && m[t.id] == (user, t)
                &&& f.from matches Some(d) ==> !date_lt(t.date, d)
                &&& f.until matches Some(d) ==> !date_lt(d, t.date)
                &&& f.category matches Some(c) ==> t.category == c@
                &&& f.transactee matches Some(x) ==> t.transactee == Some(x@)
            },
        forall|id: i32|
            #[trigger] m.contains_key(id) && m[id].0 == user && (f.from matches Some(d) ==> !date_lt(
                m[id].1.date,
                d,
            )) && (f.until matches Some(d) ==> !date_lt(d, m[id].1.date)) && (f.category matches Some(c)
                ==> m[id].1.category == c@) && (f.transactee matches Some(x) ==> m[id].1.transactee == Some(x@))
                ==> s.contains(m[id].1),
{
    assert forall|i: int| 0 <= i < s.len() implies {
        let t = #[trigger] s[i];
        &&& m.contains_key(t.id) && m[t.id] == (user, t)
        &&& f.from matches Some(d) ==> !date_lt(t.date, d)
        &&& f.until matches Some(d) ==> !date_lt(d, t.date)
        &&& f.category matches Some(c) ==> t.category == c@
        &&& f.transactee matches Some(x) ==> t.transactee == Some(x@)
    } by {
        let t = s[i];
        assert(s.contains(t));
        assert(owned_matching(m, user, f, t));
        if let Some(d) = f.from {
            lemma_date_key_order(t.date, d);
        }
        if let Some(d) = f.until {
            lemma_date_key_order(d, t.date);
        }
    }
    assert forall|id: i32|
        #[trigger] m.contains_key(id) && m[id].0 == user && (f.from matches Some(d) ==> !date_lt(m[id].1.date, d))
            && (f.until matches Some(d) ==> !date_lt(d, m[id].1.date)) && (f.category matches Some(c)
            ==> m[id].1.category == c@) && (f.transactee matches Some(x) ==> m[id].1.transactee == Some(x@))
        implies s.contains(m[id].1) by {
        let t = m[id].1;
        if let Some(d) = f.from {
            lemma_date_key_order(t.date, d);
        }
        if let Some(d) = f.until {
            lemma_date_key_order(d, t.date);
        }
        assert(owned_matching(m, user, f, t));
    }
}

/// What a page of a listing holds, said by offset and limit: a negative
/// offset, or one at or past the end, gives nothing; otherwise the page
/// starts at the offset and holds `limit` entries, or all that remain where
/// fewer remain or the limit is negative.
pub proof fn law_page_bounds<T>(s: Seq<T>, p: PageOptions)
    ensures
        p.offset < 0 || p.offset >= s.len() ==> page(s, Some(p)).len() == 0,
        0 <= p.offset < s.len() ==> {
            &&& page(s, Some(p)).len() == if p.limit < 0 || p.limit > s.len() - p.offset {
                s.len() - p.offset
            } else {
                p.limit as int
            }
            &&& forall|i: int| 0 <= i < page(s, Some(p)).len() ==> #[trigger] page(s, Some(p))[i] == s[p.offset + i]
        },
        page(s, None) == s,
{
}

/// Counting a transaction: appending one to a listing raises the count of
/// a transactee by one exactly when it names that transactee (and has the
/// category, where one is given), whatever its amount, date or note; any
/// other leaves the count as it was.
pub proof fn law_transactee_count_step(
    s: Seq<TransactionView>,
    t: TransactionView,
    name: Seq<char>,
    category: Option<Seq<char>>,
)
    ensures
        t.transactee == Some(name) && (category matches Some(c) ==> t.category == c) ==> transactee_count(
            s.push(t),
            name,
            category,
        ) == transactee_count(s, name, category) + 1,
        !(t.transactee == Some(name) && (category matches Some(c) ==> t.category == c)) ==> transactee_count(
            s.push(t),
            name,
            category,
        ) == transactee_count(s, name, category),
        transactee_count(Seq::<TransactionView>::empty(), name, category) == 0,
{
    assert(s.push(t).drop_last() =~= s);
}

/// Every page of a listing is newest first.
pub proof fn law_page_newest_first(s: Seq<TransactionView>, po: Option<PageOptions>)
    requires
        newest_first(s),
    ensures
        newest_first(page(s, po)),
{
    match po {
        None => {},
        Some(p) => {
            let t = page(s, po);
            let a = page_start(s.len() as int, p);
            assert forall|i: int, j: int| 0 <= i < j < t.len() implies tx_after(#[trigger] t[i], #[trigger] t[j]) by {
                assert(t[i] == s[a + i] && t[j] == s[a + j]);
            }
        },
    }
}

/// Each transaction on a page of a listing belongs to the user and passes
/// the filter; without page options the page holds every such transaction.
pub proof fn law_listing_members(s: Seq<TransactionView>, m: TransactionMap, user: Seq<char>, f: Filter, po: Option<PageOptions>)
    requires
        is_listing(s, m, user, f),
    ensures
        forall|i: int| 0 <= i < page(s, po).len() ==> owned_matching(m, user, f, #[trigger] page(s, po)[i]),
        forall|t: TransactionView| owned_matching(m, user, f, t) ==> page(s, None).contains(t),
{
    assert forall|i: int| 0 <= i < page(s, po).len() implies owned_matching(m, user, f, #[trigger] page(s, po)[i]) by {
        match po {
            None => {
                assert(s.contains(s[i]));
            },
            Some(p) => {
                let a = page_start(s.len() as int, p);
                assert(page(s, po)[i] == s[a + i]);
                assert(s.contains(s[a + i]));
            },
        }
    }
}

/// The first days of months are ordered as the days in them.
pub proof fn lemma_month_order(a: TransactionView, b: TransactionView)
    requires
        a.date.wf(),
        b.date.wf(),
        date_key(a.date) >= date_key(b.date),
    ensures
        date_key(month_of(a)) >= date_key(month_of(b)),
        month_of(a) != month_of(b) ==> date_key(month_of(a)) > date_key(month_of(b)),
{
}

/// The dates of a list of transactions never increase.
pub open spec fn dates_descending(s: Seq<TransactionView>) -> bool {
    forall|i: int, j: int| 0 <= i < j < s.len() ==> date_key((#[trigger] s[i]).date) >= date_key((#[trigger] s[j]).date)
}

/// The dates of a listing never increase.
pub proof fn lemma_listing_dates_descending(s: Seq<TransactionView>)
    requires
        newest_first(s),
    ensures
        dates_descending(s),
{
    assert forall|i: int, j: int| 0 <= i < j < s.len() implies date_key((#[trigger] s[i]).date) >= date_key(
        (#[trigger] s[j]).date,
    ) by {
        assert(tx_after(s[i], s[j]));
    }
}

/// Monthly totals of rows whose dates never increase (a listing is such a
/// list) come latest month first, one entry per month, each dated on the
/// first of its month.
pub proof fn law_monthly_totals_order(s: Seq<TransactionView>)
    requires
        dates_descending(s),
        forall|i: int| 0 <= i < s.len() ==> (#[trigger] s[i]).date.wf(),
        monthly_totals(s) is Some,
    ensures
        ({
            let g = monthly_totals(s)->0;
            &&& forall|i: int, j: int| 0 <= i < j < g.len() ==> date_key((#[trigger] g[i]).month) > date_key(
                (#[trigger] g[j]).month,
            )
            &&& s.len() > 0 ==> g.len() > 0 && g.last().month == month_of(s.last())
            &&& forall|i: int| 0 <= i < g.len() ==> (#[trigger] g[i]).month.day == 1
        }),
    decreases s.len(),
{
    if s.len() > 0 {
        let r = s.drop_last();
        assert forall|i: int, j: int| 0 <= i < j < r.len() implies date_key((#[trigger] r[i]).date) >= date_key(
            (#[trigger] r[j]).date,
        ) by {
            assert(r[i] == s[i] && r[j] == s[j]);
        }
        assert forall|i: int| 0 <= i < r.len() implies (#[trigger] r[i]).date.wf() by {
            assert(r[i] == s[i]);
        }
        law_monthly_totals_order(r);
        let g0 = monthly_totals(r)->0;
        let t = s.last();
        let g = monthly_totals(s)->0;
        assert forall|i: int| 0 <= i < g.len() implies (#[trigger] g[i]).month.day == 1 by {
            if i < g0.len() {
                assert(g[i].month == g0[i].month);
            }
        }
        if g0.len() > 0 && g0.last().month == month_of(t) {
            assert forall|i: int, j: int| 0 <= i < j < g.len() implies date_key((#[trigger] g[i]).month) > date_key(
                (#[trigger] g[j]).month,
            ) by {
                assert(g[i].month == g0[i].month && g[j].month == g0[j].month);
            }
        } else {
            if g0.len() > 0 {
                assert(r.len() > 0);
                assert(r.last() == s[s.len() - 2]);
                assert(date_key(s[s.len() - 2].date) >= date_key(s[s.len() - 1].date));
                lemma_month_order(r.last(), t);
            }
            assert forall|i: int, j: int| 0 <= i < j < g.len() implies date_key((#[trigger] g[i]).month) > date_key(
                (#[trigger] g[j]).month,
            ) by {
                if j < g0.len() {
                    assert(g[i] == g0[i] && g[j] == g0[j]);
                } else {
                    assert(g[i] == g0[i]);
                    if i < g0.len() - 1 {
                        assert(date_key(g0[i].month) > date_key(g0[g0.len() - 1].month));
                    }
                }
            }
        }
    }
}

/// The total of month `m` over a listing: the transactions of that month
/// counted in order, starting at zero. `None` where a sum overflows.
pub open spec fn month_total(s: Seq<TransactionView>, m: Date) -> Option<MonthlyTotal>
    decreases s.len(),
{
    if s.len() == 0 {
        Some(empty_total(m))
    } else {
        match month_total(s.drop_last(), m) {
            None => None,
            Some(total) => if month_of(s.last()) == m {
                count_in_total(total, s.last())
            } else {
                Some(total)
            },
        }
    }
}

/// A month in which no transaction of the listing falls totals zero.
pub proof fn lemma_month_total_absent(s: Seq<TransactionView>, m: Date)
    requires
        forall|k: int| 0 <= k < s.len() ==> month_of(#[trigger] s[k]) != m,
    ensures
        month_total(s, m) == Some(empty_total(m)),
    decreases s.len(),
{
    if s.len() > 0 {
        let r = s.drop_last();
        assert forall|k: int| 0 <= k < r.len() implies month_of(#[trigger] r[k]) != m by {
            assert(r[k] == s[k]);
        }
        lemma_month_total_absent(r, m);
        assert(month_of(s[s.len() - 1]) != m);
    }
}

/// Monthly totals of rows whose dates never increase are exactly the totals
/// of the months of those rows: each entry is its own month's sum of
/// positive amounts (income) and negated sum of the others (expense), and
/// every row's month has an entry.
pub proof fn law_monthly_totals_per_month(s: Seq<TransactionView>)
    requires
        dates_descending(s),
        forall|i: int| 0 <= i < s.len() ==> (#[trigger] s[i]).date.wf(),
        monthly_totals(s) is Some,
    ensures
        ({
            let g = monthly_totals(s)->0;
            &&& forall|i: int| 0 <= i < g.len() ==> month_total(s, (#[trigger] g[i]).month) == Some(g[i])
            &&& forall|k: int| 0 <= k < s.len() ==> exists|i: int| 0 <= i < g.len() && (#[trigger] g[i]).month
                == month_of(#[trigger] s[k])
        }),
    decreases s.len(),
{
    if s.len() > 0 {
        let r = s.drop_last();
        let t = s.last();
        assert forall|i: int, j: int| 0 <= i < j < r.len() implies date_key((#[trigger] r[i]).date) >= date_key(
            (#[trigger] r[j]).date,
        ) by {
            assert(r[i] == s[i] && r[j] == s[j]);
        }
        assert forall|i: int| 0 <= i < r.len() implies (#[trigger] r[i]).date.wf() by {
            assert(r[i] == s[i]);
        }
        law_monthly_totals_per_month(r);
        law_monthly_totals_order(r);
        let g0 = monthly_totals(r)->0;
        let g = monthly_totals(s)->0;
        assert(s.drop_last() == r);
        if g0.len() > 0 && g0.last().month == month_of(t) {
            let last = g0.len() - 1;
            assert forall|i: int| 0 <= i < g.len() implies month_total(s, (#[trigger] g[i]).month) == Some(g[i]) by {
                if i < last {
                    assert(g[i] == g0[i]);
                    assert(date_key(g0[i].month) > date_key(g0[last].month));
                    assert(month_total(r, g0[i].month) == Some(g0[i]));
                } else {
                    assert(month_total(r, g0[last].month) == Some(g0[last]));
                }
            }
            assert forall|k: int| 0 <= k < s.len() implies exists|i: int| 0 <= i < g.len() && (#[trigger] g[i]).month
                == month_of(#[trigger] s[k]) by {
                if k < r.len() {
                    assert(r[k] == s[k]);
                    let i = choose|i: int| 0 <= i < g0.len() && (#[trigger] g0[i]).month == month_of(#[trigger] r[k]);
                    assert(g[i].month == g0[i].month);
                } else {
                    assert(g[last].month == month_of(s[k]));
                }
            }
        } else {
            let m = month_of(t);
            if g0.len() > 0 {
                assert(r.last() == s[s.len() - 2]);
                assert(date_key(s[s.len() - 2].date) >= date_key(s[s.len() - 1].date));
                lemma_month_order(r.last(), t);
            }
            assert forall|k: int| 0 <= k < r.len() implies month_of(#[trigger] r[k]) != m by {
                let i = choose|i: int| 0 <= i < g0.len() && (#[trigger] g0[i]).month == month_of(#[trigger] r[k]);
                if i < g0.len() - 1 {
                    assert(date_key(g0[i].month) > date_key(g0[g0.len() - 1].month));
                }
            }
            lemma_month_total_absent(r, m);
            assert forall|i: int| 0 <= i < g.len() implies month_total(s, (#[trigger] g[i]).month) == Some(g[i]) by {
                if i < g0.len() {
                    assert(g[i] == g0[i]);
                    if i < g0.len() - 1 {
                        assert(date_key(g0[i].month) > date_key(g0[g0.len() - 1].month));
                    }
                    assert(month_total(r, g0[i].month) == Some(g0[i]));
                }
            }
            assert forall|k: int| 0 <= k < s.len() implies exists|i: int| 0 <= i < g.len() && (#[trigger] g[i]).month
                == month_of(#[trigger] s[k]) by {
                if k < r.len() {
                    assert(r[k] == s[k]);
                    let i = choose|i: int| 0 <= i < g0.len() && (#[trigger] g0[i]).month == month_of(#[trigger] r[k]);
                    assert(g[i] == g0[i]);
                } else {
                    assert(g[g0.len() as int].month == month_of(s[k]));
                }
            }
        }
    }
}

/// `user` owns the transaction with id `id`.
pub open spec fn owns(m: TransactionMap, user: Seq<char>, id: i32) -> bool {
    m.contains_key(id) && m[id].0 == user
}

} // verus!
