//! Transaction templates: partly filled transactions that a user keeps for
//! reuse.

use crate::amount::Amount;
use crate::repo::transaction_repo::{copy_opt_string, copy_strings, opt_view, strings_view};
use vstd::prelude::*;

verus! {

/// A stored template.
#[derive(Clone, Debug)]
pub struct TransactionTemplate {
    pub template_id: i32,
    pub category: Option<String>,
    pub transactee: Option<String>,
    pub amount: Option<Amount>,
    pub note: Option<String>,
    pub tags: Vec<String>,
}

/// A template before the store gives it an id.
#[derive(Clone, Debug)]
pub struct NewTransactionTemplate {
    pub category: Option<String>,
    pub transactee: Option<String>,
    pub amount: Option<Amount>,
    pub note: Option<String>,
    pub tags: Vec<String>,
}

/// What a template holds, with strings as character sequences.
pub struct TemplateView {
    pub template_id: i32,
    pub category: Option<Seq<char>>,
    pub transactee: Option<Seq<char>>,
    pub amount: Option<Amount>,
    pub note: Option<Seq<char>>,
    pub tags: Seq<Seq<char>>,
}

impl View for TransactionTemplate {
    type V = TemplateView;

    open spec fn view(&self) -> TemplateView {
        TemplateView {
            template_id: self.template_id,
            category: opt_view(self.category),
            transactee: opt_view(self.transactee),
            amount: self.amount,
            note: opt_view(self.note),
            tags: strings_view(self.tags@),
        }
    }
}

impl TransactionTemplate {
    /// A field-by-field copy.
    pub fn copy(&self) -> (r: TransactionTemplate)
        ensures
            r@ == self@,
    {
        TransactionTemplate {
            template_id: self.template_id,
            category: copy_opt_string(&self.category),
            transactee: copy_opt_string(&self.transactee),
            amount: self.amount,
            note: copy_opt_string(&self.note),
            tags: copy_strings(&self.tags),
        }
    }
}

impl NewTransactionTemplate {
    pub fn new(
        category: Option<String>,
        transactee: Option<String>,
        amount: Option<Amount>,
        note: Option<String>,
        tags: Vec<String>,
    ) -> (r: NewTransactionTemplate)
        ensures
            r == (NewTransactionTemplate { category, transactee, amount, note, tags }),
    {
        NewTransactionTemplate { category, transactee, amount, note, tags }
    }

    /// The template that the store makes of this one under the given id.
    pub open spec fn spec_to_transaction_template(self, template_id: i32) -> TemplateView {
        TemplateView {
            template_id,
            category: opt_view(self.category),
            transactee: opt_view(self.transactee),
            amount: self.amount,
            note: opt_view(self.note),
            tags: strings_view(self.tags@),
        }
    }

    /// The template with the given id and this one's fields.
    pub fn to_transaction_template(self, template_id: i32) -> (r: TransactionTemplate)
        ensures
            r@ == self.spec_to_transaction_template(template_id),
    {
        TransactionTemplate {
            template_id,
            category: self.category,
            transactee: self.transactee,
            amount: self.amount,
            note: self.note,
            tags: self.tags,
        }
    }
}

/// Why a template store refused an operation.
#[derive(Debug)]
pub enum TransactionTemplateRepoError {
    TemplateNotFound(i32),
    Other(String),
}

/// Contents of a template store: each id maps to the owner's id and the
/// template.
pub type TemplateMap = Map<i32, (Seq<char>, TemplateView)>;

/// `user` owns the template with id `id`.
pub open spec fn owns_template(m: TemplateMap, user: Seq<char>, id: i32) -> bool {
    m.contains_key(id) && m[id].0 == user
}

/// `s` holds exactly the templates of `user`, in increasing order of id.
pub open spec fn is_template_listing(s: Seq<TemplateView>, m: TemplateMap, user: Seq<char>) -> bool {
    &&& forall|i: int, j: int| 0 <= i < j < s.len() ==> (#[trigger] s[i]).template_id < (#[trigger] s[j]).template_id
    &&& forall|t: TemplateView| s.contains(t) <==> (m.contains_key(t.template_id) && m[t.template_id] == (user, t))
}

/// The templates of `user`, in increasing order of id.
pub open spec fn template_listing(m: TemplateMap, user: Seq<char>) -> Seq<TemplateView> {
    choose|s: Seq<TemplateView>| is_template_listing(s, m, user)
}

/// Two template listings of the same user from the same store are equal.
pub proof fn lemma_template_listing_unique(s1: Seq<TemplateView>, s2: Seq<TemplateView>, m: TemplateMap, user: Seq<char>)
    requires
        is_template_listing(s1, m, user),
        is_template_listing(s2, m, user),
    ensures
        s1 == s2,
    decreases s1.len(),
{
    if s1.len() == 0 {
        if s2.len() > 0 {
            assert(s2.contains(s2[0]));
            assert(s1.contains(s2[0]));
        }
        assert(s1 =~= s2);
    } else {
        assert(s1.contains(s1[0]));
        assert(s2.contains(s1[0]));
        let b = s2[0];
        assert(s2.contains(b));
        assert(s1.contains(b));
        if s1[0] != b {
            let k = choose|k: int| 0 <= k < s1.len() && s1[k] == b;
            let q = choose|q: int| 0 <= q < s2.len() && s2[q] == s1[0];
            assert(s1[0].template_id < s1[k].template_id);
            assert(s2[0].template_id < s2[q].template_id);
            assert(false);
        }
        let m2 = m.remove(s1[0].template_id);
        let r1 = s1.drop_first();
        let r2 = s2.drop_first();
        assert forall|t: TemplateView| r1.contains(t) <==> (m2.contains_key(t.template_id) && m2[t.template_id] == (user, t)) by {
            if r1.contains(t) {
                let k = choose|k: int| 0 <= k < r1.len() && r1[k] == t;
                assert(s1[k + 1] == t);
                assert(s1.contains(t));
                assert(s1[0].template_id < s1[k + 1].template_id);
            }
            if m2.contains_key(t.template_id) && m2[t.template_id] == (user, t) {
                assert(s1.contains(t));
                let k = choose|k: int| 0 <= k < s1.len() && s1[k] == t;
                assert(k != 0);
                assert(r1[k - 1] == t);
            }
        }
        assert forall|t: TemplateView| r2.contains(t) <==> (m2.contains_key(t.template_id) && m2[t.template_id] == (user, t)) by {
            if r2.contains(t) {
                let k = choose|k: int| 0 <= k < r2.len() && r2[k] == t;
                assert(s2[k + 1] == t);
                assert(s2.contains(t));
                assert(s2[0].template_id < s2[k + 1].template_id);
            }
            if m2.contains_key(t.template_id) && m2[t.template_id] == (user, t) {
                assert(s2.contains(t));
                let k = choose|k: int| 0 <= k < s2.len() && s2[k] == t;
                assert(k != 0);
                assert(r2[k - 1] == t);
            }
        }
        assert forall|i: int, j: int| 0 <= i < j < r1.len() implies (#[trigger] r1[i]).template_id < (
        #[trigger] r1[j]).template_id by {
            assert(r1[i] == s1[i + 1] && r1[j] == s1[j + 1]);
        }
        assert forall|i: int, j: int| 0 <= i < j < r2.len() implies (#[trigger] r2[i]).template_id < (
        #[trigger] r2[j]).template_id by {
            assert(r2[i] == s2[i + 1] && r2[j] == s2[j + 1]);
        }
        lemma_template_listing_unique(r1, r2, m2, user);
        assert(s1 =~= s2) by {
            assert forall|i: int| 0 <= i < s1.len() implies s1[i] == s2[i] by {
                if i > 0 {
                    assert(s1[i] == r1[i - 1]);
                    assert(s2[i] == r2[i - 1]);
                }
            }
        }
    }
}


/// A template that was just created under a fresh id is listed for its
/// owner, and for no other user.
pub proof fn law_template_created_listed(m: TemplateMap, user: Seq<char>, other: Seq<char>, t: TemplateView, s: Seq<TemplateView>, s_other: Seq<TemplateView>)
    requires
        !m.contains_key(t.template_id),
        user != other,
        is_template_listing(s, m.insert(t.template_id, (user, t)), user),
        is_template_listing(s_other, m.insert(t.template_id, (user, t)), other),
    ensures
        s.contains(t),
        !s_other.contains(t),
{
}

/// Only the owner of a template can update or delete it: for any other user
/// it does not exist.
pub proof fn law_template_owner_only(m: TemplateMap, user: Seq<char>, other: Seq<char>, t: TemplateView)
    requires
        user != other,
    ensures
        !owns_template(m.insert(t.template_id, (user, t)), other, t.template_id),
{
}

/// A user who owns no template gets an empty listing.
pub proof fn law_template_unknown_user_empty(m: TemplateMap, user: Seq<char>, s: Seq<TemplateView>)
    requires
        forall|id: i32| m.contains_key(id) ==> (#[trigger] m[id]).0 != user,
        is_template_listing(s, m, user),
    ensures
        s.len() == 0,
{
    if s.len() > 0 {
        assert(s.contains(s[0]));
    }
}

/// Once deleted, a template is no longer listed, nor can it be updated or
/// deleted again.
pub proof fn law_template_get_after_delete(m: TemplateMap, user: Seq<char>, id: i32, s: Seq<TemplateView>)
    requires
        is_template_listing(s, m.remove(id), user),
    ensures
        !owns_template(m.remove(id), user, id),
        forall|i: int| 0 <= i < s.len() ==> (#[trigger] s[i]).template_id != id,
{
    assert forall|i: int| 0 <= i < s.len() implies (#[trigger] s[i]).template_id != id by {
        assert(s.contains(s[i]));
    }
}

/// After a user who owns one template updates it, the user's listing holds
/// exactly the updated template, under the same id.
pub proof fn law_template_listing_after_update(m: TemplateMap, user: Seq<char>, t: TemplateView, s: Seq<TemplateView>)
    requires
        owns_template(m, user, t.template_id),
        forall|id: i32| id != t.template_id ==> !owns_template(m, user, id),
        is_template_listing(s, m.insert(t.template_id, (user, t)), user),
    ensures
        s.len() == 1,
        s[0] == t,
{
    let m2 = m.insert(t.template_id, (user, t));
    assert(s.contains(t));
    assert forall|i: int| 0 <= i < s.len() implies #[trigger] s[i] == t by {
        assert(s.contains(s[i]));
        if s[i].template_id != t.template_id {
            assert(owns_template(m, user, s[i].template_id));
        }
    }
    if s.len() > 1 {
        assert(s[0].template_id < s[1].template_id);
    }
}

} // verus!
