//! A template store held in memory.

use crate::keyed::{
    has_key, keys_distinct, lemma_to_map_at, lemma_to_map_empty, lemma_to_map_pair, lemma_to_map_push,
    lemma_to_map_remove, lemma_to_map_update, to_map,
};
use crate::repo::transaction_template_repo::{
    is_template_listing, lemma_template_listing_unique, owns_template, template_listing, NewTransactionTemplate,
    TemplateMap, TemplateView, TransactionTemplate, TransactionTemplateRepoError,
};
use vstd::prelude::*;

verus! {

/// The templates of a list, as views.
pub open spec fn template_views(s: Seq<TransactionTemplate>) -> Seq<TemplateView> {
    s.map_values(|t: TransactionTemplate| t@)
}

/// The stored records as map entries: id, then owner and template.
pub open spec fn template_entries(s: Seq<(String, TransactionTemplate)>) -> Seq<(i32, (Seq<char>, TemplateView))> {
    s.map_values(|r: (String, TransactionTemplate)| (r.1.template_id, (r.0@, r.1@)))
}

/// Templates and their owners, kept in memory. Ids are handed out in
/// increasing order, starting at 0.
pub struct MemTransactionTemplateRepo {
    records: Vec<(String, TransactionTemplate)>,
    next_id: i32,
}

impl MemTransactionTemplateRepo {
    /// Records are kept in increasing order of id, all below the next id.
    pub closed spec fn wf(&self) -> bool {
        &&& keys_distinct(template_entries(self.records@))
        &&& 0 <= self.next_id
        &&& forall|i: int, j: int|
            0 <= i < j < self.records@.len() ==> (#[trigger] self.records@[i]).1.template_id
                < (#[trigger] self.records@[j]).1.template_id
        &&& forall|i: int| 0 <= i < self.records@.len() ==> 0 <= (#[trigger] self.records@[i]).1.template_id < self.next_id
    }

    /// Each id in the store maps to its owner and template.
    pub closed spec fn templates(&self) -> TemplateMap {
        to_map(template_entries(self.records@))
    }

    /// The id that the next new template gets.
    pub closed spec fn next_id(&self) -> i32 {
        self.next_id
    }

    /// What holds of every store: each template is stored under its own id,
    /// below the next id.
    pub proof fn lemma_store(&self)
        requires
            self.wf(),
        ensures
            0 <= self.next_id(),
            forall|id: i32|
                #![trigger self.templates()[id]]
                self.templates().contains_key(id) ==> self.templates()[id].1.template_id == id && 0 <= id
                    < self.next_id(),
    {
        assert forall|id: i32|
            #![trigger self.templates()[id]]
            self.templates().contains_key(id) implies self.templates()[id].1.template_id == id && 0 <= id
            < self.next_id() by {
            let e = template_entries(self.records@);
            let i = choose|i: int| 0 <= i < e.len() && e[i].0 == id;
            lemma_to_map_at(e, i);
            assert(self.records@[i].1.template_id == id);
        }
    }

    /// Whether another template can still be given an id.
    pub fn can_create(&self) -> (r: bool)
        ensures
            r == (self.next_id() < i32::MAX),
    {
        self.next_id < i32::MAX
    }

    /// An empty store.
    pub fn new() -> (r: MemTransactionTemplateRepo)
        ensures
            r.wf(),
            r.templates() == Map::<i32, (Seq<char>, TemplateView)>::empty(),
            r.next_id() == 0,
    {
        let r = MemTransactionTemplateRepo { records: Vec::new(), next_id: 0 };
        proof {
            lemma_to_map_empty(template_entries(r.records@));
        }
        r
    }

    /// The position of the record of `user` with the given id, if any.
    fn find_owned(&self, user: &String, id: i32) -> (r: Option<usize>)
        requires
            self.wf(),
        ensures
            r matches Some(i) ==> i < self.records@.len() && self.records@[i as int].1.template_id == id
                && owns_template(self.templates(), user@, id),
            r is None ==> !owns_template(self.templates(), user@, id),
    {
        let ghost e = template_entries(self.records@);
        let mut i: usize = 0;
        while i < self.records.len()
            invariant
                i <= self.records@.len(),
                e == template_entries(self.records@),
                keys_distinct(e),
                forall|j: int| 0 <= j < i ==> self.records@[j].1.template_id != id,
            decreases self.records@.len() - i,
        {
            if self.records[i].1.template_id == id {
                proof {
                    lemma_to_map_at(e, i as int);
                }
                if self.records[i].0 == *user {
                    return Some(i);
                } else {
                    return None;
                }
            }
            i = i + 1;
        }
        proof {
            assert(!has_key(e, id)) by {
                if has_key(e, id) {
                    let j = choose|j: int| 0 <= j < e.len() && e[j].0 == id;
                    assert(e[j].0 == self.records@[j].1.template_id);
                }
            }
        }
        None
    }

    /// Stores the new template for `user` under the next id and returns it.
    pub fn create_template(&mut self, user_id: &str, new_template: NewTransactionTemplate) -> (r: Result<
        TransactionTemplate,
        TransactionTemplateRepoError,
    >)
        requires
            old(self).wf(),
            old(self).next_id() < i32::MAX,
        ensures
            final(self).wf(),
            r matches Ok(t) && t@ == new_template.spec_to_transaction_template(old(self).next_id()),
            final(self).templates() == old(self).templates().insert(
                old(self).next_id(),
                (user_id@, new_template.spec_to_transaction_template(old(self).next_id())),
            ),
            final(self).next_id() == old(self).next_id() + 1,
    {
        let id = self.next_id;
        let user = user_id.to_owned();
        let t = new_template.to_transaction_template(id);
        let stored = t.copy();
        let ghost old_records = self.records@;
        proof {
            let e = template_entries(old_records);
            assert(!has_key(e, id)) by {
                if has_key(e, id) {
                    let i = choose|i: int| 0 <= i < e.len() && e[i].0 == id;
                    assert(old_records[i].1.template_id < id);
                }
            }
            lemma_to_map_push(e, id, (user@, t@));
            assert(template_entries(old_records.push((user, stored))) =~= e.push((id, (user@, t@))));
        }
        self.records.push((user, stored));
        self.next_id = id + 1;
        Ok(t)
    }

    /// Replaces the user's template with the given id, keeping the id, or
    /// gives `TemplateNotFound` and changes nothing.
    pub fn update_template(&mut self, user_id: &str, template_id: i32, template: NewTransactionTemplate) -> (r: Result<
        TransactionTemplate,
        TransactionTemplateRepoError,
    >)
        requires
            old(self).wf(),
        ensures
            final(self).wf(),
            final(self).next_id() == old(self).next_id(),
            owns_template(old(self).templates(), user_id@, template_id) ==> {
                &&& r matches Ok(t) && t@ == template.spec_to_transaction_template(template_id)
                &&& final(self).templates() == old(self).templates().insert(
                    template_id,
                    (user_id@, template.spec_to_transaction_template(template_id)),
                )
            },
            !owns_template(old(self).templates(), user_id@, template_id) ==> {
                &&& r == Err::<TransactionTemplate, TransactionTemplateRepoError>(
                    TransactionTemplateRepoError::TemplateNotFound(template_id),
                )
                &&& final(self).templates() == old(self).templates()
            },
    {
        let user = user_id.to_owned();
        match self.find_owned(&user, template_id) {
            Some(i) => {
                let t = template.to_transaction_template(template_id);
                let stored = t.copy();
                let ghost old_records = self.records@;
                proof {
                    let e = template_entries(old_records);
                    lemma_to_map_at(e, i as int);
                    lemma_to_map_update(e, i as int, (user@, t@));
                    assert(template_entries(old_records.update(i as int, (user, stored))) =~= e.update(
                        i as int,
                        (e[i as int].0, (user@, t@)),
                    ));
                }
                self.records.set(i, (user, stored));
                Ok(t)
            },
            None => Err(TransactionTemplateRepoError::TemplateNotFound(template_id)),
        }
    }

    /// The user's templates, in increasing order of id.
    pub fn get_templates(&self, user_id: &str) -> (r: Result<Vec<TransactionTemplate>, TransactionTemplateRepoError>)
        requires
            self.wf(),
        ensures
            r matches Ok(v) && template_views(v@) == template_listing(self.templates(), user_id@),
            r matches Ok(v) && is_template_listing(template_views(v@), self.templates(), user_id@),
    {
        let user = user_id.to_owned();
        let ghost e = template_entries(self.records@);
        let mut res: Vec<TransactionTemplate> = Vec::new();
        let mut i: usize = 0;
        while i < self.records.len()
            invariant
                i <= self.records@.len(),
                e == template_entries(self.records@),
                self.wf(),
                forall|t: TemplateView|
                    template_views(res@).contains(t) <==> exists|k: int|
                        0 <= k < i && (#[trigger] self.records@[k]).0@ == user@ && self.records@[k].1@ == t,
                forall|a: int, b: int|
                    0 <= a < b < res@.len() ==> (#[trigger] res@[a]).template_id < (#[trigger] res@[b]).template_id,
                forall|a: int| 0 <= a < res@.len() ==> exists|k: int|
                    0 <= k < i && (#[trigger] res@[a]).template_id == #[trigger] self.records@[k].1.template_id,
            decreases self.records@.len() - i,
        {
            let ghost before = template_views(res@);
            let ghost before_res = res@;
            let take = self.records[i].0 == user;
            if take {
                let t = self.records[i].1.copy();
                res.push(t);
                proof {
                    assert(template_views(res@) =~= before.push(self.records@[i as int].1@));
                    assert forall|a: int, b: int| 0 <= a < b < res@.len() implies (#[trigger] res@[a]).template_id
                        < (#[trigger] res@[b]).template_id by {
                        if b == res@.len() - 1 {
                            assert(res@[a] == before_res[a]);
                            let k = choose|k: int|
                                0 <= k < i && (#[trigger] before_res[a]).template_id
                                    == #[trigger] self.records@[k].1.template_id;
                            assert(self.records@[k].1.template_id < self.records@[i as int].1.template_id);
                        } else {
                            assert(res@[a] == before_res[a] && res@[b] == before_res[b]);
                        }
                    }
                    assert forall|a: int| 0 <= a < res@.len() implies exists|k: int|
                        0 <= k < i + 1 && (#[trigger] res@[a]).template_id == #[trigger] self.records@[k].1.template_id by {
                        if a < before_res.len() {
                            assert(res@[a] == before_res[a]);
                            let k = choose|k: int|
                                0 <= k < i && (#[trigger] before_res[a]).template_id
                                    == #[trigger] self.records@[k].1.template_id;
                            assert(0 <= k < i + 1);
                        } else {
                            assert(res@[a].template_id == self.records@[i as int].1.template_id);
                        }
                    }
                }
            }
            proof {
                let now = template_views(res@);
                if take {
                    assert(now == before.push(self.records@[i as int].1@));
                } else {
                    assert(now == before);
                    assert(res@ == before_res);
                    assert forall|a: int| 0 <= a < res@.len() implies exists|k: int|
                        0 <= k < i + 1 && (#[trigger] res@[a]).template_id == #[trigger] self.records@[k].1.template_id by {
                        let k = choose|k: int|
                            0 <= k < i && (#[trigger] res@[a]).template_id == #[trigger] self.records@[k].1.template_id;
                        assert(0 <= k < i + 1);
                    }
                }
                assert forall|t: TemplateView|
                    now.contains(t) <==> exists|k: int|
                        0 <= k < i + 1 && (#[trigger] self.records@[k]).0@ == user@ && self.records@[k].1@ == t by {
                    if before.contains(t) {
                        let k = choose|k: int|
                            0 <= k < i && (#[trigger] self.records@[k]).0@ == user@ && self.records@[k].1@ == t;
                        assert(0 <= k < i + 1);
                        if take {
                            let j = choose|j: int| 0 <= j < before.len() && before[j] == t;
                            assert(now[j] == t);
                        }
                    }
                    if now.contains(t) && !before.contains(t) {
                        let j = choose|j: int| 0 <= j < now.len() && now[j] == t;
                        assert(j == before.len());
                    }
                    if exists|k: int|
                        0 <= k < i + 1 && (#[trigger] self.records@[k]).0@ == user@ && self.records@[k].1@ == t {
                        let k = choose|k: int|
                            0 <= k < i + 1 && (#[trigger] self.records@[k]).0@ == user@ && self.records@[k].1@ == t;
                        if k == i {
                            assert(now[now.len() - 1] == t);
                        } else {
                            assert(before.contains(t));
                            let j = choose|j: int| 0 <= j < before.len() && before[j] == t;
                            assert(now[j] == t);
                        }
                    }
                }
            }
            i = i + 1;
        }
        proof {
            let m = self.templates();
            let v = template_views(res@);
            assert forall|t: TemplateView| v.contains(t) <==> (m.contains_key(t.template_id) && m[t.template_id] == (
            user@, t)) by {
                lemma_to_map_pair(e, t.template_id, (user@, t));
                if exists|k: int| 0 <= k < self.records@.len() && (#[trigger] self.records@[k]).0@ == user@
                    && self.records@[k].1@ == t {
                    let k = choose|k: int|
                        0 <= k < self.records@.len() && (#[trigger] self.records@[k]).0@ == user@
                            && self.records@[k].1@ == t;
                    assert(e[k] == (t.template_id, (user@, t)));
                }
                if exists|k: int| 0 <= k < e.len() && e[k] == (t.template_id, (user@, t)) {
                    let k = choose|k: int| 0 <= k < e.len() && e[k] == (t.template_id, (user@, t));
                    assert(self.records@[k].1@ == t);
                }
            }
            assert forall|a: int, b: int| 0 <= a < b < v.len() implies (#[trigger] v[a]).template_id < (
            #[trigger] v[b]).template_id by {
                assert(v[a] == res@[a]@ && v[b] == res@[b]@);
            }
            assert(is_template_listing(v, m, user@));
            let l = template_listing(m, user@);
            lemma_template_listing_unique(l, v, m, user@);
        }
        Ok(res)
    }

    /// Removes the user's template with the given id and returns it, or
    /// gives `TemplateNotFound` and changes nothing.
    pub fn delete_template(&mut self, user_id: &str, template_id: i32) -> (r: Result<
        TransactionTemplate,
        TransactionTemplateRepoError,
    >)
        requires
            old(self).wf(),
        ensures
            final(self).wf(),
            final(self).next_id() == old(self).next_id(),
            owns_template(old(self).templates(), user_id@, template_id) ==> {
                &&& r matches Ok(t) && t@ == old(self).templates()[template_id].1
                &&& final(self).templates() == old(self).templates().remove(template_id)
            },
            !owns_template(old(self).templates(), user_id@, template_id) ==> {
                &&& r == Err::<TransactionTemplate, TransactionTemplateRepoError>(
                    TransactionTemplateRepoError::TemplateNotFound(template_id),
                )
                &&& final(self).templates() == old(self).templates()
            },
    {
        let user = user_id.to_owned();
        match self.find_owned(&user, template_id) {
            Some(i) => {
                let ghost old_records = self.records@;
                proof {
                    let e = template_entries(old_records);
                    lemma_to_map_at(e, i as int);
                    lemma_to_map_remove(e, i as int);
                    assert(template_entries(old_records.remove(i as int)) =~= e.remove(i as int));
                    old_records.remove_ensures(i as int);
                }
                let (_owner, t) = self.records.remove(i);
                proof {
                    assert forall|a: int, b: int| 0 <= a < b < self.records@.len() implies (
                    #[trigger] self.records@[a]).1.template_id < (#[trigger] self.records@[b]).1.template_id by {
                        let a2 = if a < i { a } else { a + 1 };
                        let b2 = if b < i { b } else { b + 1 };
                        assert(self.records@[a] == old_records[a2]);
                        assert(self.records@[b] == old_records[b2]);
                    }
                    assert forall|a: int| 0 <= a < self.records@.len() implies 0 <= (
                    #[trigger] self.records@[a]).1.template_id < self.next_id by {
                        let a2 = if a < i { a } else { a + 1 };
                        assert(self.records@[a] == old_records[a2]);
                    }
                }
                Ok(t)
            },
            None => Err(TransactionTemplateRepoError::TemplateNotFound(template_id)),
        }
    }
}

} // verus!
