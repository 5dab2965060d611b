//! A user store held in memory.

use crate::keyed::{
    has_key, keys_distinct, lemma_to_map_at, lemma_to_map_empty, lemma_to_map_push, lemma_to_map_remove,
    lemma_to_map_update, to_map,
};
use crate::repo::user_repo::{User, UserRepo, UserRepoError};
use vstd::prelude::*;

verus! {

/// The entries of a user store as (id, password hash) pairs of character
/// sequences.
pub open spec fn entries_view(s: Seq<(String, String)>) -> Seq<(Seq<char>, Seq<char>)> {
    s.map_values(|e: (String, String)| (e.0@, e.1@))
}

/// What `get_user` answers: the stored hash of `id`, if the user exists.
pub open spec fn spec_get_user(users: Map<Seq<char>, Seq<char>>, id: Seq<char>) -> Option<Seq<char>> {
    if users.contains_key(id) {
        Some(users[id])
    } else {
        None
    }
}

/// The store after `create_user`, and whether it succeeded: a new id is
/// added, an existing one is refused and nothing changes.
pub open spec fn spec_create_user(users: Map<Seq<char>, Seq<char>>, id: Seq<char>, hash: Seq<char>) -> (
    Map<Seq<char>, Seq<char>>,
    bool,
) {
    if users.contains_key(id) {
        (users, false)
    } else {
        (users.insert(id, hash), true)
    }
}

/// The store after `update_password_hash`, and whether it succeeded.
pub open spec fn spec_update_password_hash(users: Map<Seq<char>, Seq<char>>, id: Seq<char>, hash: Seq<char>) -> (
    Map<Seq<char>, Seq<char>>,
    bool,
) {
    if users.contains_key(id) {
        (users.insert(id, hash), true)
    } else {
        (users, false)
    }
}

/// The store after `delete_user`, and whether it succeeded.
pub open spec fn spec_delete_user(users: Map<Seq<char>, Seq<char>>, id: Seq<char>) -> (Map<Seq<char>, Seq<char>>, bool) {
    if users.contains_key(id) {
        (users.remove(id), true)
    } else {
        (users, false)
    }
}

/// A user that was created is found, with the hash it was created with.
pub proof fn law_user_get_after_create(users: Map<Seq<char>, Seq<char>>, id: Seq<char>, hash: Seq<char>)
    requires
        !users.contains_key(id),
    ensures
        spec_create_user(users, id, hash).1,
        spec_get_user(spec_create_user(users, id, hash).0, id) == Some(hash),
{
}

/// Creating a user whose id is taken is refused and changes nothing.
pub proof fn law_user_create_existing_refused(users: Map<Seq<char>, Seq<char>>, id: Seq<char>, hash: Seq<char>)
    requires
        users.contains_key(id),
    ensures
        !spec_create_user(users, id, hash).1,
        spec_create_user(users, id, hash).0 == users,
{
}

/// After a password change the user is found with the new hash; changing the
/// password of an unknown user is refused and changes nothing.
pub proof fn law_user_get_after_update(users: Map<Seq<char>, Seq<char>>, id: Seq<char>, hash: Seq<char>)
    ensures
        users.contains_key(id) ==> spec_update_password_hash(users, id, hash).1 && spec_get_user(
            spec_update_password_hash(users, id, hash).0,
            id,
        ) == Some(hash),
        !users.contains_key(id) ==> !spec_update_password_hash(users, id, hash).1
            && spec_update_password_hash(users, id, hash).0 == users,
{
}

/// A deleted user is no longer found, and deleting it again is refused.
pub proof fn law_user_get_after_delete(users: Map<Seq<char>, Seq<char>>, id: Seq<char>)
    ensures
        spec_get_user(spec_delete_user(users, id).0, id) is None,
        !spec_delete_user(spec_delete_user(users, id).0, id).1,
        spec_delete_user(users, id).1 <==> users.contains_key(id),
{
}

/// Once a user is created, creating another user with the same id is
/// refused and the stored user keeps its hash.
pub proof fn law_user_create_twice(users: Map<Seq<char>, Seq<char>>, id: Seq<char>, h1: Seq<char>, h2: Seq<char>)
    requires
        !users.contains_key(id),
    ensures
        ({
            let m1 = spec_create_user(users, id, h1).0;
            &&& !spec_create_user(m1, id, h2).1
            &&& spec_create_user(m1, id, h2).0 == m1
            &&& spec_get_user(spec_create_user(m1, id, h2).0, id) == Some(h1)
        }),
{
}

/// Creating, changing or deleting one user leaves every other user as it was.
pub proof fn law_user_others_unchanged(
    users: Map<Seq<char>, Seq<char>>,
    id: Seq<char>,
    other: Seq<char>,
    hash: Seq<char>,
)
    requires
        id != other,
    ensures
        spec_get_user(spec_create_user(users, id, hash).0, other) == spec_get_user(users, other),
        spec_get_user(spec_update_password_hash(users, id, hash).0, other) == spec_get_user(users, other),
        spec_get_user(spec_delete_user(users, id).0, other) == spec_get_user(users, other),
{
}

/// Users and their password hashes, kept in memory.
pub struct MemUserRepo {
    entries: Vec<(String, String)>,
}

impl View for MemUserRepo {
    type V = Map<Seq<char>, Seq<char>>;

    closed spec fn view(&self) -> Map<Seq<char>, Seq<char>> {
        to_map(entries_view(self.entries@))
    }
}

impl MemUserRepo {
    #[verifier::type_invariant]
    closed spec fn inv(self) -> bool {
        keys_distinct(entries_view(self.entries@))
    }

    /// An empty store.
    pub fn new() -> (r: MemUserRepo)
        ensures
            r@ == Map::<Seq<char>, Seq<char>>::empty(),
    {
        let r = MemUserRepo { entries: Vec::new() };
        proof {
            lemma_to_map_empty(entries_view(r.entries@));
        }
        r
    }

    /// The position of the entry of `id`, if there is one.
    fn find(&self, id: &String) -> (r: Option<usize>)
        ensures
            r matches Some(i) ==> i < self.entries@.len() && self.entries@[i as int].0@ == id@,
            r is None ==> !has_key(entries_view(self.entries@), id@),
    {
        let mut i: usize = 0;
        while i < self.entries.len()
            invariant
                i <= self.entries@.len(),
                forall|j: int| 0 <= j < i ==> self.entries@[j].0@ != id@,
            decreases self.entries@.len() - i,
        {
            if self.entries[i].0 == *id {
                return Some(i);
            }
            i = i + 1;
        }
        proof {
            let ev = entries_view(self.entries@);
            assert forall|j: int| 0 <= j < ev.len() implies ev[j].0 != id@ by {
                assert(ev[j].0 == self.entries@[j].0@);
            }
        }
        None
    }
}

impl UserRepo for MemUserRepo {
    /// The user with the given id, or `UserNotFound` with that id.
    fn get_user(&self, user_id: &str) -> (r: Result<User, UserRepoError>)
        ensures
            spec_get_user(self@, user_id@) matches Some(h) ==> (r matches Ok(u) && u.id@ == user_id@
                && u.password_hash@ == h),
            spec_get_user(self@, user_id@) is None ==> (r matches Err(UserRepoError::UserNotFound(s))
                && s@ == user_id@),
    {
        proof {
            use_type_invariant(self);
        }
        let id = user_id.to_owned();
        match self.find(&id) {
            Some(i) => {
                proof {
                    lemma_to_map_at(entries_view(self.entries@), i as int);
                }
                let hash = self.entries[i].1.clone();
                Ok(User { id, password_hash: hash })
            },
            None => Err(UserRepoError::UserNotFound(id)),
        }
    }

    /// Adds the user unless its id is taken, which gives `UserAlreadyExists`.
    fn create_user(&mut self, user: User) -> (r: Result<(), UserRepoError>)
        ensures
            final(self)@ == spec_create_user(old(self)@, user.id@, user.password_hash@).0,
            r is Ok <==> spec_create_user(old(self)@, user.id@, user.password_hash@).1,
            r is Err ==> (r matches Err(UserRepoError::UserAlreadyExists(s)) && s@ == user.id@),
    {
        proof {
            use_type_invariant(&*self);
        }
        match self.find(&user.id) {
            Some(i) => {
                proof {
                    lemma_to_map_at(entries_view(self.entries@), i as int);
                }
                Err(UserRepoError::UserAlreadyExists(user.id))
            },
            None => {
                let ghost old_entries = self.entries@;
                proof {
                    lemma_to_map_push(entries_view(old_entries), user.id@, user.password_hash@);
                    assert(entries_view(old_entries.push((user.id, user.password_hash))) =~= entries_view(
                        old_entries,
                    ).push((user.id@, user.password_hash@)));
                }
                let mut entries = Vec::new();
                std::mem::swap(&mut entries, &mut self.entries);
                entries.push((user.id, user.password_hash));
                self.entries = entries;
                Ok(())
            },
        }
    }

    /// Replaces the user's password hash, or gives `UserNotFound`.
    fn update_password_hash(&mut self, user_id: &str, password_hash: &str) -> (r: Result<(), UserRepoError>)
        ensures
            final(self)@ == spec_update_password_hash(old(self)@, user_id@, password_hash@).0,
            r is Ok <==> spec_update_password_hash(old(self)@, user_id@, password_hash@).1,
            r is Err ==> (r matches Err(UserRepoError::UserNotFound(s)) && s@ == user_id@),
    {
        proof {
            use_type_invariant(&*self);
        }
        let id = user_id.to_owned();
        match self.find(&id) {
            Some(i) => {
                let ghost old_entries = self.entries@;
                let hash = password_hash.to_owned();
                proof {
                    lemma_to_map_at(entries_view(old_entries), i as int);
                    lemma_to_map_update(entries_view(old_entries), i as int, hash@);
                    assert(entries_view(old_entries.update(i as int, (id, hash))) =~= entries_view(
                        old_entries,
                    ).update(i as int, (entries_view(old_entries)[i as int].0, hash@)));
                }
                let mut entries = Vec::new();
                std::mem::swap(&mut entries, &mut self.entries);
                entries.set(i, (id, hash));
                self.entries = entries;
                Ok(())
            },
            None => Err(UserRepoError::UserNotFound(id)),
        }
    }

    /// Removes the user, or gives `UserNotFound`.
    fn delete_user(&mut self, user_id: &str) -> (r: Result<(), UserRepoError>)
        ensures
            final(self)@ == spec_delete_user(old(self)@, user_id@).0,
            r is Ok <==> spec_delete_user(old(self)@, user_id@).1,
            r is Err ==> (r matches Err(UserRepoError::UserNotFound(s)) && s@ == user_id@),
    {
        proof {
            use_type_invariant(&*self);
        }
        let id = user_id.to_owned();
        match self.find(&id) {
            Some(i) => {
                let ghost old_entries = self.entries@;
                proof {
                    lemma_to_map_at(entries_view(old_entries), i as int);
                    lemma_to_map_remove(entries_view(old_entries), i as int);
                    assert(entries_view(old_entries.remove(i as int)) =~= entries_view(old_entries).remove(
                        i as int,
                    ));
                }
                let mut entries = Vec::new();
                std::mem::swap(&mut entries, &mut self.entries);
                entries.remove(i);
                self.entries = entries;
                Ok(())
            },
            None => Err(UserRepoError::UserNotFound(id)),
        }
    }
}

} // verus!
