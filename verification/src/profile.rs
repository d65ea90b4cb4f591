//! Profiles and the interest index: the provider-keyed user upsert,
//! partial profile updates, and the normalization of free-text
//! interest tags to stable ids.

use vstd::prelude::*;

use crate::error::AppError;
use crate::models::{clone_opt_string, response_of, Interest, User, UserInterest, UserResponse};
use crate::store::{
    has_interest_named, has_user, has_user_interest, interest_index_named, is_assoc_row, user_index,
    user_rec, Store, UserRecord, MAX_ASSOCIATIONS,
};
use crate::text::lex_lt;

verus! {

/// Does a user row with this provider id exist?
pub open spec fn has_user_oid(s: Store, oid: Seq<char>) -> bool {
    exists|k: int| 0 <= k < s.users@.len() && #[trigger] s.users@[k].user.oid@ == oid
}

/// The index of the user row with this provider id (meaningful when
/// `has_user_oid`).
pub open spec fn user_oid_index(s: Store, oid: Seq<char>) -> int {
    choose|k: int| 0 <= k < s.users@.len() && #[trigger] s.users@[k].user.oid@ == oid
}

/// The stable id of the interest with this name (meaningful when
/// `has_interest_named`).
pub open spec fn interest_id_of_name(s: Store, name: Seq<char>) -> int {
    s.interests@[interest_index_named(s, name)].id as int
}

/// Is `it` one of the store's interest rows?
pub open spec fn stored_interest(s: Store, it: Interest) -> bool {
    exists|k: int| 0 <= k < s.interests@.len() && it == #[trigger] s.interests@[k]
}

/// Does this interest carry one of the given names?
pub open spec fn named_among(it: Interest, names: Seq<String>) -> bool {
    exists|j: int| 0 <= j < names.len() && it.name@ == #[trigger] names[j]@
}

/// Does user `u` carry an interest with this name?
pub open spec fn user_has_interest_named(s: Store, u: int, name: Seq<char>) -> bool {
    exists|k: int|
        0 <= k < s.interests@.len() && (#[trigger] s.interests@[k]).name@ == name
            && has_user_interest(s, u, s.interests@[k].id as int)
}

/// Does this name appear in the list?
pub open spec fn name_listed(out: Seq<String>, name: Seq<char>) -> bool {
    exists|i: int| 0 <= i < out.len() && (#[trigger] out[i])@ == name
}

/// Insert one name into an already strictly sorted run, keeping it
/// strictly sorted. Requires the name to be fresh, so the order stays
/// strict.
fn insert_by_name(sorted: &mut Vec<String>, x: String)
    requires
        forall|p: int, q: int|
            #![trigger old(sorted)@[p], old(sorted)@[q]]
            0 <= p < q < old(sorted)@.len() ==> lex_lt(old(sorted)@[p]@, old(sorted)@[q]@),
        forall|p: int| 0 <= p < old(sorted)@.len() ==> (#[trigger] old(sorted)@[p])@ != x@,
    ensures
        final(sorted)@.len() == old(sorted)@.len() + 1,
        forall|p: int, q: int|
            #![trigger final(sorted)@[p], final(sorted)@[q]]
            0 <= p < q < final(sorted)@.len() ==> lex_lt(final(sorted)@[p]@, final(sorted)@[q]@),
        final(sorted)@.to_multiset() == old(sorted)@.to_multiset().insert(x),
{
    let n = sorted.len();
    let mut pos: usize = 0;
    while pos < n && crate::text::name_lt(sorted[pos].as_str(), x.as_str())
        invariant
            *sorted == *old(sorted),
            n == sorted@.len(),
            pos <= n,
            forall|q: int| 0 <= q < pos ==> lex_lt((#[trigger] sorted@[q])@, x@),
        decreases n - pos,
    {
        pos += 1;
    }
    let ghost before = sorted@;
    sorted.insert(pos, x);
    proof {
        before.insert_ensures(pos as int, x);
        let new_len = sorted@.len() as int;
        assert forall|p: int, q: int|
            #![trigger sorted@[p], sorted@[q]]
            0 <= p < q < new_len implies lex_lt(sorted@[p]@, sorted@[q]@) by {
            if q < pos {
                assert(sorted@[p] == before[p] && sorted@[q] == before[q]);
            } else if q == pos {
                assert(sorted@[p] == before[p] && sorted@[q] == x);
            } else if p == pos {
                assert(sorted@[p] == x && sorted@[q] == before[q - 1]);
                assert((pos as int) < before.len());
                assert(!lex_lt(before[pos as int]@, x@));
                assert(before[pos as int]@ != x@);
                crate::text::lemma_lex_total(x@, before[pos as int]@);
                assert(lex_lt(x@, before[pos as int]@));
                if q - 1 > pos {
                    assert(lex_lt(before[pos as int]@, before[q - 1]@));
                    crate::text::lemma_lex_trans(x@, before[pos as int]@, before[q - 1]@);
                }
            } else if p < pos {
                assert(sorted@[p] == before[p] && sorted@[q] == before[q - 1]);
                assert(p < q - 1);
            } else {
                assert(sorted@[p] == before[p - 1] && sorted@[q] == before[q - 1]);
            }
        }
        vstd::seq_lib::to_multiset_insert(before, pos as int, x);
    }
}

/// How one `upsert_user_by_oid` call relates the store before and
/// after: keyed by the provider id, the identity fields and tokens are
/// replaced, while the row's id, creation time and profile attributes
/// survive; an unknown provider id creates a fresh row.
pub open spec fn user_oid_upserted(
    pre: Store,
    post: Store,
    oid: Seq<char>,
    email: Option<String>,
    display_name: Option<String>,
    tenant_id: Option<String>,
    access_token: Option<String>,
    refresh_token: Option<String>,
    id_token: Option<String>,
    now: Seq<char>,
    r: Result<User, AppError>,
) -> bool {
    &&& post.interests == pre.interests
    &&& post.user_interests == pre.user_interests
    &&& post.likes == pre.likes
    &&& post.matches == pre.matches
    &&& post.messages == pre.messages
    &&& post.next_interest_id == pre.next_interest_id
    &&& post.next_match_id == pre.next_match_id
    &&& post.next_message_id == pre.next_message_id
    &&& if has_user_oid(pre, oid) {
        let k = user_oid_index(pre, oid);
        let old_u = pre.users@[k].user;
        let new_u = post.users@[k].user;
        &&& post.next_user_id == pre.next_user_id
        &&& post.users@.len() == pre.users@.len()
        &&& (forall|j: int|
            0 <= j < pre.users@.len() && j != k ==> #[trigger] post.users@[j] == pre.users@[j])
        &&& post.users@[k].bio == pre.users@[k].bio
        &&& post.users@[k].image_key == pre.users@[k].image_key
        &&& new_u.id == old_u.id
        &&& new_u.oid == old_u.oid
        &&& new_u.email == email
        &&& new_u.display_name == display_name
        &&& new_u.tenant_id == tenant_id
        &&& new_u.access_token == access_token
        &&& new_u.refresh_token == refresh_token
        &&& new_u.id_token == id_token
        &&& new_u.full_name == old_u.full_name
        &&& new_u.age == old_u.age
        &&& new_u.is_rso == old_u.is_rso
        &&& new_u.major == old_u.major
        &&& new_u.created_at == old_u.created_at
        &&& new_u.updated_at@ == now
        &&& r == Ok::<User, AppError>(new_u)
    } else if pre.next_user_id == i64::MAX {
        post == pre && r is Err && r->Err_0 is Internal
    } else {
        let new_u = post.users@.last().user;
        &&& post.next_user_id == pre.next_user_id + 1
        &&& post.users@.len() == pre.users@.len() + 1
        &&& (forall|j: int|
            0 <= j < pre.users@.len() ==> #[trigger] post.users@[j] == pre.users@[j])
        &&& post.users@.last().bio is None
        &&& post.users@.last().image_key is None
        &&& new_u.id == pre.next_user_id
        &&& new_u.oid@ == oid
        &&& new_u.email == email
        &&& new_u.display_name == display_name
        &&& new_u.tenant_id == tenant_id
        &&& new_u.access_token == access_token
        &&& new_u.refresh_token == refresh_token
        &&& new_u.id_token == id_token
        &&& new_u.full_name is None
        &&& new_u.age is None
        &&& !new_u.is_rso
        &&& new_u.major is None
        &&& new_u.created_at@ == now
        &&& new_u.updated_at@ == now
        &&& r == Ok::<User, AppError>(new_u)
    }
}

/// How one `apply_profile_update` call relates the store before and
/// after: every supplied field replaces the stored one, every omitted
/// field keeps its value, and nothing else moves.
pub open spec fn profile_updated(
    pre: Store,
    post: Store,
    user_id: int,
    bio: Option<String>,
    image_key: Option<String>,
    major: Option<String>,
    age: Option<i64>,
    now: Seq<char>,
    r: Result<(), AppError>,
) -> bool {
    if !has_user(pre, user_id) {
        post == pre && r is Err && r->Err_0 is Db
    } else {
        let k = user_index(pre, user_id);
        let old_rec = pre.users@[k];
        let new_rec = post.users@[k];
        &&& post.interests == pre.interests
        &&& post.user_interests == pre.user_interests
        &&& post.likes == pre.likes
        &&& post.matches == pre.matches
        &&& post.messages == pre.messages
        &&& post.next_user_id == pre.next_user_id
        &&& post.next_interest_id == pre.next_interest_id
        &&& post.next_match_id == pre.next_match_id
        &&& post.next_message_id == pre.next_message_id
        &&& post.users@.len() == pre.users@.len()
        &&& (forall|j: int|
            0 <= j < pre.users@.len() && j != k ==> #[trigger] post.users@[j] == pre.users@[j])
        &&& new_rec.bio == (if bio is Some {
            bio
        } else {
            old_rec.bio
        })
        &&& new_rec.image_key == (if image_key is Some {
            image_key
        } else {
            old_rec.image_key
        })
        &&& new_rec.user.major == (if major is Some {
            major
        } else {
            old_rec.user.major
        })
        &&& new_rec.user.age == (if age is Some {
            age
        } else {
            old_rec.user.age
        })
        &&& new_rec.user.updated_at@ == now
        &&& new_rec.user.id == old_rec.user.id
        &&& new_rec.user.oid == old_rec.user.oid
        &&& new_rec.user.email == old_rec.user.email
        &&& new_rec.user.display_name == old_rec.user.display_name
        &&& new_rec.user.tenant_id == old_rec.user.tenant_id
        &&& new_rec.user.access_token == old_rec.user.access_token
        &&& new_rec.user.refresh_token == old_rec.user.refresh_token
        &&& new_rec.user.id_token == old_rec.user.id_token
        &&& new_rec.user.full_name == old_rec.user.full_name
        &&& new_rec.user.is_rso == old_rec.user.is_rso
        &&& new_rec.user.created_at == old_rec.user.created_at
        &&& r == Ok::<(), AppError>(())
    }
}

/// How one `ensure_interest` call relates the store before and after:
/// the first use of a name creates the row, every later use returns
/// the same id — names are deduplicated forever.
pub open spec fn interest_ensured(
    pre: Store,
    post: Store,
    name: Seq<char>,
    r: Result<i64, AppError>,
) -> bool {
    if has_interest_named(pre, name) {
        post == pre && r == Ok::<i64, AppError>(
            pre.interests@[interest_index_named(pre, name)].id,
        )
    } else if pre.next_interest_id == i64::MAX {
        post == pre && r is Err && r->Err_0 is Internal
    } else {
        &&& post.users == pre.users
        &&& post.user_interests == pre.user_interests
        &&& post.likes == pre.likes
        &&& post.matches == pre.matches
        &&& post.messages == pre.messages
        &&& post.next_user_id == pre.next_user_id
        &&& post.next_match_id == pre.next_match_id
        &&& post.next_message_id == pre.next_message_id
        &&& post.next_interest_id == pre.next_interest_id + 1
        &&& post.interests@.len() == pre.interests@.len() + 1
        &&& (forall|j: int|
            0 <= j < pre.interests@.len() ==> #[trigger] post.interests@[j] == pre.interests@[j])
        &&& post.interests@.last().id == pre.next_interest_id
        &&& post.interests@.last().name@ == name
        &&& r == Ok::<i64, AppError>(pre.next_interest_id)
    }
}

impl Store {
    /// Two user rows with the same provider id sit at the same index.
    pub proof fn lemma_user_oid_index_agrees(self, k: int, oid: Seq<char>)
        requires
            self.users_wf(),
            0 <= k < self.users@.len(),
            self.users@[k].user.oid@ == oid,
        ensures
            has_user_oid(self, oid),
            user_oid_index(self, oid) == k,
    {
        assert(has_user_oid(self, oid));
        let k2 = user_oid_index(self, oid);
        if k2 != k {
            if k < k2 {
                assert(self.users@[k].user.oid@ != self.users@[k2].user.oid@);
            } else {
                assert(self.users@[k2].user.oid@ != self.users@[k].user.oid@);
            }
        }
    }

    /// Two interest rows with the same name sit at the same index.
    pub proof fn lemma_interest_name_index_agrees(self, k: int, name: Seq<char>)
        requires
            self.interests_wf(),
            0 <= k < self.interests@.len(),
            self.interests@[k].name@ == name,
        ensures
            has_interest_named(self, name),
            interest_index_named(self, name) == k,
    {
        assert(has_interest_named(self, name));
        let k2 = interest_index_named(self, name);
        if k2 != k {
            if k < k2 {
                assert(self.interests@[k].name@ != self.interests@[k2].name@);
            } else {
                assert(self.interests@[k2].name@ != self.interests@[k].name@);
            }
        }
    }

    /// The position of the user row with this provider id, if any.
    fn find_user_by_oid(&self, oid: &str) -> (r: Option<usize>)
        ensures
            match r {
                Some(k) => k < self.users@.len() && self.users@[k as int].user.oid@ == oid@,
                None => !has_user_oid(*self, oid@),
            },
    {
        let needle = oid.to_owned();
        let n = self.users.len();
        let mut k: usize = 0;
        while k < n
            invariant
                needle@ == oid@,
                n == self.users@.len(),
                k <= n,
                forall|j: int| 0 <= j < k ==> #[trigger] self.users@[j].user.oid@ != oid@,
            decreases n - k,
        {
            if self.users[k].user.oid.eq(&needle) {
                return Some(k);
            }
            k += 1;
        }
        None
    }

    /// Upsert a user row keyed by the identity provider's stable id,
    /// as the login flow records a fresh token exchange.
    pub fn upsert_user_by_oid(
        &mut self,
        oid: &str,
        email: Option<String>,
        display_name: Option<String>,
        tenant_id: Option<String>,
        access_token: Option<String>,
        refresh_token: Option<String>,
        id_token: Option<String>,
        now: &str,
    ) -> (r: Result<User, AppError>)
        requires
            old(self).wf(),
        ensures
            final(self).wf(),
            user_oid_upserted(
                *old(self),
                *final(self),
                oid@,
                email,
                display_name,
                tenant_id,
                access_token,
                refresh_token,
                id_token,
                now@,
                r,
            ),
            has_user_oid(*old(self), oid@) || old(self).next_user_id < i64::MAX ==> r is Ok,
    {
        match self.find_user_by_oid(oid) {
            Some(k) => {
                proof {
                    self.lemma_user_oid_index_agrees(k as int, oid@);
                }
                let old_rec = &self.users[k];
                let user = User {
                    id: old_rec.user.id,
                    oid: old_rec.user.oid.clone(),
                    email,
                    display_name,
                    tenant_id,
                    access_token,
                    refresh_token,
                    id_token,
                    full_name: clone_opt_string(&old_rec.user.full_name),
                    age: old_rec.user.age,
                    is_rso: old_rec.user.is_rso,
                    major: clone_opt_string(&old_rec.user.major),
                    created_at: old_rec.user.created_at.clone(),
                    updated_at: now.to_owned(),
                };
                let rec = UserRecord {
                    user,
                    bio: clone_opt_string(&old_rec.bio),
                    image_key: clone_opt_string(&old_rec.image_key),
                };
                let ret = rec.user.duplicate();
                self.users.set(k, rec);
                proof {
                    let pre = *old(self);
                    assert forall|i: int, j: int|
                        #![trigger self.users@[i], self.users@[j]]
                        0 <= i < j < self.users@.len() implies self.users@[i].user.id
                        != self.users@[j].user.id && self.users@[i].user.oid@
                        != self.users@[j].user.oid@ by {
                        assert(pre.users@[i].user.id != pre.users@[j].user.id);
                        assert(pre.users@[i].user.oid@ != pre.users@[j].user.oid@);
                        if i != k as int {
                            assert(self.users@[i] == pre.users@[i]);
                        }
                        if j != k as int {
                            assert(self.users@[j] == pre.users@[j]);
                        }
                    }
                }
                Ok(ret)
            },
            None => {
                if self.next_user_id == i64::MAX {
                    return Err(AppError::Internal("user id space exhausted".to_owned()));
                }
                let user = User {
                    id: self.next_user_id,
                    oid: oid.to_owned(),
                    email,
                    display_name,
                    tenant_id,
                    access_token,
                    refresh_token,
                    id_token,
                    full_name: None,
                    age: None,
                    is_rso: false,
                    major: None,
                    created_at: now.to_owned(),
                    updated_at: now.to_owned(),
                };
                let ret = user.duplicate();
                self.users.push(UserRecord { user, bio: None, image_key: None });
                self.next_user_id = self.next_user_id + 1;
                proof {
                    let pre = *old(self);
                    let new_len = self.users@.len() as int;
                    assert forall|i: int, j: int|
                        #![trigger self.users@[i], self.users@[j]]
                        0 <= i < j < new_len implies self.users@[i].user.id
                        != self.users@[j].user.id && self.users@[i].user.oid@
                        != self.users@[j].user.oid@ by {
                        if j == new_len - 1 {
                            assert(self.users@[i] == pre.users@[i]);
                            assert(pre.users@[i].user.oid@ != oid@);
                        } else {
                            assert(self.users@[i] == pre.users@[i]);
                            assert(self.users@[j] == pre.users@[j]);
                        }
                    }
                }
                Ok(ret)
            },
        }
    }

    /// Update the supplied profile fields of one user, leaving every
    /// omitted field — and everything else in the store — unchanged.
    pub fn apply_profile_update(
        &mut self,
        user_id: i64,
        bio: Option<String>,
        image_key: Option<String>,
        major: Option<String>,
        age: Option<i64>,
        now: &str,
    ) -> (r: Result<(), AppError>)
        requires
            old(self).wf(),
        ensures
            final(self).wf(),
            profile_updated(
                *old(self),
                *final(self),
                user_id as int,
                bio,
                image_key,
                major,
                age,
                now@,
                r,
            ),
            has_user(*old(self), user_id as int) <==> r is Ok,
    {
        let k = match self.find_user(user_id) {
            Some(k) => k,
            None => {
                return Err(AppError::Db("user does not exist".to_owned()));
            },
        };
        proof {
            self.lemma_user_index_agrees(k as int, user_id as int);
        }
        let old_rec = &self.users[k];
        let user = User {
            id: old_rec.user.id,
            oid: old_rec.user.oid.clone(),
            email: clone_opt_string(&old_rec.user.email),
            display_name: clone_opt_string(&old_rec.user.display_name),
            tenant_id: clone_opt_string(&old_rec.user.tenant_id),
            access_token: clone_opt_string(&old_rec.user.access_token),
            refresh_token: clone_opt_string(&old_rec.user.refresh_token),
            id_token: clone_opt_string(&old_rec.user.id_token),
            full_name: clone_opt_string(&old_rec.user.full_name),
            age: match age {
                Some(a) => Some(a),
                None => old_rec.user.age,
            },
            is_rso: old_rec.user.is_rso,
            major: match major {
                Some(m) => Some(m),
                None => clone_opt_string(&old_rec.user.major),
            },
            created_at: old_rec.user.created_at.clone(),
            updated_at: now.to_owned(),
        };
        let rec = UserRecord {
            user,
            bio: match bio {
                Some(b) => Some(b),
                None => clone_opt_string(&old_rec.bio),
            },
            image_key: match image_key {
                Some(key) => Some(key),
                None => clone_opt_string(&old_rec.image_key),
            },
        };
        self.users.set(k, rec);
        proof {
            let pre = *old(self);
            assert forall|i: int, j: int|
                #![trigger self.users@[i], self.users@[j]]
                0 <= i < j < self.users@.len() implies self.users@[i].user.id
                != self.users@[j].user.id && self.users@[i].user.oid@
                != self.users@[j].user.oid@ by {
                assert(pre.users@[i].user.id != pre.users@[j].user.id);
                assert(pre.users@[i].user.oid@ != pre.users@[j].user.oid@);
                if i != k as int {
                    assert(self.users@[i] == pre.users@[i]);
                }
                if j != k as int {
                    assert(self.users@[j] == pre.users@[j]);
                }
            }
        }
        Ok(())
    }

    /// The position of the interest row with this name, if any.
    fn find_interest_by_name(&self, name: &str) -> (r: Option<usize>)
        ensures
            match r {
                Some(k) => k < self.interests@.len() && self.interests@[k as int].name@ == name@,
                None => !has_interest_named(*self, name@),
            },
    {
        let needle = name.to_owned();
        let n = self.interests.len();
        let mut k: usize = 0;
        while k < n
            invariant
                needle@ == name@,
                n == self.interests@.len(),
                k <= n,
                forall|j: int| 0 <= j < k ==> #[trigger] self.interests@[j].name@ != name@,
            decreases n - k,
        {
            if self.interests[k].name.eq(&needle) {
                return Some(k);
            }
            k += 1;
        }
        None
    }

    /// Normalize one free-text tag to its stable id, creating the
    /// interest on first use. Interests are shared and never deleted.
    pub fn ensure_interest(&mut self, name: &str) -> (r: Result<i64, AppError>)
        requires
            old(self).wf(),
        ensures
            final(self).wf(),
            interest_ensured(*old(self), *final(self), name@, r),
            has_interest_named(*old(self), name@) || old(self).next_interest_id < i64::MAX
                ==> r is Ok,
    {
        match self.find_interest_by_name(name) {
            Some(k) => {
                proof {
                    self.lemma_interest_name_index_agrees(k as int, name@);
                }
                Ok(self.interests[k].id)
            },
            None => {
                if self.next_interest_id == i64::MAX {
                    return Err(AppError::Internal("interest id space exhausted".to_owned()));
                }
                let id = self.next_interest_id;
                self.interests.push(Interest { id, name: name.to_owned() });
                self.next_interest_id = self.next_interest_id + 1;
                proof {
                    let pre = *old(self);
                    let new_len = self.interests@.len() as int;
                    assert forall|i: int, j: int|
                        #![trigger self.interests@[i], self.interests@[j]]
                        0 <= i < j < new_len implies self.interests@[i].id < self.interests@[j].id
                        && self.interests@[i].name@ != self.interests@[j].name@ by {
                        if j == new_len - 1 {
                            assert(self.interests@[i] == pre.interests@[i]);
                            assert(pre.interests@[i].name@ != name@);
                        } else {
                            assert(self.interests@[i] == pre.interests@[i]);
                            assert(self.interests@[j] == pre.interests@[j]);
                        }
                    }
                }
                Ok(id)
            },
        }
    }

    /// Associate `u` with interest `iid` if the pair is not already
    /// recorded: at most one row per pair ever exists.
    fn add_user_interest(&mut self, u: i64, iid: i64) -> (r: Result<(), AppError>)
        requires
            old(self).wf(),
        ensures
            final(self).wf(),
            r is Err ==> *final(self) == *old(self) && r->Err_0 is Internal && old(
                self,
            ).user_interests@.len() == MAX_ASSOCIATIONS && !has_user_interest(
                *old(self),
                u as int,
                iid as int,
            ),
            r is Ok ==> {
                &&& final(self).users == old(self).users
                &&& final(self).interests == old(self).interests
                &&& final(self).likes == old(self).likes
                &&& final(self).matches == old(self).matches
                &&& final(self).messages == old(self).messages
                &&& final(self).next_user_id == old(self).next_user_id
                &&& final(self).next_interest_id == old(self).next_interest_id
                &&& final(self).next_match_id == old(self).next_match_id
                &&& final(self).next_message_id == old(self).next_message_id
                &&& final(self).user_interests@.len() <= old(self).user_interests@.len() + 1
                &&& (forall|u2: int, x: int|
                    #![trigger has_user_interest(*final(self), u2, x)]
                    has_user_interest(*final(self), u2, x) == (has_user_interest(*old(self), u2, x)
                        || (u2 == u as int && x == iid as int)))
            },
    {
        if self.has_interest_pair(u, iid) {
            proof {
                assert forall|u2: int, x: int|
                    #![trigger has_user_interest(*self, u2, x)]
                    has_user_interest(*self, u2, x) == (has_user_interest(*old(self), u2, x) || (u2
                        == u as int && x == iid as int)) by {}
            }
            return Ok(());
        }
        if self.user_interests.len() == MAX_ASSOCIATIONS {
            return Err(AppError::Internal("interest association table is full".to_owned()));
        }
        self.user_interests.push(UserInterest { user_id: u, interest_id: iid });
        proof {
            let pre = *old(self);
            let new_len = self.user_interests@.len() as int;
            assert forall|i: int, j: int|
                #![trigger self.user_interests@[i], self.user_interests@[j]]
                0 <= i < j < new_len implies !(self.user_interests@[i].user_id
                == self.user_interests@[j].user_id && self.user_interests@[i].interest_id
                == self.user_interests@[j].interest_id) by {
                if j == new_len - 1 {
                    assert(self.user_interests@[i] == pre.user_interests@[i]);
                    assert(!is_assoc_row(pre.user_interests@[i], u as int, iid as int));
                } else {
                    assert(self.user_interests@[i] == pre.user_interests@[i]);
                    assert(self.user_interests@[j] == pre.user_interests@[j]);
                }
            }
            assert forall|u2: int, x: int|
                #![trigger has_user_interest(*self, u2, x)]
                has_user_interest(*self, u2, x) == (has_user_interest(pre, u2, x) || (u2
                    == u as int && x == iid as int)) by {
                assert(is_assoc_row(self.user_interests@[new_len - 1], u as int, iid as int));
                if has_user_interest(*self, u2, x) {
                    let k = choose|k: int|
                        0 <= k < new_len && #[trigger] is_assoc_row(
                            self.user_interests@[k],
                            u2,
                            x,
                        );
                    if k < new_len - 1 {
                        assert(is_assoc_row(pre.user_interests@[k], u2, x));
                    }
                }
                if has_user_interest(pre, u2, x) {
                    let k = choose|k: int|
                        0 <= k < pre.user_interests@.len() && #[trigger] is_assoc_row(
                            pre.user_interests@[k],
                            u2,
                            x,
                        );
                    assert(is_assoc_row(self.user_interests@[k], u2, x));
                }
            }
        }
        Ok(())
    }

    /// Drop every interest association of `u`, touching nobody else's.
    fn remove_user_interests(&mut self, u: i64)
        requires
            old(self).wf(),
        ensures
            final(self).wf(),
            final(self).users == old(self).users,
            final(self).interests == old(self).interests,
            final(self).likes == old(self).likes,
            final(self).matches == old(self).matches,
            final(self).messages == old(self).messages,
            final(self).next_user_id == old(self).next_user_id,
            final(self).next_interest_id == old(self).next_interest_id,
            final(self).next_match_id == old(self).next_match_id,
            final(self).next_message_id == old(self).next_message_id,
            final(self).user_interests@.len() <= old(self).user_interests@.len(),
            forall|x: int| !has_user_interest(*final(self), u as int, x),
            forall|u2: int, x: int|
                #![trigger has_user_interest(*final(self), u2, x)]
                u2 != u as int ==> has_user_interest(*final(self), u2, x) == has_user_interest(
                    *old(self),
                    u2,
                    x,
                ),
    {
        let rows = &self.user_interests;
        let n = rows.len();
        let mut kept: Vec<UserInterest> = Vec::new();
        let ghost mut src: Seq<int> = Seq::empty();
        let mut k: usize = 0;
        while k < n
            invariant
                n == rows@.len(),
                k <= n,
                kept@.len() <= k,
                src.len() == kept@.len(),
                forall|i: int| 0 <= i < src.len() ==> 0 <= #[trigger] src[i] < k,
                forall|i: int|
                    #![trigger kept@[i]]
                    0 <= i < kept@.len() ==> kept@[i] == rows@[src[i]] && kept@[i].user_id != u,
                forall|i: int, j: int|
                    #![trigger src[i], src[j]]
                    0 <= i < j < src.len() ==> src[i] < src[j],
                forall|k2: int|
                    0 <= k2 < k && #[trigger] rows@[k2].user_id != u ==> exists|i: int|
                        0 <= i < kept@.len() && #[trigger] kept@[i] == rows@[k2],
            decreases n - k,
        {
            let row = rows[k];
            if row.user_id != u {
                let ghost before = kept@;
                let ghost old_src = src;
                kept.push(row);
                proof {
                    src = src.push(k as int);
                    assert(kept@[kept@.len() - 1] == rows@[k as int]);
                    assert forall|i: int| 0 <= i < src.len() implies 0 <= #[trigger] src[i] < k
                        + 1 by {
                        if i < old_src.len() {
                            assert(src[i] == old_src[i] && 0 <= old_src[i] < k);
                        } else {
                            assert(src[i] == k as int);
                        }
                    }
                    assert forall|i: int, j: int|
                        #![trigger src[i], src[j]]
                        0 <= i < j < src.len() implies src[i] < src[j] by {
                        if j == src.len() - 1 {
                            assert(src[i] == old_src[i] && 0 <= old_src[i] < k);
                            assert(src[j] == k as int);
                        } else {
                            assert(src[i] == old_src[i] && src[j] == old_src[j]);
                        }
                    }
                    assert forall|k2: int|
                        0 <= k2 < k + 1 && #[trigger] rows@[k2].user_id != u implies exists|i: int|
                        0 <= i < kept@.len() && #[trigger] kept@[i] == rows@[k2] by {
                        if k2 < k {
                            let i = choose|i: int|
                                0 <= i < before.len() && #[trigger] before[i] == rows@[k2];
                            assert(kept@[i] == rows@[k2]);
                        } else {
                            assert(kept@[kept@.len() - 1] == rows@[k2]);
                        }
                    }
                }
            }
            k += 1;
        }
        let ghost old_rows = self.user_interests@;
        self.user_interests = kept;
        proof {
            let pre = *old(self);
            assert forall|i: int, j: int|
                #![trigger self.user_interests@[i], self.user_interests@[j]]
                0 <= i < j < self.user_interests@.len() implies !(self.user_interests@[i].user_id
                == self.user_interests@[j].user_id && self.user_interests@[i].interest_id
                == self.user_interests@[j].interest_id) by {
                assert(src[i] < src[j]);
                assert(self.user_interests@[i] == old_rows[src[i]]);
                assert(self.user_interests@[j] == old_rows[src[j]]);
                assert(!(old_rows[src[i]].user_id == old_rows[src[j]].user_id
                    && old_rows[src[i]].interest_id == old_rows[src[j]].interest_id));
            }
            assert forall|x: int| !has_user_interest(*self, u as int, x) by {
                if has_user_interest(*self, u as int, x) {
                    let k2 = choose|k2: int|
                        0 <= k2 < self.user_interests@.len() && #[trigger] is_assoc_row(
                            self.user_interests@[k2],
                            u as int,
                            x,
                        );
                    assert(self.user_interests@[k2].user_id != u);
                    assert(false);
                }
            }
            assert forall|u2: int, x: int|
                #![trigger has_user_interest(*self, u2, x)]
                u2 != u as int implies has_user_interest(*self, u2, x) == has_user_interest(
                pre,
                u2,
                x,
            ) by {
                if has_user_interest(*self, u2, x) {
                    let k2 = choose|k2: int|
                        0 <= k2 < self.user_interests@.len() && #[trigger] is_assoc_row(
                            self.user_interests@[k2],
                            u2,
                            x,
                        );
                    assert(self.user_interests@[k2] == old_rows[src[k2]]);
                    assert(is_assoc_row(old_rows[src[k2]], u2, x));
                    assert(has_user_interest(pre, u2, x));
                }
                if has_user_interest(pre, u2, x) {
                    let k2 = choose|k2: int|
                        0 <= k2 < old_rows.len() && #[trigger] is_assoc_row(old_rows[k2], u2, x);
                    assert(old_rows[k2].user_id != u);
                    let i = choose|i: int|
                        0 <= i < self.user_interests@.len() && #[trigger] self.user_interests@[i]
                            == old_rows[k2];
                    assert(is_assoc_row(self.user_interests@[i], u2, x));
                }
            }
        }
    }

    /// Looking a name up is stable while the interest table only
    /// grows: the row keeps its place and its id.
    pub proof fn lemma_interest_lookup_prefix_stable(pre: Store, post: Store, name: Seq<char>)
        requires
            post.interests_wf(),
            pre.interests@.is_prefix_of(post.interests@),
            has_interest_named(pre, name),
        ensures
            has_interest_named(post, name),
            interest_id_of_name(post, name) == interest_id_of_name(pre, name),
    {
        let k = interest_index_named(pre, name);
        assert(0 <= k < pre.interests@.len() && pre.interests@[k].name@ == name);
        assert(pre.interests@[k] == post.interests@.subrange(0, pre.interests@.len() as int)[k]);
        assert(post.interests@[k].name@ == name);
        post.lemma_interest_name_index_agrees(k, name);
    }

    /// Looking a name up depends on the interest table alone.
    pub proof fn lemma_interest_lookup_same_table(pre: Store, post: Store, name: Seq<char>)
        requires
            post.interests_wf(),
            post.interests == pre.interests,
            has_interest_named(pre, name),
        ensures
            has_interest_named(post, name),
            interest_id_of_name(post, name) == interest_id_of_name(pre, name),
    {
        let k = interest_index_named(pre, name);
        assert(0 <= k < pre.interests@.len() && pre.interests@[k].name@ == name);
        assert(post.interests@[k].name@ == name);
        post.lemma_interest_name_index_agrees(k, name);
    }

    /// Replace `u`'s interest set with exactly the named tags, creating
    /// any tag seen for the first time. Nobody else's associations
    /// move, and the interest table only ever grows.
    ///
    /// A failure can only be a capacity limit; the rewrite is not
    /// transactional, so a failed call may leave the tag set partially
    /// rewritten — exactly as wide as the storage layer's own
    /// guarantee for a sequence of single-row statements.
    pub fn replace_interests(&mut self, user_id: i64, names: &Vec<String>) -> (r: Result<
        (),
        AppError,
    >)
        requires
            old(self).wf(),
        ensures
            final(self).wf(),
            final(self).users == old(self).users,
            final(self).likes == old(self).likes,
            final(self).matches == old(self).matches,
            final(self).messages == old(self).messages,
            final(self).next_user_id == old(self).next_user_id,
            final(self).next_match_id == old(self).next_match_id,
            final(self).next_message_id == old(self).next_message_id,
            old(self).interests@.is_prefix_of(final(self).interests@),
            forall|k: int|
                old(self).interests@.len() <= k < final(self).interests@.len() ==> named_among(
                    #[trigger] final(self).interests@[k],
                    names@,
                ),
            forall|u2: int, x: int|
                #![trigger has_user_interest(*final(self), u2, x)]
                u2 != user_id as int ==> has_user_interest(*final(self), u2, x)
                    == has_user_interest(*old(self), u2, x),
            r is Ok ==> {
                &&& (forall|j: int|
                    0 <= j < names@.len() ==> has_interest_named(
                        *final(self),
                        #[trigger] names@[j]@,
                    ))
                &&& (forall|x: int|
                    #![trigger has_user_interest(*final(self), user_id as int, x)]
                    has_user_interest(*final(self), user_id as int, x) <==> (exists|j: int|
                        0 <= j < names@.len() && x == interest_id_of_name(
                            *final(self),
                            #[trigger] names@[j]@,
                        )))
            },
            r is Err ==> r->Err_0 is Internal,
            old(self).next_interest_id + names@.len() <= i64::MAX && old(
                self,
            ).user_interests@.len() + names@.len() <= MAX_ASSOCIATIONS ==> r is Ok,
    {
        let n = names.len();

        // First resolve every tag to its stable id, creating rows for
        // unseen names.
        let mut ids: Vec<i64> = Vec::new();
        let mut j: usize = 0;
        while j < n
            invariant
                self.wf(),
                n == names@.len(),
                j <= n,
                ids@.len() == j,
                old(self).interests@.is_prefix_of(self.interests@),
                self.users == old(self).users,
                self.user_interests == old(self).user_interests,
                self.likes == old(self).likes,
                self.matches == old(self).matches,
                self.messages == old(self).messages,
                self.next_user_id == old(self).next_user_id,
                self.next_match_id == old(self).next_match_id,
                self.next_message_id == old(self).next_message_id,
                old(self).next_interest_id <= self.next_interest_id <= old(self).next_interest_id
                    + j,
                forall|jj: int|
                    0 <= jj < j ==> has_interest_named(*self, #[trigger] names@[jj]@) && ids@[jj]
                        == interest_id_of_name(*self, names@[jj]@),
                forall|k: int|
                    old(self).interests@.len() <= k < self.interests@.len() ==> named_among(
                        #[trigger] self.interests@[k],
                        names@,
                    ),
            decreases n - j,
        {
            let ghost mid = *self;
            let id = match self.ensure_interest(names[j].as_str()) {
                Ok(id) => id,
                Err(e) => {
                    proof {
                        assert(mid.next_interest_id == i64::MAX);
                    }
                    return Err(e);
                },
            };
            ids.push(id);
            proof {
                assert(mid.interests@.is_prefix_of(self.interests@)) by {
                    if !has_interest_named(mid, names@[j as int]@) {
                        assert(mid.interests@ =~= self.interests@.subrange(
                            0,
                            mid.interests@.len() as int,
                        ));
                    }
                }
                assert(old(self).interests@.is_prefix_of(self.interests@)) by {
                    assert(old(self).interests@ =~= self.interests@.subrange(
                        0,
                        old(self).interests@.len() as int,
                    )) by {
                        assert forall|i: int|
                            0 <= i < old(self).interests@.len() implies old(self).interests@[i]
                            == self.interests@[i] by {
                            assert(old(self).interests@[i] == mid.interests@.subrange(
                                0,
                                old(self).interests@.len() as int,
                            )[i]);
                            assert(mid.interests@[i] == self.interests@.subrange(
                                0,
                                mid.interests@.len() as int,
                            )[i]);
                        }
                    }
                }
                assert forall|jj: int|
                    0 <= jj < j + 1 implies has_interest_named(*self, #[trigger] names@[jj]@)
                    && ids@[jj] == interest_id_of_name(*self, names@[jj]@) by {
                    if jj < j {
                        Store::lemma_interest_lookup_prefix_stable(mid, *self, names@[jj]@);
                    } else {
                        if has_interest_named(mid, names@[j as int]@) {
                            assert(*self == mid);
                            assert(id == mid.interests@[interest_index_named(
                                mid,
                                names@[j as int]@,
                            )].id);
                        } else {
                            let last = self.interests@.len() - 1;
                            assert(self.interests@[last].name@ == names@[j as int]@);
                            self.lemma_interest_name_index_agrees(last, names@[j as int]@);
                        }
                    }
                }
                assert forall|k: int|
                    old(self).interests@.len() <= k < self.interests@.len() implies named_among(
                    #[trigger] self.interests@[k],
                    names@,
                ) by {
                    if k < mid.interests@.len() {
                        assert(self.interests@[k] == mid.interests@.subrange(
                            0,
                            mid.interests@.len() as int,
                        )[k]);
                        assert(named_among(mid.interests@[k], names@));
                    } else {
                        assert((self.interests@[k]).name@ == names@[j as int]@);
                    }
                }
            }
            j += 1;
        }

        // Then rewrite the association rows for this user.
        let ghost before_remove = *self;
        self.remove_user_interests(user_id);
        let ghost resolved = *self;
        proof {
            assert(self.interests@ == before_remove.interests@);
            assert forall|k: int|
                old(self).interests@.len() <= k < self.interests@.len() implies named_among(
                #[trigger] self.interests@[k],
                names@,
            ) by {
                assert(self.interests@[k] == before_remove.interests@[k]);
                assert(named_among(before_remove.interests@[k], names@));
            }
        }
        let m = ids.len();
        let mut idx: usize = 0;
        while idx < m
            invariant
                self.wf(),
                m == ids@.len(),
                m == names@.len(),
                idx <= m,
                self.users == old(self).users,
                self.likes == old(self).likes,
                self.matches == old(self).matches,
                self.messages == old(self).messages,
                self.next_user_id == old(self).next_user_id,
                self.next_match_id == old(self).next_match_id,
                self.next_message_id == old(self).next_message_id,
                self.interests == resolved.interests,
                self.next_interest_id == resolved.next_interest_id,
                resolved.next_interest_id <= old(self).next_interest_id + m,
                old(self).interests@.is_prefix_of(self.interests@),
                forall|k: int|
                    old(self).interests@.len() <= k < self.interests@.len() ==> named_among(
                        #[trigger] self.interests@[k],
                        names@,
                    ),
                forall|jj: int|
                    0 <= jj < m ==> has_interest_named(*self, #[trigger] names@[jj]@) && ids@[jj]
                        == interest_id_of_name(*self, names@[jj]@),
                self.user_interests@.len() <= old(self).user_interests@.len() + idx,
                forall|x: int|
                    #![trigger has_user_interest(*self, user_id as int, x)]
                    has_user_interest(*self, user_id as int, x) <==> (exists|jj: int|
                        0 <= jj < idx && x == #[trigger] ids@[jj]),
                forall|u2: int, x: int|
                    #![trigger has_user_interest(*self, u2, x)]
                    u2 != user_id as int ==> has_user_interest(*self, u2, x) == has_user_interest(
                        *old(self),
                        u2,
                        x,
                    ),
            decreases m - idx,
        {
            let ghost mid2 = *self;
            match self.add_user_interest(user_id, ids[idx]) {
                Ok(()) => {},
                Err(e) => {
                    proof {
                        assert(mid2.user_interests@.len() == MAX_ASSOCIATIONS);
                    }
                    return Err(e);
                },
            }
            proof {
                assert(self.interests@ == mid2.interests@);
                assert forall|k: int|
                    old(self).interests@.len() <= k < self.interests@.len() implies named_among(
                    #[trigger] self.interests@[k],
                    names@,
                ) by {
                    assert(self.interests@[k] == mid2.interests@[k]);
                    assert(named_among(mid2.interests@[k], names@));
                }
                assert forall|jj: int|
                    0 <= jj < m implies has_interest_named(*self, #[trigger] names@[jj]@)
                    && ids@[jj] == interest_id_of_name(*self, names@[jj]@) by {
                    Store::lemma_interest_lookup_same_table(mid2, *self, names@[jj]@);
                }
                assert forall|x: int|
                    #![trigger has_user_interest(*self, user_id as int, x)]
                    has_user_interest(*self, user_id as int, x) <==> (exists|jj: int|
                        0 <= jj < idx + 1 && x == #[trigger] ids@[jj]) by {
                    if has_user_interest(*self, user_id as int, x) {
                        if x == ids@[idx as int] {
                            assert(0 <= idx < idx + 1 && x == ids@[idx as int]);
                        } else {
                            assert(has_user_interest(mid2, user_id as int, x));
                        }
                    }
                    if exists|jj: int| 0 <= jj < idx + 1 && x == #[trigger] ids@[jj] {
                        let jj = choose|jj: int| 0 <= jj < idx + 1 && x == #[trigger] ids@[jj];
                        if jj < idx {
                            assert(has_user_interest(mid2, user_id as int, x));
                        }
                        assert(has_user_interest(*self, user_id as int, x));
                    }
                }
            }
            idx += 1;
        }
        proof {
            assert forall|x: int|
                #![trigger has_user_interest(*self, user_id as int, x)]
                has_user_interest(*self, user_id as int, x) <==> (exists|jj: int|
                    0 <= jj < names@.len() && x == interest_id_of_name(
                        *self,
                        #[trigger] names@[jj]@,
                    )) by {
                if has_user_interest(*self, user_id as int, x) {
                    let jj = choose|jj: int| 0 <= jj < m && x == #[trigger] ids@[jj];
                    assert(x == interest_id_of_name(*self, names@[jj]@));
                }
                if exists|jj: int|
                    0 <= jj < names@.len() && x == interest_id_of_name(
                        *self,
                        #[trigger] names@[jj]@,
                    ) {
                    let jj = choose|jj: int|
                        0 <= jj < names@.len() && x == interest_id_of_name(
                            *self,
                            #[trigger] names@[jj]@,
                        );
                    assert(x == ids@[jj]);
                    assert(exists|jj2: int| 0 <= jj2 < m && x == #[trigger] ids@[jj2]);
                }
            }
        }
        Ok(())
    }

    /// The interests of user `u`, in creation (stable-id) order.
    pub fn interests_of(&self, u: i64) -> (out: Vec<Interest>)
        requires
            self.wf(),
        ensures
            forall|i: int|
                0 <= i < out@.len() ==> stored_interest(*self, #[trigger] out@[i])
                    && has_user_interest(*self, u as int, out@[i].id as int),
            forall|k: int|
                0 <= k < self.interests@.len() && has_user_interest(
                    *self,
                    u as int,
                    #[trigger] self.interests@[k].id as int,
                ) ==> exists|i: int| 0 <= i < out@.len() && #[trigger] out@[i]
                    == self.interests@[k],
            forall|i: int, j: int|
                #![trigger out@[i], out@[j]]
                0 <= i < j < out@.len() ==> out@[i].id < out@[j].id,
    {
        let n = self.interests.len();
        let mut out: Vec<Interest> = Vec::new();
        let ghost mut src: Seq<int> = Seq::empty();
        let mut k: usize = 0;
        while k < n
            invariant
                self.wf(),
                n == self.interests@.len(),
                k <= n,
                src.len() == out@.len(),
                forall|i: int| 0 <= i < src.len() ==> 0 <= #[trigger] src[i] < k,
                forall|i: int|
                    #![trigger out@[i]]
                    0 <= i < out@.len() ==> out@[i] == self.interests@[src[i]],
                forall|i: int|
                    0 <= i < out@.len() ==> stored_interest(*self, #[trigger] out@[i])
                        && has_user_interest(*self, u as int, out@[i].id as int),
                forall|i: int, j: int|
                    #![trigger src[i], src[j]]
                    0 <= i < j < src.len() ==> src[i] < src[j],
                forall|k2: int|
                    0 <= k2 < k && has_user_interest(
                        *self,
                        u as int,
                        #[trigger] self.interests@[k2].id as int,
                    ) ==> exists|i: int| 0 <= i < out@.len() && #[trigger] out@[i]
                        == self.interests@[k2],
            decreases n - k,
        {
            let it = &self.interests[k];
            if self.has_interest_pair(u, it.id) {
                let ghost before = out@;
                let ghost old_src = src;
                out.push(Interest { id: it.id, name: it.name.clone() });
                proof {
                    src = src.push(k as int);
                    assert(out@[out@.len() - 1] == self.interests@[k as int]);
                    assert(stored_interest(*self, out@[out@.len() - 1]));
                    assert forall|i: int| 0 <= i < src.len() implies 0 <= #[trigger] src[i] < k
                        + 1 by {
                        if i < old_src.len() {
                            assert(src[i] == old_src[i] && 0 <= old_src[i] < k);
                        } else {
                            assert(src[i] == k as int);
                        }
                    }
                    assert forall|i: int, j: int|
                        #![trigger src[i], src[j]]
                        0 <= i < j < src.len() implies src[i] < src[j] by {
                        if j == src.len() - 1 {
                            assert(src[i] == old_src[i] && 0 <= old_src[i] < k);
                            assert(src[j] == k as int);
                        } else {
                            assert(src[i] == old_src[i] && src[j] == old_src[j]);
                        }
                    }
                    assert forall|k2: int|
                        0 <= k2 < k + 1 && has_user_interest(
                            *self,
                            u as int,
                            #[trigger] self.interests@[k2].id as int,
                        ) implies exists|i: int|
                        0 <= i < out@.len() && #[trigger] out@[i] == self.interests@[k2] by {
                        if k2 < k {
                            let i = choose|i: int|
                                0 <= i < before.len()
                                    && #[trigger] before[i] == self.interests@[k2];
                            assert(out@[i] == self.interests@[k2]);
                        } else {
                            assert(out@[out@.len() - 1] == self.interests@[k2]);
                        }
                    }
                }
            }
            k += 1;
        }
        proof {
            assert forall|i: int, j: int|
                #![trigger out@[i], out@[j]]
                0 <= i < j < out@.len() implies out@[i].id < out@[j].id by {
                assert(src[i] < src[j]);
                assert(self.interests@[src[i]].id < self.interests@[src[j]].id);
            }
        }
        out
    }

    /// The names of `u`'s interests, lexicographically sorted — the
    /// order profile listings present them in.
    pub fn sorted_interest_names(&self, u: i64) -> (out: Vec<String>)
        requires
            self.wf(),
        ensures
            forall|i: int|
                0 <= i < out@.len() ==> user_has_interest_named(
                    *self,
                    u as int,
                    (#[trigger] out@[i])@,
                ),
            forall|k: int|
                0 <= k < self.interests@.len() && has_user_interest(
                    *self,
                    u as int,
                    #[trigger] self.interests@[k].id as int,
                ) ==> name_listed(out@, self.interests@[k].name@),
            forall|i: int, j: int|
                #![trigger out@[i], out@[j]]
                0 <= i < j < out@.len() ==> lex_lt(out@[i]@, out@[j]@),
    {
        let items = self.interests_of(u);
        proof {
            // Distinct entries carry distinct names: they are distinct
            // rows of the interest table.
            assert forall|p: int, q: int|
                #![trigger items@[p], items@[q]]
                0 <= p < q < items@.len() implies items@[p].name@ != items@[q].name@ by {
                let kp = choose|k: int|
                    0 <= k < self.interests@.len() && items@[p] == #[trigger] self.interests@[k];
                let kq = choose|k: int|
                    0 <= k < self.interests@.len() && items@[q] == #[trigger] self.interests@[k];
                assert(items@[p].id != items@[q].id);
                assert(kp != kq);
                if kp < kq {
                    assert(self.interests@[kp].name@ != self.interests@[kq].name@);
                } else {
                    assert(self.interests@[kq].name@ != self.interests@[kp].name@);
                }
            }
        }
        let m = items.len();
        let mut out: Vec<String> = Vec::new();
        let mut i: usize = 0;
        while i < m
            invariant
                self.wf(),
                m == items@.len(),
                i <= m,
                out@.len() == i,
                forall|p: int, q: int|
                    #![trigger items@[p], items@[q]]
                    0 <= p < q < items@.len() ==> items@[p].name@ != items@[q].name@,
                forall|p: int|
                    0 <= p < items@.len() ==> user_has_interest_named(
                        *self,
                        u as int,
                        (#[trigger] items@[p]).name@,
                    ),
                forall|p: int|
                    #![trigger out@[p]]
                    0 <= p < out@.len() ==> exists|k2: int|
                        0 <= k2 < i && (#[trigger] items@[k2]).name@ == out@[p]@,
                forall|k2: int|
                    0 <= k2 < i ==> name_listed(out@, (#[trigger] items@[k2]).name@),
                forall|p: int, q: int|
                    #![trigger out@[p], out@[q]]
                    0 <= p < q < out@.len() ==> lex_lt(out@[p]@, out@[q]@),
            decreases m - i,
        {
            let x = items[i].name.clone();
            proof {
                assert forall|p: int| 0 <= p < out@.len() implies (#[trigger] out@[p])@
                    != x@ by {
                    let k2 = choose|k2: int|
                        0 <= k2 < i && (#[trigger] items@[k2]).name@ == out@[p]@;
                    assert(items@[k2].name@ != items@[i as int].name@);
                }
            }
            let ghost before = out@;
            insert_by_name(&mut out, x);
            proof {
                broadcast use vstd::seq_lib::group_to_multiset_ensures;
                assert forall|p: int|
                    #![trigger out@[p]]
                    0 <= p < out@.len() implies exists|k2: int|
                    0 <= k2 < i + 1 && (#[trigger] items@[k2]).name@ == out@[p]@ by {
                    assert(out@.contains(out@[p]));
                    assert(out@.to_multiset().count(out@[p]) > 0);
                    if out@[p]@ == items@[i as int].name@ {
                        assert(items@[i as int].name@ == out@[p]@);
                    } else {
                        assert(before.to_multiset().count(out@[p]) > 0);
                        assert(before.contains(out@[p]));
                        let p0 = choose|p0: int| 0 <= p0 < before.len() && before[p0] == out@[p];
                        let k2 = choose|k2: int|
                            0 <= k2 < i && (#[trigger] items@[k2]).name@ == before[p0]@;
                        assert(items@[k2].name@ == out@[p]@);
                    }
                }
                assert forall|k2: int|
                    0 <= k2 < i + 1 implies name_listed(
                    out@,
                    (#[trigger] items@[k2]).name@,
                ) by {
                    if k2 < i {
                        let p0 = choose|p0: int|
                            0 <= p0 < before.len() && (#[trigger] before[p0])@ == items@[k2].name@;
                        assert(before.contains(before[p0]));
                        assert(before.to_multiset().count(before[p0]) > 0);
                        assert(out@.to_multiset().count(before[p0]) > 0);
                        assert(out@.contains(before[p0]));
                        let p1 = choose|p1: int| 0 <= p1 < out@.len() && out@[p1] == before[p0];
                        assert(out@[p1]@ == items@[k2].name@);
                    } else {
                        let x_val = items@[i as int].name;
                        assert(out@.to_multiset().count(x_val) > 0) by {
                            assert(out@.to_multiset() == before.to_multiset().insert(x_val));
                        }
                        assert(out@.contains(x_val));
                        let p1 = choose|p1: int| 0 <= p1 < out@.len() && out@[p1] == x_val;
                        assert(out@[p1]@ == items@[k2].name@);
                    }
                }
            }
            i += 1;
        }
        proof {
            assert forall|k: int|
                0 <= k < self.interests@.len() && has_user_interest(
                    *self,
                    u as int,
                    #[trigger] self.interests@[k].id as int,
                ) implies name_listed(out@, self.interests@[k].name@) by {
                let p = choose|p: int|
                    0 <= p < items@.len() && #[trigger] items@[p] == self.interests@[k];
                assert(name_listed(out@, items@[p].name@));
            }
            assert forall|p: int|
                0 <= p < out@.len() implies user_has_interest_named(
                *self,
                u as int,
                (#[trigger] out@[p])@,
            ) by {
                let k2 = choose|k2: int|
                    0 <= k2 < m && (#[trigger] items@[k2]).name@ == out@[p]@;
                assert(user_has_interest_named(*self, u as int, items@[k2].name@));
            }
        }
        out
    }

    /// The public profile of user `id`, if they exist.
    pub fn profile_of(&self, id: i64) -> (r: Option<UserResponse>)
        requires
            self.wf(),
        ensures
            match r {
                Some(resp) => has_user(*self, id as int) && resp == response_of(
                    user_rec(*self, id as int).user,
                ),
                None => !has_user(*self, id as int),
            },
    {
        match self.get_user(id) {
            Some(u) => Some(UserResponse::from(u.duplicate())),
            None => None,
        }
    }

    /// The blob-store key of a user's profile image: present only when
    /// the user exists and has an image on file.
    pub fn profile_image_key_of(&self, user_id: i64) -> (r: Option<&String>)
        requires
            self.wf(),
        ensures
            match r {
                Some(key) => has_user(*self, user_id as int) && user_rec(
                    *self,
                    user_id as int,
                ).image_key == Some(*key),
                None => !has_user(*self, user_id as int) || user_rec(
                    *self,
                    user_id as int,
                ).image_key is None,
            },
    {
        match self.find_user(user_id) {
            Some(k) => {
                proof {
                    self.lemma_user_index_agrees(k as int, user_id as int);
                }
                match &self.users[k].image_key {
                    Some(key) => Some(key),
                    None => None,
                }
            },
            None => None,
        }
    }
}

} // verus!
