//! The transactional data store the engine runs against, modelled as
//! plain in-memory tables.
//!
//! Every request derives its answer from this state and nothing else,
//! so each operation is specified as a relation between the store
//! before and after the call. The well-formedness predicate [`Store::wf`]
//! captures the storage layer's uniqueness guarantees: one row per
//! user id, one interest per name, one decision per ordered pair of
//! users, one match per unordered pair.

use vstd::prelude::*;

use crate::models::{Interest, LikeDecision, Match, Message, User, UserInterest};

verus! {

/// Upper bound on rows in the user-to-interest association table.
/// It is the store's documented capacity; among other things it keeps
/// every compatibility score comfortably inside an `i64`.
pub const MAX_ASSOCIATIONS: usize = 0x1000_0000;

/// A user row together with the profile attachments that only the
/// profile endpoints read.
#[derive(Clone, Debug, PartialEq)]
pub struct UserRecord {
    pub user: User,
    pub bio: Option<String>,
    pub image_key: Option<String>,
}

/// A message row together with its optional stored image.
#[derive(Clone, Debug, PartialEq)]
pub struct MessageRecord {
    pub message: Message,
    pub image_key: Option<String>,
}

/// The whole persistent state of the service.
pub struct Store {
    pub users: Vec<UserRecord>,
    pub interests: Vec<Interest>,
    pub user_interests: Vec<UserInterest>,
    pub likes: Vec<LikeDecision>,
    pub matches: Vec<Match>,
    pub messages: Vec<MessageRecord>,
    pub next_user_id: i64,
    pub next_interest_id: i64,
    pub next_match_id: i64,
    pub next_message_id: i64,
}

// ---------------------------------------------------------------------------
// Lookup predicates
// ---------------------------------------------------------------------------

/// Does a user with this id exist?
pub open spec fn has_user(s: Store, id: int) -> bool {
    exists|k: int| 0 <= k < s.users@.len() && #[trigger] s.users@[k].user.id == id
}

/// The index of the user with this id (meaningful when `has_user`).
pub open spec fn user_index(s: Store, id: int) -> int {
    choose|k: int| 0 <= k < s.users@.len() && #[trigger] s.users@[k].user.id == id
}

/// The record of the user with this id (meaningful when `has_user`).
pub open spec fn user_rec(s: Store, id: int) -> UserRecord {
    s.users@[user_index(s, id)]
}

/// Is this ledger row the decision `liker -> liked`?
pub open spec fn is_decision_row(r: LikeDecision, liker: int, liked: int) -> bool {
    r.liker_id == liker && r.liked_id == liked
}

/// Has `liker` recorded any decision (like or pass) toward `liked`?
pub open spec fn has_decision(s: Store, liker: int, liked: int) -> bool {
    exists|k: int| 0 <= k < s.likes@.len() && #[trigger] is_decision_row(s.likes@[k], liker, liked)
}

/// The index of that decision row (meaningful when `has_decision`).
pub open spec fn decision_index(s: Store, liker: int, liked: int) -> int {
    choose|k: int| 0 <= k < s.likes@.len() && #[trigger] is_decision_row(s.likes@[k], liker, liked)
}

/// Has `liker` recorded a decision toward `liked` whose verdict is a like?
pub open spec fn spec_likes(s: Store, liker: int, liked: int) -> bool {
    has_decision(s, liker, liked) && s.likes@[decision_index(s, liker, liked)].is_like
}

/// The smaller of two user ids.
pub open spec fn pair_lo(a: int, b: int) -> int {
    if a < b { a } else { b }
}

/// The larger of two user ids.
pub open spec fn pair_hi(a: int, b: int) -> int {
    if a < b { b } else { a }
}

/// Is this match row the canonical record for the unordered pair `{a, b}`?
pub open spec fn is_match_row(m: Match, a: int, b: int) -> bool {
    m.user1_id == pair_lo(a, b) && m.user2_id == pair_hi(a, b)
}

/// Does a match between `a` and `b` exist (in either naming order)?
pub open spec fn has_match_between(s: Store, a: int, b: int) -> bool {
    exists|k: int| 0 <= k < s.matches@.len() && #[trigger] is_match_row(s.matches@[k], a, b)
}

/// The index of that match row (meaningful when `has_match_between`).
pub open spec fn match_index_between(s: Store, a: int, b: int) -> int {
    choose|k: int| 0 <= k < s.matches@.len() && #[trigger] is_match_row(s.matches@[k], a, b)
}

/// The match row between `a` and `b` (meaningful when `has_match_between`).
pub open spec fn match_between(s: Store, a: int, b: int) -> Match {
    s.matches@[match_index_between(s, a, b)]
}

/// Is this association row the pair `(user, interest)`?
pub open spec fn is_assoc_row(r: UserInterest, u: int, i: int) -> bool {
    r.user_id == u && r.interest_id == i
}

/// Does user `u` carry interest `i`?
pub open spec fn has_user_interest(s: Store, u: int, i: int) -> bool {
    exists|k: int|
        0 <= k < s.user_interests@.len() && #[trigger] is_assoc_row(s.user_interests@[k], u, i)
}

/// Is `c` a candidate for `me`'s feed: some other existing user toward
/// whom `me` has not recorded any decision yet?
pub open spec fn eligible(s: Store, me: int, c: int) -> bool {
    c != me && has_user(s, c) && !has_decision(s, me, c)
}

/// Does an interest with this name exist?
pub open spec fn has_interest_named(s: Store, name: Seq<char>) -> bool {
    exists|k: int| 0 <= k < s.interests@.len() && #[trigger] s.interests@[k].name@ == name
}

/// The index of the interest with this name (meaningful when `has_interest_named`).
pub open spec fn interest_index_named(s: Store, name: Seq<char>) -> int {
    choose|k: int| 0 <= k < s.interests@.len() && #[trigger] s.interests@[k].name@ == name
}

// ---------------------------------------------------------------------------
// Well-formedness
// ---------------------------------------------------------------------------

impl Store {
    /// User rows: ids and provider ids unique, ids positive and below
    /// the id counter.
    pub open spec fn users_wf(self) -> bool {
        &&& forall|i: int, j: int|
            #![trigger self.users@[i], self.users@[j]]
            0 <= i < j < self.users@.len() ==> self.users@[i].user.id != self.users@[j].user.id
                && self.users@[i].user.oid@ != self.users@[j].user.oid@
        &&& forall|i: int|
            0 <= i < self.users@.len() ==> 1 <= #[trigger] self.users@[i].user.id
                < self.next_user_id
    }

    /// Interest rows: names unique, ids strictly ascending (they are
    /// assigned in creation order), positive and below the id counter.
    pub open spec fn interests_wf(self) -> bool {
        &&& forall|i: int, j: int|
            #![trigger self.interests@[i], self.interests@[j]]
            0 <= i < j < self.interests@.len() ==> self.interests@[i].id < self.interests@[j].id
                && self.interests@[i].name@ != self.interests@[j].name@
        &&& forall|i: int|
            0 <= i < self.interests@.len() ==> 1 <= #[trigger] self.interests@[i].id
                < self.next_interest_id
    }

    /// Association rows: at most one row per pair, and the table stays
    /// within its documented capacity.
    pub open spec fn assocs_wf(self) -> bool {
        &&& forall|i: int, j: int|
            #![trigger self.user_interests@[i], self.user_interests@[j]]
            0 <= i < j < self.user_interests@.len() ==> !(self.user_interests@[i].user_id
                == self.user_interests@[j].user_id && self.user_interests@[i].interest_id
                == self.user_interests@[j].interest_id)
        &&& self.user_interests@.len() <= MAX_ASSOCIATIONS
    }

    /// Ledger rows: nobody decides on themselves, and at most one row
    /// per ordered pair.
    pub open spec fn likes_wf(self) -> bool {
        &&& forall|i: int|
            0 <= i < self.likes@.len() ==> #[trigger] self.likes@[i].liker_id
                != self.likes@[i].liked_id
        &&& forall|i: int, j: int|
            #![trigger self.likes@[i], self.likes@[j]]
            0 <= i < j < self.likes@.len() ==> !(self.likes@[i].liker_id
                == self.likes@[j].liker_id && self.likes@[i].liked_id == self.likes@[j].liked_id)
    }

    /// Match rows: canonically ordered, ids strictly ascending (they
    /// are assigned in creation order), positive and below the id
    /// counter, and at most one row per unordered pair.
    pub open spec fn matches_wf(self) -> bool {
        &&& forall|i: int|
            0 <= i < self.matches@.len() ==> #[trigger] self.matches@[i].user1_id
                < self.matches@[i].user2_id
        &&& forall|i: int|
            0 <= i < self.matches@.len() ==> 1 <= #[trigger] self.matches@[i].id
                < self.next_match_id
        &&& forall|i: int, j: int|
            #![trigger self.matches@[i], self.matches@[j]]
            0 <= i < j < self.matches@.len() ==> self.matches@[i].id < self.matches@[j].id && !(
            self.matches@[i].user1_id == self.matches@[j].user1_id && self.matches@[i].user2_id
                == self.matches@[j].user2_id)
    }

    /// Message rows: ids strictly ascending (they are assigned in
    /// creation order), positive and below the id counter.
    pub open spec fn messages_wf(self) -> bool {
        &&& forall|i: int|
            0 <= i < self.messages@.len() ==> 1 <= #[trigger] self.messages@[i].message.id
                < self.next_message_id
        &&& forall|i: int, j: int|
            #![trigger self.messages@[i], self.messages@[j]]
            0 <= i < j < self.messages@.len() ==> self.messages@[i].message.id
                < self.messages@[j].message.id
    }

    /// The storage layer's invariants, all together.
    pub open spec fn wf(self) -> bool {
        &&& self.users_wf()
        &&& self.interests_wf()
        &&& self.assocs_wf()
        &&& self.likes_wf()
        &&& self.matches_wf()
        &&& self.messages_wf()
        &&& 1 <= self.next_user_id
        &&& 1 <= self.next_interest_id
        &&& 1 <= self.next_match_id
        &&& 1 <= self.next_message_id
    }

    /// A fresh, empty store.
    pub fn new() -> (s: Store)
        ensures
            s.wf(),
            s.users@.len() == 0,
            s.interests@.len() == 0,
            s.user_interests@.len() == 0,
            s.likes@.len() == 0,
            s.matches@.len() == 0,
            s.messages@.len() == 0,
    {
        Store {
            users: Vec::new(),
            interests: Vec::new(),
            user_interests: Vec::new(),
            likes: Vec::new(),
            matches: Vec::new(),
            messages: Vec::new(),
            next_user_id: 1,
            next_interest_id: 1,
            next_match_id: 1,
            next_message_id: 1,
        }
    }

    // -----------------------------------------------------------------------
    // Lookups
    // -----------------------------------------------------------------------

    /// The position of the user row with this id, if any.
    pub fn find_user(&self, id: i64) -> (r: Option<usize>)
        ensures
            match r {
                Some(k) => k < self.users@.len() && self.users@[k as int].user.id == id,
                None => !has_user(*self, id as int),
            },
    {
        let n = self.users.len();
        let mut k: usize = 0;
        while k < n
            invariant
                n == self.users@.len(),
                k <= n,
                forall|j: int| 0 <= j < k ==> #[trigger] self.users@[j].user.id != id,
            decreases n - k,
        {
            if self.users[k].user.id == id {
                return Some(k);
            }
            k += 1;
        }
        None
    }

    /// The user with this id, if any.
    pub fn get_user(&self, id: i64) -> (r: Option<&User>)
        requires
            self.wf(),
        ensures
            match r {
                Some(u) => has_user(*self, id as int) && *u == user_rec(*self, id as int).user,
                None => !has_user(*self, id as int),
            },
    {
        match self.find_user(id) {
            Some(k) => {
                let u = &self.users[k].user;
                proof {
                    self.lemma_user_index_agrees(k as int, id as int);
                }
                Some(u)
            },
            None => None,
        }
    }

    /// Two user rows with the same id sit at the same index.
    pub proof fn lemma_user_index_agrees(self, k: int, id: int)
        requires
            self.users_wf(),
            0 <= k < self.users@.len(),
            self.users@[k].user.id == id,
        ensures
            has_user(self, id),
            user_index(self, id) == k,
    {
        assert(has_user(self, id));
        let k2 = user_index(self, id);
        if k2 != k {
            if k < k2 {
                assert(self.users@[k].user.id != self.users@[k2].user.id);
            } else {
                assert(self.users@[k2].user.id != self.users@[k].user.id);
            }
        }
    }

    /// The position of the ledger row `liker -> liked`, if any.
    pub fn find_decision(&self, liker_id: i64, liked_id: i64) -> (r: Option<usize>)
        ensures
            match r {
                Some(k) => k < self.likes@.len() && is_decision_row(
                    self.likes@[k as int],
                    liker_id as int,
                    liked_id as int,
                ),
                None => !has_decision(*self, liker_id as int, liked_id as int),
            },
    {
        let n = self.likes.len();
        let mut k: usize = 0;
        while k < n
            invariant
                n == self.likes@.len(),
                k <= n,
                forall|j: int|
                    0 <= j < k ==> !#[trigger] is_decision_row(
                        self.likes@[j],
                        liker_id as int,
                        liked_id as int,
                    ),
            decreases n - k,
        {
            if self.likes[k].liker_id == liker_id && self.likes[k].liked_id == liked_id {
                return Some(k);
            }
            k += 1;
        }
        None
    }

    /// Two ledger rows with the same ordered pair sit at the same index.
    pub proof fn lemma_decision_index_agrees(self, k: int, liker: int, liked: int)
        requires
            self.likes_wf(),
            0 <= k < self.likes@.len(),
            is_decision_row(self.likes@[k], liker, liked),
        ensures
            has_decision(self, liker, liked),
            decision_index(self, liker, liked) == k,
    {
        assert(has_decision(self, liker, liked));
        let k2 = decision_index(self, liker, liked);
        if k2 != k {
            if k < k2 {
                assert(!(self.likes@[k].liker_id == self.likes@[k2].liker_id
                    && self.likes@[k].liked_id == self.likes@[k2].liked_id));
            } else {
                assert(!(self.likes@[k2].liker_id == self.likes@[k].liker_id
                    && self.likes@[k2].liked_id == self.likes@[k].liked_id));
            }
        }
    }

    /// Has `liker` recorded a like (not a pass) toward `liked`?
    pub fn has_liked(&self, liker_id: i64, liked_id: i64) -> (r: bool)
        requires
            self.wf(),
        ensures
            r == spec_likes(*self, liker_id as int, liked_id as int),
    {
        match self.find_decision(liker_id, liked_id) {
            Some(k) => {
                proof {
                    self.lemma_decision_index_agrees(k as int, liker_id as int, liked_id as int);
                }
                self.likes[k].is_like
            },
            None => false,
        }
    }

    /// The position of the match row for the unordered pair `{a, b}`, if any.
    pub fn find_match_between(&self, a: i64, b: i64) -> (r: Option<usize>)
        ensures
            match r {
                Some(k) => k < self.matches@.len() && is_match_row(
                    self.matches@[k as int],
                    a as int,
                    b as int,
                ),
                None => !has_match_between(*self, a as int, b as int),
            },
    {
        let (lo, hi) = if a < b { (a, b) } else { (b, a) };
        let n = self.matches.len();
        let mut k: usize = 0;
        while k < n
            invariant
                n == self.matches@.len(),
                lo == pair_lo(a as int, b as int),
                hi == pair_hi(a as int, b as int),
                k <= n,
                forall|j: int|
                    0 <= j < k ==> !#[trigger] is_match_row(self.matches@[j], a as int, b as int),
            decreases n - k,
        {
            if self.matches[k].user1_id == lo && self.matches[k].user2_id == hi {
                return Some(k);
            }
            k += 1;
        }
        None
    }

    /// Two match rows for the same unordered pair sit at the same index.
    pub proof fn lemma_match_index_agrees(self, k: int, a: int, b: int)
        requires
            self.matches_wf(),
            0 <= k < self.matches@.len(),
            is_match_row(self.matches@[k], a, b),
        ensures
            has_match_between(self, a, b),
            match_index_between(self, a, b) == k,
    {
        assert(has_match_between(self, a, b));
        let k2 = match_index_between(self, a, b);
        if k2 != k {
            if k < k2 {
                assert(!(self.matches@[k].user1_id == self.matches@[k2].user1_id
                    && self.matches@[k].user2_id == self.matches@[k2].user2_id));
            } else {
                assert(!(self.matches@[k2].user1_id == self.matches@[k].user1_id
                    && self.matches@[k2].user2_id == self.matches@[k].user2_id));
            }
        }
    }

    // -----------------------------------------------------------------------
    // The like ledger write
    // -----------------------------------------------------------------------

    /// Upsert the decision `liker -> liked`.
    ///
    /// Last write wins on the verdict; the row's `created_at` is set on
    /// first insertion and kept on every overwrite. Nothing else in the
    /// store changes, and no history of prior verdicts is retained.
    pub fn record_decision(&mut self, liker_id: i64, liked_id: i64, is_like: bool, now: &str)
        requires
            old(self).wf(),
            liker_id != liked_id,
        ensures
            final(self).wf(),
            decision_recorded(
                *old(self),
                *final(self),
                liker_id as int,
                liked_id as int,
                is_like,
                now@,
            ),
    {
        match self.find_decision(liker_id, liked_id) {
            Some(k) => {
                proof {
                    self.lemma_decision_index_agrees(k as int, liker_id as int, liked_id as int);
                }
                let created_at = self.likes[k].created_at.clone();
                self.likes.set(
                    k,
                    LikeDecision { liker_id, liked_id, is_like, created_at },
                );
                proof {
                    assert forall|i: int, j: int|
                        0 <= i < j < self.likes@.len() implies !(self.likes@[i].liker_id
                        == self.likes@[j].liker_id && self.likes@[i].liked_id
                        == self.likes@[j].liked_id) by {
                        let pre = *old(self);
                        if i == k as int {
                            assert(!(pre.likes@[k as int].liker_id == pre.likes@[j].liker_id
                                && pre.likes@[k as int].liked_id == pre.likes@[j].liked_id));
                        } else if j == k as int {
                            assert(!(pre.likes@[i].liker_id == pre.likes@[k as int].liker_id
                                && pre.likes@[i].liked_id == pre.likes@[k as int].liked_id));
                        } else {
                            assert(!(pre.likes@[i].liker_id == pre.likes@[j].liker_id
                                && pre.likes@[i].liked_id == pre.likes@[j].liked_id));
                        }
                    }
                }
            },
            None => {
                self.likes.push(
                    LikeDecision { liker_id, liked_id, is_like, created_at: now.to_owned() },
                );
                proof {
                    let pre = *old(self);
                    assert forall|i: int, j: int|
                        0 <= i < j < self.likes@.len() implies !(self.likes@[i].liker_id
                        == self.likes@[j].liker_id && self.likes@[i].liked_id
                        == self.likes@[j].liked_id) by {
                        if j == pre.likes@.len() {
                            assert(!is_decision_row(pre.likes@[i], liker_id as int, liked_id as int));
                        } else {
                            assert(!(pre.likes@[i].liker_id == pre.likes@[j].liker_id
                                && pre.likes@[i].liked_id == pre.likes@[j].liked_id));
                        }
                    }
                }
            },
        }
    }
}

/// How the like ledger alone changes under an upsert of the decision
/// `liker -> liked`: the row for that ordered pair is overwritten
/// (keeping its original `created_at`) if it existed, appended if not,
/// and every other row stays put.
pub open spec fn ledger_upserted(
    pre: Store,
    post_likes: Seq<LikeDecision>,
    liker: int,
    liked: int,
    v: bool,
    now: Seq<char>,
) -> bool {
    if has_decision(pre, liker, liked) {
        let k = decision_index(pre, liker, liked);
        &&& post_likes.len() == pre.likes@.len()
        &&& (forall|j: int|
            0 <= j < pre.likes@.len() && j != k ==> #[trigger] post_likes[j] == pre.likes@[j])
        &&& post_likes[k].liker_id == liker
        &&& post_likes[k].liked_id == liked
        &&& post_likes[k].is_like == v
        &&& post_likes[k].created_at == pre.likes@[k].created_at
    } else {
        &&& post_likes.len() == pre.likes@.len() + 1
        &&& (forall|j: int| 0 <= j < pre.likes@.len() ==> #[trigger] post_likes[j] == pre.likes@[j])
        &&& post_likes.last().liker_id == liker
        &&& post_likes.last().liked_id == liked
        &&& post_likes.last().is_like == v
        &&& post_likes.last().created_at@ == now
    }
}

/// How one `record_decision` call relates the store before and after:
/// only the like ledger changes, and in it only the row for the ordered
/// pair `(liker, liked)`.
pub open spec fn decision_recorded(
    pre: Store,
    post: Store,
    liker: int,
    liked: int,
    v: bool,
    now: Seq<char>,
) -> bool {
    &&& post.users == pre.users
    &&& post.interests == pre.interests
    &&& post.user_interests == pre.user_interests
    &&& post.matches == pre.matches
    &&& post.messages == pre.messages
    &&& post.next_user_id == pre.next_user_id
    &&& post.next_interest_id == pre.next_interest_id
    &&& post.next_match_id == pre.next_match_id
    &&& post.next_message_id == pre.next_message_id
    &&& ledger_upserted(pre, post.likes@, liker, liked, v, now)
}

} // verus!
