//! The match resolver: turns two independently submitted "like"
//! decisions into exactly one canonical match record.
//!
//! The resolver never trusts submission order. Whichever side's like
//! arrives second finds the other side's row in the ledger, canonicalizes
//! the pair as `(min, max)`, and inserts the match only if the pair is
//! absent — re-running the same step returns the existing row unchanged.

use vstd::prelude::*;

use crate::error::AppError;
use crate::models::{response_of, Match, MatchResponse, UserResponse};
use crate::store::{
    has_decision, has_match_between, has_user, is_decision_row, is_match_row, ledger_upserted,
    match_between, pair_hi, pair_lo, spec_likes, user_rec, Store,
};

verus! {

/// Does this match involve user `u`?
pub open spec fn involves(m: Match, u: int) -> bool {
    m.user1_id == u || m.user2_id == u
}

/// The other user of a match that involves `u`.
pub open spec fn other_of(m: Match, u: int) -> int {
    if m.user1_id == u {
        m.user2_id as int
    } else {
        m.user1_id as int
    }
}

/// Is `r` the faithful response row for one of the store's matches
/// involving `me`: same id and timestamp, and the other side's public
/// profile?
pub open spec fn match_response_for(s: Store, me: int, r: MatchResponse) -> bool {
    exists|k: int|
        0 <= k < s.matches@.len() && involves(#[trigger] s.matches@[k], me) && r.id
            == s.matches@[k].id && r.created_at == s.matches@[k].created_at && has_user(
            s,
            other_of(s.matches@[k], me),
        ) && r.user == response_of(user_rec(s, other_of(s.matches@[k], me)).user)
}

/// What a decision submission reports back: whether a match now exists,
/// and if so which one.
#[derive(Clone, Debug, PartialEq)]
pub enum LikeOutcome {
    /// No mutual like (yet), or the decision was a pass.
    NoMatch,
    /// Both sides have liked each other; this is the one match record.
    Matched(Match),
}

/// Upserting the decision `(liker, liked)` leaves every other ordered
/// pair's decision — in particular the reverse pair's — untouched.
pub proof fn lemma_upsert_preserves_other_decisions(
    pre: Store,
    post: Store,
    liker: int,
    liked: int,
    v: bool,
    now: Seq<char>,
    a: int,
    b: int,
)
    requires
        pre.likes_wf(),
        post.likes_wf(),
        ledger_upserted(pre, post.likes@, liker, liked, v, now),
        !(a == liker && b == liked),
    ensures
        has_decision(post, a, b) == has_decision(pre, a, b),
        has_decision(pre, a, b) ==> spec_likes(post, a, b) == spec_likes(pre, a, b),
{
    let pre_len = pre.likes@.len() as int;
    if has_decision(pre, liker, liked) {
        let k = crate::store::decision_index(pre, liker, liked);
        assert(0 <= k < pre_len && is_decision_row(pre.likes@[k], liker, liked));
        if has_decision(pre, a, b) {
            let k2 = crate::store::decision_index(pre, a, b);
            assert(0 <= k2 < pre_len && is_decision_row(pre.likes@[k2], a, b));
            assert(k2 != k);
            assert(is_decision_row(post.likes@[k2], a, b));
            post.lemma_decision_index_agrees(k2, a, b);
            pre.lemma_decision_index_agrees(k2, a, b);
        }
        if has_decision(post, a, b) {
            let k3 = crate::store::decision_index(post, a, b);
            assert(0 <= k3 < pre_len && is_decision_row(post.likes@[k3], a, b));
            assert(k3 != k);
            assert(is_decision_row(pre.likes@[k3], a, b));
            assert(has_decision(pre, a, b));
        }
    } else {
        if has_decision(pre, a, b) {
            let k2 = crate::store::decision_index(pre, a, b);
            assert(is_decision_row(post.likes@[k2], a, b));
            post.lemma_decision_index_agrees(k2, a, b);
            pre.lemma_decision_index_agrees(k2, a, b);
        }
        if has_decision(post, a, b) {
            let k3 = crate::store::decision_index(post, a, b);
            assert(0 <= k3 < pre_len + 1 && is_decision_row(post.likes@[k3], a, b));
            if k3 == pre_len {
                assert(post.likes@[k3].liker_id == liker);
                assert(false);
            } else {
                assert(is_decision_row(pre.likes@[k3], a, b));
                assert(has_decision(pre, a, b));
            }
        }
    }
}

/// How one `try_form_match` call relates the store before and after.
///
/// If the reverse like is absent, nothing changes and no match is
/// reported. If the canonical match row already exists, nothing changes
/// and that row is returned. Otherwise one new row is appended with the
/// canonical `(min, max)` ordering and the next match id — unless the
/// id space is exhausted, which is the only failure.
pub open spec fn match_attempted(
    pre: Store,
    post: Store,
    liker: int,
    liked: int,
    now: Seq<char>,
    r: Result<Option<Match>, AppError>,
) -> bool {
    if !spec_likes(pre, liked, liker) {
        post == pre && r == Ok::<Option<Match>, AppError>(None)
    } else if has_match_between(pre, liker, liked) {
        post == pre && r == Ok::<Option<Match>, AppError>(
            Some(match_between(pre, liker, liked)),
        )
    } else if pre.next_match_id == i64::MAX {
        post == pre && r is Err && r->Err_0 is Internal
    } else {
        &&& post.users == pre.users
        &&& post.interests == pre.interests
        &&& post.user_interests == pre.user_interests
        &&& post.likes == pre.likes
        &&& post.messages == pre.messages
        &&& post.next_user_id == pre.next_user_id
        &&& post.next_interest_id == pre.next_interest_id
        &&& post.next_message_id == pre.next_message_id
        &&& post.next_match_id == pre.next_match_id + 1
        &&& post.matches@.len() == pre.matches@.len() + 1
        &&& (forall|j: int|
            0 <= j < pre.matches@.len() ==> #[trigger] post.matches@[j] == pre.matches@[j])
        &&& post.matches@.last().id == pre.next_match_id
        &&& post.matches@.last().user1_id == pair_lo(liker, liked)
        &&& post.matches@.last().user2_id == pair_hi(liker, liked)
        &&& post.matches@.last().created_at@ == now
        &&& r == Ok::<Option<Match>, AppError>(Some(post.matches@.last()))
    }
}

/// How one `submit_like` call relates the store before and after: the
/// observable API of the engine.
///
/// A self-directed decision is rejected before touching storage; a
/// decision toward a nonexistent user surfaces the storage layer's
/// referential failure, also before any write. Otherwise the decision
/// is upserted; a pass never triggers matching, and a like reports
/// `Matched` exactly when the reverse like was already on the ledger —
/// materializing the canonical match row if it did not yet exist.
pub open spec fn like_submitted(
    pre: Store,
    post: Store,
    liker: int,
    liked: int,
    v: bool,
    now: Seq<char>,
    r: Result<LikeOutcome, AppError>,
) -> bool {
    if liker == liked {
        post == pre && r is Err && r->Err_0 is Validation
    } else if !has_user(pre, liked) {
        post == pre && r is Err && r->Err_0 is Db
    } else {
        &&& ledger_upserted(pre, post.likes@, liker, liked, v, now)
        &&& post.users == pre.users
        &&& post.interests == pre.interests
        &&& post.user_interests == pre.user_interests
        &&& post.messages == pre.messages
        &&& post.next_user_id == pre.next_user_id
        &&& post.next_interest_id == pre.next_interest_id
        &&& post.next_message_id == pre.next_message_id
        &&& if !v || !spec_likes(pre, liked, liker) {
            &&& post.matches == pre.matches
            &&& post.next_match_id == pre.next_match_id
            &&& r == Ok::<LikeOutcome, AppError>(LikeOutcome::NoMatch)
        } else if has_match_between(pre, liker, liked) {
            &&& post.matches == pre.matches
            &&& post.next_match_id == pre.next_match_id
            &&& r == Ok::<LikeOutcome, AppError>(
                LikeOutcome::Matched(match_between(pre, liker, liked)),
            )
        } else if pre.next_match_id == i64::MAX {
            &&& post.matches == pre.matches
            &&& post.next_match_id == pre.next_match_id
            &&& r is Err
            &&& r->Err_0 is Internal
        } else {
            &&& post.next_match_id == pre.next_match_id + 1
            &&& post.matches@.len() == pre.matches@.len() + 1
            &&& (forall|j: int|
                0 <= j < pre.matches@.len() ==> #[trigger] post.matches@[j] == pre.matches@[j])
            &&& post.matches@.last().id == pre.next_match_id
            &&& post.matches@.last().user1_id == pair_lo(liker, liked)
            &&& post.matches@.last().user2_id == pair_hi(liker, liked)
            &&& post.matches@.last().created_at@ == now
            &&& r == Ok::<LikeOutcome, AppError>(LikeOutcome::Matched(post.matches@.last()))
        }
    }
}

impl Store {
    /// Check whether `liked` has already liked `liker` back and, if so,
    /// materialize the canonical match record for the pair — or return
    /// the existing one unchanged.
    ///
    /// Fails only when the match id space is exhausted; the ledger is
    /// never touched, so a failed materialization leaves the like
    /// intact and either side's next qualifying action can retry.
    pub fn try_form_match(&mut self, liker_id: i64, liked_id: i64, now: &str) -> (r: Result<
        Option<Match>,
        AppError,
    >)
        requires
            old(self).wf(),
            liker_id != liked_id,
        ensures
            final(self).wf(),
            match_attempted(
                *old(self),
                *final(self),
                liker_id as int,
                liked_id as int,
                now@,
                r,
            ),
            old(self).next_match_id < i64::MAX ==> r is Ok,
    {
        // Step 1: reciprocity check.
        if !self.has_liked(liked_id, liker_id) {
            return Ok(None);
        }
        // Step 2: canonical ordering — the smaller id always comes first.
        let (lo, hi) = if liker_id < liked_id {
            (liker_id, liked_id)
        } else {
            (liked_id, liker_id)
        };
        // Step 3: idempotent materialization.
        match self.find_match_between(liker_id, liked_id) {
            Some(k) => {
                proof {
                    self.lemma_match_index_agrees(k as int, liker_id as int, liked_id as int);
                }
                Ok(Some(self.matches[k].duplicate()))
            },
            None => {
                if self.next_match_id == i64::MAX {
                    return Err(AppError::Internal("match id space exhausted".to_owned()));
                }
                let m = Match {
                    id: self.next_match_id,
                    user1_id: lo,
                    user2_id: hi,
                    created_at: now.to_owned(),
                };
                let ret = m.duplicate();
                self.matches.push(m);
                self.next_match_id = self.next_match_id + 1;
                proof {
                    let pre = *old(self);
                    let new_len = self.matches@.len() as int;
                    assert forall|i: int, j: int|
                        0 <= i < j < new_len implies self.matches@[i].id < self.matches@[j].id
                        && !(self.matches@[i].user1_id == self.matches@[j].user1_id
                        && self.matches@[i].user2_id == self.matches@[j].user2_id) by {
                        if j == new_len - 1 {
                            assert(self.matches@[i] == pre.matches@[i]);
                            assert(!is_match_row(pre.matches@[i], liker_id as int, liked_id as int));
                        } else {
                            assert(self.matches@[i] == pre.matches@[i]);
                            assert(self.matches@[j] == pre.matches@[j]);
                        }
                    }
                }
                Ok(Some(ret))
            },
        }
    }

    /// Record the decision `liker -> liked` and, when it is a like,
    /// resolve whether a mutual pair now exists.
    ///
    /// This is the engine's observable entry point: it validates the
    /// target, upserts the ledger row, and reports `Matched` with the
    /// one canonical match record exactly when both sides have liked
    /// each other.
    pub fn submit_like(&mut self, liker_id: i64, liked_id: i64, is_like: bool, now: &str) -> (r:
        Result<LikeOutcome, AppError>)
        requires
            old(self).wf(),
        ensures
            final(self).wf(),
            like_submitted(
                *old(self),
                *final(self),
                liker_id as int,
                liked_id as int,
                is_like,
                now@,
                r,
            ),
            liker_id != liked_id && has_user(*old(self), liked_id as int) && old(
                self,
            ).next_match_id < i64::MAX ==> r is Ok,
    {
        if liker_id == liked_id {
            return Err(AppError::Validation("cannot record a decision about yourself".to_owned()));
        }
        match self.find_user(liked_id) {
            None => {
                return Err(AppError::Db("liked user does not exist".to_owned()));
            },
            Some(_) => {},
        }
        self.record_decision(liker_id, liked_id, is_like, now);
        if !is_like {
            return Ok(LikeOutcome::NoMatch);
        }
        proof {
            lemma_upsert_preserves_other_decisions(
                *old(self),
                *self,
                liker_id as int,
                liked_id as int,
                is_like,
                now@,
                liked_id as int,
                liker_id as int,
            );
        }
        let ghost mid = *self;
        let attempt = self.try_form_match(liker_id, liked_id, now);
        proof {
            assert(spec_likes(mid, liked_id as int, liker_id as int) == spec_likes(
                *old(self),
                liked_id as int,
                liker_id as int,
            ));
        }
        match attempt {
            Ok(Some(m)) => Ok(LikeOutcome::Matched(m)),
            Ok(None) => Ok(LikeOutcome::NoMatch),
            Err(e) => Err(e),
        }
    }

    /// All matches involving `me`, newest first, each carrying the
    /// other user's public profile.
    ///
    /// Fails exactly when some involved match references a user that no
    /// longer resolves — the storage layer's referential failure,
    /// surfaced rather than silently skipped.
    #[verifier::rlimit(30)]
    pub fn match_responses_for(&self, me: i64) -> (r: Result<Vec<MatchResponse>, AppError>)
        requires
            self.wf(),
        ensures
            match r {
                Ok(out) => {
                    &&& (forall|i: int|
                        0 <= i < out@.len() ==> match_response_for(
                            *self,
                            me as int,
                            #[trigger] out@[i],
                        ))
                    &&& (forall|k: int|
                        0 <= k < self.matches@.len() && involves(
                            #[trigger] self.matches@[k],
                            me as int,
                        ) ==> has_user(*self, other_of(self.matches@[k], me as int)) && (exists|
                            i: int,
                        |
                            0 <= i < out@.len() && #[trigger] out@[i].id == self.matches@[k].id))
                    &&& (forall|i: int, j: int|
                        #![trigger out@[i], out@[j]]
                        0 <= i < j < out@.len() ==> out@[i].id > out@[j].id)
                },
                Err(e) => e is Db && (exists|k: int|
                    0 <= k < self.matches@.len() && involves(#[trigger] self.matches@[k], me as int)
                        && !has_user(*self, other_of(self.matches@[k], me as int))),
            },
    {
        let n = self.matches.len();
        let mut out: Vec<MatchResponse> = Vec::new();
        let ghost mut src: Seq<int> = Seq::empty();
        let mut k: usize = n;
        while k > 0
            invariant
                self.wf(),
                n == self.matches@.len(),
                k <= n,
                src.len() == out@.len(),
                forall|i: int| 0 <= i < src.len() ==> k <= #[trigger] src[i] < n,
                forall|i: int|
                    #![trigger out@[i]]
                    0 <= i < out@.len() ==> out@[i].id == self.matches@[src[i]].id,
                forall|i: int|
                    0 <= i < out@.len() ==> match_response_for(
                        *self,
                        me as int,
                        #[trigger] out@[i],
                    ),
                forall|i: int, j: int|
                    #![trigger src[i], src[j]]
                    0 <= i < j < src.len() ==> src[i] > src[j],
                forall|k2: int|
                    k <= k2 < n && involves(#[trigger] self.matches@[k2], me as int) ==> has_user(
                        *self,
                        other_of(self.matches@[k2], me as int),
                    ) && (exists|i: int|
                        0 <= i < out@.len() && #[trigger] out@[i].id == self.matches@[k2].id),
            decreases k,
        {
            k -= 1;
            let row = &self.matches[k];
            if row.user1_id == me || row.user2_id == me {
                let other = if row.user1_id == me {
                    row.user2_id
                } else {
                    row.user1_id
                };
                match self.get_user(other) {
                    None => {
                        return Err(AppError::Db("matched user does not exist".to_owned()));
                    },
                    Some(u) => {
                        let resp = MatchResponse {
                            id: row.id,
                            user: UserResponse::from(u.duplicate()),
                            created_at: row.created_at.clone(),
                        };
                        let ghost before = out@;
                        let ghost old_src = src;
                        out.push(resp);
                        proof {
                            src = src.push(k as int);
                            assert(out@[out@.len() - 1].id == self.matches@[k as int].id);
                            assert(match_response_for(*self, me as int, out@[out@.len() - 1]));
                            assert forall|i: int| 0 <= i < src.len() implies k
                                <= #[trigger] src[i] < n by {
                                if i < old_src.len() {
                                    assert(src[i] == old_src[i] && k + 1 <= old_src[i] < n);
                                } else {
                                    assert(src[i] == k as int);
                                }
                            }
                            assert forall|i: int, j: int|
                                #![trigger src[i], src[j]]
                                0 <= i < j < src.len() implies src[i] > src[j] by {
                                if j == src.len() - 1 {
                                    assert(src[i] == old_src[i] && k + 1 <= old_src[i]);
                                    assert(src[j] == k as int);
                                } else {
                                    assert(src[i] == old_src[i] && src[j] == old_src[j]);
                                }
                            }
                            assert forall|k2: int|
                                k <= k2 < n && involves(
                                    #[trigger] self.matches@[k2],
                                    me as int,
                                ) implies has_user(*self, other_of(self.matches@[k2], me as int))
                                && (exists|i: int|
                                0 <= i < out@.len()
                                    && #[trigger] out@[i].id == self.matches@[k2].id) by {
                                if k2 > k {
                                    let i = choose|i: int|
                                        0 <= i < before.len() && #[trigger] before[i].id
                                            == self.matches@[k2].id;
                                    assert(out@[i].id == self.matches@[k2].id);
                                } else {
                                    assert(other == other_of(self.matches@[k as int], me as int));
                                    assert(out@[out@.len() - 1].id == self.matches@[k2].id);
                                }
                            }
                        }
                    },
                }
            }
        }
        proof {
            assert forall|i: int, j: int|
                #![trigger out@[i], out@[j]]
                0 <= i < j < out@.len() implies out@[i].id > out@[j].id by {
                assert(src[i] > src[j]);
                assert(self.matches@[src[j]].id < self.matches@[src[i]].id);
            }
        }
        Ok(out)
    }
}

} // verus!
