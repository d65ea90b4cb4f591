//! The engine's guarantees, stated and proved once and for all.
//!
//! Each proof function here takes the stores before and after one or
//! more [`Store::submit_like`] calls — related exactly as that
//! function's contract relates them — and derives the guarantee the
//! service advertises. Because requests against the shared store are
//! serialized by its per-key upserts and its conditional insert,
//! every interleaving of concurrent requests is one of the call
//! orders covered here.

use vstd::prelude::*;

use crate::error::AppError;
use crate::matching::{like_submitted, LikeOutcome};
use crate::ranking::{in_ranking, ranking_post, RankedCandidate, MAX_CANDIDATES};
use crate::store::{
    decision_index, eligible, has_decision, has_match_between, has_user, is_decision_row,
    is_match_row, ledger_upserted, pair_hi, pair_lo, spec_likes, Store,
};

verus! {

/// After upserting the decision `liker -> liked`, that ordered pair's
/// decision exists and carries exactly the submitted verdict.
pub proof fn lemma_upsert_sets_decision(
    pre: Store,
    post: Store,
    liker: int,
    liked: int,
    v: bool,
    now: Seq<char>,
)
    requires
        pre.likes_wf(),
        post.likes_wf(),
        ledger_upserted(pre, post.likes@, liker, liked, v, now),
    ensures
        has_decision(post, liker, liked),
        spec_likes(post, liker, liked) == v,
{
    if has_decision(pre, liker, liked) {
        let k = decision_index(pre, liker, liked);
        assert(is_decision_row(post.likes@[k], liker, liked));
        post.lemma_decision_index_agrees(k, liker, liked);
    } else {
        let k = post.likes@.len() - 1;
        assert(is_decision_row(post.likes@[k], liker, liked));
        post.lemma_decision_index_agrees(k, liker, liked);
    }
}

/// **Idempotence.** Submitting the same `(liker, liked, verdict)`
/// decision twice leaves the ledger and the match table exactly as
/// after the first submission, and the second call reports a match if
/// and only if the first did.
pub proof fn lemma_resubmission_is_idempotent(
    s0: Store,
    s1: Store,
    s2: Store,
    liker: int,
    liked: int,
    v: bool,
    now1: Seq<char>,
    now2: Seq<char>,
    r1: Result<LikeOutcome, AppError>,
    r2: Result<LikeOutcome, AppError>,
)
    requires
        s0.wf(),
        s1.wf(),
        s2.wf(),
        like_submitted(s0, s1, liker, liked, v, now1, r1),
        like_submitted(s1, s2, liker, liked, v, now2, r2),
    ensures
        s2.likes@ == s1.likes@,
        s2.matches == s1.matches,
        s2.users == s1.users,
        s2.interests == s1.interests,
        s2.user_interests == s1.user_interests,
        s2.messages == s1.messages,
        s2.next_match_id == s1.next_match_id,
        r1 is Ok && r2 is Ok ==> ((r1->Ok_0 is Matched) <==> (r2->Ok_0 is Matched)),
{
    if liker == liked || !has_user(s0, liked) {
        // Both calls are rejected before touching anything.
        assert(s1 == s0 && s2 == s1);
    } else {
        assert(has_user(s1, liked));
        // The second upsert rewrites the same row with the same verdict.
        lemma_upsert_sets_decision(s0, s1, liker, liked, v, now1);
        let k1 = decision_index(s1, liker, liked);
        assert(is_decision_row(s1.likes@[k1], liker, liked));
        assert(s1.likes@[k1].is_like == v) by {
            if has_decision(s0, liker, liked) {
                let k0 = decision_index(s0, liker, liked);
                assert(is_decision_row(s1.likes@[k0], liker, liked));
                s1.lemma_decision_index_agrees(k0, liker, liked);
            } else {
                let k0 = s1.likes@.len() - 1;
                assert(is_decision_row(s1.likes@[k0], liker, liked));
                s1.lemma_decision_index_agrees(k0, liker, liked);
            }
        }
        assert(s2.likes@ =~= s1.likes@) by {
            assert(has_decision(s1, liker, liked));
            assert(s2.likes@.len() == s1.likes@.len());
            assert forall|j: int| 0 <= j < s1.likes@.len() implies s2.likes@[j]
                == s1.likes@[j] by {
                if j == k1 {
                    assert(s2.likes@[k1].liker_id == liker);
                    assert(s2.likes@[k1].liked_id == liked);
                    assert(s2.likes@[k1].is_like == v);
                    assert(s2.likes@[k1].created_at == s1.likes@[k1].created_at);
                }
            }
        }
        // The reverse decision is untouched by the first upsert, so the
        // second call sees the same reciprocity.
        crate::matching::lemma_upsert_preserves_other_decisions(
            s0,
            s1,
            liker,
            liked,
            v,
            now1,
            liked,
            liker,
        );
        if v && spec_likes(s0, liked, liker) {
            if has_match_between(s0, liker, liked) {
                assert(s1.matches == s0.matches);
                assert(has_match_between(s1, liker, liked));
            } else if s0.next_match_id == i64::MAX {
                assert(s1.matches == s0.matches);
                assert(s1.next_match_id == i64::MAX);
            } else {
                // The first call materialized the match; the second
                // call finds it.
                let k = s1.matches@.len() - 1;
                assert(is_match_row(s1.matches@[k], liker, liked));
                assert(has_match_between(s1, liker, liked));
            }
        }
    }
}

/// A match between `a` and `b` is one between `b` and `a`: the
/// canonical row does not care who is named first.
pub proof fn lemma_match_between_symmetric(s: Store, a: int, b: int)
    requires
        has_match_between(s, a, b),
    ensures
        has_match_between(s, b, a),
{
    let k = choose|k: int|
        0 <= k < s.matches@.len() && #[trigger] is_match_row(s.matches@[k], a, b);
    assert(is_match_row(s.matches@[k], b, a));
}

/// **Symmetry.** If `a` likes `b` and `b` likes `a` — in either order,
/// since the statement is symmetric in the two submissions — exactly
/// one match row between them exists afterwards, canonically ordered
/// `(min, max)`.
pub proof fn lemma_mutual_likes_form_one_match(
    s0: Store,
    s1: Store,
    s2: Store,
    a: int,
    b: int,
    now1: Seq<char>,
    now2: Seq<char>,
    r1: Result<LikeOutcome, AppError>,
    r2: Result<LikeOutcome, AppError>,
)
    requires
        s0.wf(),
        s1.wf(),
        s2.wf(),
        a != b,
        has_user(s0, a),
        has_user(s0, b),
        s0.next_match_id < i64::MAX,
        like_submitted(s0, s1, a, b, true, now1, r1),
        like_submitted(s1, s2, b, a, true, now2, r2),
    ensures
        has_match_between(s2, a, b),
        match_row_unique(s2, a, b),
{
    // After the first call, a's like toward b is on the ledger.
    lemma_upsert_sets_decision(s0, s1, a, b, true, now1);
    assert(has_user(s1, a));
    // First call: whatever it did, it kept or created at most the one
    // canonical row, and left the id headroom intact unless it created.
    if spec_likes(s0, b, a) {
        if has_match_between(s0, a, b) {
            assert(has_match_between(s1, a, b));
        } else if s0.next_match_id < i64::MAX {
            let k = s1.matches@.len() - 1;
            assert(is_match_row(s1.matches@[k], a, b));
            assert(has_match_between(s1, a, b));
        }
        lemma_match_between_symmetric(s1, a, b);
        assert(has_match_between(s1, b, a));
        assert(s2.matches == s1.matches);
        assert(has_match_between(s2, a, b));
    } else {
        // The first call could not match; the second finds a's like.
        assert(s1.matches == s0.matches);
        assert(s1.next_match_id == s0.next_match_id);
        assert(spec_likes(s1, a, b));
        if has_match_between(s1, b, a) {
            assert(s2.matches == s1.matches);
            assert(has_match_between(s2, b, a));
            lemma_match_between_symmetric(s2, b, a);
            assert(has_match_between(s2, a, b));
        } else {
            let k = s2.matches@.len() - 1;
            assert(is_match_row(s2.matches@[k], b, a));
            assert(is_match_row(s2.matches@[k], a, b));
            assert(has_match_between(s2, a, b));
        }
    }
}

/// There is at most one match row for the unordered pair `{a, b}`, and
/// it carries the canonical `(min, max)` orientation.
pub open spec fn match_row_unique(s: Store, a: int, b: int) -> bool {
    forall|k1: int, k2: int|
        #![trigger s.matches@[k1], s.matches@[k2]]
        0 <= k1 < s.matches@.len() && 0 <= k2 < s.matches@.len() && is_match_row(
            s.matches@[k1],
            a,
            b,
        ) && is_match_row(s.matches@[k2], a, b) ==> k1 == k2
}

/// In a well-formed store the canonical row really is unique.
pub proof fn lemma_wf_match_row_unique(s: Store, a: int, b: int)
    requires
        s.matches_wf(),
    ensures
        match_row_unique(s, a, b),
{
    assert forall|k1: int, k2: int|
        #![trigger s.matches@[k1], s.matches@[k2]]
        0 <= k1 < s.matches@.len() && 0 <= k2 < s.matches@.len() && is_match_row(
            s.matches@[k1],
            a,
            b,
        ) && is_match_row(s.matches@[k2], a, b) implies k1 == k2 by {
        if k1 < k2 {
            assert(!(s.matches@[k1].user1_id == s.matches@[k2].user1_id && s.matches@[k1].user2_id
                == s.matches@[k2].user2_id));
        } else if k2 < k1 {
            assert(!(s.matches@[k2].user1_id == s.matches@[k1].user1_id && s.matches@[k2].user2_id
                == s.matches@[k1].user2_id));
        }
    }
}

/// A further like between already-matched users creates no duplicate:
/// the match table is left untouched.
pub proof fn lemma_repeat_like_creates_no_duplicate(
    s: Store,
    s_next: Store,
    liker: int,
    liked: int,
    v: bool,
    now: Seq<char>,
    r: Result<LikeOutcome, AppError>,
)
    requires
        s.wf(),
        has_match_between(s, liker, liked),
        like_submitted(s, s_next, liker, liked, v, now, r),
    ensures
        s_next.matches == s.matches,
        s_next.next_match_id == s.next_match_id,
{
}

/// **Non-mutuality.** `a` likes `b` while `b` has not liked `a` back:
/// no match comes to exist, and `b`'s later pass changes nothing about
/// that.
pub proof fn lemma_no_reciprocity_no_match(
    s0: Store,
    s1: Store,
    s2: Store,
    a: int,
    b: int,
    now1: Seq<char>,
    now2: Seq<char>,
    r1: Result<LikeOutcome, AppError>,
    r2: Result<LikeOutcome, AppError>,
)
    requires
        s0.wf(),
        s1.wf(),
        !spec_likes(s0, b, a),
        !has_match_between(s0, a, b),
        like_submitted(s0, s1, a, b, true, now1, r1),
        like_submitted(s1, s2, b, a, false, now2, r2),
    ensures
        !has_match_between(s1, a, b),
        r1 is Ok ==> r1->Ok_0 is NoMatch,
        !has_match_between(s2, a, b),
        r2 is Ok ==> r2->Ok_0 is NoMatch,
{
    if a == b || !has_user(s0, b) {
        assert(s1 == s0);
    } else {
        assert(s1.matches == s0.matches);
    }
    assert(!has_match_between(s1, a, b));
    if b == a || !has_user(s1, a) {
        assert(s2 == s1);
    } else {
        assert(s2.matches == s1.matches);
    }
    assert(!has_match_between(s2, a, b));
}

/// **Exclusion.** Once `a` has recorded any decision toward `b` — like
/// or pass — `b` is no longer eligible for `a`'s feed, and therefore
/// never appears in any ranking the engine returns for `a`.
pub proof fn lemma_decision_excludes_candidate(
    s0: Store,
    s1: Store,
    a: int,
    b: int,
    v: bool,
    now: Seq<char>,
    r: Result<LikeOutcome, AppError>,
    out: Seq<RankedCandidate>,
)
    requires
        s0.wf(),
        s1.wf(),
        a != b,
        has_user(s0, b),
        like_submitted(s0, s1, a, b, v, now, r),
    ensures
        !eligible(s1, a, b),
        ranking_post(s1, a, out) ==> !in_ranking(out, b),
{
    lemma_upsert_sets_decision(s0, s1, a, b, v, now);
    assert(!eligible(s1, a, b));
    if ranking_post(s1, a, out) && in_ranking(out, b) {
        let i = choose|i: int| 0 <= i < out.len() && #[trigger] out[i].user_id == b;
        assert(eligible(s1, a, out[i].user_id as int));
        assert(false);
    }
}

/// **Self-exclusion.** A user never appears in their own candidate
/// list: every listed entry is eligible, and eligibility rules the
/// requester out.
pub proof fn lemma_self_never_listed(s: Store, me: int, out: Seq<RankedCandidate>)
    requires
        ranking_post(s, me, out),
    ensures
        !in_ranking(out, me),
{
    if in_ranking(out, me) {
        let i = choose|i: int| 0 <= i < out.len() && #[trigger] out[i].user_id == me;
        assert(eligible(s, me, out[i].user_id as int));
        assert(false);
    }
}

/// **Cap and order.** With at least [`MAX_CANDIDATES`] distinct
/// eligible candidates, the ranking holds exactly [`MAX_CANDIDATES`]
/// entries; and whenever eligible candidates never tie on score, the
/// listed scores are strictly descending.
pub proof fn lemma_cap_and_strict_order(
    s: Store,
    me: int,
    out: Seq<RankedCandidate>,
    cands: Seq<int>,
)
    requires
        s.wf(),
        ranking_post(s, me, out),
        cands.no_duplicates(),
        cands.len() >= MAX_CANDIDATES,
        forall|i: int| 0 <= i < cands.len() ==> eligible(s, me, #[trigger] cands[i]),
    ensures
        out.len() == MAX_CANDIDATES,
        (forall|c1: int, c2: int|
            eligible(s, me, c1) && eligible(s, me, c2) && c1 != c2 ==> crate::ranking::spec_score(
                s,
                me,
                c1,
            ) != crate::ranking::spec_score(s, me, c2)) ==> (forall|i: int, j: int|
            #![trigger out[i], out[j]]
            0 <= i < j < out.len() ==> out[i].score > out[j].score),
{
    broadcast use vstd::seq_lib::group_seq_properties;

    if out.len() < MAX_CANDIDATES {
        // Then nobody eligible is left out, so all of `cands` appears
        // among the at most 49 distinct listed ids: impossible.
        let cset = cands.to_set();
        cands.unique_seq_to_set();
        let ids = out.map_values(|e: RankedCandidate| e.user_id as int);
        let oset = ids.to_set();
        ids.lemma_cardinality_of_set();
        assert(cset.subset_of(oset)) by {
            assert forall|c: int| cset.contains(c) implies oset.contains(c) by {
                let i = choose|i: int| 0 <= i < cands.len() && cands[i] == c;
                assert(eligible(s, me, cands[i]));
                assert(in_ranking(out, c));
                let j = choose|j: int| 0 <= j < out.len() && #[trigger] out[j].user_id == c;
                assert(ids[j] == c);
                assert(ids.contains(c));
            }
        }
        vstd::set_lib::lemma_len_subset(cset, oset);
        assert(false);
    }
    assert forall|i: int, j: int|
        #![trigger out[i], out[j]]
        (forall|c1: int, c2: int|
            eligible(s, me, c1) && eligible(s, me, c2) && c1 != c2 ==> crate::ranking::spec_score(
                s,
                me,
                c1,
            ) != crate::ranking::spec_score(s, me, c2)) && 0 <= i < j < out.len() implies out[i].score
        > out[j].score by {
        assert(crate::ranking::outranks(s, me, out[i].user_id as int, out[j].user_id as int));
        assert(eligible(s, me, out[i].user_id as int));
        assert(eligible(s, me, out[j].user_id as int));
    }
}

/// **Race.** Two simultaneous first-time likes of each other are
/// serialized by the store in one of two orders; this covers each
/// order by symmetry of `a` and `b`. Whichever side lands second sees
/// the match; the other does not — so, combined, exactly one of the
/// two requests observes `matched`.
pub proof fn lemma_race_reports_one_match(
    s0: Store,
    s1: Store,
    s2: Store,
    a: int,
    b: int,
    now1: Seq<char>,
    now2: Seq<char>,
    r1: Result<LikeOutcome, AppError>,
    r2: Result<LikeOutcome, AppError>,
)
    requires
        s0.wf(),
        s1.wf(),
        s2.wf(),
        a != b,
        has_user(s0, a),
        has_user(s0, b),
        !spec_likes(s0, b, a),
        s0.next_match_id < i64::MAX,
        like_submitted(s0, s1, a, b, true, now1, r1),
        like_submitted(s1, s2, b, a, true, now2, r2),
    ensures
        r1 == Ok::<LikeOutcome, AppError>(LikeOutcome::NoMatch),
        r2 is Ok && r2->Ok_0 is Matched,
{
    lemma_upsert_sets_decision(s0, s1, a, b, true, now1);
    assert(spec_likes(s1, a, b));
    assert(has_user(s1, a));
    assert(s1.next_match_id == s0.next_match_id);
}

} // verus!
