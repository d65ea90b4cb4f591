//! The compatibility ranker: scores and orders every user the
//! requester has not yet acted on.
//!
//! Scoring is three points per shared interest, two for an identical
//! (case-sensitive) major, one for agreeing RSO-membership flags — an
//! unweighted sum with no normalization. The ranking is descending by
//! score with ties broken by ascending candidate id, capped at
//! [`MAX_CANDIDATES`] entries. It reads the store and changes nothing,
//! so for a fixed store repeated calls return identical output.

use vstd::prelude::*;

use crate::store::{
    eligible, has_user, has_user_interest, is_assoc_row, user_rec, Store,
};

verus! {

/// The ranking never returns more candidates than this.
pub const MAX_CANDIDATES: usize = 50;

/// One entry of the ranked feed: who, and how compatible.
#[derive(Clone, Copy, Debug, PartialEq, Eq, Structural)]
pub struct RankedCandidate {
    pub user_id: i64,
    pub score: i64,
}

/// The set of interest ids attached to user `u`.
pub open spec fn user_interest_ids(s: Store, u: int) -> Set<int> {
    Set::new(|i: int| has_user_interest(s, u, i))
}

/// The interests `a` and `b` have in common.
pub open spec fn shared_interests(s: Store, a: int, b: int) -> Set<int> {
    user_interest_ids(s, a).intersect(user_interest_ids(s, b))
}

/// Do `a` and `b` both declare a major, and the same one,
/// character for character?
pub open spec fn same_major(s: Store, a: int, b: int) -> bool {
    &&& user_rec(s, a).user.major matches Some(ma)
    &&& user_rec(s, b).user.major matches Some(mb)
    &&& ma@ == mb@
}

/// Do `a` and `b` report the same RSO membership (including both false)?
pub open spec fn same_rso(s: Store, a: int, b: int) -> bool {
    user_rec(s, a).user.is_rso == user_rec(s, b).user.is_rso
}

/// The compatibility score of candidate `c` relative to requester `me`:
/// `3 x |shared interests| + 2 [same major] + 1 [same RSO flag]`.
pub open spec fn spec_score(s: Store, me: int, c: int) -> int {
    3 * shared_interests(s, me, c).len() + (if same_major(s, me, c) {
        2int
    } else {
        0int
    }) + (if same_rso(s, me, c) {
        1int
    } else {
        0int
    })
}

/// Does `c1` rank strictly ahead of `c2` in `me`'s feed?
/// Higher score first; equal scores are broken by the smaller id.
pub open spec fn outranks(s: Store, me: int, c1: int, c2: int) -> bool {
    ||| spec_score(s, me, c1) > spec_score(s, me, c2)
    ||| (spec_score(s, me, c1) == spec_score(s, me, c2) && c1 < c2)
}

/// Does candidate id `c` appear in the ranking `out`?
pub open spec fn in_ranking(out: Seq<RankedCandidate>, c: int) -> bool {
    exists|i: int| 0 <= i < out.len() && #[trigger] out[i].user_id == c
}

/// Everything `rank_candidates` promises about its output. Together
/// these clauses determine the output uniquely: the entries are exactly
/// the best-ranked eligible candidates, in rank order, truthfully
/// scored, capped at [`MAX_CANDIDATES`].
pub open spec fn ranking_post(s: Store, me: int, out: Seq<RankedCandidate>) -> bool {
    &&& out.len() <= MAX_CANDIDATES
    &&& (forall|i: int|
        0 <= i < out.len() ==> eligible(s, me, #[trigger] out[i].user_id as int) && out[i].score
            == spec_score(s, me, out[i].user_id as int))
    &&& (forall|i: int, j: int|
        #![trigger out[i], out[j]]
        0 <= i < j < out.len() ==> outranks(s, me, out[i].user_id as int, out[j].user_id as int))
    &&& (forall|c: int|
        #![trigger eligible(s, me, c)]
        eligible(s, me, c) && !in_ranking(out, c) ==> out.len() == MAX_CANDIDATES && (forall|i: int|
            0 <= i < out.len() ==> outranks(s, me, #[trigger] out[i].user_id as int, c)))
}

/// The sorting key, phrased on entries alone: does `x` come strictly
/// before `y`?
pub open spec fn entry_before(x: RankedCandidate, y: RankedCandidate) -> bool {
    ||| x.score > y.score
    ||| (x.score == y.score && x.user_id < y.user_id)
}

/// Executable test for [`entry_before`].
fn ranks_ahead(x: RankedCandidate, y: RankedCandidate) -> (r: bool)
    ensures
        r == entry_before(x, y),
{
    x.score > y.score || (x.score == y.score && x.user_id < y.user_id)
}

/// Insert one entry into an already strictly sorted run, keeping it
/// strictly sorted. Requires the new entry's id to be fresh, so the
/// order stays strict.
fn insert_by_rank(sorted: &mut Vec<RankedCandidate>, x: RankedCandidate)
    requires
        forall|p: int, q: int|
            #![trigger old(sorted)@[p], old(sorted)@[q]]
            0 <= p < q < old(sorted)@.len() ==> entry_before(old(sorted)@[p], old(sorted)@[q]),
        forall|p: int|
            0 <= p < old(sorted)@.len() ==> #[trigger] old(sorted)@[p].user_id != x.user_id,
    ensures
        final(sorted)@.len() == old(sorted)@.len() + 1,
        forall|p: int, q: int|
            #![trigger final(sorted)@[p], final(sorted)@[q]]
            0 <= p < q < final(sorted)@.len() ==> entry_before(final(sorted)@[p], final(sorted)@[q]),
        final(sorted)@.to_multiset() == old(sorted)@.to_multiset().insert(x),
{
    let n = sorted.len();
    let mut pos: usize = 0;
    while pos < n && ranks_ahead(sorted[pos], x)
        invariant
            *sorted == *old(sorted),
            n == sorted@.len(),
            pos <= n,
            forall|q: int| 0 <= q < pos ==> entry_before(#[trigger] sorted@[q], x),
        decreases n - pos,
    {
        pos += 1;
    }
    let ghost before = sorted@;
    sorted.insert(pos, x);
    proof {
        before.insert_ensures(pos as int, x);
        let new_len = sorted@.len() as int;
        // The run stays strictly sorted.
        assert forall|p: int, q: int|
            #![trigger sorted@[p], sorted@[q]]
            0 <= p < q < new_len implies entry_before(sorted@[p], sorted@[q]) by {
            if q < pos {
                assert(sorted@[p] == before[p] && sorted@[q] == before[q]);
            } else if q == pos {
                assert(sorted@[p] == before[p] && sorted@[q] == x);
            } else if p == pos {
                // x goes ahead of everything from the old position on.
                assert(sorted@[p] == x && sorted@[q] == before[q - 1]);
                assert((pos as int) < before.len());
                assert(!entry_before(before[pos as int], x));
                assert(before[pos as int].user_id != x.user_id);
                assert(entry_before(x, before[pos as int]));
                if q - 1 > pos {
                    assert(entry_before(before[pos as int], before[q - 1]));
                }
            } else if p < pos {
                assert(sorted@[p] == before[p] && sorted@[q] == before[q - 1]);
                assert(p < q - 1);
            } else {
                assert(sorted@[p] == before[p - 1] && sorted@[q] == before[q - 1]);
            }
        }
        assert(sorted@[pos as int] == x);
        // One insertion changes exactly the entries' multiset.
        vstd::seq_lib::to_multiset_insert(before, pos as int, x);
    }
}

/// Sort a batch of distinct candidates into rank order: descending
/// score, ties broken by ascending id. The result holds exactly the
/// input entries.
fn sort_by_rank(cands: &Vec<RankedCandidate>) -> (sorted: Vec<RankedCandidate>)
    requires
        forall|p: int, q: int|
            #![trigger cands@[p], cands@[q]]
            0 <= p < q < cands@.len() ==> cands@[p].user_id != cands@[q].user_id,
    ensures
        sorted@.len() == cands@.len(),
        sorted@.to_multiset() == cands@.to_multiset(),
        forall|p: int, q: int|
            #![trigger sorted@[p], sorted@[q]]
            0 <= p < q < sorted@.len() ==> entry_before(sorted@[p], sorted@[q]),
{
    let m = cands.len();
    let mut sorted: Vec<RankedCandidate> = Vec::new();
    let mut i: usize = 0;
    proof {
        assert(sorted@ =~= cands@.subrange(0, 0));
    }
    while i < m
        invariant
            m == cands@.len(),
            i <= m,
            sorted@.len() == i,
            forall|p: int, q: int|
                #![trigger cands@[p], cands@[q]]
                0 <= p < q < cands@.len() ==> cands@[p].user_id != cands@[q].user_id,
            sorted@.to_multiset() == cands@.subrange(0, i as int).to_multiset(),
            forall|p: int, q: int|
                #![trigger sorted@[p], sorted@[q]]
                0 <= p < q < sorted@.len() ==> entry_before(sorted@[p], sorted@[q]),
        decreases m - i,
    {
        let x = cands[i];
        let ghost prefix = cands@.subrange(0, i as int);
        proof {
            broadcast use vstd::seq_lib::group_to_multiset_ensures;
            // x's id is fresh for the sorted run: everything in it came
            // from an earlier position of the (all-distinct) input.
            assert forall|p: int| 0 <= p < sorted@.len() implies #[trigger] sorted@[p].user_id
                != x.user_id by {
                assert(sorted@.contains(sorted@[p]));
                assert(sorted@.to_multiset().count(sorted@[p]) > 0);
                assert(prefix.contains(sorted@[p]));
                let k = choose|k: int| 0 <= k < prefix.len() && prefix[k] == sorted@[p];
                assert(cands@[k] == sorted@[p]);
                assert(cands@[k].user_id != cands@[i as int].user_id);
            }
        }
        let ghost before = sorted@;
        insert_by_rank(&mut sorted, x);
        proof {
            broadcast use vstd::seq_lib::group_to_multiset_ensures;
            assert(cands@.subrange(0, i + 1) =~= prefix.push(x));
            assert(prefix.push(x).to_multiset() =~= prefix.to_multiset().insert(x));
        }
        i += 1;
    }
    proof {
        assert(cands@.subrange(0, m as int) =~= cands@);
    }
    sorted
}

impl Store {
    /// Does user `u` carry interest `i`?
    pub fn has_interest_pair(&self, u: i64, i: i64) -> (r: bool)
        ensures
            r == has_user_interest(*self, u as int, i as int),
    {
        let n = self.user_interests.len();
        let mut k: usize = 0;
        while k < n
            invariant
                n == self.user_interests@.len(),
                k <= n,
                forall|j: int|
                    0 <= j < k ==> !#[trigger] is_assoc_row(
                        self.user_interests@[j],
                        u as int,
                        i as int,
                    ),
            decreases n - k,
        {
            if self.user_interests[k].user_id == u && self.user_interests[k].interest_id == i {
                proof {
                    assert(is_assoc_row(self.user_interests@[k as int], u as int, i as int));
                }
                return true;
            }
            k += 1;
        }
        false
    }

    /// How many interests `a` and `b` share.
    pub fn shared_interest_count(&self, a: i64, b: i64) -> (count: usize)
        requires
            self.wf(),
        ensures
            count == shared_interests(*self, a as int, b as int).len(),
            count <= self.user_interests@.len(),
    {
        let n = self.user_interests.len();
        let mut count: usize = 0;
        let ghost mut seen: Set<int> = Set::empty();
        let mut k: usize = 0;
        while k < n
            invariant
                self.wf(),
                n == self.user_interests@.len(),
                k <= n,
                count == seen.len(),
                count <= k,
                seen.finite(),
                forall|x: int|
                    #![trigger seen.contains(x)]
                    seen.contains(x) <==> (exists|j: int|
                        0 <= j < k && #[trigger] is_assoc_row(self.user_interests@[j], b as int, x)
                            && has_user_interest(*self, a as int, x)),
            decreases n - k,
        {
            let row = self.user_interests[k];
            if row.user_id == b && self.has_interest_pair(a, row.interest_id) {
                proof {
                    let x = row.interest_id as int;
                    if seen.contains(x) {
                        let j = choose|j: int|
                            0 <= j < k && #[trigger] is_assoc_row(
                                self.user_interests@[j],
                                b as int,
                                x,
                            ) && has_user_interest(*self, a as int, x);
                        assert(!(self.user_interests@[j].user_id
                            == self.user_interests@[k as int].user_id
                            && self.user_interests@[j].interest_id
                            == self.user_interests@[k as int].interest_id));
                        assert(false);
                    }
                    seen = seen.insert(x);
                    assert(is_assoc_row(self.user_interests@[k as int], b as int, x));
                }
                count += 1;
            } else {
                proof {
                    assert forall|x: int| #![trigger seen.contains(x)]
                        seen.contains(x) <==> (exists|j: int|
                            0 <= j <= k && #[trigger] is_assoc_row(
                                self.user_interests@[j],
                                b as int,
                                x,
                            ) && has_user_interest(*self, a as int, x)) by {
                        if !seen.contains(x) {
                            if is_assoc_row(self.user_interests@[k as int], b as int, x)
                                && has_user_interest(*self, a as int, x) {
                                assert(self.user_interests@[k as int].user_id == b as int);
                                assert(x == self.user_interests@[k as int].interest_id);
                                assert(false);
                            }
                        }
                    }
                }
            }
            k += 1;
        }
        proof {
            assert(seen =~= shared_interests(*self, a as int, b as int)) by {
                assert forall|x: int| #[trigger] seen.contains(x) implies shared_interests(
                    *self,
                    a as int,
                    b as int,
                ).contains(x) by {
                    let j = choose|j: int|
                        0 <= j < n && #[trigger] is_assoc_row(self.user_interests@[j], b as int, x)
                            && has_user_interest(*self, a as int, x);
                    assert(has_user_interest(*self, b as int, x));
                }
                assert forall|x: int|
                    shared_interests(*self, a as int, b as int).contains(x) implies #[trigger] seen
                    .contains(x) by {
                    assert(has_user_interest(*self, b as int, x));
                    let j = choose|j: int|
                        0 <= j < self.user_interests@.len() && #[trigger] is_assoc_row(
                            self.user_interests@[j],
                            b as int,
                            x,
                        );
                }
            }
        }
        count
    }

    /// The compatibility score of candidate `cand` relative to `me`.
    pub fn compatibility_score(&self, me: i64, cand: i64) -> (score: i64)
        requires
            self.wf(),
            has_user(*self, me as int),
            has_user(*self, cand as int),
        ensures
            score == spec_score(*self, me as int, cand as int),
    {
        let shared = self.shared_interest_count(me, cand);
        proof {
            assert(self.user_interests@.len() <= crate::store::MAX_ASSOCIATIONS);
        }
        let mut score: i64 = 3 * (shared as i64);
        let ka = match self.find_user(me) {
            Some(k) => k,
            None => {
                proof {
                    assert(false);
                }
                0
            },
        };
        let kb = match self.find_user(cand) {
            Some(k) => k,
            None => {
                proof {
                    assert(false);
                }
                0
            },
        };
        proof {
            self.lemma_user_index_agrees(ka as int, me as int);
            self.lemma_user_index_agrees(kb as int, cand as int);
        }
        let ua = &self.users[ka].user;
        let ub = &self.users[kb].user;
        match (&ua.major, &ub.major) {
            (Some(ma), Some(mb)) => {
                if ma.eq(mb) {
                    score += 2;
                }
            },
            _ => {},
        }
        if ua.is_rso == ub.is_rso {
            score += 1;
        }
        score
    }

    /// Every eligible candidate for `me`, each with its score, in no
    /// particular order and with no id repeated.
    fn collect_candidates(&self, me: i64) -> (cands: Vec<RankedCandidate>)
        requires
            self.wf(),
            has_user(*self, me as int),
        ensures
            forall|p: int|
                0 <= p < cands@.len() ==> eligible(
                    *self,
                    me as int,
                    #[trigger] cands@[p].user_id as int,
                ) && cands@[p].score == spec_score(*self, me as int, cands@[p].user_id as int),
            forall|p: int, q: int|
                #![trigger cands@[p], cands@[q]]
                0 <= p < q < cands@.len() ==> cands@[p].user_id != cands@[q].user_id,
            forall|c: int|
                #![trigger eligible(*self, me as int, c)]
                eligible(*self, me as int, c) ==> in_ranking(cands@, c),
    {
        let n = self.users.len();
        let mut cands: Vec<RankedCandidate> = Vec::new();
        let mut idx: usize = 0;
        while idx < n
            invariant
                self.wf(),
                has_user(*self, me as int),
                n == self.users@.len(),
                idx <= n,
                forall|p: int|
                    0 <= p < cands@.len() ==> eligible(
                        *self,
                        me as int,
                        #[trigger] cands@[p].user_id as int,
                    ) && cands@[p].score == spec_score(*self, me as int, cands@[p].user_id as int),
                forall|p: int|
                    0 <= p < cands@.len() ==> exists|k: int|
                        0 <= k < idx && #[trigger] cands@[p].user_id == self.users@[k].user.id,
                forall|p: int, q: int|
                    #![trigger cands@[p], cands@[q]]
                    0 <= p < q < cands@.len() ==> cands@[p].user_id != cands@[q].user_id,
                forall|k: int|
                    0 <= k < idx && eligible(*self, me as int, #[trigger] self.users@[k].user.id
                        as int) ==> in_ranking(cands@, self.users@[k].user.id as int),
            decreases n - idx,
        {
            let uid = self.users[idx].user.id;
            let already = match self.find_decision(me, uid) {
                Some(_) => true,
                None => false,
            };
            if uid != me && !already {
                proof {
                    assert(has_user(*self, uid as int));
                }
                let sc = self.compatibility_score(me, uid);
                let ghost before = cands@;
                cands.push(RankedCandidate { user_id: uid, score: sc });
                proof {
                    assert forall|p: int, q: int|
                        #![trigger cands@[p], cands@[q]]
                        0 <= p < q < cands@.len() implies cands@[p].user_id
                        != cands@[q].user_id by {
                        if q == cands@.len() - 1 {
                            let k = choose|k: int|
                                0 <= k < idx && #[trigger] before[p].user_id
                                    == self.users@[k].user.id;
                            assert(self.users@[k].user.id != self.users@[idx as int].user.id);
                        }
                    }
                    assert(in_ranking(cands@, uid as int)) by {
                        assert(cands@[cands@.len() - 1].user_id == uid);
                    }
                    assert forall|k: int|
                        0 <= k < idx + 1 && eligible(
                            *self,
                            me as int,
                            #[trigger] self.users@[k].user.id as int,
                        ) implies in_ranking(cands@, self.users@[k].user.id as int) by {
                        if k < idx {
                            assert(in_ranking(before, self.users@[k].user.id as int));
                            let p = choose|p: int|
                                0 <= p < before.len() && #[trigger] before[p].user_id
                                    == self.users@[k].user.id as int;
                            assert(cands@[p].user_id == self.users@[k].user.id as int);
                        }
                    }
                }
            } else {
                proof {
                    assert forall|k: int|
                        0 <= k < idx + 1 && eligible(
                            *self,
                            me as int,
                            #[trigger] self.users@[k].user.id as int,
                        ) implies in_ranking(cands@, self.users@[k].user.id as int) by {
                        if k == idx {
                            assert(!eligible(*self, me as int, uid as int));
                        }
                    }
                }
            }
            idx += 1;
        }
        proof {
            assert forall|c: int|
                #![trigger eligible(*self, me as int, c)]
                eligible(*self, me as int, c) implies in_ranking(cands@, c) by {
                let k = choose|k: int|
                    0 <= k < self.users@.len() && #[trigger] self.users@[k].user.id == c;
                assert(in_ranking(cands@, self.users@[k].user.id as int));
            }
        }
        cands
    }

    /// The ranked feed for `me`: every eligible candidate scored, the
    /// best [`MAX_CANDIDATES`] of them in descending rank order.
    ///
    /// Eligible means: any user other than `me` toward whom `me` has
    /// not yet recorded any decision. The call is read-only; with the
    /// store unchanged, every call returns the same feed.
    pub fn rank_candidates(&self, me: i64) -> (out: Vec<RankedCandidate>)
        requires
            self.wf(),
            has_user(*self, me as int),
        ensures
            ranking_post(*self, me as int, out@),
    {
        let cands = self.collect_candidates(me);
        let m = cands.len();
        let mut sorted = sort_by_rank(&cands);

        // Cap the feed.
        let limit = if sorted.len() > MAX_CANDIDATES {
            MAX_CANDIDATES
        } else {
            sorted.len()
        };
        let ghost full = sorted@;
        sorted.truncate(limit);
        proof {
            broadcast use vstd::seq_lib::group_to_multiset_ensures;
            let out = sorted@;
            let s = *self;
            let gme = me as int;
            assert(out == full.subrange(0, limit as int));
            // Every entry of the sorted order is one of the collected
            // candidates: the two hold the same entries.
            assert forall|p: int| #![trigger full[p]] 0 <= p < full.len() implies exists|k: int|
                0 <= k < cands@.len() && #[trigger] cands@[k] == full[p] by {
                assert(full.contains(full[p]));
                assert(full.to_multiset().count(full[p]) > 0);
                assert(cands@.contains(full[p]));
            }
            // Entries are eligible, truthfully scored, and in rank order.
            assert forall|p: int| 0 <= p < out.len() implies eligible(
                s,
                gme,
                #[trigger] out[p].user_id as int,
            ) && out[p].score == spec_score(s, gme, out[p].user_id as int) by {
                assert(out[p] == full[p]);
                let k = choose|k: int| 0 <= k < cands@.len() && #[trigger] cands@[k] == full[p];
            }
            assert forall|p: int, q: int|
                #![trigger out[p], out[q]]
                0 <= p < q < out.len() implies outranks(
                s,
                gme,
                out[p].user_id as int,
                out[q].user_id as int,
            ) by {
                assert(out[p] == full[p] && out[q] == full[q]);
                assert(entry_before(full[p], full[q]));
                let kp = choose|k: int| 0 <= k < cands@.len() && #[trigger] cands@[k] == full[p];
                let kq = choose|k: int| 0 <= k < cands@.len() && #[trigger] cands@[k] == full[q];
            }
            // Whoever is left out ranks no higher than anyone included.
            assert forall|c: int|
                #![trigger eligible(s, gme, c)]
                eligible(s, gme, c) && !in_ranking(out, c) implies out.len() == MAX_CANDIDATES && (
            forall|p: int|
                0 <= p < out.len() ==> outranks(s, gme, #[trigger] out[p].user_id as int, c)) by {
                assert(in_ranking(cands@, c));
                let p0 = choose|p: int| 0 <= p < cands@.len() && #[trigger] cands@[p].user_id == c;
                // The candidate appears somewhere in the full sorted order...
                assert(cands@.contains(cands@[p0]));
                assert(full.to_multiset().count(cands@[p0]) > 0);
                assert(full.contains(cands@[p0]));
                let p1 = choose|p: int| 0 <= p < full.len() && full[p] == cands@[p0];
                // ...and that place can only be beyond the cap.
                if p1 < limit as int {
                    assert(out[p1].user_id == c);
                    assert(false);
                }
                assert(limit < full.len());
                assert(out.len() == MAX_CANDIDATES);
                assert forall|p: int| 0 <= p < out.len() implies outranks(
                    s,
                    gme,
                    #[trigger] out[p].user_id as int,
                    c,
                ) by {
                    assert(entry_before(full[p], full[p1]));
                    assert(out[p] == full[p]);
                    let kk = choose|k: int| 0 <= k < cands@.len() && #[trigger] cands@[k] == full[p];
                    assert(full[p1].score == spec_score(s, gme, c));
                }
            }
        }
        sorted
    }
}

} // verus!
