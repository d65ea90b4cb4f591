use campus_match::matching::LikeOutcome;
use campus_match::models::NewLike;
use campus_match::ranking::RankedCandidate;
use campus_match::store::Store;
use campus_match::AppError;

/// A store with `n` users (ids 1..=n), no profiles, no decisions.
fn store_with_users(n: i64) -> Store {
    let mut store = Store::new();
    let mut i: i64 = 1;
    while i <= n {
        let oid = format!("oid-{}", i);
        let user = store
            .upsert_user_by_oid(&oid, None, None, None, None, None, None, "t0")
            .expect("creating a user should succeed");
        assert_eq!(user.id, i);
        i += 1;
    }
    store
}

fn set_profile(store: &mut Store, id: i64, major: &str, rso: bool, interests: &[&str]) {
    store
        .apply_profile_update(id, None, None, Some(major.to_string()), None, "t1")
        .expect("profile update should succeed");
    if rso {
        // The RSO flag is part of the user row; flip it directly, as a
        // seed script would.
        let k = store.find_user(id).expect("user exists");
        store.users[k].user.is_rso = true;
    }
    let names: Vec<String> = interests.iter().map(|s| s.to_string()).collect();
    store
        .replace_interests(id, &names)
        .expect("interest replacement should succeed");
}

#[test]
fn mutual_like_forms_exactly_one_canonical_match() {
    let mut store = store_with_users(2);
    let r1 = store.submit_like(1, 2, true, "t2").unwrap();
    assert_eq!(r1, LikeOutcome::NoMatch);
    let r2 = store.submit_like(2, 1, true, "t3").unwrap();
    match r2 {
        LikeOutcome::Matched(m) => {
            assert_eq!(m.user1_id, 1);
            assert_eq!(m.user2_id, 2);
        },
        LikeOutcome::NoMatch => panic!("mutual like must match"),
    }
    assert_eq!(store.matches.len(), 1);
    // A third attempt from either side creates no duplicate.
    let r3 = store.submit_like(1, 2, true, "t4").unwrap();
    match r3 {
        LikeOutcome::Matched(m) => assert_eq!(m.id, store.matches[0].id),
        LikeOutcome::NoMatch => panic!("already-matched like must report the match"),
    }
    assert_eq!(store.matches.len(), 1);
}

#[test]
fn mutual_like_is_canonical_regardless_of_order() {
    // The higher id likes first this time.
    let mut store = store_with_users(2);
    store.submit_like(2, 1, true, "t2").unwrap();
    let r = store.submit_like(1, 2, true, "t3").unwrap();
    match r {
        LikeOutcome::Matched(m) => {
            assert_eq!(m.user1_id, 1);
            assert_eq!(m.user2_id, 2);
        },
        LikeOutcome::NoMatch => panic!("mutual like must match"),
    }
    assert_eq!(store.matches.len(), 1);
}

#[test]
fn resubmitting_a_decision_is_idempotent() {
    let mut store = store_with_users(2);
    store.submit_like(1, 2, true, "t2").unwrap();
    let likes_before = store.likes.clone();
    let matches_before = store.matches.clone();
    let r = store.submit_like(1, 2, true, "t9").unwrap();
    assert_eq!(r, LikeOutcome::NoMatch);
    assert_eq!(store.likes, likes_before);
    assert_eq!(store.matches, matches_before);
}

#[test]
fn non_mutual_like_forms_no_match_and_pass_does_not_matter() {
    let mut store = store_with_users(2);
    let r1 = store.submit_like(1, 2, true, "t2").unwrap();
    assert_eq!(r1, LikeOutcome::NoMatch);
    assert!(store.matches.is_empty());
    // B later passes on A: still no match.
    let r2 = store.submit_like(2, 1, false, "t3").unwrap();
    assert_eq!(r2, LikeOutcome::NoMatch);
    assert!(store.matches.is_empty());
}

#[test]
fn race_of_two_likes_reports_matched_exactly_once() {
    // The two concurrent requests are serialized by the store's
    // upserts; both orders give one NoMatch and one Matched.
    for flip in [false, true] {
        let mut store = store_with_users(2);
        let (first, second) = if flip { (2, 1) } else { (1, 2) };
        let r1 = store.submit_like(first, second, true, "t2").unwrap();
        let r2 = store.submit_like(second, first, true, "t3").unwrap();
        let matched = |r: &LikeOutcome| matches!(r, LikeOutcome::Matched(_));
        assert!(!matched(&r1));
        assert!(matched(&r2));
        assert_eq!(store.matches.len(), 1);
    }
}

#[test]
fn pass_overwrites_like_and_keeps_one_ledger_row() {
    let mut store = store_with_users(2);
    store.submit_like(1, 2, true, "t2").unwrap();
    store.submit_like(1, 2, false, "t3").unwrap();
    assert_eq!(store.likes.len(), 1);
    assert!(!store.likes[0].is_like);
    // The row keeps its original timestamp.
    assert_eq!(store.likes[0].created_at, "t2");
}

#[test]
fn matches_formed_are_permanent_even_after_a_pass() {
    let mut store = store_with_users(2);
    store.submit_like(1, 2, true, "t2").unwrap();
    store.submit_like(2, 1, true, "t3").unwrap();
    assert_eq!(store.matches.len(), 1);
    store.submit_like(1, 2, false, "t4").unwrap();
    assert_eq!(store.matches.len(), 1);
}

#[test]
fn self_like_is_rejected_before_any_write() {
    let mut store = store_with_users(1);
    let r = store.submit_like(1, 1, true, "t2");
    match r {
        Err(AppError::Validation(_)) => {},
        other => panic!("self-like must be a validation failure, got {:?}", other),
    }
    assert!(store.likes.is_empty());
}

#[test]
fn like_toward_missing_user_is_a_storage_failure() {
    let mut store = store_with_users(1);
    let r = store.submit_like(1, 99, true, "t2");
    match r {
        Err(AppError::Db(_)) => {},
        other => panic!("dangling like must surface a storage failure, got {:?}", other),
    }
    assert!(store.likes.is_empty());
    assert!(store.matches.is_empty());
}

#[test]
fn score_example_shared_interest_major_and_rso() {
    // A: {Hiking, Coffee}, major CS, rso = false.
    // B: {Coffee, Chess}, major CS, rso = true.
    // 3 x 1 shared + 2 same major + 0 differing rso = 5.
    let mut store = store_with_users(2);
    set_profile(&mut store, 1, "CS", false, &["Hiking", "Coffee"]);
    set_profile(&mut store, 2, "CS", true, &["Coffee", "Chess"]);
    assert_eq!(store.compatibility_score(1, 2), 5);
    assert_eq!(store.compatibility_score(2, 1), 5);
}

#[test]
fn score_counts_all_components() {
    let mut store = store_with_users(2);
    set_profile(&mut store, 1, "Math", true, &["A", "B", "C"]);
    set_profile(&mut store, 2, "Math", true, &["C", "A", "B"]);
    // 3 shared interests, same major, same rso: 9 + 2 + 1.
    assert_eq!(store.compatibility_score(1, 2), 12);
}

#[test]
fn ranking_excludes_self_and_acted_on_users() {
    let mut store = store_with_users(4);
    store.submit_like(1, 2, true, "t2").unwrap();
    store.submit_like(1, 3, false, "t3").unwrap();
    let feed = store.rank_candidates(1);
    let ids: Vec<i64> = feed.iter().map(|e| e.user_id).collect();
    assert!(!ids.contains(&1), "self must never appear");
    assert!(!ids.contains(&2), "liked user must never reappear");
    assert!(!ids.contains(&3), "passed user must never reappear");
    assert_eq!(ids, vec![4]);
}

#[test]
fn ranking_caps_at_fifty_strictly_descending() {
    // 80 eligible candidates with pairwise distinct scores.
    let mut store = store_with_users(81);
    // Distinct interest sets: candidate k carries interests 1..=k-1
    // shared with user 1, who carries all of them.
    let all: Vec<String> = (0..80).map(|i| format!("tag{}", i)).collect();
    store.replace_interests(1, &all).unwrap();
    for cand in 2..=81i64 {
        let names: Vec<String> = (0..(cand - 1) as usize).map(|i| format!("tag{}", i)).collect();
        store.replace_interests(cand, &names).unwrap();
    }
    let feed = store.rank_candidates(1);
    assert_eq!(feed.len(), 50);
    for w in feed.windows(2) {
        assert!(w[0].score > w[1].score, "scores must be strictly descending");
    }
    // The best candidate shares the most interests.
    assert_eq!(feed[0].user_id, 81);
}

#[test]
fn ranking_breaks_ties_by_ascending_id() {
    let mut store = store_with_users(4);
    // All candidates tie at rso-only agreement.
    let feed = store.rank_candidates(1);
    let ids: Vec<i64> = feed.iter().map(|e| e.user_id).collect();
    assert_eq!(ids, vec![2, 3, 4]);
}

#[test]
fn ranking_is_deterministic_for_a_fixed_store() {
    let mut store = store_with_users(10);
    set_profile(&mut store, 1, "CS", false, &["Coffee"]);
    set_profile(&mut store, 4, "CS", true, &["Coffee", "Chess"]);
    let a: Vec<RankedCandidate> = store.rank_candidates(1);
    let b: Vec<RankedCandidate> = store.rank_candidates(1);
    assert_eq!(a, b);
}

#[test]
fn ranking_tolerates_new_user_with_no_interests() {
    let mut store = store_with_users(2);
    let feed = store.rank_candidates(1);
    assert_eq!(feed.len(), 1);
    // Both rso flags are false: one point, nothing else.
    assert_eq!(feed[0].score, 1);
}

#[test]
fn match_responses_list_newest_first_with_other_profile() {
    let mut store = store_with_users(3);
    store.submit_like(1, 2, true, "t2").unwrap();
    store.submit_like(2, 1, true, "t3").unwrap();
    store.submit_like(3, 1, true, "t4").unwrap();
    store.submit_like(1, 3, true, "t5").unwrap();
    let mine = store.match_responses_for(1).unwrap();
    assert_eq!(mine.len(), 2);
    // Newest match first; each response names the other side.
    assert!(mine[0].id > mine[1].id);
    assert_eq!(mine[0].user.id, 3);
    assert_eq!(mine[1].user.id, 2);
    let theirs = store.match_responses_for(2).unwrap();
    assert_eq!(theirs.len(), 1);
    assert_eq!(theirs[0].user.id, 1);
}

#[test]
fn submit_like_payload_carries_target_and_verdict() {
    let payload = NewLike { liked_id: 7, is_like: true };
    assert_eq!(payload.liked_id, 7);
    assert!(payload.is_like);
}
