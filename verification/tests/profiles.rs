use campus_match::models::{CallbackParams, Credentials, LoginParams, NewMessage};
use campus_match::store::Store;
use campus_match::AppError;

fn one_user() -> Store {
    let mut store = Store::new();
    store
        .upsert_user_by_oid(
            "oid-a",
            Some("a@example.edu".to_string()),
            Some("alice".to_string()),
            None,
            Some("tok".to_string()),
            None,
            None,
            "t0",
        )
        .unwrap();
    store
}

#[test]
fn upsert_by_oid_creates_then_updates_in_place() {
    let mut store = one_user();
    assert_eq!(store.users.len(), 1);
    let created = &store.users[0].user;
    assert_eq!(created.id, 1);
    assert_eq!(created.oid, "oid-a");
    assert_eq!(created.email.as_deref(), Some("a@example.edu"));
    assert_eq!(created.created_at, "t0");

    // A second exchange for the same oid rewrites identity fields and
    // tokens but keeps the row, its id and its creation time.
    let updated = store
        .upsert_user_by_oid(
            "oid-a",
            Some("a2@example.edu".to_string()),
            Some("alice2".to_string()),
            None,
            Some("tok2".to_string()),
            Some("refresh".to_string()),
            None,
            "t5",
        )
        .unwrap();
    assert_eq!(store.users.len(), 1);
    assert_eq!(updated.id, 1);
    assert_eq!(updated.email.as_deref(), Some("a2@example.edu"));
    assert_eq!(updated.access_token.as_deref(), Some("tok2"));
    assert_eq!(updated.created_at, "t0");
    assert_eq!(updated.updated_at, "t5");
}

#[test]
fn profile_update_keeps_omitted_fields() {
    let mut store = one_user();
    store
        .apply_profile_update(
            1,
            Some("hello".to_string()),
            None,
            Some("CS".to_string()),
            Some(21),
            "t1",
        )
        .unwrap();
    store.apply_profile_update(1, None, Some("profiles/1".to_string()), None, None, "t2").unwrap();
    let rec = &store.users[0];
    assert_eq!(rec.bio.as_deref(), Some("hello"));
    assert_eq!(rec.image_key.as_deref(), Some("profiles/1"));
    assert_eq!(rec.user.major.as_deref(), Some("CS"));
    assert_eq!(rec.user.age, Some(21));
    assert_eq!(rec.user.updated_at, "t2");
}

#[test]
fn profile_update_of_missing_user_fails_without_state_change() {
    let mut store = one_user();
    let r = store.apply_profile_update(9, Some("x".to_string()), None, None, None, "t1");
    assert!(matches!(r, Err(AppError::Db(_))));
    assert_eq!(store.users[0].bio, None);
}

#[test]
fn interests_deduplicate_by_name() {
    let mut store = one_user();
    let a = store.ensure_interest("Coffee").unwrap();
    let b = store.ensure_interest("Chess").unwrap();
    let c = store.ensure_interest("Coffee").unwrap();
    assert_eq!(a, c);
    assert_ne!(a, b);
    assert_eq!(store.interests.len(), 2);
}

#[test]
fn replace_interests_rewrites_the_set() {
    let mut store = one_user();
    store
        .replace_interests(1, &vec!["Hiking".to_string(), "Coffee".to_string()])
        .unwrap();
    store
        .replace_interests(1, &vec!["Coffee".to_string(), "Chess".to_string()])
        .unwrap();
    let names: Vec<String> = store.interests_of(1).into_iter().map(|it| it.name).collect();
    assert_eq!(names, vec!["Coffee".to_string(), "Chess".to_string()]);
    // Hiking still exists as a shared interest row, just unreferenced.
    assert_eq!(store.interests.len(), 3);
}

#[test]
fn interest_names_list_lexicographically() {
    let mut store = one_user();
    store
        .replace_interests(
            1,
            &vec!["Yoga".to_string(), "Chess".to_string(), "Cooking".to_string()],
        )
        .unwrap();
    assert_eq!(
        store.sorted_interest_names(1),
        vec!["Chess".to_string(), "Cooking".to_string(), "Yoga".to_string()],
    );
}

#[test]
fn replace_interests_does_not_touch_other_users() {
    let mut store = one_user();
    store
        .upsert_user_by_oid("oid-b", None, None, None, None, None, None, "t0")
        .unwrap();
    store.replace_interests(1, &vec!["Hiking".to_string()]).unwrap();
    store.replace_interests(2, &vec!["Hiking".to_string(), "Chess".to_string()]).unwrap();
    store.replace_interests(1, &vec![]).unwrap();
    let other: Vec<String> = store.interests_of(2).into_iter().map(|it| it.name).collect();
    assert_eq!(other, vec!["Hiking".to_string(), "Chess".to_string()]);
    assert!(store.interests_of(1).is_empty());
}

#[test]
fn profile_of_redacts_tokens() {
    let store = one_user();
    let resp = store.profile_of(1).expect("user exists");
    assert_eq!(resp.id, 1);
    assert_eq!(resp.email.as_deref(), Some("a@example.edu"));
    assert!(store.profile_of(9).is_none());
}

#[test]
fn profile_image_key_requires_user_and_image() {
    let mut store = one_user();
    assert!(store.profile_image_key_of(1).is_none());
    assert!(store.profile_image_key_of(9).is_none());
    store
        .apply_profile_update(1, None, Some("profiles/1".to_string()), None, None, "t1")
        .unwrap();
    assert_eq!(store.profile_image_key_of(1).map(|s| s.as_str()), Some("profiles/1"));
}

#[test]
fn messages_are_threaded_and_ordered_oldest_first() {
    let mut store = one_user();
    store.upsert_user_by_oid("oid-b", None, None, None, None, None, None, "t0").unwrap();
    store.upsert_user_by_oid("oid-c", None, None, None, None, None, None, "t0").unwrap();
    store.create_message(1, Some(2), "hi", false, "t1").unwrap();
    store.create_message(2, Some(1), "hello back", false, "t2").unwrap();
    store.create_message(1, Some(3), "other thread", false, "t3").unwrap();
    store.create_message(1, Some(2), "how are you?", false, "t4").unwrap();
    let thread = store.messages_between(1, 2);
    let contents: Vec<String> = thread.iter().map(|m| m.content.clone()).collect();
    assert_eq!(
        contents,
        vec!["hi".to_string(), "hello back".to_string(), "how are you?".to_string()],
    );
    assert!(thread[0].id < thread[1].id && thread[1].id < thread[2].id);
}

#[test]
fn message_without_recipient_is_rejected() {
    let mut store = one_user();
    let r = store.create_message(1, None, "hi", false, "t1");
    assert!(matches!(r, Err(AppError::Internal(_))));
    assert!(store.messages.is_empty());
}

#[test]
fn message_image_key_follows_the_message_id() {
    let mut store = one_user();
    store.upsert_user_by_oid("oid-b", None, None, None, None, None, None, "t0").unwrap();
    let plain = store.create_message(1, Some(2), "no image", false, "t1").unwrap();
    let with_image = store.create_message(1, Some(2), "with image", true, "t2").unwrap();
    assert!(store.message_image_key_of(plain.id).is_none());
    assert_eq!(
        store.message_image_key_of(with_image.id).map(|s| s.as_str()),
        Some(format!("messages/{}", with_image.id).as_str()),
    );
    assert!(store.message_image_key_of(999).is_none());
}

#[test]
fn login_payloads_carry_their_fields() {
    let msg = NewMessage { recipient_id: 2, content: "hi".to_string() };
    assert_eq!(msg.recipient_id, 2);
    let creds = Credentials { code: "code-1".to_string(), pkce_verifier: "ver-1".to_string() };
    assert_eq!(creds.code, "code-1");
    let login = LoginParams { next: Some("/feed".to_string()) };
    assert_eq!(login.next.as_deref(), Some("/feed"));
    let cb = CallbackParams { code: "c".to_string(), state: "s".to_string() };
    assert_eq!(cb.state, "s");
}

#[test]
fn session_auth_hash_is_the_token_bytes_or_empty() {
    let store = one_user();
    assert_eq!(store.users[0].user.session_auth_hash(), b"tok");
    let mut stripped = store.users[0].user.duplicate();
    stripped.access_token = None;
    assert_eq!(stripped.session_auth_hash(), b"");
}
