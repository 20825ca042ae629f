use http_server::session::SessionStore;
use std::time::{SystemTime, UNIX_EPOCH};

fn now() -> u64 {
    SystemTime::now().duration_since(UNIX_EPOCH).unwrap().as_secs()
}

#[test]
fn test_generate_new_cookie() {
    let mut cookies = SessionStore::new();
    let cookie_value = cookies.handle_cookie(None);
    assert!(cookie_value.starts_with("session_"));
    assert_eq!(cookies.len(), 1);
}

#[test]
fn test_existing_cookie() {
    let mut cookies = SessionStore::new();
    cookies.insert(0, String::from("existing_cookie"), now());
    let cookie_value = cookies.handle_cookie(Some(String::from("existing_cookie")));
    assert_eq!(cookie_value, "existing_cookie");
    assert_eq!(cookies.len(), 1);
}

#[test]
fn test_clean_expired_cookies() {
    let mut cookies = SessionStore::new();
    let created_at_old = now() - 120;
    let created_at_new = now();
    cookies.insert(0, String::from("old_cookie"), created_at_old);
    cookies.insert(1, String::from("new_cookie"), created_at_new);
    cookies.clean_expired_cookies(60);
    assert_eq!(cookies.len(), 1);
    assert!(cookies.contains(1));
}

#[test]
fn new_sessions_get_increasing_ids() {
    let mut store = SessionStore::new();
    assert_eq!(store.resolve_at(None, 10), "session_0");
    assert_eq!(store.resolve_at(None, 11), "session_1");
    store.sweep_at(60, 1000);
    assert_eq!(store.len(), 0);
    assert_eq!(store.resolve_at(None, 1000), "session_2");
    assert!(store.contains(2));
    assert!(!store.contains(0));
}

#[test]
fn known_token_is_kept() {
    let mut store = SessionStore::new();
    let t = store.resolve_at(None, 5);
    assert_eq!(store.resolve_at(Some(t.clone()), 6), t);
    assert_eq!(store.len(), 1);
    assert_eq!(store.resolve_at(Some("anything".to_string()), 7), "anything");
    assert_eq!(store.len(), 1);
}

#[test]
fn sweep_removes_aged_and_keeps_fresh() {
    let mut store = SessionStore::new();
    store.insert(0, "old".to_string(), 880);
    store.insert(1, "new".to_string(), 1000);
    store.insert(2, "edge".to_string(), 940);
    store.sweep_at(60, 1000);
    assert_eq!(store.len(), 1);
    assert!(store.contains(1));
    assert!(!store.contains(0));
    assert!(!store.contains(2));
}

#[test]
fn sweep_keeps_sessions_from_the_future() {
    let mut store = SessionStore::new();
    store.insert(4, "later".to_string(), 2000);
    store.sweep_at(60, 1000);
    assert!(store.contains(4));
    assert!(store.can_issue());
    assert_eq!(store.resolve_at(None, 1000), "session_5");
}
