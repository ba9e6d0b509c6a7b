use forum::sessions::{Session, SessionError, SessionStore, SessionWorkaroundExt};

#[test]
fn regeneration_rotates_id() {
    let mut store = SessionStore::new();
    let mut s = Session::new("old-id".to_string(), None, "{\"k\":1}".to_string());
    assert_eq!(store.store(&mut s, "unused").unwrap(), "old-id");
    assert!(store.load_id(&"old-id".to_string(), 0).is_some());
    s.mark_for_regenerate();
    let new_id = store.store(&mut s, "Zm9vYmFy").unwrap();
    assert_ne!(new_id, "old-id");
    assert_ne!(new_id, "Zm9vYmFy");
    assert_eq!(s.id, new_id);
    assert!(!s.is_marked());
    assert!(store.load_id(&"old-id".to_string(), 0).is_none());
    let loaded = store.load_id(&new_id, 0).unwrap();
    assert_eq!(loaded.payload, "{\"k\":1}");
    let by_cookie = store.load("Zm9vYmFy", 0).unwrap();
    assert_eq!(by_cookie.id, new_id);
}

#[test]
fn unmarked_store_upserts_under_same_id() {
    let mut store = SessionStore::new();
    let mut s = Session::new("sid".to_string(), Some(100), "a".to_string());
    store.store(&mut s, "x").unwrap();
    s.payload = "b".to_string();
    assert_eq!(store.store(&mut s, "x").unwrap(), "sid");
    assert_eq!(store.load_id(&"sid".to_string(), 50).unwrap().payload, "b");
}

#[test]
fn expired_and_missing_sessions_are_absent() {
    let mut store = SessionStore::new();
    let mut s = Session::new("sid".to_string(), Some(100), "a".to_string());
    store.store(&mut s, "x").unwrap();
    assert!(store.load_id(&"sid".to_string(), 99).is_some());
    assert!(store.load_id(&"sid".to_string(), 100).is_none());
    assert!(store.load_id(&"other".to_string(), 0).is_none());
    assert!(store.load("not base64!", 0).is_none());
}

#[test]
fn destroy_and_clear() {
    let mut store = SessionStore::new();
    let mut a = Session::new("a".to_string(), None, "1".to_string());
    let mut b = Session::new("b".to_string(), None, "2".to_string());
    store.store(&mut a, "").unwrap();
    store.store(&mut b, "").unwrap();
    store.destroy(&a);
    assert!(store.load_id(&"a".to_string(), 0).is_none());
    assert!(store.load_id(&"b".to_string(), 0).is_some());
    store.clear();
    assert!(store.load_id(&"b".to_string(), 0).is_none());
}

#[test]
fn bad_fresh_cookie_changes_nothing() {
    let mut store = SessionStore::new();
    let mut s = Session::new("sid".to_string(), None, "p".to_string());
    store.store(&mut s, "").unwrap();
    s.mark_for_regenerate();
    assert_eq!(store.store(&mut s, "***"), Err(SessionError::BadCookie));
    assert!(s.is_marked());
    assert_eq!(s.id, "sid");
    assert!(store.load_id(&"sid".to_string(), 0).is_some());
}

#[test]
fn should_regenerate_clears_mark() {
    let mut s = Session::new("sid".to_string(), None, String::new());
    assert!(!s.should_regenerate());
    s.mark_for_regenerate();
    assert!(s.should_regenerate());
    assert!(!s.should_regenerate());
}

#[test]
fn late_write_under_rotated_id_is_refused() {
    let mut store = SessionStore::new();
    let mut s = Session::new("old-id".to_string(), None, "before".to_string());
    store.store(&mut s, "").unwrap();
    let mut stale = Session::new("old-id".to_string(), None, "stale".to_string());
    s.mark_for_regenerate();
    let new_id = store.store(&mut s, "Zm9vYmFy").unwrap();
    assert_eq!(store.store(&mut stale, ""), Err(SessionError::Retired));
    assert_eq!(stale.id, "old-id");
    assert!(store.load_id(&"old-id".to_string(), 0).is_none());
    assert_eq!(store.load_id(&new_id, 0).unwrap().payload, "before");
    stale.mark_for_regenerate();
    assert_eq!(store.store(&mut stale, "YmF6"), Err(SessionError::Retired));
    assert!(store.load_id(&"old-id".to_string(), 0).is_none());
}
