//! The session store: lookups, updates, TTL eviction and sweeping.
//!
//! The store takes the clock as an argument, so expiry is driven here
//! by creating sessions in the past.

use saml_proxy::session::SessionStore;

#[test]
fn create_and_get() {
    let mut store = SessionStore::new();
    let id = store.create(
        "req_123".into(),
        "https://sp.example.com/acs".into(),
        "https://sp.example.com".into(),
        Some("relay".into()),
        1000,
    );

    let session = store.get(&id, 1000).unwrap();
    assert_eq!(session.original_request_id, "req_123");
    assert_eq!(session.sp_acs_url, "https://sp.example.com/acs");
    assert_eq!(session.sp_entity_id, "https://sp.example.com");
    assert_eq!(session.relay_state.as_deref(), Some("relay"));
    assert!(session.selected_university.is_none());
    assert!(session.proxy_request_id.is_none());
}

#[test]
fn get_nonexistent_returns_none() {
    let mut store = SessionStore::new();
    assert!(store.get("nonexistent", 0).is_none());
}

#[test]
fn update_university() {
    let mut store = SessionStore::new();
    let id = store.create("req".into(), "acs".into(), "sp".into(), None, 1000);

    assert!(store.update_university(&id, "https://idp.cmu.edu".into()));

    let session = store.get(&id, 1000).unwrap();
    assert_eq!(
        session.selected_university.as_deref(),
        Some("https://idp.cmu.edu"),
    );
}

#[test]
fn update_proxy_request_id() {
    let mut store = SessionStore::new();
    let id = store.create("req".into(), "acs".into(), "sp".into(), None, 1000);

    assert!(store.update_proxy_request_id(&id, "proxy_req_456".into()));

    let session = store.get(&id, 1000).unwrap();
    assert_eq!(session.proxy_request_id.as_deref(), Some("proxy_req_456"));
}

#[test]
fn update_nonexistent_returns_false() {
    let mut store = SessionStore::new();
    assert!(!store.update_university("missing", "val".into()));
    assert!(!store.update_proxy_request_id("missing", "val".into()));
}

#[test]
fn remove_returns_session() {
    let mut store = SessionStore::new();
    let id = store.create("req".into(), "acs".into(), "sp".into(), None, 1000);

    let session = store.remove(&id).unwrap();
    assert_eq!(session.original_request_id, "req");

    assert!(store.get(&id, 1000).is_none());
    assert!(store.remove(&id).is_none());
}

#[test]
fn expired_session_returns_none_on_get() {
    let mut store = SessionStore::new();
    // Created twenty minutes before the lookup, five past the TTL.
    let id = store.create("req".into(), "acs".into(), "sp".into(), None, 0);

    assert!(store.get(&id, 20 * 60).is_none());
    // The expired entry was evicted, not merely hidden.
    assert!(store.remove(&id).is_none());
}

#[test]
fn session_within_ttl_is_observable() {
    let mut store = SessionStore::new();
    let id = store.create("req".into(), "acs".into(), "sp".into(), None, 0);
    assert!(store.get(&id, 900).is_some());
    assert!(store.get(&id, 901).is_none());
}

#[test]
fn cleanup_removes_expired_sessions() {
    let mut store = SessionStore::new();
    // One session twenty minutes old, one fresh.
    let old_id = store.create("old".into(), "acs".into(), "sp".into(), None, 0);
    let fresh_id = store.create("fresh".into(), "acs".into(), "sp".into(), None, 20 * 60);

    store.cleanup_expired(20 * 60);

    assert!(store.get(&fresh_id, 20 * 60).is_some());
    assert!(store.get(&old_id, 20 * 60).is_none());
}

#[test]
fn updates_never_unset_fields() {
    let mut store = SessionStore::new();
    let id = store.create("req".into(), "acs".into(), "sp".into(), None, 0);
    assert!(store.update_university(&id, "https://idp.one".into()));
    assert!(store.update_proxy_request_id(&id, "pid_1".into()));
    assert!(store.update_university(&id, "https://idp.two".into()));

    let session = store.get(&id, 0).unwrap();
    assert!(session.selected_university.is_some());
    assert!(session.proxy_request_id.is_some());
}
