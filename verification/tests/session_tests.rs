use blackjack::game::state::GameState;
use blackjack::session::{is_expired, SessionStore, SESSION_TTL_NANOS};

#[test]
fn test_create_get_remove() {
    let mut store = SessionStore::new();
    let gs = GameState::new();
    let expected = gs.session_id;
    let id = store.create(gs);
    assert_eq!(id, expected);
    assert_eq!(store.get(id).map(|g| g.chips), Some(1000));
    assert!(store.remove(id));
    assert!(store.get(id).is_none());
    assert!(!store.remove(id));
}

#[test]
fn test_take_then_put_back() {
    let mut store = SessionStore::new();
    let id = store.create(GameState::new());
    let mut gs = store.take(id).expect("session");
    assert!(store.get(id).is_none());
    gs.chips = 5;
    let id2 = store.create(gs);
    assert_eq!(id, id2);
    assert_eq!(store.get(id).map(|g| g.chips), Some(5));
    assert!(store.remove(id));
    assert!(store.take(id).is_none());
}

#[test]
fn test_reap_keeps_fresh_sessions() {
    let mut store = SessionStore::new();
    let a = store.create(GameState::new());
    let b = store.create(GameState::new());
    store.reap_expired();
    assert!(store.get(a).is_some());
    assert!(store.get(b).is_some());
}

#[test]
fn test_expiry_threshold() {
    assert!(!is_expired(0));
    assert!(!is_expired(SESSION_TTL_NANOS - 1));
    assert!(is_expired(SESSION_TTL_NANOS));
    assert_eq!(SESSION_TTL_NANOS, 30 * 60 * 1_000_000_000);
}

#[test]
fn test_with_runs_closure_on_session() {
    let mut store = SessionStore::new();
    let id = store.create(GameState::new());
    assert_eq!(store.with(id, |g| g.chips + 1), Some(1001));
    assert!(store.remove(id));
    assert_eq!(store.with(id, |g| g.chips), None);
}

#[test]
fn test_expire_if_idle_removes_only_idle_sessions() {
    let mut store = SessionStore::new();
    let id = store.create(GameState::new());
    assert!(!store.expire_if_idle(id, SESSION_TTL_NANOS - 1));
    assert!(store.get(id).is_some());
    assert!(store.expire_if_idle(id, SESSION_TTL_NANOS));
    assert!(store.get(id).is_none());
    assert!(!store.expire_if_idle(id, SESSION_TTL_NANOS));
}
