use rume_core::grouping::group_into_user_messages;
use rume_core::messages::RoomMessage;
use rume_core::store::RoomStore;

fn msg(user: &str, room: &str, text: &str, timestamp: i64) -> RoomMessage {
    RoomMessage {
        user: user.to_string(),
        room: room.to_string(),
        message: text.to_string(),
        timestamp,
    }
}

#[test]
fn new_store_is_empty() {
    let store = RoomStore::new();
    assert!(store.rooms.is_empty());
    assert!(store.selected.is_none());
    assert!(!store.has(&"lobby".to_string()));
    assert!(store.get(&"lobby".to_string()).is_empty());
    assert!(store.current_room_messages().is_empty());
}

#[test]
fn put_then_get_returns_the_history() {
    let mut store = RoomStore::new();
    let history = group_into_user_messages(vec![
        msg("alice", "lobby", "hi", 1),
        msg("bob", "lobby", "hey", 2),
    ]);
    store.put("lobby".to_string(), history);
    assert!(store.has(&"lobby".to_string()));
    let got = store.get(&"lobby".to_string());
    assert_eq!(got.len(), 2);
    assert_eq!(got[0].user, "alice");
    assert_eq!(got[1].user, "bob");
    assert!(!store.has(&"den".to_string()));
    assert!(store.get(&"den".to_string()).is_empty());
}

#[test]
fn put_replaces_an_existing_history() {
    let mut store = RoomStore::new();
    store.put(
        "lobby".to_string(),
        group_into_user_messages(vec![msg("alice", "lobby", "hi", 1)]),
    );
    store.put(
        "lobby".to_string(),
        group_into_user_messages(vec![msg("bob", "lobby", "later", 9)]),
    );
    let got = store.get(&"lobby".to_string());
    assert_eq!(got.len(), 1);
    assert_eq!(got[0].user, "bob");
    assert_eq!(got[0].messages[0].content, "later");
}

#[test]
fn append_live_extends_a_cached_room() {
    let mut store = RoomStore::new();
    store.put(
        "lobby".to_string(),
        group_into_user_messages(vec![msg("alice", "lobby", "hi", 1)]),
    );
    store.append_live(msg("alice", "lobby", "more", 2));
    let got = store.get(&"lobby".to_string());
    assert_eq!(got.len(), 1);
    assert_eq!(got[0].messages.len(), 2);
    store.append_live(msg("bob", "lobby", "hey", 3));
    let got = store.get(&"lobby".to_string());
    assert_eq!(got.len(), 2);
    assert_eq!(got[1].user, "bob");
}

#[test]
fn append_live_creates_a_history_for_an_uncached_room() {
    let mut store = RoomStore::new();
    store.append_live(msg("carol", "side", "psst", 5));
    assert!(store.has(&"side".to_string()));
    let got = store.get(&"side".to_string());
    assert_eq!(got.len(), 1);
    assert_eq!(got[0].user, "carol");
    assert_eq!(got[0].room, "side");
    assert_eq!(got[0].messages.len(), 1);
    assert_eq!(got[0].messages[0].content, "psst");
}

#[test]
fn create_room_appends_at_the_next_index() {
    let mut store = RoomStore::new();
    let first = store.create_room("alpha".to_string());
    assert_eq!(first.name, "alpha");
    assert_eq!(first.idx, 0);
    let second = store.create_room("beta".to_string());
    assert_eq!(second.idx, 1);
    assert_eq!(store.rooms.len(), 2);
    assert!(store.has(&"beta".to_string()));
    assert!(store.get(&"beta".to_string()).is_empty());
}

#[test]
fn select_room_updates_the_current_history() {
    let mut store = RoomStore::new();
    store.create_room("alpha".to_string());
    store.create_room("beta".to_string());
    store.append_live(msg("alice", "beta", "hi", 1));
    store.select_room(1);
    assert_eq!(store.selected, Some(1));
    let current = store.current_room_messages();
    assert_eq!(current.len(), 1);
    assert_eq!(current[0].room, "beta");
    store.select_room(0);
    assert!(store.current_room_messages().is_empty());
}

#[test]
fn default_store_is_blank() {
    let store = RoomStore::default();
    assert!(store.rooms.is_empty());
    assert!(store.selected.is_none());
    assert!(store.caches.is_empty());
}
