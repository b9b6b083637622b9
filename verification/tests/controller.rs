use std::sync::mpsc;

use rume_core::channel::DuplexChannel;
use rume_core::controller::SyncController;
use rume_core::messages::RoomMessage;
use rume_core::store::Room;
use rume_core::user::UserInfo;

fn msg(user: &str, room: &str, text: &str, timestamp: i64) -> RoomMessage {
    RoomMessage {
        user: user.to_string(),
        room: room.to_string(),
        message: text.to_string(),
        timestamp,
    }
}

fn rooms(names: &[&str]) -> Vec<Room> {
    names
        .iter()
        .enumerate()
        .map(|(idx, name)| Room { name: name.to_string(), idx })
        .collect()
}

fn user(name: &str) -> UserInfo {
    UserInfo {
        name: name.to_string(),
        chatrooms: None,
        current_room: String::new(),
    }
}

fn controller(room_names: &[&str], selected: usize) -> (SyncController, mpsc::Receiver<String>) {
    let (tx, rx) = mpsc::channel();
    let controller = SyncController::new(
        rooms(room_names),
        selected,
        user("me"),
        DuplexChannel::new(tx),
    );
    (controller, rx)
}

#[test]
fn switch_before_select() {
    let (mut c, _rx) = controller(&["general", "lobby"], 1);
    let fetched = vec![
        msg("bob", "general", "newest", 3),
        msg("alice", "general", "older", 2),
        msg("alice", "general", "oldest", 1),
    ];
    assert!(c.needs_history(&"general".to_string()));
    let ok = c.on_room_switch_fetched(0, "general".to_string(), fetched);
    assert!(ok);
    assert_eq!(c.store.selected, Some(0));
    let history = c.store.get(&"general".to_string());
    assert!(!history.is_empty());
    assert_eq!(history.len(), 2);
    assert_eq!(history[0].user, "alice");
    assert_eq!(history[0].messages[0].content, "oldest");
    assert_eq!(history[0].messages[1].content, "older");
    assert_eq!(history[1].user, "bob");
    assert!(!c.needs_history(&"general".to_string()));
}

#[test]
fn switch_aborts_on_a_mismatched_room() {
    let (mut c, _rx) = controller(&["general", "lobby"], 1);
    let fetched = vec![
        msg("bob", "general", "a", 2),
        msg("alice", "elsewhere", "b", 1),
    ];
    let ok = c.on_room_switch_fetched(0, "general".to_string(), fetched);
    assert!(!ok);
    assert_eq!(c.store.selected, Some(1));
    assert!(c.needs_history(&"general".to_string()));
}

#[test]
fn switch_aborts_on_an_unsorted_fetch() {
    let (mut c, _rx) = controller(&["general"], 0);
    let fetched = vec![
        msg("bob", "general", "older", 1),
        msg("alice", "general", "newer", 2),
    ];
    let ok = c.on_room_switch_fetched(0, "general".to_string(), fetched);
    assert!(!ok);
    assert!(c.needs_history(&"general".to_string()));
}

#[test]
fn switch_to_a_cached_room_only_moves_the_selection() {
    let (mut c, _rx) = controller(&["general", "lobby"], 0);
    assert!(c.on_room_switch_fetched(0, "general".to_string(), vec![msg("a", "general", "x", 1)]));
    c.on_room_switch_cached(1);
    assert_eq!(c.store.selected, Some(1));
    assert_eq!(c.store.get(&"general".to_string()).len(), 1);
}

#[test]
fn create_room_scenario() {
    let (mut c, _rx) = controller(&["alpha", "beta"], 0);
    let room = c.on_room_created("new-room".to_string());
    assert_eq!(room.name, "new-room");
    assert_eq!(room.idx, 2);
    assert_eq!(c.store.rooms.len(), 3);
    assert_eq!(c.store.rooms[2].name, "new-room");
    assert_eq!(c.store.selected, Some(2));
    assert!(c.store.has(&"new-room".to_string()));
    assert!(c.store.get(&"new-room".to_string()).is_empty());
}

#[test]
fn live_append_scenario() {
    let (mut c, _rx) = controller(&["lobby"], 0);
    assert!(c.on_room_switch_fetched(
        0,
        "lobby".to_string(),
        vec![msg("alice", "lobby", "hi", 1)],
    ));
    let refreshed = c.on_incoming_event(msg("alice", "lobby", "more", 2));
    assert_eq!(refreshed, "lobby");
    let history = c.store.get(&"lobby".to_string());
    assert_eq!(history.len(), 1);
    assert_eq!(history[0].messages.len(), 2);
    let refreshed = c.on_incoming_event(msg("bob", "lobby", "hey", 3));
    assert_eq!(refreshed, "lobby");
    let history = c.store.get(&"lobby".to_string());
    assert_eq!(history.len(), 2);
    assert_eq!(history[1].user, "bob");
}

#[test]
fn incoming_event_for_an_unknown_room_never_fails() {
    let (mut c, _rx) = controller(&["lobby"], 0);
    let refreshed = c.on_incoming_event(msg("carol", "side", "psst", 1));
    assert_eq!(refreshed, "side");
    assert_eq!(c.store.get(&"side".to_string()).len(), 1);
}

#[test]
fn user_send_encodes_and_enqueues_the_intent() {
    let (mut c, rx) = controller(&["general", "lobby"], 1);
    c.textbox = "hello there".to_string();
    let accepted = c.on_user_send("hello there".to_string());
    assert!(accepted);
    assert!(c.textbox.is_empty());
    let frame = rx.try_recv().expect("one frame enqueued");
    assert_eq!(
        frame,
        "{\"User\":\"me\",\"ChatroomName\":\"lobby\",\"Message\":\"hello there\"}"
    );
    assert!(rx.try_recv().is_err());
}

#[test]
fn send_fails_silently_when_the_writer_is_gone() {
    let (mut c, rx) = controller(&["general"], 0);
    drop(rx);
    let accepted = c.on_user_send("lost".to_string());
    assert!(!accepted);
    assert!(c.textbox.is_empty());
}

#[test]
fn build_outgoing_uses_the_selected_room() {
    let (c, _rx) = controller(&["general", "lobby"], 0);
    let intent = c.build_outgoing("yo".to_string());
    assert_eq!(intent.user, "me");
    assert_eq!(intent.room, "general");
    assert_eq!(intent.message, "yo");
}
