use rume_core::grouping::{append_message, group_into_user_messages};
use rume_core::messages::{RoomMessage, UserMessages};

fn msg(user: &str, room: &str, text: &str, timestamp: i64) -> RoomMessage {
    RoomMessage {
        user: user.to_string(),
        room: room.to_string(),
        message: text.to_string(),
        timestamp,
    }
}

fn assert_run(run: &UserMessages, user: &str, room: &str, entries: &[(&str, i64)]) {
    assert_eq!(run.user, user);
    assert_eq!(run.room, room);
    assert_eq!(run.messages.len(), entries.len());
    for (sub, (text, timestamp)) in run.messages.iter().zip(entries.iter()) {
        assert_eq!(sub.content, *text);
        assert_eq!(sub.timestamp, *timestamp);
    }
}

#[test]
fn group_empty_yields_empty_history() {
    let grouped = group_into_user_messages(Vec::new());
    assert!(grouped.is_empty());
}

#[test]
fn group_lobby_scenario() {
    let messages = vec![
        msg("alice", "lobby", "hi", 1),
        msg("alice", "lobby", "there", 2),
        msg("bob", "lobby", "hey", 3),
    ];
    let grouped = group_into_user_messages(messages);
    assert_eq!(grouped.len(), 2);
    assert_run(&grouped[0], "alice", "lobby", &[("hi", 1), ("there", 2)]);
    assert_run(&grouped[1], "bob", "lobby", &[("hey", 3)]);
}

#[test]
fn append_after_intervening_author_opens_third_run() {
    let messages = vec![
        msg("alice", "lobby", "hi", 1),
        msg("alice", "lobby", "there", 2),
        msg("bob", "lobby", "hey", 3),
    ];
    let mut history = group_into_user_messages(messages);
    append_message(&mut history, msg("alice", "lobby", "yo", 4));
    assert_eq!(history.len(), 3);
    assert_run(&history[0], "alice", "lobby", &[("hi", 1), ("there", 2)]);
    assert_run(&history[1], "bob", "lobby", &[("hey", 3)]);
    assert_run(&history[2], "alice", "lobby", &[("yo", 4)]);
}

#[test]
fn append_same_author_extends_last_run() {
    let mut history = group_into_user_messages(vec![msg("alice", "lobby", "hi", 1)]);
    assert_eq!(history.len(), 1);
    append_message(&mut history, msg("alice", "lobby", "again", 2));
    assert_eq!(history.len(), 1);
    assert_run(&history[0], "alice", "lobby", &[("hi", 1), ("again", 2)]);
}

#[test]
fn append_other_author_opens_new_run() {
    let mut history = group_into_user_messages(vec![msg("alice", "lobby", "hi", 1)]);
    append_message(&mut history, msg("bob", "lobby", "hey", 2));
    assert_eq!(history.len(), 2);
    assert_run(&history[0], "alice", "lobby", &[("hi", 1)]);
    assert_run(&history[1], "bob", "lobby", &[("hey", 2)]);
}

#[test]
fn group_equals_fold_of_append() {
    let messages = vec![
        msg("alice", "den", "a", 1),
        msg("alice", "den", "b", 2),
        msg("bob", "den", "c", 3),
        msg("carol", "den", "d", 4),
        msg("carol", "den", "e", 5),
        msg("alice", "den", "f", 6),
    ];
    let grouped = group_into_user_messages(messages.clone());
    let mut folded: Vec<UserMessages> = Vec::new();
    for m in messages {
        append_message(&mut folded, m);
    }
    assert_eq!(grouped.len(), folded.len());
    for (g, f) in grouped.iter().zip(folded.iter()) {
        assert_eq!(g.user, f.user);
        assert_eq!(g.room, f.room);
        assert_eq!(g.messages.len(), f.messages.len());
        for (gs, fs) in g.messages.iter().zip(f.messages.iter()) {
            assert_eq!(gs.content, fs.content);
            assert_eq!(gs.timestamp, fs.timestamp);
        }
    }
}

#[test]
fn no_two_adjacent_runs_share_an_author() {
    let messages = vec![
        msg("alice", "den", "a", 1),
        msg("bob", "den", "b", 2),
        msg("bob", "den", "c", 3),
        msg("alice", "den", "d", 4),
        msg("alice", "den", "e", 5),
        msg("carol", "den", "f", 6),
    ];
    let mut history = group_into_user_messages(messages);
    append_message(&mut history, msg("carol", "den", "g", 7));
    append_message(&mut history, msg("bob", "den", "h", 8));
    for pair in history.windows(2) {
        assert_ne!(pair[0].user, pair[1].user);
    }
}

#[test]
fn flattening_runs_reproduces_message_order() {
    let messages = vec![
        msg("alice", "den", "a", 1),
        msg("alice", "den", "b", 2),
        msg("bob", "den", "c", 3),
        msg("alice", "den", "d", 4),
    ];
    let grouped = group_into_user_messages(messages.clone());
    let mut flattened: Vec<(String, String, String, i64)> = Vec::new();
    for run in &grouped {
        for sub in &run.messages {
            flattened.push((
                run.user.clone(),
                run.room.clone(),
                sub.content.clone(),
                sub.timestamp,
            ));
        }
    }
    assert_eq!(flattened.len(), messages.len());
    for (got, want) in flattened.iter().zip(messages.iter()) {
        assert_eq!(got.0, want.user);
        assert_eq!(got.1, want.room);
        assert_eq!(got.2, want.message);
        assert_eq!(got.3, want.timestamp);
    }
}
