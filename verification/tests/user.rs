use rume_core::store::Room;
use rume_core::user::{login_outcome, rooms_from_names, selected_room_index, LoginError, UserInfo};

#[test]
fn login_with_a_cookie_succeeds_off_200() {
    let r = login_outcome(303, Some("session-token".to_string()));
    assert_eq!(r.unwrap(), "session-token");
}

#[test]
fn login_rejected_on_a_200_answer() {
    let r = login_outcome(200, Some("ignored".to_string()));
    assert!(matches!(r, Err(LoginError::Rejected)));
}

#[test]
fn login_without_a_cookie_fails() {
    let r = login_outcome(303, None);
    assert!(matches!(r, Err(LoginError::MissingCookie)));
}

#[test]
fn rooms_from_names_indexes_by_position() {
    let rooms = rooms_from_names(vec![
        "alpha".to_string(),
        "beta".to_string(),
        "gamma".to_string(),
    ]);
    assert_eq!(rooms.len(), 3);
    assert_eq!(rooms[0].name, "alpha");
    assert_eq!(rooms[0].idx, 0);
    assert_eq!(rooms[2].name, "gamma");
    assert_eq!(rooms[2].idx, 2);
}

#[test]
fn selected_room_index_finds_the_first_match() {
    let rooms = vec![
        Room { name: "alpha".to_string(), idx: 0 },
        Room { name: "beta".to_string(), idx: 1 },
        Room { name: "beta".to_string(), idx: 2 },
    ];
    assert_eq!(selected_room_index(&rooms, &"beta".to_string()), 1);
    assert_eq!(selected_room_index(&rooms, &"alpha".to_string()), 0);
}

#[test]
fn selected_room_index_falls_back_to_zero() {
    let rooms = vec![Room { name: "alpha".to_string(), idx: 0 }];
    assert_eq!(selected_room_index(&rooms, &"missing".to_string()), 0);
    assert_eq!(selected_room_index(&Vec::new(), &"any".to_string()), 0);
}

#[test]
fn default_user_is_blank() {
    let user = UserInfo::default();
    assert!(user.name.is_empty());
    assert!(user.chatrooms.is_none());
    assert!(user.current_room.is_empty());
}

#[test]
fn login_errors_describe_themselves() {
    assert_eq!(LoginError::Rejected.message(), "login was not successful");
    assert_eq!(
        LoginError::MissingCookie.message(),
        "login response carried no session cookie"
    );
}
