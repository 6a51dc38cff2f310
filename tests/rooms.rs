use chat_relay::protocol::ErrorCode;
use chat_relay::room::ChatRoom;
use chat_relay::server::ChatServer;

fn s(x: &str) -> String {
    x.to_string()
}

#[test]
fn open_room_join_send_leave() {
    let mut room = ChatRoom::new(None);
    assert_eq!(room.join_with_token(s("alice"), None, 10), Ok(10));
    assert!(room.is_member(&s("alice")));
    let m = room.add_message(10, s("hi")).unwrap();
    assert_eq!(m.username, "alice");
    assert_eq!(m.message, "hi");
    assert_eq!(room.message_count(), 1);
    assert_eq!(room.leave(10), Ok(()));
    assert!(!room.is_member(&s("alice")));
}

#[test]
fn open_room_ignores_a_supplied_password() {
    let mut room = ChatRoom::new(None);
    assert_eq!(room.join_with_token(s("alice"), Some(s("anything")), 1), Ok(1));
}

#[test]
fn double_join_is_refused() {
    let mut room = ChatRoom::new(None);
    assert_eq!(room.join_with_token(s("alice"), None, 1), Ok(1));
    assert_eq!(room.join_with_token(s("alice"), None, 2), Err(ErrorCode::UserAlreadyInRoom));
    assert_eq!(room.join_with_token(s("bob"), None, 2), Ok(2));
}

#[test]
fn rejoin_after_leave_gets_a_new_token() {
    let mut room = ChatRoom::new(None);
    assert_eq!(room.join_with_token(s("alice"), None, 1), Ok(1));
    assert_eq!(room.leave(1), Ok(()));
    // the old token is never handed out again
    assert_eq!(room.join_with_token(s("alice"), None, 1), Err(ErrorCode::InternalError));
    assert_eq!(room.join_with_token(s("alice"), None, 2), Ok(2));
}

#[test]
fn token_is_dead_after_leave() {
    let mut room = ChatRoom::new(None);
    assert_eq!(room.join_with_token(s("alice"), None, 1), Ok(1));
    assert_eq!(room.leave(1), Ok(()));
    assert_eq!(room.add_message(1, s("x")).unwrap_err(), ErrorCode::Unauthorized);
    assert_eq!(room.leave(1), Err(ErrorCode::Unauthorized));
    assert_eq!(room.message_count(), 0);
}

#[test]
fn unknown_token_is_unauthorized() {
    let mut room = ChatRoom::new(None);
    assert_eq!(room.add_message(99, s("x")).unwrap_err(), ErrorCode::Unauthorized);
    assert_eq!(room.leave(99), Err(ErrorCode::Unauthorized));
}

#[test]
fn registry_missing_room() {
    let mut server = ChatServer::new(8080);
    assert_eq!(server.port(), 8080);
    assert_eq!(server.join(5, s("alice"), None), Err(ErrorCode::ChatNotFound));
    assert_eq!(server.send(5, 1, s("x")).unwrap_err(), ErrorCode::ChatNotFound);
    assert_eq!(server.leave(5, 1), Err(ErrorCode::ChatNotFound));
}

#[test]
fn registry_refuses_an_id_in_use() {
    let mut server = ChatServer::new(1);
    assert_eq!(server.create_room_with(7, None), Ok(7));
    assert!(server.has_room(7));
    assert_eq!(server.create_room_with(7, None), Err(ErrorCode::InternalError));
    assert_eq!(server.join_with_token(7, s("a"), None, 3), Ok(3));
    assert_eq!(server.join_with_token(8, s("a"), None, 3), Err(ErrorCode::ChatNotFound));
}

#[test]
fn created_rooms_have_distinct_ids() {
    let mut server = ChatServer::new(1);
    let a = server.create_room(None).unwrap();
    let b = server.create_room(None).unwrap();
    assert_ne!(a, b);
    assert!(server.has_room(a) && server.has_room(b));
}

#[test]
fn password_scenario() {
    let mut server = ChatServer::new(1);
    let r = server.create_room(Some(s("secret"))).unwrap();
    assert_eq!(server.join(r, s("alice"), None), Err(ErrorCode::PasswordMissing));
    assert_eq!(server.join(r, s("alice"), Some(s("wrong"))), Err(ErrorCode::WrongPassword));
    assert!(server.join(r, s("alice"), Some(s("secret"))).is_ok());
}

#[test]
fn stored_password_is_not_the_plaintext() {
    // a room whose stored "hash" is the plain password itself must not let
    // that password in: the stored text has to be a PHC string
    let mut room = ChatRoom::new(Some(s("secret")));
    assert_eq!(room.join_with_token(s("alice"), Some(s("secret")), 1), Err(ErrorCode::WrongPassword));
}

#[test]
fn failed_id_draw_is_an_internal_error() {
    let mut server = ChatServer::new(1);
    assert_eq!(server.create_room_from(None, None), Err(ErrorCode::InternalError));
    assert_eq!(server.create_room_from(None, Some(4)), Ok(4));
    assert_eq!(server.create_room_from(None, Some(4)), Err(ErrorCode::InternalError));
    assert!(server.has_room(4));
}
