use chat_relay::protocol::{ChatMessage, ErrorCode, Message};
use chat_relay::server::ChatServer;
use chat_relay::session::{error_response, handle_request, SessionState, Step};

fn s(x: &str) -> String {
    x.to_string()
}

fn join(server: &mut ChatServer, session: &mut SessionState, chat_id: u128, name: &str) -> u128 {
    let step = handle_request(
        server,
        session,
        Message::JoinChatRequest { chat_id, username: s(name), password: None },
    );
    match step {
        Step::Subscribe { chat_id: c, reply: Message::JoinChatResponse { token } } => {
            assert_eq!(c, chat_id);
            token
        }
        other => panic!("unexpected {:?}", other),
    }
}

fn create(server: &mut ChatServer, session: &mut SessionState) -> u128 {
    match handle_request(server, session, Message::CreateChatRequest { password: None }) {
        Step::Reply { reply: Message::CreateChatResponse { chat_id } } => chat_id,
        other => panic!("unexpected {:?}", other),
    }
}

fn error_code(step: Step) -> ErrorCode {
    match step {
        Step::Reply { reply: Message::ErrorResponse { code, .. } } => code,
        other => panic!("unexpected {:?}", other),
    }
}

#[test]
fn end_to_end_scenario() {
    let mut server = ChatServer::new(1);
    let mut alice = SessionState::new();
    let mut bob = SessionState::new();
    let r = create(&mut server, &mut alice);
    let t1 = join(&mut server, &mut alice, r, "alice");
    let t2 = join(&mut server, &mut bob, r, "bob");
    assert_ne!(t1, t2);
    let step = handle_request(
        &mut server,
        &mut alice,
        Message::SendMessageRequest { chat_id: r, token: t1, message: s("hi") },
    );
    let broadcast = match step {
        Step::Publish { chat_id, broadcast, reply: Message::SendMessageResponse } => {
            assert_eq!(chat_id, r);
            broadcast
        }
        other => panic!("unexpected {:?}", other),
    };
    assert_eq!(broadcast.username, "alice");
    assert_eq!(broadcast.message, "hi");
    assert!(bob.forwards(r, &broadcast));
    assert!(!alice.forwards(r, &broadcast));
    let step = handle_request(&mut server, &mut alice, Message::LeaveChatRequest { chat_id: r, token: t1 });
    assert!(matches!(step, Step::Unsubscribe { reply: Message::LeaveChatResponse }));
    let step = handle_request(
        &mut server,
        &mut alice,
        Message::SendMessageRequest { chat_id: r, token: t1, message: s("x") },
    );
    assert_eq!(error_code(step), ErrorCode::Unauthorized);
}

#[test]
fn broadcasts_stay_in_their_room() {
    let mut server = ChatServer::new(1);
    let mut a = SessionState::new();
    let mut b = SessionState::new();
    let x = create(&mut server, &mut a);
    let y = create(&mut server, &mut b);
    let ta = join(&mut server, &mut a, x, "alice");
    join(&mut server, &mut b, y, "bob");
    match handle_request(&mut server, &mut a, Message::SendMessageRequest { chat_id: x, token: ta, message: s("m") }) {
        Step::Publish { chat_id, broadcast, .. } => {
            assert_eq!(chat_id, x);
            assert!(!b.forwards(chat_id, &broadcast));
        }
        other => panic!("unexpected {:?}", other),
    }
    // the token of room x is no credential in room y
    let step = handle_request(&mut server, &mut a, Message::SendMessageRequest { chat_id: y, token: ta, message: s("m") });
    assert_eq!(error_code(step), ErrorCode::Unauthorized);
}

#[test]
fn unjoined_session_forwards_nothing() {
    let session = SessionState::new();
    let m = ChatMessage { username: s("a"), message: s("b") };
    assert!(!session.forwards(1, &m));
}

#[test]
fn second_join_on_a_connection_is_refused() {
    let mut server = ChatServer::new(1);
    let mut a = SessionState::new();
    let x = create(&mut server, &mut a);
    join(&mut server, &mut a, x, "alice");
    let step = handle_request(&mut server, &mut a, Message::JoinChatRequest { chat_id: x, username: s("other"), password: None });
    assert_eq!(error_code(step), ErrorCode::UserAlreadyInAnotherRoom);
}

#[test]
fn join_after_leave_on_the_same_connection() {
    let mut server = ChatServer::new(1);
    let mut a = SessionState::new();
    let x = create(&mut server, &mut a);
    let t1 = join(&mut server, &mut a, x, "alice");
    handle_request(&mut server, &mut a, Message::LeaveChatRequest { chat_id: x, token: t1 });
    let t2 = join(&mut server, &mut a, x, "alice");
    assert_ne!(t1, t2);
}

#[test]
fn same_username_twice_in_a_room() {
    let mut server = ChatServer::new(1);
    let mut a = SessionState::new();
    let mut b = SessionState::new();
    let x = create(&mut server, &mut a);
    join(&mut server, &mut a, x, "alice");
    let step = handle_request(&mut server, &mut b, Message::JoinChatRequest { chat_id: x, username: s("alice"), password: None });
    assert_eq!(error_code(step), ErrorCode::UserAlreadyInRoom);
}

#[test]
fn missing_room_is_reported() {
    let mut server = ChatServer::new(1);
    let mut a = SessionState::new();
    let step = handle_request(&mut server, &mut a, Message::JoinChatRequest { chat_id: 3, username: s("a"), password: None });
    assert_eq!(error_code(step), ErrorCode::ChatNotFound);
    let step = handle_request(&mut server, &mut a, Message::LeaveChatRequest { chat_id: 3, token: 1 });
    assert_eq!(error_code(step), ErrorCode::ChatNotFound);
}

#[test]
fn password_scenario_through_requests() {
    let mut server = ChatServer::new(1);
    let mut a = SessionState::new();
    let r = match handle_request(&mut server, &mut a, Message::CreateChatRequest { password: Some(s("secret")) }) {
        Step::Reply { reply: Message::CreateChatResponse { chat_id } } => chat_id,
        other => panic!("unexpected {:?}", other),
    };
    let step = handle_request(&mut server, &mut a, Message::JoinChatRequest { chat_id: r, username: s("alice"), password: None });
    assert_eq!(error_code(step), ErrorCode::PasswordMissing);
    let step = handle_request(&mut server, &mut a, Message::JoinChatRequest { chat_id: r, username: s("alice"), password: Some(s("wrong")) });
    assert_eq!(error_code(step), ErrorCode::WrongPassword);
    let step = handle_request(&mut server, &mut a, Message::JoinChatRequest { chat_id: r, username: s("alice"), password: Some(s("secret")) });
    assert!(matches!(step, Step::Subscribe { .. }));
}

#[test]
fn responses_are_not_requests() {
    let mut server = ChatServer::new(1);
    let mut a = SessionState::new();
    let step = handle_request(&mut server, &mut a, Message::SendMessageResponse);
    assert!(matches!(step, Step::Close));
    let step = handle_request(&mut server, &mut a, Message::MessageBroadcast { username: s("a"), message: s("b") });
    assert!(matches!(step, Step::Close));
}

#[test]
fn error_texts() {
    match error_response(ErrorCode::ChatNotFound) {
        Message::ErrorResponse { code, message } => {
            assert_eq!(code, ErrorCode::ChatNotFound);
            assert_eq!(message, "Chat not found");
        }
        other => panic!("unexpected {:?}", other),
    }
}
