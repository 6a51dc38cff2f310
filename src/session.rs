//! What one connection does with each request it reads, and which room
//! broadcasts it passes on to its client.  The connection's I/O loop performs
//! the returned `Step`; everything it decides is here.
use vstd::prelude::*;
use crate::protocol::{ChatMessage, ErrorCode, Message, MessageModel};
use crate::crypto::password_matches;
use crate::room::RoomModel;
use crate::server::ChatServer;

verus! {

/// The join state of one connection.
#[derive(Debug)]
pub enum SessionState {
    Unjoined,
    Joined { chat_id: u128, token: u128, username: String },
}

pub enum SessionModel {
    Unjoined,
    Joined { chat_id: u128, token: u128, username: Seq<char> },
}

impl View for SessionState {
    type V = SessionModel;

    open spec fn view(&self) -> SessionModel {
        match self {
            SessionState::Unjoined => SessionModel::Unjoined,
            SessionState::Joined { chat_id, token, username } => SessionModel::Joined {
                chat_id: *chat_id,
                token: *token,
                username: username@,
            },
        }
    }
}

/// What the connection does after a request.
#[derive(Debug)]
pub enum Step {
    /// Send `reply` to the client.
    Reply { reply: Message },
    /// Send `reply` and start forwarding room `chat_id`'s broadcasts.
    Subscribe { chat_id: u128, reply: Message },
    /// Send `reply` and stop forwarding broadcasts.
    Unsubscribe { reply: Message },
    /// Publish `broadcast` to room `chat_id`, then send `reply`.
    Publish { chat_id: u128, broadcast: ChatMessage, reply: Message },
    /// The client sent something that is not a request: close the connection.
    Close,
}

pub enum StepModel {
    Reply { reply: MessageModel },
    Subscribe { chat_id: u128, reply: MessageModel },
    Unsubscribe { reply: MessageModel },
    Publish { chat_id: u128, broadcast: (Seq<char>, Seq<char>), reply: MessageModel },
    Close,
}

impl View for Step {
    type V = StepModel;

    open spec fn view(&self) -> StepModel {
        match self {
            Step::Reply { reply } => StepModel::Reply { reply: reply@ },
            Step::Subscribe { chat_id, reply } => StepModel::Subscribe { chat_id: *chat_id, reply: reply@ },
            Step::Unsubscribe { reply } => StepModel::Unsubscribe { reply: reply@ },
            Step::Publish { chat_id, broadcast, reply } => StepModel::Publish {
                chat_id: *chat_id,
                broadcast: broadcast@,
                reply: reply@,
            },
            Step::Close => StepModel::Close,
        }
    }
}

/// The human-readable text sent with each error code.
pub open spec fn describe(code: ErrorCode) -> Seq<char> {
    match code {
        ErrorCode::WrongPassword => "Wrong password"@,
        ErrorCode::PasswordMissing => "Password missing"@,
        ErrorCode::ChatNotFound => "Chat not found"@,
        ErrorCode::InvalidFormat => "Invalid format"@,
        ErrorCode::Unauthorized => "User does not exist in the room"@,
        ErrorCode::UserAlreadyInRoom => "User already in room!"@,
        ErrorCode::UserAlreadyInAnotherRoom => "User already in another room!"@,
        ErrorCode::InternalError => "Internal error"@,
    }
}

pub open spec fn error_reply(code: ErrorCode) -> StepModel {
    StepModel::Reply { reply: MessageModel::ErrorResponse { code, message: describe(code) } }
}

/// The error response for `code`, with its text.
pub fn error_response(code: ErrorCode) -> (r: Message)
    ensures
        r@ == (MessageModel::ErrorResponse { code, message: describe(code) }),
{
    let text = match code {
        ErrorCode::WrongPassword => "Wrong password",
        ErrorCode::PasswordMissing => "Password missing",
        ErrorCode::ChatNotFound => "Chat not found",
        ErrorCode::InvalidFormat => "Invalid format",
        ErrorCode::Unauthorized => "User does not exist in the room",
        ErrorCode::UserAlreadyInRoom => "User already in room!",
        ErrorCode::UserAlreadyInAnotherRoom => "User already in another room!",
        ErrorCode::InternalError => "Internal error",
    };
    Message::ErrorResponse { code, message: text.to_owned() }
}

/// A room was created, or creation failed with `InternalError` and nothing
/// changed.
pub open spec fn create_post(old: Map<u128, RoomModel>, new: Map<u128, RoomModel>, password: Option<Seq<char>>, res: Result<u128, ErrorCode>) -> bool {
    match res {
        Ok(id) => {
            &&& !old.contains_key(id)
            &&& new.dom() == old.dom().insert(id)
            &&& new.remove(id) == old
            &&& new[id].members.len() == 0
            &&& new[id].issued.len() == 0
            &&& new[id].log.len() == 0
            &&& (new[id].password is Some <==> password is Some)
            &&& (password is Some ==> password_matches(password->0, new[id].password->0))
        },
        Err(e) => e == ErrorCode::InternalError && new == old,
    }
}

/// A join on the registry: `ChatNotFound` for a missing room; else either
/// `InternalError` with nothing changed (the random source failed), or what
/// the room decides for some token it drew.
pub open spec fn join_post(old: Map<u128, RoomModel>, new: Map<u128, RoomModel>, chat_id: u128, username: Seq<char>, password: Option<Seq<char>>, res: Result<u128, ErrorCode>) -> bool {
    if !old.contains_key(chat_id) {
        res == Err::<u128, ErrorCode>(ErrorCode::ChatNotFound) && new == old
    } else {
        (res == Err::<u128, ErrorCode>(ErrorCode::InternalError) && new == old) || exists|token: u128| {
            let (r, room) = #[trigger] old[chat_id].join_spec(username, password, token);
            res == r && new == old.insert(chat_id, room)
        }
    }
}

/// A send on the registry.
pub open spec fn send_post(old: Map<u128, RoomModel>, new: Map<u128, RoomModel>, chat_id: u128, token: u128, text: Seq<char>, res: Result<(Seq<char>, Seq<char>), ErrorCode>) -> bool {
    if !old.contains_key(chat_id) {
        res == Err::<(Seq<char>, Seq<char>), ErrorCode>(ErrorCode::ChatNotFound) && new == old
    } else {
        let (r, room) = old[chat_id].send_spec(token, text);
        res == r && new == old.insert(chat_id, room)
    }
}

/// A leave on the registry.
pub open spec fn leave_post(old: Map<u128, RoomModel>, new: Map<u128, RoomModel>, chat_id: u128, token: u128, res: Result<(), ErrorCode>) -> bool {
    if !old.contains_key(chat_id) {
        res == Err::<(), ErrorCode>(ErrorCode::ChatNotFound) && new == old
    } else {
        let (r, room) = old[chat_id].leave_spec(token);
        res == r && new == old.insert(chat_id, room)
    }
}

/// How one request moves the rooms from `old` to `new` and the session from
/// `s` to `s2`, and the step the connection then takes.
pub open spec fn dispatch(old: Map<u128, RoomModel>, new: Map<u128, RoomModel>, s: SessionModel, s2: SessionModel, request: MessageModel, step: StepModel) -> bool {
    match request {
        MessageModel::CreateChatRequest { password } => s2 == s && match step {
            StepModel::Reply { reply: MessageModel::CreateChatResponse { chat_id } } =>
                create_post(old, new, password, Ok(chat_id)),
            _ => step == error_reply(ErrorCode::InternalError) && new == old,
        },
        MessageModel::JoinChatRequest { chat_id, username, password } => if s is Joined {
            step == error_reply(ErrorCode::UserAlreadyInAnotherRoom) && new == old && s2 == s
        } else {
            match step {
                StepModel::Subscribe { chat_id: c, reply: MessageModel::JoinChatResponse { token } } => {
                    &&& c == chat_id
                    &&& join_post(old, new, chat_id, username, password, Ok(token))
                    &&& s2 == (SessionModel::Joined { chat_id, token, username })
                },
                StepModel::Reply { reply: MessageModel::ErrorResponse { code, message } } => {
                    &&& message == describe(code)
                    &&& join_post(old, new, chat_id, username, password, Err(code))
                    &&& s2 == s
                },
                _ => false,
            }
        },
        MessageModel::SendMessageRequest { chat_id, token, message } => s2 == s && match step {
            StepModel::Publish { chat_id: c, broadcast, reply } => {
                &&& c == chat_id
                &&& reply == MessageModel::SendMessageResponse
                &&& send_post(old, new, chat_id, token, message, Ok(broadcast))
            },
            StepModel::Reply { reply: MessageModel::ErrorResponse { code, message: text } } => {
                &&& text == describe(code)
                &&& send_post(old, new, chat_id, token, message, Err(code))
            },
            _ => false,
        },
        MessageModel::LeaveChatRequest { chat_id, token } => match step {
            StepModel::Unsubscribe { reply } => {
                &&& reply == MessageModel::LeaveChatResponse
                &&& leave_post(old, new, chat_id, token, Ok(()))
                &&& s2 == SessionModel::Unjoined
            },
            StepModel::Reply { reply: MessageModel::ErrorResponse { code, message } } => {
                &&& message == describe(code)
                &&& leave_post(old, new, chat_id, token, Err(code))
                &&& s2 == s
            },
            _ => false,
        },
        _ => step == StepModel::Close && new == old && s2 == s,
    }
}

impl SessionState {
    /// A connection that has joined no room.
    pub fn new() -> (r: SessionState)
        ensures
            r@ == SessionModel::Unjoined,
    {
        SessionState::Unjoined
    }
}

/// Carries out one request of a connection in `session` against the rooms
/// of `server`, and says what the connection does next.
pub fn handle_request(server: &mut ChatServer, session: &mut SessionState, request: Message) -> (r: Step)
    requires
        old(server).wf(),
    ensures
        final(server).wf(),
        final(server).port_spec() == old(server).port_spec(),
        dispatch(old(server).rooms(), final(server).rooms(), old(session)@, final(session)@, request@, r@),
{
    match request {
        Message::CreateChatRequest { password } => {
            match server.create_room(password) {
                Ok(chat_id) => Step::Reply { reply: Message::CreateChatResponse { chat_id } },
                Err(e) => Step::Reply { reply: error_response(e) },
            }
        },
        Message::JoinChatRequest { chat_id, username, password } => {
            if let SessionState::Joined { .. } = session {
                return Step::Reply { reply: error_response(ErrorCode::UserAlreadyInAnotherRoom) };
            }
            let name = username.clone();
            match server.join(chat_id, username, password) {
                Ok(token) => {
                    *session = SessionState::Joined { chat_id, token, username: name };
                    Step::Subscribe { chat_id, reply: Message::JoinChatResponse { token } }
                },
                Err(e) => Step::Reply { reply: error_response(e) },
            }
        },
        Message::SendMessageRequest { chat_id, token, message } => {
            match server.send(chat_id, token, message) {
                Ok(broadcast) => Step::Publish { chat_id, broadcast, reply: Message::SendMessageResponse },
                Err(e) => Step::Reply { reply: error_response(e) },
            }
        },
        Message::LeaveChatRequest { chat_id, token } => {
            match server.leave(chat_id, token) {
                Ok(()) => {
                    *session = SessionState::Unjoined;
                    Step::Unsubscribe { reply: Message::LeaveChatResponse }
                },
                Err(e) => Step::Reply { reply: error_response(e) },
            }
        },
        _ => Step::Close,
    }
}

/// Whether a connection in state `s` passes `broadcast`, published to room
/// `chat_id`, on to its client: only when joined to that room, and never its
/// own messages.
pub open spec fn forwards(s: SessionModel, chat_id: u128, broadcast: (Seq<char>, Seq<char>)) -> bool {
    match s {
        SessionModel::Joined { chat_id: c, username, .. } => c == chat_id && broadcast.0 != username,
        SessionModel::Unjoined => false,
    }
}

impl SessionState {
    /// Whether this connection passes `broadcast`, published to room
    /// `chat_id`, on to its client.
    pub fn forwards(&self, chat_id: u128, broadcast: &ChatMessage) -> (r: bool)
        ensures
            r == forwards(self@, chat_id, broadcast@),
    {
        match self {
            SessionState::Joined { chat_id: c, username, .. } => *c == chat_id && broadcast.username != *username,
            SessionState::Unjoined => false,
        }
    }
}

/// When member A of a room sends with its own token, the step publishes
/// exactly A's (username, text) pair to that room: another member B of the
/// room, with another username, receives it, and A does not.
pub proof fn lemma_broadcast_exclusion(
    old: Map<u128, RoomModel>,
    new: Map<u128, RoomModel>,
    chat_id: u128,
    token_a: u128,
    user_a: Seq<char>,
    token_b: u128,
    user_b: Seq<char>,
    text: Seq<char>,
    a2: SessionModel,
    step: StepModel,
)
    requires
        old.contains_key(chat_id),
        old[chat_id].has_token(token_a),
        old[chat_id].user_of(token_a) == user_a,
        user_b != user_a,
        dispatch(
            old,
            new,
            SessionModel::Joined { chat_id, token: token_a, username: user_a },
            a2,
            MessageModel::SendMessageRequest { chat_id, token: token_a, message: text },
            step,
        ),
    ensures
        step == (StepModel::Publish {
            chat_id,
            broadcast: (user_a, text),
            reply: MessageModel::SendMessageResponse,
        }),
        !forwards(SessionModel::Joined { chat_id, token: token_a, username: user_a }, chat_id, (user_a, text)),
        forwards(SessionModel::Joined { chat_id, token: token_b, username: user_b }, chat_id, (user_a, text)),
{
}

/// A broadcast published to room `x` never reaches a connection that is
/// joined to another room, nor one that is joined to none.
pub proof fn lemma_room_isolation(s: SessionModel, x: u128, broadcast: (Seq<char>, Seq<char>))
    requires
        !(s matches SessionModel::Joined { chat_id, .. } && chat_id == x),
    ensures
        !forwards(s, x, broadcast),
{
}

/// A send step publishes to the room the request named, and to no other.
pub proof fn lemma_publish_room(
    old: Map<u128, RoomModel>,
    new: Map<u128, RoomModel>,
    s: SessionModel,
    s2: SessionModel,
    request: MessageModel,
    step: StepModel,
)
    requires
        dispatch(old, new, s, s2, request, step),
        step is Publish,
    ensures
        request is SendMessageRequest,
        step->Publish_chat_id == request->SendMessageRequest_chat_id,
{
}

/// A room just created with password `p` refuses a join without a password
/// (`PasswordMissing`) and one whose password its stored hash rejects
/// (`WrongPassword`), and lets in a join with `p`; a room just created
/// without a password lets in a join with any password or none.
pub proof fn lemma_created_room_gate(
    old: Map<u128, RoomModel>,
    new: Map<u128, RoomModel>,
    password: Option<Seq<char>>,
    id: u128,
    username: Seq<char>,
    attempt: Option<Seq<char>>,
    token: u128,
)
    requires
        create_post(old, new, password, Ok(id)),
    ensures
        password is None ==> new[id].join_result(username, attempt, token) == Ok::<u128, ErrorCode>(token),
        password is Some ==> new[id].join_result(username, None, token) == Err::<u128, ErrorCode>(
            ErrorCode::PasswordMissing,
        ),
        password is Some ==> new[id].join_result(username, password, token) == Ok::<u128, ErrorCode>(token),
        password is Some && attempt is Some && !password_matches(attempt->0, new[id].password->0)
            ==> new[id].join_result(username, attempt, token) == Err::<u128, ErrorCode>(
            ErrorCode::WrongPassword,
        ),
{
    let r = new[id];
    assert(!r.has_user(username));
    assert(!r.issued.contains(token));
}

} // verus!
