use vstd::prelude::*;

verus! {

/// Error codes carried by an `ErrorResponse`.
#[derive(Clone, Copy, Debug, PartialEq, Eq, Structural)]
pub enum ErrorCode {
    WrongPassword,
    PasswordMissing,
    ChatNotFound,
    InvalidFormat,
    Unauthorized,
    UserAlreadyInRoom,
    UserAlreadyInAnotherRoom,
    InternalError,
}

/// One message posted to a room: who sent it and what it says.
#[derive(Clone, Debug)]
pub struct ChatMessage {
    pub username: String,
    pub message: String,
}

/// Every payload that travels inside an envelope.  Room ids and tokens are
/// UUIDs, held as their 128-bit value.
#[derive(Clone, Debug)]
pub enum Message {
    CreateChatRequest { password: Option<String> },
    CreateChatResponse { chat_id: u128 },
    JoinChatRequest { chat_id: u128, username: String, password: Option<String> },
    JoinChatResponse { token: u128 },
    SendMessageRequest { chat_id: u128, token: u128, message: String },
    SendMessageResponse,
    LeaveChatRequest { chat_id: u128, token: u128 },
    LeaveChatResponse,
    MessageBroadcast { username: String, message: String },
    ErrorResponse { code: ErrorCode, message: String },
}

/// The mathematical value of a `Message`: strings as character sequences.
pub enum MessageModel {
    CreateChatRequest { password: Option<Seq<char>> },
    CreateChatResponse { chat_id: u128 },
    JoinChatRequest { chat_id: u128, username: Seq<char>, password: Option<Seq<char>> },
    JoinChatResponse { token: u128 },
    SendMessageRequest { chat_id: u128, token: u128, message: Seq<char> },
    SendMessageResponse,
    LeaveChatRequest { chat_id: u128, token: u128 },
    LeaveChatResponse,
    MessageBroadcast { username: Seq<char>, message: Seq<char> },
    ErrorResponse { code: ErrorCode, message: Seq<char> },
}

pub open spec fn opt_view(o: Option<String>) -> Option<Seq<char>> {
    match o {
        Some(s) => Some(s@),
        None => None,
    }
}

impl View for Message {
    type V = MessageModel;

    open spec fn view(&self) -> MessageModel {
        match self {
            Message::CreateChatRequest { password } => MessageModel::CreateChatRequest {
                password: opt_view(*password),
            },
            Message::CreateChatResponse { chat_id } => MessageModel::CreateChatResponse {
                chat_id: *chat_id,
            },
            Message::JoinChatRequest { chat_id, username, password } =>
                MessageModel::JoinChatRequest {
                chat_id: *chat_id,
                username: username@,
                password: opt_view(*password),
            },
            Message::JoinChatResponse { token } => MessageModel::JoinChatResponse { token: *token },
            Message::SendMessageRequest { chat_id, token, message } =>
                MessageModel::SendMessageRequest { chat_id: *chat_id, token: *token, message: message@ },
            Message::SendMessageResponse => MessageModel::SendMessageResponse,
            Message::LeaveChatRequest { chat_id, token } => MessageModel::LeaveChatRequest {
                chat_id: *chat_id,
                token: *token,
            },
            Message::LeaveChatResponse => MessageModel::LeaveChatResponse,
            Message::MessageBroadcast { username, message } => MessageModel::MessageBroadcast {
                username: username@,
                message: message@,
            },
            Message::ErrorResponse { code, message } => MessageModel::ErrorResponse {
                code: *code,
                message: message@,
            },
        }
    }
}

impl View for ChatMessage {
    type V = (Seq<char>, Seq<char>);

    open spec fn view(&self) -> (Seq<char>, Seq<char>) {
        (self.username@, self.message@)
    }
}

} // verus!
