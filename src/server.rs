//! The room registry: every room of the server, keyed by its id.
use vstd::prelude::*;
use std::collections::HashMap;
use crate::crypto::{hash_password, new_uuid, password_matches};
use crate::protocol::{opt_view, ChatMessage, ErrorCode};
use crate::room::{ChatRoom, RoomModel};

verus! {

/// The model of a room just created with stored hash `password`.
pub open spec fn empty_room(password: Option<Seq<char>>) -> RoomModel {
    RoomModel { members: Seq::empty(), issued: Seq::empty(), password, log: Seq::empty() }
}

/// The server's rooms and the port it listens on.
pub struct ChatServer {
    port: i32,
    chats: HashMap<u128, ChatRoom>,
}

impl ChatServer {
    /// Every room, by id.
    pub closed spec fn rooms(&self) -> Map<u128, RoomModel> {
        self.chats@.map_values(|r: ChatRoom| r@)
    }

    pub closed spec fn port_spec(&self) -> i32 {
        self.port
    }

    /// Every room is well formed.
    pub open spec fn wf(&self) -> bool {
        forall|id: u128| #[trigger] self.rooms().contains_key(id) ==> self.rooms()[id].wf()
    }

    /// A server with no rooms.
    pub fn new(port: i32) -> (r: ChatServer)
        ensures
            r.wf(),
            r.rooms() == Map::<u128, RoomModel>::empty(),
            r.port_spec() == port,
    {
        let r = ChatServer { port, chats: HashMap::new() };
        assert(r.rooms() =~= Map::<u128, RoomModel>::empty());
        r
    }

    /// The port the server listens on.
    pub fn port(&self) -> (r: i32)
        ensures
            r == self.port_spec(),
    {
        self.port
    }

    /// Whether a room with this id exists.
    pub fn has_room(&self, chat_id: u128) -> (r: bool)
        ensures
            r == self.rooms().contains_key(chat_id),
    {
        self.chats.contains_key(&chat_id)
    }

    /// Adds an empty room under `chat_id` with the stored hash
    /// `password_hash`.  An id already in use fails with `InternalError` and
    /// changes nothing.
    pub fn create_room_with(&mut self, chat_id: u128, password_hash: Option<String>) -> (r: Result<u128, ErrorCode>)
        requires
            old(self).wf(),
        ensures
            final(self).wf(),
            final(self).port_spec() == old(self).port_spec(),
            old(self).rooms().contains_key(chat_id) ==> r == Err::<u128, ErrorCode>(ErrorCode::InternalError)
                && final(self).rooms() == old(self).rooms(),
            !old(self).rooms().contains_key(chat_id) ==> r == Ok::<u128, ErrorCode>(chat_id)
                && final(self).rooms() == old(self).rooms().insert(chat_id, empty_room(opt_view(password_hash))),
    {
        if self.chats.contains_key(&chat_id) {
            return Err(ErrorCode::InternalError);
        }
        let room = ChatRoom::new(password_hash);
        let ghost before = self.rooms();
        self.chats.insert(chat_id, room);
        assert(self.rooms() =~= before.insert(chat_id, empty_room(opt_view(password_hash))));
        Ok(chat_id)
    }

    /// Adds an empty room with the stored hash `password_hash` under the id
    /// that was drawn, if one was: `None`, a failed draw, gives
    /// `InternalError` and changes nothing; otherwise as `create_room_with`.
    pub fn create_room_from(&mut self, password_hash: Option<String>, drawn: Option<u128>) -> (r: Result<u128, ErrorCode>)
        requires
            old(self).wf(),
        ensures
            final(self).wf(),
            final(self).port_spec() == old(self).port_spec(),
            drawn is None ==> r == Err::<u128, ErrorCode>(ErrorCode::InternalError)
                && final(self).rooms() == old(self).rooms(),
            drawn is Some && old(self).rooms().contains_key(drawn->0) ==> r == Err::<u128, ErrorCode>(
                ErrorCode::InternalError,
            ) && final(self).rooms() == old(self).rooms(),
            drawn is Some && !old(self).rooms().contains_key(drawn->0) ==> r == Ok::<u128, ErrorCode>(drawn->0)
                && final(self).rooms() == old(self).rooms().insert(drawn->0, empty_room(opt_view(password_hash))),
    {
        match drawn {
            Some(id) => self.create_room_with(id, password_hash),
            None => Err(ErrorCode::InternalError),
        }
    }

    /// Creates a room, storing a hash of `password` if one is given, under a
    /// fresh random id.  Fails with `InternalError`, changing nothing, when
    /// hashing fails, the random source fails, or the drawn id is already in
    /// use.  The stored hash accepts the password it was made from.
    pub fn create_room(&mut self, password: Option<String>) -> (r: Result<u128, ErrorCode>)
        requires
            old(self).wf(),
        ensures
            final(self).wf(),
            final(self).port_spec() == old(self).port_spec(),
            r is Err ==> r == Err::<u128, ErrorCode>(ErrorCode::InternalError)
                && final(self).rooms() == old(self).rooms(),
            r matches Ok(id) ==> !old(self).rooms().contains_key(id)
                && final(self).rooms().dom() == old(self).rooms().dom().insert(id)
                && final(self).rooms().remove(id) == old(self).rooms()
                && final(self).rooms()[id].members.len() == 0
                && final(self).rooms()[id].issued.len() == 0
                && final(self).rooms()[id].log.len() == 0
                && (final(self).rooms()[id].password is Some <==> password is Some)
                && (password is Some ==> password_matches(
                    password->0@,
                    final(self).rooms()[id].password->0,
                )),
    {
        let hashed = match &password {
            Some(pw) => match hash_password(pw.as_str()) {
                Some(h) => Some(h),
                None => return Err(ErrorCode::InternalError),
            },
            None => None,
        };
        let ghost stored = opt_view(hashed);
        let drawn = new_uuid();
        let r = self.create_room_from(hashed, drawn);
        proof {
            if let Ok(id) = r {
                assert(self.rooms()[id] == empty_room(stored));
                assert(self.rooms().remove(id) =~= old(self).rooms());
                assert(self.rooms().dom() =~= old(self).rooms().dom().insert(id));
            }
        }
        r
    }

    /// `username` joins room `chat_id` with `password`, the room handing out
    /// `token` on success.  A missing room fails with `ChatNotFound`;
    /// otherwise the room decides as `RoomModel::join_spec` says.
    pub fn join_with_token(&mut self, chat_id: u128, username: String, password: Option<String>, token: u128) -> (r: Result<u128, ErrorCode>)
        requires
            old(self).wf(),
        ensures
            final(self).wf(),
            final(self).port_spec() == old(self).port_spec(),
            !old(self).rooms().contains_key(chat_id) ==> r == Err::<u128, ErrorCode>(ErrorCode::ChatNotFound)
                && final(self).rooms() == old(self).rooms(),
            old(self).rooms().contains_key(chat_id) ==> {
                let (res, room) = old(self).rooms()[chat_id].join_spec(username@, opt_view(password), token);
                r == res && final(self).rooms() == old(self).rooms().insert(chat_id, room)
            },
    {
        let ghost before = self.rooms();
        let mut room = match self.chats.remove(&chat_id) {
            Some(room) => room,
            None => {
                assert(self.rooms() =~= before);
                return Err(ErrorCode::ChatNotFound);
            },
        };
        assert(before.contains_key(chat_id) && before[chat_id] == room@);
        let r = room.join_with_token(username, password, token);
        self.chats.insert(chat_id, room);
        assert(self.rooms() =~= old(self).rooms().insert(chat_id, room@));
        r
    }

    /// `username` joins room `chat_id` with `password` under a fresh random
    /// token.  A missing room fails with `ChatNotFound`; a failure of the
    /// random source fails with `InternalError` and changes nothing;
    /// otherwise the room decides as `RoomModel::join_spec` says for the token
    /// drawn.
    pub fn join(&mut self, chat_id: u128, username: String, password: Option<String>) -> (r: Result<u128, ErrorCode>)
        requires
            old(self).wf(),
        ensures
            final(self).wf(),
            final(self).port_spec() == old(self).port_spec(),
            !old(self).rooms().contains_key(chat_id) ==> r == Err::<u128, ErrorCode>(ErrorCode::ChatNotFound)
                && final(self).rooms() == old(self).rooms(),
            old(self).rooms().contains_key(chat_id) ==> (r == Err::<u128, ErrorCode>(ErrorCode::InternalError)
                && final(self).rooms() == old(self).rooms()) || exists|token: u128| {
                let (res, room) = #[trigger] old(self).rooms()[chat_id].join_spec(username@, opt_view(password), token);
                r == res && final(self).rooms() == old(self).rooms().insert(chat_id, room)
            },
    {
        if !self.chats.contains_key(&chat_id) {
            return Err(ErrorCode::ChatNotFound);
        }
        let token = match new_uuid() {
            Some(t) => t,
            None => return Err(ErrorCode::InternalError),
        };
        let ghost pw = opt_view(password);
        let ghost name = username@;
        let r = self.join_with_token(chat_id, username, password, token);
        assert({
            let (res, room) = old(self).rooms()[chat_id].join_spec(name, pw, token);
            r == res && self.rooms() == old(self).rooms().insert(chat_id, room)
        });
        r
    }

    /// The member of room `chat_id` holding `token` sends `message`.  A
    /// missing room fails with `ChatNotFound`; otherwise the room decides as
    /// `RoomModel::send_spec` says, and the pair to publish is returned.
    pub fn send(&mut self, chat_id: u128, token: u128, message: String) -> (r: Result<ChatMessage, ErrorCode>)
        requires
            old(self).wf(),
        ensures
            final(self).wf(),
            final(self).port_spec() == old(self).port_spec(),
            !old(self).rooms().contains_key(chat_id) ==> (r matches Err(e) && e == ErrorCode::ChatNotFound)
                && final(self).rooms() == old(self).rooms(),
            old(self).rooms().contains_key(chat_id) ==> {
                let (res, room) = old(self).rooms()[chat_id].send_spec(token, message@);
                &&& final(self).rooms() == old(self).rooms().insert(chat_id, room)
                &&& r matches Ok(c) ==> res == Ok::<(Seq<char>, Seq<char>), ErrorCode>(c@)
                &&& r matches Err(e) ==> res == Err::<(Seq<char>, Seq<char>), ErrorCode>(e)
            },
    {
        let ghost before = self.rooms();
        let mut room = match self.chats.remove(&chat_id) {
            Some(room) => room,
            None => {
                assert(self.rooms() =~= before);
                return Err(ErrorCode::ChatNotFound);
            },
        };
        assert(before.contains_key(chat_id) && before[chat_id] == room@);
        let r = room.add_message(token, message);
        self.chats.insert(chat_id, room);
        assert(self.rooms() =~= old(self).rooms().insert(chat_id, room@));
        r
    }

    /// The member of room `chat_id` holding `token` leaves.  A missing room
    /// fails with `ChatNotFound`; otherwise the room decides as
    /// `RoomModel::leave_spec` says.
    pub fn leave(&mut self, chat_id: u128, token: u128) -> (r: Result<(), ErrorCode>)
        requires
            old(self).wf(),
        ensures
            final(self).wf(),
            final(self).port_spec() == old(self).port_spec(),
            !old(self).rooms().contains_key(chat_id) ==> r == Err::<(), ErrorCode>(ErrorCode::ChatNotFound)
                && final(self).rooms() == old(self).rooms(),
            old(self).rooms().contains_key(chat_id) ==> {
                let (res, room) = old(self).rooms()[chat_id].leave_spec(token);
                r == res && final(self).rooms() == old(self).rooms().insert(chat_id, room)
            },
    {
        let ghost before = self.rooms();
        let mut room = match self.chats.remove(&chat_id) {
            Some(room) => room,
            None => {
                assert(self.rooms() =~= before);
                return Err(ErrorCode::ChatNotFound);
            },
        };
        assert(before.contains_key(chat_id) && before[chat_id] == room@);
        let r = room.leave(token);
        self.chats.insert(chat_id, room);
        assert(self.rooms() =~= old(self).rooms().insert(chat_id, room@));
        r
    }
}

} // verus!
