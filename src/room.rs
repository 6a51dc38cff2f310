//! A chat room: its members and their tokens, its optional password gate and
//! its message log.
use vstd::prelude::*;
use crate::crypto::{password_matches, verify_password};
use crate::protocol::{opt_view, ChatMessage, ErrorCode};

verus! {

/// The mathematical value of a room.
pub struct RoomModel {
    /// (token, username) of each current member, in order of joining.
    pub members: Seq<(u128, Seq<char>)>,
    /// Every token this room has ever handed out.
    pub issued: Seq<u128>,
    /// The stored password hash, if the room has a password.
    pub password: Option<Seq<char>>,
    /// (username, text) of each message sent, in order.
    pub log: Seq<(Seq<char>, Seq<char>)>,
}

impl RoomModel {
    pub open spec fn has_token(self, t: u128) -> bool {
        exists|i: int| 0 <= i < self.members.len() && #[trigger] self.members[i].0 == t
    }

    pub open spec fn has_user(self, u: Seq<char>) -> bool {
        exists|i: int| 0 <= i < self.members.len() && #[trigger] self.members[i].1 == u
    }

    pub open spec fn token_index(self, t: u128) -> int {
        choose|i: int| 0 <= i < self.members.len() && #[trigger] self.members[i].0 == t
    }

    pub open spec fn user_of(self, t: u128) -> Seq<char> {
        self.members[self.token_index(t)].1
    }

    /// Tokens and usernames are unique among the members, and every
    /// member's token was handed out by this room.
    pub open spec fn wf(self) -> bool {
        &&& forall|i: int, j: int|
            0 <= i < j < self.members.len() ==> #[trigger] self.members[i].0
                != #[trigger] self.members[j].0
        &&& forall|i: int, j: int|
            0 <= i < j < self.members.len() ==> #[trigger] self.members[i].1
                != #[trigger] self.members[j].1
        &&& forall|i: int|
            0 <= i < self.members.len() ==> self.issued.contains(#[trigger] self.members[i].0)
    }

    /// The outcome of `username` asking to join with `password`, when the
    /// room would hand out `token`.
    pub open spec fn join_result(self, username: Seq<char>, password: Option<Seq<char>>, token: u128) -> Result<u128, ErrorCode> {
        if self.has_user(username) {
            Err(ErrorCode::UserAlreadyInRoom)
        } else if self.password is Some && password is None {
            Err(ErrorCode::PasswordMissing)
        } else if self.password is Some && !password_matches(password->0, self.password->0) {
            Err(ErrorCode::WrongPassword)
        } else if self.issued.contains(token) {
            Err(ErrorCode::InternalError)
        } else {
            Ok(token)
        }
    }

    /// The room after a join: its result, and the new room.
    pub open spec fn join_spec(self, username: Seq<char>, password: Option<Seq<char>>, token: u128) -> (Result<u128, ErrorCode>, RoomModel) {
        let r = self.join_result(username, password, token);
        if r is Ok {
            (r, RoomModel {
                members: self.members.push((token, username)),
                issued: self.issued.push(token),
                ..self
            })
        } else {
            (r, self)
        }
    }

    /// The room after a member holding `token` sends `text`: the message
    /// to publish, and the new room.
    pub open spec fn send_spec(self, token: u128, text: Seq<char>) -> (Result<(Seq<char>, Seq<char>), ErrorCode>, RoomModel) {
        if self.has_token(token) {
            let m = (self.user_of(token), text);
            (Ok(m), RoomModel { log: self.log.push(m), ..self })
        } else {
            (Err(ErrorCode::Unauthorized), self)
        }
    }

    /// The room after the member holding `token` leaves.
    pub open spec fn leave_spec(self, token: u128) -> (Result<(), ErrorCode>, RoomModel) {
        if self.has_token(token) {
            (Ok(()), RoomModel { members: self.members.remove(self.token_index(token)), ..self })
        } else {
            (Err(ErrorCode::Unauthorized), self)
        }
    }
}

/// A current member of a room.
#[derive(Debug)]
pub struct Member {
    pub token: u128,
    pub username: String,
}

/// A chat room.
#[derive(Debug)]
pub struct ChatRoom {
    members: Vec<Member>,
    issued: Vec<u128>,
    password: Option<String>,
    messages: Vec<ChatMessage>,
}

impl View for ChatRoom {
    type V = RoomModel;

    closed spec fn view(&self) -> RoomModel {
        RoomModel {
            members: self.members@.map_values(|m: Member| (m.token, m.username@)),
            issued: self.issued@,
            password: opt_view(self.password),
            log: self.messages@.map_values(|c: ChatMessage| c@),
        }
    }
}

impl ChatRoom {
    /// An empty room.  `password_hash` is the stored hash of its password,
    /// or `None` for an open room.
    pub fn new(password_hash: Option<String>) -> (r: ChatRoom)
        ensures
            r@.wf(),
            r@ == (RoomModel {
                members: Seq::empty(),
                issued: Seq::empty(),
                password: opt_view(password_hash),
                log: Seq::empty(),
            }),
    {
        let r = ChatRoom {
            members: Vec::new(),
            issued: Vec::new(),
            password: password_hash,
            messages: Vec::new(),
        };
        assert(r@.members =~= Seq::empty());
        assert(r@.log =~= Seq::empty());
        r
    }

    fn find_token(&self, token: u128) -> (r: Option<usize>)
        requires
            self@.wf(),
        ensures
            r is Some <==> self@.has_token(token),
            r matches Some(i) ==> i == self@.token_index(token) && i < self@.members.len(),
    {
        let mut i: usize = 0;
        while i < self.members.len()
            invariant
                0 <= i <= self.members@.len(),
                self@.wf(),
                forall|k: int| 0 <= k < i ==> #[trigger] self@.members[k].0 != token,
            decreases self.members@.len() - i,
        {
            if self.members[i].token == token {
                assert(self@.members[i as int].0 == token);
                proof {
                    assert(self@.has_token(token));
                    let j = self@.token_index(token);
                    assert(0 <= j < self@.members.len() && self@.members[j].0 == token);
                    if j < i as int {
                        assert(self@.members[j].0 != self@.members[i as int].0);
                    } else if j > i as int {
                        assert(self@.members[i as int].0 != self@.members[j].0);
                    }
                }
                return Some(i);
            }
            i = i + 1;
        }
        None
    }

    fn has_user(&self, username: &String) -> (r: bool)
        ensures
            r == self@.has_user(username@),
    {
        let mut i: usize = 0;
        while i < self.members.len()
            invariant
                0 <= i <= self.members@.len(),
                forall|k: int| 0 <= k < i ==> #[trigger] self@.members[k].1 != username@,
            decreases self.members@.len() - i,
        {
            if self.members[i].username == *username {
                assert(self@.members[i as int].1 == username@);
                return true;
            }
            i = i + 1;
        }
        false
    }

    fn was_issued(&self, token: u128) -> (r: bool)
        ensures
            r == self@.issued.contains(token),
    {
        let mut i: usize = 0;
        while i < self.issued.len()
            invariant
                0 <= i <= self.issued@.len(),
                forall|k: int| 0 <= k < i ==> self.issued@[k] != token,
            decreases self.issued@.len() - i,
        {
            if self.issued[i] == token {
                return true;
            }
            i = i + 1;
        }
        false
    }

    /// `username` joins with `password`; on success the room hands out
    /// `token`.  A token the room handed out before is never handed out
    /// again: that case fails with `InternalError`.
    pub fn join_with_token(&mut self, username: String, password: Option<String>, token: u128) -> (r: Result<u128, ErrorCode>)
        requires
            old(self)@.wf(),
        ensures
            final(self)@.wf(),
            (r, final(self)@) == old(self)@.join_spec(username@, opt_view(password), token),
    {
        if self.has_user(&username) {
            return Err(ErrorCode::UserAlreadyInRoom);
        }
        match &self.password {
            Some(hash) => match &password {
                None => {
                    return Err(ErrorCode::PasswordMissing);
                },
                Some(pw) => {
                    if !verify_password(pw.as_str(), hash.as_str()) {
                        return Err(ErrorCode::WrongPassword);
                    }
                },
            },
            None => {},
        }
        if self.was_issued(token) {
            return Err(ErrorCode::InternalError);
        }
        let ghost before = self@;
        self.members.push(Member { token, username });
        self.issued.push(token);
        assert(self@.members =~= before.members.push((token, username@)));
        assert forall|i: int| 0 <= i < self@.members.len() implies self@.issued.contains(
            #[trigger] self@.members[i].0,
        ) by {
            if i < before.members.len() {
                assert(before.issued.contains(before.members[i].0));
                let k = choose|k: int| 0 <= k < before.issued.len() && before.issued[k] == before.members[i].0;
                assert(self@.issued[k] == self@.members[i].0);
            } else {
                assert(self@.issued[before.issued.len() as int] == token);
            }
        }
        assert forall|i: int, j: int| 0 <= i < j < self@.members.len() implies #[trigger] self@.members[i].1
            != #[trigger] self@.members[j].1 by {
            if j == before.members.len() {
                assert(!before.has_user(username@));
                assert(before.members[i].1 != username@);
            }
        }
        assert forall|i: int, j: int| 0 <= i < j < self@.members.len() implies #[trigger] self@.members[i].0
            != #[trigger] self@.members[j].0 by {
            if j == before.members.len() {
                assert(before.issued.contains(before.members[i].0));
            }
        }
        Ok(token)
    }

    /// The member holding `token` sends `message`: it is appended to the
    /// log, and the (username, text) pair to publish is returned.
    pub fn add_message(&mut self, token: u128, message: String) -> (r: Result<ChatMessage, ErrorCode>)
        requires
            old(self)@.wf(),
        ensures
            final(self)@.wf(),
            final(self)@ == old(self)@.send_spec(token, message@).1,
            r matches Ok(c) ==> old(self)@.send_spec(token, message@).0 == Ok::<(Seq<char>, Seq<char>), ErrorCode>(c@),
            r matches Err(e) ==> old(self)@.send_spec(token, message@).0 == Err::<(Seq<char>, Seq<char>), ErrorCode>(e),
    {
        let i = match self.find_token(token) {
            Some(i) => i,
            None => return Err(ErrorCode::Unauthorized),
        };
        let username = self.members[i].username.clone();
        let ghost before = self@;
        self.messages.push(ChatMessage { username: username.clone(), message: message.clone() });
        assert(self@.log =~= before.log.push((username@, message@)));
        Ok(ChatMessage { username, message })
    }

    /// The member holding `token` leaves: the token stops being valid.
    pub fn leave(&mut self, token: u128) -> (r: Result<(), ErrorCode>)
        requires
            old(self)@.wf(),
        ensures
            final(self)@.wf(),
            (r, final(self)@) == old(self)@.leave_spec(token),
    {
        let i = match self.find_token(token) {
            Some(i) => i,
            None => return Err(ErrorCode::Unauthorized),
        };
        let ghost before = self@;
        self.members.remove(i);
        assert(self@.members =~= before.members.remove(i as int));
        assert forall|a: int, b: int| 0 <= a < b < self@.members.len() implies #[trigger] self@.members[a].0
            != #[trigger] self@.members[b].0 by {
            let a0 = if a < i { a } else { a + 1 };
            let b0 = if b < i { b } else { b + 1 };
            assert(self@.members[a] == before.members[a0]);
            assert(self@.members[b] == before.members[b0]);
        }
        assert forall|a: int, b: int| 0 <= a < b < self@.members.len() implies #[trigger] self@.members[a].1
            != #[trigger] self@.members[b].1 by {
            let a0 = if a < i { a } else { a + 1 };
            let b0 = if b < i { b } else { b + 1 };
            assert(self@.members[a] == before.members[a0]);
            assert(self@.members[b] == before.members[b0]);
        }
        assert forall|a: int| 0 <= a < self@.members.len() implies self@.issued.contains(
            #[trigger] self@.members[a].0,
        ) by {
            let a0 = if a < i { a } else { a + 1 };
            assert(self@.members[a] == before.members[a0]);
        }
        Ok(())
    }

    /// Number of messages in the log.
    pub fn message_count(&self) -> (r: usize)
        ensures
            r == self@.log.len(),
    {
        self.messages.len()
    }

    /// Whether `username` is a current member.
    pub fn is_member(&self, username: &String) -> (r: bool)
        ensures
            r == self@.has_user(username@),
    {
        self.has_user(username)
    }
}

/// Joining, for a username that is not yet a member: a wrong password
/// fails with `WrongPassword`, no password where one is required fails with
/// `PasswordMissing`, in an open room any password (or none) is let in, and
/// in a gated room the right password is let in, each with a token the room
/// never handed out before.
pub proof fn lemma_join_authorization(r: RoomModel, username: Seq<char>, password: Option<Seq<char>>, token: u128)
    requires
        !r.has_user(username),
    ensures
        r.password is Some && password is Some && !password_matches(password->0, r.password->0)
            ==> r.join_result(username, password, token) == Err::<u128, ErrorCode>(ErrorCode::WrongPassword),
        r.password is Some && password is None
            ==> r.join_result(username, password, token) == Err::<u128, ErrorCode>(ErrorCode::PasswordMissing),
        r.password is None && !r.issued.contains(token)
            ==> r.join_result(username, password, token) == Ok::<u128, ErrorCode>(token),
        r.password is Some && password is Some && password_matches(password->0, r.password->0)
            && !r.issued.contains(token)
            ==> r.join_result(username, password, token) == Ok::<u128, ErrorCode>(token),
{
}

proof fn lemma_joined_last(r: RoomModel, username: Seq<char>, password: Option<Seq<char>>, token: u128)
    requires
        r.wf(),
        r.join_result(username, password, token) is Ok,
    ensures
        r.join_spec(username, password, token).1.has_token(token),
        r.join_spec(username, password, token).1.token_index(token) == r.members.len(),
        r.join_spec(username, password, token).1.has_user(username),
{
    let r1 = r.join_spec(username, password, token).1;
    let n = r.members.len() as int;
    assert(r1.members[n].0 == token);
    assert(r1.members[n].1 == username);
    let j = r1.token_index(token);
    if j != n {
        assert(r1.members[j] == r.members[j]);
        assert(r.issued.contains(r.members[j].0));
    }
}

/// A username that has joined cannot join the same room again while it is
/// a member: the second attempt fails with `UserAlreadyInRoom`.
pub proof fn lemma_no_double_join(
    r: RoomModel,
    username: Seq<char>,
    password: Option<Seq<char>>,
    token: u128,
    password2: Option<Seq<char>>,
    token2: u128,
)
    requires
        r.wf(),
        r.join_result(username, password, token) is Ok,
    ensures
        r.join_spec(username, password, token).1.join_result(username, password2, token2)
            == Err::<u128, ErrorCode>(ErrorCode::UserAlreadyInRoom),
{
    lemma_joined_last(r, username, password, token);
}

/// After a member leaves, the same username can join again: it is no longer
/// refused as a member, it is let in with the same password under any token
/// the room never handed out, and the new token differs from the old one.
pub proof fn lemma_rejoin_after_leave(
    r: RoomModel,
    username: Seq<char>,
    password: Option<Seq<char>>,
    token: u128,
    token2: u128,
)
    requires
        r.wf(),
        r.join_result(username, password, token) is Ok,
    ensures
        ({
            let r1 = r.join_spec(username, password, token).1;
            let r2 = r1.leave_spec(token).1;
            &&& r1.leave_spec(token).0 is Ok
            &&& r2.join_result(username, password, token2) != Err::<u128, ErrorCode>(ErrorCode::UserAlreadyInRoom)
            &&& !r2.issued.contains(token2) ==> r2.join_result(username, password, token2) == Ok::<u128, ErrorCode>(token2)
            &&& r2.join_result(username, password, token2) matches Ok(t) ==> t != token
        }),
{
    lemma_joined_last(r, username, password, token);
    let r1 = r.join_spec(username, password, token).1;
    let r2 = r1.leave_spec(token).1;
    assert(r2.members =~= r.members);
    assert(r2.issued.last() == token);
}

/// Once a member has left, its token is dead: sending or leaving with it
/// fails with `Unauthorized`.
pub proof fn lemma_token_revoked(r: RoomModel, token: u128, text: Seq<char>)
    requires
        r.wf(),
        r.leave_spec(token).0 is Ok,
    ensures
        !r.leave_spec(token).1.has_token(token),
        r.leave_spec(token).1.send_spec(token, text).0
            == Err::<(Seq<char>, Seq<char>), ErrorCode>(ErrorCode::Unauthorized),
        r.leave_spec(token).1.leave_spec(token).0 == Err::<(), ErrorCode>(ErrorCode::Unauthorized),
{
    let i = r.token_index(token);
    let r2 = r.leave_spec(token).1;
    if r2.has_token(token) {
        let j = choose|j: int| 0 <= j < r2.members.len() && #[trigger] r2.members[j].0 == token;
        let j0 = if j < i { j } else { j + 1 };
        assert(r2.members[j] == r.members[j0]);
        if j0 < i {
            assert(r.members[j0].0 != r.members[i].0);
        } else {
            assert(r.members[i].0 != r.members[j0].0);
        }
    }
}

} // verus!
