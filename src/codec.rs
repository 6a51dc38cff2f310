//! The wire codec.  A frame is `[version][body length, u32 big-endian][body]`.
//! A body is a tag byte followed by the variant's fields: ids as 16 bytes
//! little-endian, strings as a u32 little-endian byte count and their UTF-8
//! bytes, optional strings as a presence byte (0 or 1) then the string, and
//! error codes as one byte.
use vstd::prelude::*;
use vstd::bytes::*;
use vstd::utf8::*;
use vstd::string::*;
use crate::protocol::{ErrorCode, Message, MessageModel};

verus! {

broadcast use encode_utf8_valid_utf8, encode_utf8_decode_utf8;

/// The version written into every frame this library produces.
pub const PROTOCOL_VERSION: u8 = 1;

/// Size of the frame header: one version byte and four length bytes.
pub const HEADER_LEN: usize = 5;

/// Largest body a frame may declare; larger declarations are refused before
/// any body byte is read.
pub const MAX_BODY_LEN: u32 = 1048576;

/// Why a frame or a body could not be turned into a message.
#[derive(Clone, Copy, Debug, PartialEq, Eq, Structural)]
pub enum CodecError {
    /// The input ended before the header or the declared body was complete.
    MalformedEnvelope,
    /// The declared or produced body is longer than `MAX_BODY_LEN`.
    TooLarge,
    /// The body's tag byte names no message variant.
    UnknownVariant,
    /// The body's fields do not form a message of its variant.
    SchemaMismatch,
}

/// The frame header.
#[derive(Clone, Copy, Debug, PartialEq, Eq, Structural)]
pub struct Header {
    pub version: u8,
    pub length: u32,
}

// ---------------------------------------------------------------- encoding

pub open spec fn be32(n: u32) -> Seq<u8> {
    let l = spec_u32_to_le_bytes(n);
    seq![l[3], l[2], l[1], l[0]]
}

pub open spec fn be32_value(b: Seq<u8>) -> u32 {
    spec_u32_from_le_bytes(seq![b[3], b[2], b[1], b[0]])
}

pub open spec fn enc_id(x: u128) -> Seq<u8> {
    spec_u128_to_le_bytes(x)
}

pub open spec fn enc_str(s: Seq<char>) -> Seq<u8> {
    spec_u32_to_le_bytes(encode_utf8(s).len() as u32) + encode_utf8(s)
}

pub open spec fn enc_opt(o: Option<Seq<char>>) -> Seq<u8> {
    match o {
        Some(s) => seq![1u8] + enc_str(s),
        None => seq![0u8],
    }
}

pub open spec fn code_byte(c: ErrorCode) -> u8 {
    match c {
        ErrorCode::WrongPassword => 0,
        ErrorCode::PasswordMissing => 1,
        ErrorCode::ChatNotFound => 2,
        ErrorCode::InvalidFormat => 3,
        ErrorCode::Unauthorized => 4,
        ErrorCode::UserAlreadyInRoom => 5,
        ErrorCode::UserAlreadyInAnotherRoom => 6,
        ErrorCode::InternalError => 7,
    }
}

/// The body that encodes a message.
pub open spec fn encode_body(m: MessageModel) -> Seq<u8> {
    match m {
        MessageModel::CreateChatRequest { password } => seq![1u8] + enc_opt(password),
        MessageModel::CreateChatResponse { chat_id } => seq![2u8] + enc_id(chat_id),
        MessageModel::JoinChatRequest { chat_id, username, password } => seq![3u8] + enc_id(
            chat_id,
        ) + enc_str(username) + enc_opt(password),
        MessageModel::JoinChatResponse { token } => seq![4u8] + enc_id(token),
        MessageModel::SendMessageRequest { chat_id, token, message } => seq![5u8] + enc_id(
            chat_id,
        ) + enc_id(token) + enc_str(message),
        MessageModel::SendMessageResponse => seq![6u8],
        MessageModel::LeaveChatRequest { chat_id, token } => seq![7u8] + enc_id(chat_id) + enc_id(
            token,
        ),
        MessageModel::LeaveChatResponse => seq![8u8],
        MessageModel::MessageBroadcast { username, message } => seq![9u8] + enc_str(username)
            + enc_str(message),
        MessageModel::ErrorResponse { code, message } => seq![10u8] + seq![code_byte(code)]
            + enc_str(message),
    }
}

/// A message can be framed when its body fits the declared-length limit.
pub open spec fn fits(m: MessageModel) -> bool {
    encode_body(m).len() <= MAX_BODY_LEN
}

/// The whole frame that carries a message.
pub open spec fn encode_frame(version: u8, m: MessageModel) -> Seq<u8> {
    seq![version] + be32(encode_body(m).len() as u32) + encode_body(m)
}

fn push_bytes(out: &mut Vec<u8>, b: &[u8])
    ensures
        final(out)@ == old(out)@ + b@,
{
    let mut i: usize = 0;
    while i < b.len()
        invariant
            0 <= i <= b@.len(),
            out@ == old(out)@ + b@.subrange(0, i as int),
        decreases b@.len() - i,
    {
        out.push(b[i]);
        i = i + 1;
        assert(b@.subrange(0, i as int) == b@.subrange(0, i - 1) + seq![b@[i - 1]]);
    }
    assert(b@.subrange(0, i as int) == b@);
}

fn push_id(out: &mut Vec<u8>, x: u128)
    ensures
        final(out)@ == old(out)@ + enc_id(x),
{
    let b = u128_to_le_bytes(x);
    push_bytes(out, b.as_slice());
}

fn push_str(out: &mut Vec<u8>, s: &String)
    requires
        encode_utf8(s@).len() <= MAX_BODY_LEN,
    ensures
        final(out)@ == old(out)@ + enc_str(s@),
{
    let b = s.as_str().as_bytes();
    let n = u32_to_le_bytes(b.len() as u32);
    push_bytes(out, n.as_slice());
    push_bytes(out, b);
    assert(final(out)@ == old(out)@ + enc_str(s@));
}

fn push_opt(out: &mut Vec<u8>, o: &Option<String>)
    requires
        o matches Some(s) ==> encode_utf8(s@).len() <= MAX_BODY_LEN,
    ensures
        final(out)@ == old(out)@ + enc_opt(crate::protocol::opt_view(*o)),
{
    match o {
        Some(s) => {
            out.push(1u8);
            push_str(out, s);
        },
        None => {
            out.push(0u8);
        },
    }
}

fn str_fits(s: &String) -> (r: bool)
    ensures
        r == (encode_utf8(s@).len() <= MAX_BODY_LEN),
{
    s.as_str().as_bytes().len() <= MAX_BODY_LEN as usize
}

fn opt_fits(o: &Option<String>) -> (r: bool)
    ensures
        r == (o matches Some(s) ==> encode_utf8(s@).len() <= MAX_BODY_LEN),
{
    match o {
        Some(s) => str_fits(s),
        None => true,
    }
}

fn code_to_byte(c: ErrorCode) -> (r: u8)
    ensures
        r == code_byte(c),
{
    match c {
        ErrorCode::WrongPassword => 0,
        ErrorCode::PasswordMissing => 1,
        ErrorCode::ChatNotFound => 2,
        ErrorCode::InvalidFormat => 3,
        ErrorCode::Unauthorized => 4,
        ErrorCode::UserAlreadyInRoom => 5,
        ErrorCode::UserAlreadyInAnotherRoom => 6,
        ErrorCode::InternalError => 7,
    }
}

/// Encodes the body of a message.  Fails with `TooLarge` exactly when the
/// body would be longer than `MAX_BODY_LEN`.
pub fn encode_body_bytes(m: &Message) -> (r: Result<Vec<u8>, CodecError>)
    ensures
        r is Ok <==> fits(m@),
        r matches Ok(b) ==> b@ == encode_body(m@),
        r matches Err(e) ==> e == CodecError::TooLarge,
{
    let mut out: Vec<u8> = Vec::new();
    match m {
        Message::CreateChatRequest { password } => {
            if !opt_fits(password) {
                return Err(CodecError::TooLarge);
            }
            out.push(1u8);
            push_opt(&mut out, password);
        },
        Message::CreateChatResponse { chat_id } => {
            out.push(2u8);
            push_id(&mut out, *chat_id);
        },
        Message::JoinChatRequest { chat_id, username, password } => {
            if !str_fits(username) || !opt_fits(password) {
                return Err(CodecError::TooLarge);
            }
            out.push(3u8);
            push_id(&mut out, *chat_id);
            push_str(&mut out, username);
            push_opt(&mut out, password);
        },
        Message::JoinChatResponse { token } => {
            out.push(4u8);
            push_id(&mut out, *token);
        },
        Message::SendMessageRequest { chat_id, token, message } => {
            if !str_fits(message) {
                return Err(CodecError::TooLarge);
            }
            out.push(5u8);
            push_id(&mut out, *chat_id);
            push_id(&mut out, *token);
            push_str(&mut out, message);
        },
        Message::SendMessageResponse => {
            out.push(6u8);
        },
        Message::LeaveChatRequest { chat_id, token } => {
            out.push(7u8);
            push_id(&mut out, *chat_id);
            push_id(&mut out, *token);
        },
        Message::LeaveChatResponse => {
            out.push(8u8);
        },
        Message::MessageBroadcast { username, message } => {
            if !str_fits(username) || !str_fits(message) {
                return Err(CodecError::TooLarge);
            }
            out.push(9u8);
            push_str(&mut out, username);
            push_str(&mut out, message);
        },
        Message::ErrorResponse { code, message } => {
            if !str_fits(message) {
                return Err(CodecError::TooLarge);
            }
            out.push(10u8);
            out.push(code_to_byte(*code));
            push_str(&mut out, message);
        },
    }
    assert(out@ =~= encode_body(m@));
    if out.len() > MAX_BODY_LEN as usize {
        return Err(CodecError::TooLarge);
    }
    Ok(out)
}

/// Encodes a whole frame: header, then body.  Fails with `TooLarge` exactly
/// when the body would be longer than `MAX_BODY_LEN`.
pub fn encode_frame_bytes(version: u8, m: &Message) -> (r: Result<Vec<u8>, CodecError>)
    ensures
        r is Ok <==> fits(m@),
        r matches Ok(b) ==> b@ == encode_frame(version, m@),
        r matches Err(e) ==> e == CodecError::TooLarge,
{
    let body = encode_body_bytes(m)?;
    let len = body.len() as u32;
    let le = u32_to_le_bytes(len);
    let mut out: Vec<u8> = Vec::new();
    out.push(version);
    out.push(le[3]);
    out.push(le[2]);
    out.push(le[1]);
    out.push(le[0]);
    push_bytes(&mut out, body.as_slice());
    assert(out@ =~= encode_frame(version, m@));
    Ok(out)
}

// ---------------------------------------------------------------- decoding

pub open spec fn parse_len(b: Seq<u8>) -> Option<(u32, Seq<u8>)> {
    if b.len() >= 4 {
        Some((spec_u32_from_le_bytes(b.subrange(0, 4)), b.subrange(4, b.len() as int)))
    } else {
        None
    }
}

pub open spec fn parse_id(b: Seq<u8>) -> Option<(u128, Seq<u8>)> {
    if b.len() >= 16 {
        Some((spec_u128_from_le_bytes(b.subrange(0, 16)), b.subrange(16, b.len() as int)))
    } else {
        None
    }
}

pub open spec fn parse_str(b: Seq<u8>) -> Option<(Seq<char>, Seq<u8>)> {
    match parse_len(b) {
        Some((n, r)) => if n <= r.len() && valid_utf8(r.subrange(0, n as int)) {
            Some((decode_utf8(r.subrange(0, n as int)), r.subrange(n as int, r.len() as int)))
        } else {
            None
        },
        None => None,
    }
}

pub open spec fn parse_opt(b: Seq<u8>) -> Option<(Option<Seq<char>>, Seq<u8>)> {
    if b.len() >= 1 && b[0] == 0 {
        Some((None, b.drop_first()))
    } else if b.len() >= 1 && b[0] == 1 {
        match parse_str(b.drop_first()) {
            Some((s, r)) => Some((Some(s), r)),
            None => None,
        }
    } else {
        None
    }
}

pub open spec fn parse_code(x: u8) -> Option<ErrorCode> {
    if x == 0 {
        Some(ErrorCode::WrongPassword)
    } else if x == 1 {
        Some(ErrorCode::PasswordMissing)
    } else if x == 2 {
        Some(ErrorCode::ChatNotFound)
    } else if x == 3 {
        Some(ErrorCode::InvalidFormat)
    } else if x == 4 {
        Some(ErrorCode::Unauthorized)
    } else if x == 5 {
        Some(ErrorCode::UserAlreadyInRoom)
    } else if x == 6 {
        Some(ErrorCode::UserAlreadyInAnotherRoom)
    } else if x == 7 {
        Some(ErrorCode::InternalError)
    } else {
        None
    }
}

/// Tags 1 to 10 name the ten message variants.
pub open spec fn known_tag(t: u8) -> bool {
    1 <= t <= 10
}

/// The fields that follow a tag, and what is left after them.
pub open spec fn parse_fields(t: u8, b: Seq<u8>) -> Option<(MessageModel, Seq<u8>)> {
    if t == 1 {
        match parse_opt(b) {
            Some((pw, r)) => Some((MessageModel::CreateChatRequest { password: pw }, r)),
            None => None,
        }
    } else if t == 2 {
        match parse_id(b) {
            Some((c, r)) => Some((MessageModel::CreateChatResponse { chat_id: c }, r)),
            None => None,
        }
    } else if t == 3 {
        match parse_id(b) {
            Some((c, r1)) => match parse_str(r1) {
                Some((u, r2)) => match parse_opt(r2) {
                    Some((pw, r3)) => Some(
                        (MessageModel::JoinChatRequest { chat_id: c, username: u, password: pw }, r3),
                    ),
                    None => None,
                },
                None => None,
            },
            None => None,
        }
    } else if t == 4 {
        match parse_id(b) {
            Some((k, r)) => Some((MessageModel::JoinChatResponse { token: k }, r)),
            None => None,
        }
    } else if t == 5 {
        match parse_id(b) {
            Some((c, r1)) => match parse_id(r1) {
                Some((k, r2)) => match parse_str(r2) {
                    Some((txt, r3)) => Some(
                        (MessageModel::SendMessageRequest { chat_id: c, token: k, message: txt }, r3),
                    ),
                    None => None,
                },
                None => None,
            },
            None => None,
        }
    } else if t == 6 {
        Some((MessageModel::SendMessageResponse, b))
    } else if t == 7 {
        match parse_id(b) {
            Some((c, r1)) => match parse_id(r1) {
                Some((k, r2)) => Some((MessageModel::LeaveChatRequest { chat_id: c, token: k }, r2)),
                None => None,
            },
            None => None,
        }
    } else if t == 8 {
        Some((MessageModel::LeaveChatResponse, b))
    } else if t == 9 {
        match parse_str(b) {
            Some((u, r1)) => match parse_str(r1) {
                Some((txt, r2)) => Some(
                    (MessageModel::MessageBroadcast { username: u, message: txt }, r2),
                ),
                None => None,
            },
            None => None,
        }
    } else if t == 10 {
        if b.len() >= 1 && parse_code(b[0]) is Some {
            match parse_str(b.drop_first()) {
                Some((txt, r)) => Some(
                    (MessageModel::ErrorResponse { code: parse_code(b[0])->0, message: txt }, r),
                ),
                None => None,
            }
        } else {
            None
        }
    } else {
        None
    }
}

/// The message a body holds, if it holds one: a known tag, its fields, and
/// nothing after them.
pub open spec fn parse_body(b: Seq<u8>) -> Option<MessageModel> {
    if b.len() >= 1 {
        match parse_fields(b[0], b.drop_first()) {
            Some((m, r)) => if r.len() == 0 {
                Some(m)
            } else {
                None
            },
            None => None,
        }
    } else {
        None
    }
}

/// What decoding a body gives: its message, `UnknownVariant` for a tag that
/// names no variant, `SchemaMismatch` for anything else.
pub open spec fn body_result(b: Seq<u8>) -> Result<MessageModel, CodecError> {
    match parse_body(b) {
        Some(m) => Ok(m),
        None => if b.len() >= 1 && !known_tag(b[0]) {
            Err(CodecError::UnknownVariant)
        } else {
            Err(CodecError::SchemaMismatch)
        },
    }
}

pub open spec fn header_of(b: Seq<u8>) -> Header {
    Header { version: b[0], length: be32_value(b.subrange(1, 5)) }
}

/// What decoding the frame at the start of `b` gives.  Bytes after the
/// declared body are left for the next frame.
pub open spec fn frame_result(b: Seq<u8>) -> Result<(Header, MessageModel), CodecError> {
    if b.len() < HEADER_LEN {
        Err(CodecError::MalformedEnvelope)
    } else {
        let h = header_of(b);
        if h.length > MAX_BODY_LEN {
            Err(CodecError::TooLarge)
        } else if b.len() < HEADER_LEN + h.length {
            Err(CodecError::MalformedEnvelope)
        } else {
            match body_result(b.subrange(HEADER_LEN as int, HEADER_LEN + h.length)) {
                Ok(m) => Ok((h, m)),
                Err(e) => Err(e),
            }
        }
    }
}

pub open spec fn tail(b: Seq<u8>, p: int) -> Seq<u8> {
    b.subrange(p, b.len() as int)
}

/// Relies on std::str::from_utf8: it accepts exactly the valid UTF-8 byte
/// strings, and the text it returns is made of those bytes.
#[verifier::external_body]
fn text_from_utf8(b: &[u8]) -> (r: Option<String>)
    ensures
        r is Some <==> valid_utf8(b@),
        r matches Some(s) ==> encode_utf8(s@) == b@,
{
    match std::str::from_utf8(b) {
        Ok(s) => Some(s.to_string()),
        Err(_) => None,
    }
}

fn read_len(b: &[u8], p: usize) -> (r: Option<(u32, usize)>)
    requires
        p <= b@.len(),
    ensures
        r is Some <==> parse_len(tail(b@, p as int)) is Some,
        r matches Some((n, q)) ==> q <= b@.len() && parse_len(tail(b@, p as int)) == Some(
            (n, tail(b@, q as int)),
        ),
{
    if b.len() - p < 4 {
        return None;
    }
    let n = u32_from_le_bytes(vstd::slice::slice_subrange(b, p, p + 4));
    assert(tail(b@, p as int).subrange(0, 4) =~= b@.subrange(p as int, p + 4));
    assert(tail(b@, p as int).subrange(4, tail(b@, p as int).len() as int) =~= tail(b@, p + 4));
    Some((n, p + 4))
}

fn read_id(b: &[u8], p: usize) -> (r: Option<(u128, usize)>)
    requires
        p <= b@.len(),
    ensures
        r is Some <==> parse_id(tail(b@, p as int)) is Some,
        r matches Some((n, q)) ==> q <= b@.len() && parse_id(tail(b@, p as int)) == Some(
            (n, tail(b@, q as int)),
        ),
{
    if b.len() - p < 16 {
        return None;
    }
    let n = u128_from_le_bytes(vstd::slice::slice_subrange(b, p, p + 16));
    assert(tail(b@, p as int).subrange(0, 16) =~= b@.subrange(p as int, p + 16));
    assert(tail(b@, p as int).subrange(16, tail(b@, p as int).len() as int) =~= tail(b@, p + 16));
    Some((n, p + 16))
}

fn read_str(b: &[u8], p: usize) -> (r: Option<(String, usize)>)
    requires
        p <= b@.len(),
    ensures
        r is Some <==> parse_str(tail(b@, p as int)) is Some,
        r matches Some((s, q)) ==> q <= b@.len() && parse_str(tail(b@, p as int)) == Some(
            (s@, tail(b@, q as int)),
        ),
{
    let (n, q) = match read_len(b, p) {
        Some(x) => x,
        None => return None,
    };
    let ghost r = tail(b@, q as int);
    if (n as usize) > b.len() - q {
        return None;
    }
    let end = q + n as usize;
    let bytes = vstd::slice::slice_subrange(b, q, end);
    assert(r.subrange(0, n as int) =~= bytes@);
    assert(r.subrange(n as int, r.len() as int) =~= tail(b@, end as int));
    match text_from_utf8(bytes) {
        Some(s) => {
            assert(decode_utf8(encode_utf8(s@)) == s@);
            Some((s, end))
        },
        None => None,
    }
}

fn read_opt(b: &[u8], p: usize) -> (r: Option<(Option<String>, usize)>)
    requires
        p <= b@.len(),
    ensures
        r is Some <==> parse_opt(tail(b@, p as int)) is Some,
        r matches Some((o, q)) ==> q <= b@.len() && parse_opt(tail(b@, p as int)) == Some(
            (crate::protocol::opt_view(o), tail(b@, q as int)),
        ),
{
    if p >= b.len() {
        return None;
    }
    let ghost t = tail(b@, p as int);
    assert(t.drop_first() =~= tail(b@, p + 1));
    if b[p] == 0 {
        Some((None, p + 1))
    } else if b[p] == 1 {
        match read_str(b, p + 1) {
            Some((s, q)) => Some((Some(s), q)),
            None => None,
        }
    } else {
        None
    }
}

fn byte_to_code(x: u8) -> (r: Option<ErrorCode>)
    ensures
        r == parse_code(x),
{
    match x {
        0 => Some(ErrorCode::WrongPassword),
        1 => Some(ErrorCode::PasswordMissing),
        2 => Some(ErrorCode::ChatNotFound),
        3 => Some(ErrorCode::InvalidFormat),
        4 => Some(ErrorCode::Unauthorized),
        5 => Some(ErrorCode::UserAlreadyInRoom),
        6 => Some(ErrorCode::UserAlreadyInAnotherRoom),
        7 => Some(ErrorCode::InternalError),
        _ => None,
    }
}

/// The fields after the tag at the start of `b`, and where they end.
fn read_fields(b: &[u8]) -> (r: Option<(Message, usize)>)
    requires
        b@.len() >= 1,
    ensures
        r is Some <==> parse_fields(b@[0], b@.drop_first()) is Some,
        r matches Some((m, q)) ==> q <= b@.len() && parse_fields(b@[0], b@.drop_first()) == Some(
            (m@, tail(b@, q as int)),
        ),
{
    let t = b[0];
    assert(b@.drop_first() =~= tail(b@, 1));
    if t == 1 {
        let (pw, q) = read_opt(b, 1)?;
        Some((Message::CreateChatRequest { password: pw }, q))
    } else if t == 2 {
        let (c, q) = read_id(b, 1)?;
        Some((Message::CreateChatResponse { chat_id: c }, q))
    } else if t == 3 {
        let (c, q1) = read_id(b, 1)?;
        let (u, q2) = read_str(b, q1)?;
        let (pw, q3) = read_opt(b, q2)?;
        Some((Message::JoinChatRequest { chat_id: c, username: u, password: pw }, q3))
    } else if t == 4 {
        let (k, q) = read_id(b, 1)?;
        Some((Message::JoinChatResponse { token: k }, q))
    } else if t == 5 {
        let (c, q1) = read_id(b, 1)?;
        let (k, q2) = read_id(b, q1)?;
        let (txt, q3) = read_str(b, q2)?;
        Some((Message::SendMessageRequest { chat_id: c, token: k, message: txt }, q3))
    } else if t == 6 {
        Some((Message::SendMessageResponse, 1))
    } else if t == 7 {
        let (c, q1) = read_id(b, 1)?;
        let (k, q2) = read_id(b, q1)?;
        Some((Message::LeaveChatRequest { chat_id: c, token: k }, q2))
    } else if t == 8 {
        Some((Message::LeaveChatResponse, 1))
    } else if t == 9 {
        let (u, q1) = read_str(b, 1)?;
        let (txt, q2) = read_str(b, q1)?;
        Some((Message::MessageBroadcast { username: u, message: txt }, q2))
    } else if t == 10 {
        if b.len() < 2 {
            return None;
        }
        let code = byte_to_code(b[1])?;
        assert(b@.drop_first().drop_first() =~= tail(b@, 2));
        let (txt, q) = read_str(b, 2)?;
        Some((Message::ErrorResponse { code, message: txt }, q))
    } else {
        None
    }
}

/// Decodes a body.
pub fn decode_body_bytes(b: &[u8]) -> (r: Result<Message, CodecError>)
    ensures
        r matches Ok(m) ==> body_result(b@) == Ok::<MessageModel, CodecError>(m@),
        r matches Err(e) ==> body_result(b@) == Err::<MessageModel, CodecError>(e),
{
    if b.len() == 0 {
        return Err(CodecError::SchemaMismatch);
    }
    if b[0] < 1 || b[0] > 10 {
        return Err(CodecError::UnknownVariant);
    }
    match read_fields(b) {
        Some((m, q)) => {
            if q == b.len() {
                Ok(m)
            } else {
                Err(CodecError::SchemaMismatch)
            }
        },
        None => Err(CodecError::SchemaMismatch),
    }
}

/// Reads a frame header from its five bytes.
pub fn read_header(b: &[u8]) -> (r: Header)
    requires
        b@.len() >= HEADER_LEN,
    ensures
        r == header_of(b@),
{
    let le: Vec<u8> = vec![b[4], b[3], b[2], b[1]];
    assert(le@ =~= seq![b@.subrange(1, 5)[3], b@.subrange(1, 5)[2], b@.subrange(1, 5)[1], b@.subrange(1, 5)[0]]);
    Header { version: b[0], length: u32_from_le_bytes(le.as_slice()) }
}

/// Reads a frame header and says how many body bytes follow it: a declared
/// length above `MAX_BODY_LEN` gives `TooLarge`, so that a reader never
/// allocates for it.
pub fn header_body_len(b: &[u8]) -> (r: Result<(Header, usize), CodecError>)
    requires
        b@.len() >= HEADER_LEN,
    ensures
        header_of(b@).length > MAX_BODY_LEN ==> r == Err::<(Header, usize), CodecError>(CodecError::TooLarge),
        header_of(b@).length <= MAX_BODY_LEN ==> r == Ok::<(Header, usize), CodecError>(
            (header_of(b@), header_of(b@).length as usize),
        ),
{
    let h = read_header(b);
    if h.length > MAX_BODY_LEN {
        Err(CodecError::TooLarge)
    } else {
        Ok((h, h.length as usize))
    }
}

/// Decodes the frame at the start of `b`.  A header or body cut short gives
/// `MalformedEnvelope`; a declared length above `MAX_BODY_LEN` gives
/// `TooLarge` before the body is looked at.
pub fn decode_frame_bytes(b: &[u8]) -> (r: Result<(Header, Message), CodecError>)
    ensures
        r matches Ok((h, m)) ==> frame_result(b@) == Ok::<(Header, MessageModel), CodecError>(
            (h, m@),
        ),
        r matches Err(e) ==> frame_result(b@) == Err::<(Header, MessageModel), CodecError>(e),
{
    if b.len() < HEADER_LEN {
        return Err(CodecError::MalformedEnvelope);
    }
    let h = read_header(b);
    if h.length > MAX_BODY_LEN {
        return Err(CodecError::TooLarge);
    }
    if b.len() - HEADER_LEN < h.length as usize {
        return Err(CodecError::MalformedEnvelope);
    }
    let body = vstd::slice::slice_subrange(b, HEADER_LEN, HEADER_LEN + h.length as usize);
    match decode_body_bytes(body) {
        Ok(m) => Ok((h, m)),
        Err(e) => Err(e),
    }
}

// ---------------------------------------------------------------- laws

proof fn lemma_id(x: u128, rest: Seq<u8>)
    ensures
        parse_id(enc_id(x) + rest) == Some((x, rest)),
{
    lemma_auto_spec_u128_to_from_le_bytes();
    let b = enc_id(x) + rest;
    assert(b.subrange(0, 16) =~= enc_id(x));
    assert(b.subrange(16, b.len() as int) =~= rest);
}

proof fn lemma_id_back(b: Seq<u8>)
    requires
        parse_id(b) is Some,
    ensures
        b == enc_id(parse_id(b).unwrap().0) + parse_id(b).unwrap().1,
{
    lemma_auto_spec_u128_to_from_le_bytes();
    assert(b =~= b.subrange(0, 16) + b.subrange(16, b.len() as int));
}

proof fn lemma_str(s: Seq<char>, rest: Seq<u8>)
    requires
        encode_utf8(s).len() <= MAX_BODY_LEN,
    ensures
        parse_str(enc_str(s) + rest) == Some((s, rest)),
{
    lemma_auto_spec_u32_to_from_le_bytes();
    let e = encode_utf8(s);
    let n = e.len() as u32;
    let b = enc_str(s) + rest;
    assert(b.subrange(0, 4) =~= spec_u32_to_le_bytes(n));
    let r = b.subrange(4, b.len() as int);
    assert(r =~= e + rest);
    assert(r.subrange(0, n as int) =~= e);
    assert(r.subrange(n as int, r.len() as int) =~= rest);
}

proof fn lemma_str_back(b: Seq<u8>)
    requires
        parse_str(b) is Some,
    ensures
        b == enc_str(parse_str(b).unwrap().0) + parse_str(b).unwrap().1,
        encode_utf8(parse_str(b).unwrap().0).len() <= u32::MAX,
{
    lemma_auto_spec_u32_to_from_le_bytes();
    let n = spec_u32_from_le_bytes(b.subrange(0, 4));
    let r = b.subrange(4, b.len() as int);
    let sub = r.subrange(0, n as int);
    decode_utf8_encode_utf8(sub);
    assert(encode_utf8(decode_utf8(sub)) == sub);
    assert(b =~= b.subrange(0, 4) + sub + r.subrange(n as int, r.len() as int));
}

proof fn lemma_opt(o: Option<Seq<char>>, rest: Seq<u8>)
    requires
        o matches Some(s) ==> encode_utf8(s).len() <= MAX_BODY_LEN,
    ensures
        parse_opt(enc_opt(o) + rest) == Some((o, rest)),
{
    let b = enc_opt(o) + rest;
    match o {
        Some(s) => {
            assert(b.drop_first() =~= enc_str(s) + rest);
            lemma_str(s, rest);
        },
        None => {
            assert(b.drop_first() =~= rest);
        },
    }
}

proof fn lemma_opt_back(b: Seq<u8>)
    requires
        parse_opt(b) is Some,
    ensures
        b == enc_opt(parse_opt(b).unwrap().0) + parse_opt(b).unwrap().1,
{
    if b[0] == 0 {
        assert(b =~= seq![0u8] + b.drop_first());
    } else {
        lemma_str_back(b.drop_first());
        assert(b =~= seq![1u8] + b.drop_first());
    }
}

/// Every body that the encoder produces decodes to the message it came from.
pub proof fn lemma_body_round_trip(m: MessageModel)
    requires
        fits(m),
    ensures
        parse_body(encode_body(m)) == Some(m),
{
    let b = encode_body(m);
    let e = Seq::<u8>::empty();
    match m {
        MessageModel::CreateChatRequest { password } => {
            assert(b.drop_first() =~= enc_opt(password) + e);
            lemma_opt(password, e);
        },
        MessageModel::CreateChatResponse { chat_id } => {
            assert(b.drop_first() =~= enc_id(chat_id) + e);
            lemma_id(chat_id, e);
        },
        MessageModel::JoinChatRequest { chat_id, username, password } => {
            let r2 = enc_opt(password) + e;
            let r1 = enc_str(username) + r2;
            assert(b.drop_first() =~= enc_id(chat_id) + r1);
            lemma_id(chat_id, r1);
            lemma_str(username, r2);
            lemma_opt(password, e);
        },
        MessageModel::JoinChatResponse { token } => {
            assert(b.drop_first() =~= enc_id(token) + e);
            lemma_id(token, e);
        },
        MessageModel::SendMessageRequest { chat_id, token, message } => {
            let r2 = enc_str(message) + e;
            let r1 = enc_id(token) + r2;
            assert(b.drop_first() =~= enc_id(chat_id) + r1);
            lemma_id(chat_id, r1);
            lemma_id(token, r2);
            lemma_str(message, e);
        },
        MessageModel::SendMessageResponse => {
            assert(b.drop_first() =~= e);
        },
        MessageModel::LeaveChatRequest { chat_id, token } => {
            let r1 = enc_id(token) + e;
            assert(b.drop_first() =~= enc_id(chat_id) + r1);
            lemma_id(chat_id, r1);
            lemma_id(token, e);
        },
        MessageModel::LeaveChatResponse => {
            assert(b.drop_first() =~= e);
        },
        MessageModel::MessageBroadcast { username, message } => {
            let r1 = enc_str(message) + e;
            assert(b.drop_first() =~= enc_str(username) + r1);
            lemma_str(username, r1);
            lemma_str(message, e);
        },
        MessageModel::ErrorResponse { code, message } => {
            let r = b.drop_first();
            assert(r.drop_first() =~= enc_str(message) + e);
            lemma_str(message, e);
            assert(parse_code(code_byte(code)) == Some(code));
        },
    }
}

/// A body decodes to a message only when it is exactly that message's encoding.
pub proof fn lemma_body_unique(b: Seq<u8>)
    requires
        parse_body(b) is Some,
    ensures
        encode_body(parse_body(b).unwrap()) == b,
{
    let t = b[0];
    let r0 = b.drop_first();
    let m = parse_body(b).unwrap();
    assert(b =~= seq![t] + r0);
    if t == 1 {
        lemma_opt_back(r0);
        assert(encode_body(m) =~= b);
    } else if t == 2 || t == 4 {
        lemma_id_back(r0);
        assert(encode_body(m) =~= b);
    } else if t == 3 {
        lemma_id_back(r0);
        let r1 = parse_id(r0).unwrap().1;
        lemma_str_back(r1);
        let r2 = parse_str(r1).unwrap().1;
        lemma_opt_back(r2);
        assert(encode_body(m) =~= b);
    } else if t == 5 {
        lemma_id_back(r0);
        let r1 = parse_id(r0).unwrap().1;
        lemma_id_back(r1);
        let r2 = parse_id(r1).unwrap().1;
        lemma_str_back(r2);
        assert(encode_body(m) =~= b);
    } else if t == 7 {
        lemma_id_back(r0);
        let r1 = parse_id(r0).unwrap().1;
        lemma_id_back(r1);
        assert(encode_body(m) =~= b);
    } else if t == 9 {
        lemma_str_back(r0);
        let r1 = parse_str(r0).unwrap().1;
        lemma_str_back(r1);
        assert(encode_body(m) =~= b);
    } else if t == 10 {
        let c = parse_code(r0[0]).unwrap();
        assert(code_byte(c) == r0[0]);
        lemma_str_back(r0.drop_first());
        assert(r0 =~= seq![r0[0]] + r0.drop_first());
        assert(encode_body(m) =~= b);
    } else {
        assert(encode_body(m) =~= b);
    }
}

proof fn lemma_be32(n: u32)
    ensures
        be32_value(be32(n)) == n,
{
    lemma_auto_spec_u32_to_from_le_bytes();
    let l = spec_u32_to_le_bytes(n);
    assert(seq![be32(n)[3], be32(n)[2], be32(n)[1], be32(n)[0]] =~= l);
}

/// Every frame that the encoder produces decodes to its version, its body
/// length and the message it came from.
pub proof fn lemma_frame_round_trip(version: u8, m: MessageModel)
    requires
        fits(m),
    ensures
        frame_result(encode_frame(version, m)) == Ok::<(Header, MessageModel), CodecError>(
            (Header { version, length: encode_body(m).len() as u32 }, m),
        ),
{
    let f = encode_frame(version, m);
    let n = encode_body(m).len() as u32;
    lemma_be32(n);
    assert(f.subrange(1, 5) =~= be32(n));
    assert(f.subrange(HEADER_LEN as int, HEADER_LEN + n) =~= encode_body(m));
    lemma_body_round_trip(m);
}

/// A frame cut anywhere before its last byte is a malformed envelope: it
/// never decodes to a message, whole or partial.
pub proof fn lemma_truncated_frame(version: u8, m: MessageModel, k: int)
    requires
        fits(m),
        0 <= k < encode_frame(version, m).len(),
    ensures
        frame_result(encode_frame(version, m).subrange(0, k)) == Err::<
            (Header, MessageModel),
            CodecError,
        >(CodecError::MalformedEnvelope),
{
    let f = encode_frame(version, m);
    let t = f.subrange(0, k);
    if k >= HEADER_LEN {
        let n = encode_body(m).len() as u32;
        lemma_be32(n);
        assert(t.subrange(1, 5) =~= be32(n));
    }
}

} // verus!
