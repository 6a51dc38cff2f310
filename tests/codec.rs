use chat_relay::codec::{
    decode_body_bytes, decode_frame_bytes, encode_body_bytes, encode_frame_bytes, header_body_len,
    read_header,
    CodecError, Header, MAX_BODY_LEN, PROTOCOL_VERSION,
};
use chat_relay::protocol::{ErrorCode, Message};

fn all_codes() -> Vec<ErrorCode> {
    vec![
        ErrorCode::WrongPassword,
        ErrorCode::PasswordMissing,
        ErrorCode::ChatNotFound,
        ErrorCode::InvalidFormat,
        ErrorCode::Unauthorized,
        ErrorCode::UserAlreadyInRoom,
        ErrorCode::UserAlreadyInAnotherRoom,
        ErrorCode::InternalError,
    ]
}

fn samples() -> Vec<Message> {
    let mut v = vec![
        Message::CreateChatRequest { password: None },
        Message::CreateChatRequest { password: Some(String::new()) },
        Message::CreateChatRequest { password: Some("secret".to_string()) },
        Message::CreateChatResponse { chat_id: 0x0123_4567_89ab_cdef_0011_2233_4455_6677 },
        Message::JoinChatRequest { chat_id: u128::MAX, username: "alice".to_string(), password: None },
        Message::JoinChatRequest { chat_id: 7, username: String::new(), password: Some("pw".to_string()) },
        Message::JoinChatResponse { token: 42 },
        Message::SendMessageRequest { chat_id: 1, token: 2, message: "héllo wörld ✓".to_string() },
        Message::SendMessageRequest { chat_id: 0, token: 0, message: String::new() },
        Message::SendMessageResponse,
        Message::LeaveChatRequest { chat_id: 3, token: 4 },
        Message::LeaveChatResponse,
        Message::MessageBroadcast { username: "bob".to_string(), message: "hi".to_string() },
        Message::MessageBroadcast { username: String::new(), message: String::new() },
    ];
    for code in all_codes() {
        v.push(Message::ErrorResponse { code, message: format!("{:?}", code) });
        v.push(Message::ErrorResponse { code, message: String::new() });
    }
    v
}

#[test]
fn every_variant_round_trips() {
    for m in samples() {
        let frame = encode_frame_bytes(PROTOCOL_VERSION, &m).unwrap();
        let (h, back) = decode_frame_bytes(&frame).unwrap();
        assert_eq!(h.version, PROTOCOL_VERSION);
        assert_eq!(h.length as usize, frame.len() - 5);
        assert_eq!(format!("{:?}", back), format!("{:?}", m));
    }
}

#[test]
fn body_round_trips() {
    for m in samples() {
        let body = encode_body_bytes(&m).unwrap();
        let back = decode_body_bytes(&body).unwrap();
        assert_eq!(format!("{:?}", back), format!("{:?}", m));
    }
}

#[test]
fn frame_layout_is_exact() {
    let frame = encode_frame_bytes(1, &Message::CreateChatRequest { password: None }).unwrap();
    assert_eq!(frame, vec![1, 0, 0, 0, 2, 1, 0]);
    let frame = encode_frame_bytes(
        9,
        &Message::MessageBroadcast { username: "a".to_string(), message: "hi".to_string() },
    )
    .unwrap();
    assert_eq!(frame, vec![9, 0, 0, 0, 12, 9, 1, 0, 0, 0, b'a', 2, 0, 0, 0, b'h', b'i']);
    let frame = encode_frame_bytes(1, &Message::JoinChatResponse { token: 0x0102 }).unwrap();
    let mut want = vec![1, 0, 0, 0, 17, 4, 0x02, 0x01];
    want.extend(std::iter::repeat(0u8).take(14));
    assert_eq!(frame, want);
}

#[test]
fn error_codes_encode_as_one_byte() {
    for (i, code) in all_codes().into_iter().enumerate() {
        let body = encode_body_bytes(&Message::ErrorResponse { code, message: String::new() }).unwrap();
        assert_eq!(body, vec![10, i as u8, 0, 0, 0, 0]);
    }
}

#[test]
fn header_is_big_endian() {
    let h = read_header(&[3, 0x01, 0x02, 0x03, 0x04]);
    assert_eq!(h, Header { version: 3, length: 0x0102_0304 });
}

#[test]
fn truncated_frame_is_malformed() {
    let m = Message::SendMessageRequest { chat_id: 5, token: 6, message: "hello".to_string() };
    let frame = encode_frame_bytes(1, &m).unwrap();
    for k in 0..frame.len() {
        assert_eq!(decode_frame_bytes(&frame[..k]).unwrap_err(), CodecError::MalformedEnvelope);
    }
}

#[test]
fn empty_input_is_malformed() {
    assert_eq!(decode_frame_bytes(&[]).unwrap_err(), CodecError::MalformedEnvelope);
}

#[test]
fn oversized_declaration_is_refused() {
    let len = MAX_BODY_LEN + 1;
    let mut frame = vec![1u8];
    frame.extend_from_slice(&len.to_be_bytes());
    assert_eq!(decode_frame_bytes(&frame).unwrap_err(), CodecError::TooLarge);
}

#[test]
fn oversized_message_is_not_encoded() {
    let big = "x".repeat(MAX_BODY_LEN as usize);
    let m = Message::MessageBroadcast { username: "u".to_string(), message: big };
    assert_eq!(encode_frame_bytes(1, &m).unwrap_err(), CodecError::TooLarge);
}

#[test]
fn trailing_bytes_follow_the_frame() {
    let mut frame = encode_frame_bytes(1, &Message::LeaveChatResponse).unwrap();
    frame.extend_from_slice(&[0xff, 0xff]);
    let (_, m) = decode_frame_bytes(&frame).unwrap();
    assert!(matches!(m, Message::LeaveChatResponse));
}

#[test]
fn unknown_tag_is_refused() {
    assert_eq!(decode_body_bytes(&[0]).unwrap_err(), CodecError::UnknownVariant);
    assert_eq!(decode_body_bytes(&[11]).unwrap_err(), CodecError::UnknownVariant);
    assert_eq!(decode_frame_bytes(&[1, 0, 0, 0, 1, 200]).unwrap_err(), CodecError::UnknownVariant);
}

#[test]
fn bad_fields_are_a_schema_mismatch() {
    assert_eq!(decode_body_bytes(&[]).unwrap_err(), CodecError::SchemaMismatch);
    // an extra byte after a complete message
    assert_eq!(decode_body_bytes(&[6, 0]).unwrap_err(), CodecError::SchemaMismatch);
    // a presence byte that is neither 0 nor 1
    assert_eq!(decode_body_bytes(&[1, 2]).unwrap_err(), CodecError::SchemaMismatch);
    // an id cut short
    assert_eq!(decode_body_bytes(&[2, 1, 2, 3]).unwrap_err(), CodecError::SchemaMismatch);
    // an error code out of range
    assert_eq!(decode_body_bytes(&[10, 8, 0, 0, 0, 0]).unwrap_err(), CodecError::SchemaMismatch);
    // a string length past the end
    assert_eq!(decode_body_bytes(&[9, 5, 0, 0, 0, b'a']).unwrap_err(), CodecError::SchemaMismatch);
}

#[test]
fn invalid_utf8_is_a_schema_mismatch() {
    let body = vec![9, 1, 0, 0, 0, 0xff, 0, 0, 0, 0];
    assert_eq!(decode_body_bytes(&body).unwrap_err(), CodecError::SchemaMismatch);
    let body = vec![9, 2, 0, 0, 0, 0xc3, 0xa9, 0, 0, 0, 0];
    match decode_body_bytes(&body).unwrap() {
        Message::MessageBroadcast { username, message } => {
            assert_eq!(username, "é");
            assert_eq!(message, "");
        }
        other => panic!("unexpected {:?}", other),
    }
}

#[test]
fn header_gives_the_body_length() {
    assert_eq!(header_body_len(&[1, 0, 0, 1, 0]).unwrap(), (Header { version: 1, length: 256 }, 256));
    let len = MAX_BODY_LEN + 1;
    let mut h = vec![1u8];
    h.extend_from_slice(&len.to_be_bytes());
    assert_eq!(header_body_len(&h).unwrap_err(), CodecError::TooLarge);
}
