use chat_protocol::checksum::checksum;
use chat_protocol::error::{DeserializerError, SerializerError};
use chat_protocol::frame::{
    decode_expecting, encode_pair, encode_single, read_fields, seal, Frame, HEADER_LEN,
};
use chat_protocol::protocols::client::{
    ChangeUsername, ChatMessage, ClientMessage, ClientMessageType, RequestAuthentication,
};
use chat_protocol::protocols::server::{
    AuthenticateToken, BroadcastMessage, ServerMessage, ServerMessageType,
};
use chat_protocol::protocols::Catalog;
use chat_protocol::types::{Deserialize, Serialize};
use chat_protocol::wire::{
    prepare_inner_cursor, read_string_from_buffer, read_u32, read_u64, write_bytes, write_string,
    write_u32, write_u64,
};

const CHAT_FRAME: [u8; 36] = [
    0, 8, 7, 6, 5, 4, 3, 2, 1, 168, 1, 126, 8, 19, 0, 0, 0, 4, 0, 0, 0, 72, 87, 73, 68, 7, 0, 0,
    0, 67, 79, 78, 84, 69, 78, 84,
];

fn chat() -> ChatMessage {
    ChatMessage { hwid: "HWID".to_string(), content: "CONTENT".to_string() }
}

#[test]
fn test_server_serialization() {
    let x = BroadcastMessage { username: "USERNAME".to_string(), content: "CONTENT".to_string() };
    let serialized = x.serialize(0).unwrap();
    let deserialized = BroadcastMessage::deserialize(&serialized).unwrap();
    assert_eq!(deserialized, x, "Deserialization of struct failed!");
}

#[test]
fn test_client_serialization() {
    let x = ChatMessage { hwid: "HWID".to_string(), content: "CONTENT".to_string() };
    let serialized = x.serialize(0).unwrap();
    let deserialized = ChatMessage::deserialize(&serialized).unwrap();
    assert_eq!(deserialized, x, "Deserialization of struct failed!");
}

#[test]
fn crc32_check_values() {
    assert_eq!(checksum(b"123456789"), 0xCBF4_3926);
    assert_eq!(checksum(b""), 0);
    assert_eq!(checksum(b"a"), 0xE8B7_BE43);
    assert_eq!(checksum(b"hello world"), 0x0D4A_1185);
}

#[test]
fn integers_are_little_endian() {
    let mut buffer = vec![9u8];
    write_u32(&mut buffer, 0x0A0B_0C0D);
    assert_eq!(buffer, vec![9, 0x0D, 0x0C, 0x0B, 0x0A]);
    write_u64(&mut buffer, 0x0102_0304_0506_0708);
    assert_eq!(buffer[5..], [8, 7, 6, 5, 4, 3, 2, 1]);
    assert_eq!(read_u32(&buffer, 1), 0x0A0B_0C0D);
    assert_eq!(read_u64(&buffer, 5), 0x0102_0304_0506_0708);
    let mut edge = Vec::new();
    write_u32(&mut edge, u32::MAX);
    write_u32(&mut edge, 0);
    write_u64(&mut edge, u64::MAX);
    assert_eq!(read_u32(&edge, 0), u32::MAX);
    assert_eq!(read_u32(&edge, 4), 0);
    assert_eq!(read_u64(&edge, 8), u64::MAX);
    write_bytes(&mut edge, &[1, 2, 3]);
    assert_eq!(edge[16..], [1, 2, 3]);
}

#[test]
fn string_field_layout() {
    let mut buffer = Vec::new();
    write_string(&mut buffer, "héllo").unwrap();
    assert_eq!(buffer, vec![6, 0, 0, 0, b'h', 0xC3, 0xA9, b'l', b'l', b'o']);
    write_string(&mut buffer, "").unwrap();
    assert_eq!(buffer[10..], [0, 0, 0, 0]);
    assert_eq!(read_string_from_buffer(&buffer, 0), Ok(("héllo".to_string(), 10)));
    assert_eq!(read_string_from_buffer(&buffer, 10), Ok((String::new(), 14)));
    assert_eq!(read_string_from_buffer(&buffer, 14), Err(DeserializerError::TruncatedFrame));
    assert_eq!(read_string_from_buffer(&buffer, 15), Err(DeserializerError::TruncatedFrame));
    assert_eq!(read_string_from_buffer(&buffer, 12), Err(DeserializerError::TruncatedFrame));
}

#[test]
fn string_field_errors() {
    // The length says five bytes, four are there.
    assert_eq!(
        read_string_from_buffer(&[5, 0, 0, 0, b'a', b'b', b'c', b'd'], 0),
        Err(DeserializerError::TruncatedFrame)
    );
    // 0xFF is never valid in UTF-8; neither is a lone continuation byte.
    assert_eq!(
        read_string_from_buffer(&[1, 0, 0, 0, 0xFF], 0),
        Err(DeserializerError::InvalidEncoding)
    );
    assert_eq!(
        read_string_from_buffer(&[2, 0, 0, 0, b'a', 0x80], 0),
        Err(DeserializerError::InvalidEncoding)
    );
}

#[test]
fn frame_layout_is_bit_exact() {
    let bytes = chat().serialize(0x0102_0304_0506_0708).unwrap();
    assert_eq!(bytes, CHAT_FRAME.to_vec());
    assert_eq!(HEADER_LEN, 17);
    let token = AuthenticateToken { token: "é".to_string() };
    assert_eq!(
        token.serialize(1_700_000_000).unwrap(),
        vec![1, 0, 241, 83, 101, 0, 0, 0, 0, 105, 159, 215, 179, 6, 0, 0, 0, 2, 0, 0, 0, 195, 169]
    );
}

#[test]
fn generic_frame_agrees_with_messages() {
    let frame = Frame {
        type_tag: 0,
        timestamp: 0x0102_0304_0506_0708,
        fields: vec!["HWID".to_string(), "CONTENT".to_string()],
    };
    assert_eq!(frame.encode().unwrap(), CHAT_FRAME.to_vec());
    assert_eq!(
        encode_pair(0, 0x0102_0304_0506_0708, "HWID", "CONTENT").unwrap(),
        CHAT_FRAME.to_vec()
    );
    assert_eq!(Frame::decode(&CHAT_FRAME, Catalog::Client), Ok((frame, 36)));
    let single = encode_single(1, 7, "tok").unwrap();
    assert_eq!(
        Frame::decode(&single, Catalog::Server),
        Ok((Frame { type_tag: 1, timestamp: 7, fields: vec!["tok".to_string()] }, single.len()))
    );
    let empty = Frame { type_tag: 9, timestamp: 0, fields: Vec::new() };
    assert_eq!(empty.encode().unwrap(), vec![9, 0, 0, 0, 0, 0, 0, 0, 0, 0, 0, 0, 0, 0, 0, 0, 0]);
}

#[test]
fn seal_puts_header_in_front() {
    let sealed = seal(5, 1, vec![0xAA, 0xBB]).unwrap();
    assert_eq!(sealed[0], 5);
    assert_eq!(sealed[1..9], [1, 0, 0, 0, 0, 0, 0, 0]);
    assert_eq!(read_u32(&sealed, 9), checksum(&[0xAA, 0xBB]));
    assert_eq!(sealed[13..17], [2, 0, 0, 0]);
    assert_eq!(sealed[17..], [0xAA, 0xBB]);
}

#[test]
fn round_trip_of_every_variant() {
    let samples = ["", "a", "héllo wörld", "日本語テキスト", "emoji 🦀🦀", "line\nbreak\t\0nul"];
    for a in samples {
        for b in samples {
            for ts in [0u64, 1, 1_700_000_000, u64::MAX] {
                let m = ChatMessage::new(a.to_string(), b.to_string());
                assert_eq!(ChatMessage::deserialize(&m.serialize(ts).unwrap()), Ok(m));
                let m = ChangeUsername::new(a.to_string(), b.to_string());
                assert_eq!(ChangeUsername::deserialize(&m.serialize(ts).unwrap()), Ok(m));
                let m = RequestAuthentication::new(a.to_string(), b.to_string());
                assert_eq!(RequestAuthentication::deserialize(&m.serialize(ts).unwrap()), Ok(m));
                let m = BroadcastMessage::new(a.to_string(), b.to_string());
                assert_eq!(BroadcastMessage::deserialize(&m.serialize(ts).unwrap()), Ok(m));
            }
        }
        let m = AuthenticateToken::new(a.to_string());
        assert_eq!(AuthenticateToken::deserialize(&m.serialize(3).unwrap()), Ok(m));
    }
}

#[test]
fn round_trip_through_the_unions() {
    let client = [
        ClientMessage::ChatMessage(ChatMessage::new("H1".into(), "hi".into())),
        ClientMessage::ChangeUsername(ChangeUsername::new("H1".into(), "Bob".into())),
        ClientMessage::RequestAuthentication(RequestAuthentication::new(
            "H1".into(),
            "Alice".into(),
        )),
    ];
    for (tag, message) in client.into_iter().enumerate() {
        let bytes = message.encode(42).unwrap();
        assert_eq!(bytes[0] as usize, tag);
        assert_eq!(message.message_type().tag(), Some(tag as u8));
        let (back, used) = ClientMessage::decode(&bytes).unwrap();
        assert_eq!(back, message);
        assert_eq!(used, bytes.len());
        let (frame, _) = Frame::decode(&bytes, Catalog::Client).unwrap();
        assert_eq!(frame.timestamp, 42);
        assert_eq!(ClientMessage::from_frame(frame), Some(message));
    }
    let server = [
        ServerMessage::BroadcastMessage(BroadcastMessage::new("Alice".into(), "hi".into())),
        ServerMessage::AuthenticateToken(AuthenticateToken::new("token".into())),
    ];
    for (tag, message) in server.into_iter().enumerate() {
        let bytes = message.encode(42).unwrap();
        assert_eq!(bytes[0] as usize, tag);
        assert_eq!(message.message_type().tag(), Some(tag as u8));
        let (back, used) = ServerMessage::decode(&bytes).unwrap();
        assert_eq!(back, message);
        assert_eq!(used, bytes.len());
    }
}

#[test]
fn decode_leaves_what_follows_the_frame() {
    let mut bytes = CHAT_FRAME.to_vec();
    bytes.extend_from_slice(&[0; 100]);
    assert_eq!(ChatMessage::deserialize(&bytes), Ok(chat()));
    let (message, used) = ClientMessage::decode(&bytes).unwrap();
    assert_eq!(message, ClientMessage::ChatMessage(chat()));
    assert_eq!(used, 36);
}

#[test]
fn truncation_at_every_offset() {
    for cut in 0..CHAT_FRAME.len() {
        assert_eq!(
            Frame::decode(&CHAT_FRAME[..cut], Catalog::Client),
            Err(DeserializerError::TruncatedFrame),
            "cut at {cut}"
        );
        assert_eq!(ChatMessage::deserialize(&CHAT_FRAME[..cut]), Err(DeserializerError::TruncatedFrame));
        assert_eq!(ClientMessage::decode(&CHAT_FRAME[..cut]), Err(DeserializerError::TruncatedFrame));
    }
    assert!(Frame::decode(&CHAT_FRAME, Catalog::Client).is_ok());
}

#[test]
fn every_bit_flip_in_the_field_block_is_a_checksum_mismatch() {
    for at in HEADER_LEN..CHAT_FRAME.len() {
        for bit in 0..8 {
            let mut damaged = CHAT_FRAME;
            damaged[at] ^= 1 << bit;
            assert_eq!(
                Frame::decode(&damaged, Catalog::Client),
                Err(DeserializerError::ChecksumMismatch),
                "byte {at}, bit {bit}"
            );
            assert_eq!(ChatMessage::deserialize(&damaged), Err(DeserializerError::ChecksumMismatch));
        }
    }
}

#[test]
fn a_damaged_checksum_is_a_checksum_mismatch() {
    for at in 9..13 {
        let mut damaged = CHAT_FRAME;
        damaged[at] ^= 0x10;
        assert_eq!(Frame::decode(&damaged, Catalog::Client), Err(DeserializerError::ChecksumMismatch));
    }
}

#[test]
fn unknown_tags_are_refused_first() {
    assert_eq!(Frame::decode(&[3], Catalog::Client), Err(DeserializerError::UnknownType));
    assert_eq!(Frame::decode(&[2], Catalog::Server), Err(DeserializerError::UnknownType));
    assert_eq!(Frame::decode(&[255], Catalog::Server), Err(DeserializerError::UnknownType));
    assert_eq!(Frame::decode(&[2], Catalog::Client), Err(DeserializerError::TruncatedFrame));
    assert_eq!(Frame::decode(&[], Catalog::Client), Err(DeserializerError::TruncatedFrame));
    let mut other = CHAT_FRAME;
    other[0] = 7;
    assert_eq!(Frame::decode(&other, Catalog::Client), Err(DeserializerError::UnknownType));
    // A message is read only from a frame of its own tag.
    assert_eq!(ChangeUsername::deserialize(&CHAT_FRAME), Err(DeserializerError::UnknownType));
    assert_eq!(RequestAuthentication::deserialize(&CHAT_FRAME[..1]), Err(DeserializerError::UnknownType));
    assert_eq!(ChatMessage::deserialize(&[]), Err(DeserializerError::TruncatedFrame));
    assert_eq!(decode_expecting(&CHAT_FRAME, Catalog::Client, 1), Err(DeserializerError::UnknownType));
}

#[test]
fn fields_must_fill_the_block_exactly() {
    // One field where two are expected: the second runs past the block.
    let one = seal(0, 0, vec![1, 0, 0, 0, b'a']).unwrap();
    assert_eq!(Frame::decode(&one, Catalog::Client), Err(DeserializerError::TruncatedFrame));
    // Three fields where two are expected: bytes are left over.
    let three = seal(0, 0, vec![0, 0, 0, 0, 0, 0, 0, 0, 0, 0, 0, 0]).unwrap();
    assert_eq!(Frame::decode(&three, Catalog::Client), Err(DeserializerError::TrailingBytes));
    // A field that claims more than the block holds.
    let long = seal(0, 0, vec![200, 0, 0, 0, b'a', 0, 0, 0, 0]).unwrap();
    assert_eq!(Frame::decode(&long, Catalog::Client), Err(DeserializerError::TruncatedFrame));
    // Invalid UTF-8 in the second field.
    let bad = seal(0, 0, vec![1, 0, 0, 0, b'a', 2, 0, 0, 0, 0xC3, 0x28]).unwrap();
    assert_eq!(Frame::decode(&bad, Catalog::Client), Err(DeserializerError::InvalidEncoding));
    assert_eq!(read_fields(&[], 0), Ok(Vec::new()));
    assert_eq!(read_fields(&[0], 0), Err(DeserializerError::TrailingBytes));
    assert_eq!(read_fields(&[], 1), Err(DeserializerError::TruncatedFrame));
    assert_eq!(
        read_fields(&[1, 0, 0, 0, b'x', 0, 0, 0, 0], 2),
        Ok(vec!["x".to_string(), String::new()])
    );
}

#[test]
fn tags_do_not_cross_between_the_catalogs() {
    let request = RequestAuthentication::new("H1".into(), "Alice".into()).serialize(0).unwrap();
    assert_eq!(ServerMessage::decode(&request), Err(DeserializerError::UnknownType));
    let rename = ChangeUsername::new("H1".into(), "Bob".into()).serialize(0).unwrap();
    assert_eq!(ServerMessage::decode(&rename), Err(DeserializerError::TrailingBytes));
    assert_eq!(AuthenticateToken::deserialize(&rename), Err(DeserializerError::TrailingBytes));
    let token = AuthenticateToken::new("0123".into()).serialize(0).unwrap();
    assert_eq!(ClientMessage::decode(&token), Err(DeserializerError::TruncatedFrame));
    assert_eq!(ChangeUsername::deserialize(&token), Err(DeserializerError::TruncatedFrame));
    // Tag 0 has the same shape in both catalogs: on the wire a chat line
    // cannot be told from a broadcast.
    let line = ChatMessage::new("H1".into(), "hi".into()).serialize(0).unwrap();
    assert_eq!(
        ServerMessage::decode(&line).unwrap().0,
        ServerMessage::BroadcastMessage(BroadcastMessage::new("H1".into(), "hi".into()))
    );
}

#[test]
fn from_tag_is_total() {
    assert_eq!(ClientMessageType::from(0), ClientMessageType::ChatMessage);
    assert_eq!(ClientMessageType::from(1), ClientMessageType::ChangeUsername);
    assert_eq!(ClientMessageType::from(2), ClientMessageType::RequestAuthentication);
    assert_eq!(ServerMessageType::from(0), ServerMessageType::BroadcastMessage);
    assert_eq!(ServerMessageType::from(1), ServerMessageType::AuthenticateToken);
    for tag in 0..=255u8 {
        let client = ClientMessageType::from(tag);
        let server = ServerMessageType::from(tag);
        assert_eq!(client == ClientMessageType::InvalidEvent, tag > 2);
        assert_eq!(server == ServerMessageType::InvalidEvent, tag > 1);
        assert_eq!(client.tag(), if tag <= 2 { Some(tag) } else { None });
        assert_eq!(server.tag(), if tag <= 1 { Some(tag) } else { None });
        assert_eq!(Catalog::Client.field_count(tag), client.field_count());
        assert_eq!(Catalog::Server.field_count(tag), server.field_count());
    }
    assert_eq!(ClientMessageType::InvalidEvent.field_count(), None);
    assert_eq!(ClientMessageType::ChatMessage.field_count(), Some(2));
    assert_eq!(ServerMessageType::AuthenticateToken.field_count(), Some(1));
    assert_eq!(ServerMessageType::BroadcastMessage.field_count(), Some(2));
}

#[test]
fn a_frame_of_another_shape_is_no_message() {
    let frame = Frame { type_tag: 1, timestamp: 0, fields: vec!["only".to_string()] };
    assert_eq!(ClientMessage::from_frame(frame.clone()), None);
    assert_eq!(
        ServerMessage::from_frame(frame),
        Some(ServerMessage::AuthenticateToken(AuthenticateToken::new("only".into())))
    );
    let frame = Frame { type_tag: 2, timestamp: 0, fields: vec!["a".into(), "b".into()] };
    assert_eq!(ServerMessage::from_frame(frame), None);
}

#[test]
fn from_tag_agrees_with_from() {
    for tag in 0..=255u8 {
        assert_eq!(ClientMessageType::from_tag(tag), ClientMessageType::from(tag));
        assert_eq!(ServerMessageType::from_tag(tag), ServerMessageType::from(tag));
    }
    assert_eq!(ClientMessageType::from_tag(3), ClientMessageType::InvalidEvent);
    assert_eq!(ServerMessageType::from_tag(2), ServerMessageType::InvalidEvent);
}

#[test]
fn errors_say_what_went_wrong() {
    assert_eq!(SerializerError::EncodeOverflow.message(), "A field is too long to be encoded");
    assert_eq!(DeserializerError::TruncatedFrame.message(), "Received an incomplete frame");
    assert_eq!(DeserializerError::UnknownType.message(), "Received invalid MessageType");
    assert_eq!(
        DeserializerError::ChecksumMismatch.message(),
        "Received a frame with a wrong checksum"
    );
    assert_eq!(DeserializerError::InvalidEncoding.message(), "Unable to convert to UTF-8");
    assert_eq!(DeserializerError::TrailingBytes.message(), "Received invalid buffer length");
}

#[test]
fn the_inner_block_is_cut_out() {
    let data = [9, 3, 0, 0, 0, b'a', b'b', b'c', 7];
    assert_eq!(prepare_inner_cursor(&data, 1), Ok((&data[5..8], 8)));
    assert_eq!(prepare_inner_cursor(&data, 0), Err(DeserializerError::TruncatedFrame));
    assert_eq!(prepare_inner_cursor(&data, 6), Err(DeserializerError::TruncatedFrame));
    assert_eq!(prepare_inner_cursor(&data, 100), Err(DeserializerError::TruncatedFrame));
    assert_eq!(prepare_inner_cursor(&[0, 0, 0, 0], 0), Ok((&[][..], 4)));
    assert_eq!(prepare_inner_cursor(&CHAT_FRAME, 13), Ok((&CHAT_FRAME[17..], 36)));
}
