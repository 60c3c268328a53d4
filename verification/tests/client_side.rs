use chat_protocol::client::{Client, Received};
use chat_protocol::error::DeserializerError;
use chat_protocol::protocols::client::{ChatMessage, ClientMessage, RequestAuthentication};
use chat_protocol::protocols::server::{AuthenticateToken, BroadcastMessage, ServerMessage};
use chat_protocol::types::Serialize;

#[test]
fn a_new_client_has_no_token() {
    let client = Client::new();
    assert_eq!(client.session_token(), None);
    assert!(client.is_connected());
}

#[test]
fn the_request_names_the_client() {
    let frame = Client::request_authentication("H1", "Alice", 77).unwrap();
    assert_eq!(
        frame,
        RequestAuthentication::new("H1".into(), "Alice".into()).serialize(77).unwrap()
    );
    assert_eq!(
        ClientMessage::decode(&frame).unwrap().0,
        ClientMessage::RequestAuthentication(RequestAuthentication::new(
            "H1".into(),
            "Alice".into()
        ))
    );
}

#[test]
fn a_line_is_trimmed() {
    assert_eq!(
        Client::compose("H1", "  hello world \r\n"),
        Some(ChatMessage::new("H1".into(), "hello world".into()))
    );
    assert_eq!(Client::compose("H1", "hi"), Some(ChatMessage::new("H1".into(), "hi".into())));
    assert_eq!(
        Client::compose("H1", "\u{2003}wide\u{a0}"),
        Some(ChatMessage::new("H1".into(), "wide".into()))
    );
    assert_eq!(Client::compose("H1", ""), None);
    assert_eq!(Client::compose("H1", " \t\n"), None);
}

#[test]
fn the_token_is_kept() {
    let mut client = Client::new();
    let token = AuthenticateToken::new("t-1".into());
    let line = BroadcastMessage::new("Bob".into(), "hi".into());
    let mut bytes = token.serialize(1).unwrap();
    bytes.extend(line.serialize(2).unwrap());
    let received = client.on_bytes(&bytes);
    assert_eq!(
        received,
        Received {
            messages: vec![
                ServerMessage::AuthenticateToken(token),
                ServerMessage::BroadcastMessage(line),
            ],
            fatal: None,
        }
    );
    assert_eq!(client.session_token(), Some("t-1"));
    let again = AuthenticateToken::new("t-2".into()).serialize(3).unwrap();
    let (head, tail) = again.split_at(5);
    assert_eq!(client.on_bytes(head), Received { messages: Vec::new(), fatal: None });
    assert_eq!(client.session_token(), Some("t-1"));
    assert_eq!(client.on_bytes(tail).messages.len(), 1);
    assert_eq!(client.session_token(), Some("t-2"));
    assert!(client.is_connected());
}

#[test]
fn the_end_of_the_stream_disconnects() {
    let mut client = Client::new();
    assert_eq!(client.on_bytes(&[]), Received { messages: Vec::new(), fatal: None });
    assert!(!client.is_connected());
    let bytes = AuthenticateToken::new("t".into()).serialize(1).unwrap();
    assert_eq!(client.on_bytes(&bytes), Received { messages: Vec::new(), fatal: None });
    assert_eq!(client.session_token(), None);
}

#[test]
fn a_corrupt_stream_disconnects() {
    let mut client = Client::new();
    let received = client.on_bytes(&[9, 9, 9]);
    assert_eq!(received, Received { messages: Vec::new(), fatal: Some(DeserializerError::UnknownType) });
    assert!(!client.is_connected());
}

#[test]
fn a_message_for_a_line() {
    assert_eq!(Client::message_for("H1", ""), None);
    assert_eq!(Client::message_for("H1", " "), Some(ChatMessage::new("H1".into(), " ".into())));
    assert_eq!(Client::message_for("", "x"), Some(ChatMessage::new("".into(), "x".into())));
}
