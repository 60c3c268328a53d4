use chat_protocol::error::DeserializerError;
use chat_protocol::event_handler::{EventHandler, Output};
use chat_protocol::protocols::client::{
    ChangeUsername, ChatMessage, ClientMessage, RequestAuthentication,
};
use chat_protocol::protocols::server::{AuthenticateToken, BroadcastMessage, ServerMessage};
use chat_protocol::registry::{Client, Delivery, Registry};
use chat_protocol::server::{Progress, Session, SessionState};
use chat_protocol::types::Serialize;

fn uuid_shaped(text: &str) -> bool {
    text.len() == 36
        && text.chars().enumerate().all(|(i, c)| match i {
            8 | 13 | 18 | 23 => c == '-',
            _ => c.is_ascii_digit() || ('a'..='f').contains(&c),
        })
}

fn request(hwid: &str, name: &str) -> Vec<u8> {
    RequestAuthentication::new(hwid.into(), name.into()).serialize(10).unwrap()
}

fn chat_line(hwid: &str, content: &str) -> Vec<u8> {
    ChatMessage::new(hwid.into(), content.into()).serialize(11).unwrap()
}

fn token_of(delivery: &Delivery) -> String {
    let frame = delivery.frame.as_ref().unwrap();
    match ServerMessage::decode(frame).unwrap() {
        (ServerMessage::AuthenticateToken(reply), used) => {
            assert_eq!(used, frame.len());
            reply.token
        }
        other => panic!("no token: {other:?}"),
    }
}

fn authenticated(connection_id: u64, hwid: &str, name: &str, registry: &mut Registry) -> Session {
    let mut session = Session::new(connection_id);
    let progress = session.on_bytes(&request(hwid, name), registry, 100);
    assert_eq!(progress.fatal, None);
    assert_eq!(session.state(), SessionState::Authenticated);
    session
}

#[test]
fn a_new_session_awaits_authentication() {
    let session = Session::new(7);
    assert_eq!(session.state(), SessionState::AwaitingAuth);
    assert_eq!(session.connection_id(), 7);
    assert_eq!(session.hwid(), "");
}

#[test]
fn authentication_answers_with_a_token_and_registers() {
    let mut registry = Registry::new();
    let mut session = Session::new(1);
    let progress = session.on_bytes(&request("H1", "Alice"), &mut registry, 100);
    assert_eq!(progress.fatal, None);
    assert_eq!(progress.outputs.len(), 1);
    let output = &progress.outputs[0];
    assert!(!output.discarded);
    assert_eq!(output.superseded, None);
    assert_eq!(output.deliveries.len(), 1);
    assert_eq!(output.deliveries[0].connection_id, 1);
    let token = token_of(&output.deliveries[0]);
    assert!(uuid_shaped(&token), "{token}");
    assert_eq!(session.state(), SessionState::Authenticated);
    assert_eq!(session.hwid(), "H1");
    assert_eq!(registry.len(), 1);
    assert_eq!(
        registry.get("H1"),
        Some(&Client::new(1, "Alice".to_string(), "H1".to_string(), token))
    );
}

#[test]
fn every_connection_gets_a_token_of_its_own() {
    let mut registry = Registry::new();
    let mut tokens = std::collections::HashSet::new();
    for id in 0..20u64 {
        authenticated(id, &format!("H{id}"), "Name", &mut registry);
        let token = registry.get(&format!("H{id}")).unwrap().session_token.clone();
        assert!(uuid_shaped(&token), "{token}");
        tokens.insert(token);
    }
    assert_eq!(tokens.len(), 20);
    assert_eq!(registry.len(), 20);
}

#[test]
fn welcome_is_exact() {
    let mut registry = Registry::new();
    registry.insert(Client::new(4, "Old".into(), "H1".into(), "t0".into()));
    let mut session = Session::new(5);
    let output = session.welcome("H1".into(), "Alice".into(), "t1".into(), &mut registry, 9);
    assert_eq!(
        output,
        Output {
            deliveries: vec![Delivery {
                connection_id: 5,
                frame: AuthenticateToken::new("t1".into()).serialize(9),
            }],
            superseded: Some(4),
            discarded: false,
        }
    );
    assert_eq!(registry.len(), 1);
    assert_eq!(registry.get("H1"), Some(&Client::new(5, "Alice".into(), "H1".into(), "t1".into())));
    assert_eq!(session.state(), SessionState::Authenticated);
    assert_eq!(session.hwid(), "H1");
}

#[test]
fn a_name_that_is_not_accepted_is_replaced() {
    let mut registry = Registry::new();
    authenticated(1, "H1", "", &mut registry);
    authenticated(2, "H2", &"x".repeat(33), &mut registry);
    authenticated(3, "H3", &"x".repeat(32), &mut registry);
    for hwid in ["H1", "H2"] {
        let name = &registry.get(hwid).unwrap().name;
        let number = name.strip_prefix("User").unwrap();
        assert_eq!(number.parse::<i16>().unwrap().to_string(), number);
    }
    assert_eq!(registry.get("H3").unwrap().name, "x".repeat(32));
}

#[test]
fn before_authentication_other_messages_are_discarded() {
    let mut registry = Registry::new();
    registry.insert(Client::new(9, "Bob".into(), "H2".into(), "t".into()));
    let mut session = Session::new(1);
    let mut bytes = chat_line("H1", "hi");
    bytes.extend(ChangeUsername::new("H2".into(), "Eve".into()).serialize(0).unwrap());
    let progress = session.on_bytes(&bytes, &mut registry, 100);
    assert_eq!(progress.fatal, None);
    assert_eq!(progress.outputs.len(), 2);
    for output in &progress.outputs {
        assert_eq!(output, &EventHandler::handle_unknown_message());
    }
    assert_eq!(session.state(), SessionState::AwaitingAuth);
    assert_eq!(registry.get("H2").unwrap().name, "Bob");
    // The connection is still open to a valid request.
    let progress = session.on_bytes(&request("H1", "Alice"), &mut registry, 100);
    assert_eq!(progress.outputs.len(), 1);
    assert_eq!(session.state(), SessionState::Authenticated);
}

#[test]
fn a_chat_line_goes_to_everyone_else() {
    let mut registry = Registry::new();
    let mut a = authenticated(1, "A", "Alice", &mut registry);
    authenticated(2, "B", "Bob", &mut registry);
    authenticated(3, "C", "Carol", &mut registry);
    let progress = a.on_bytes(&chat_line("A", "hi"), &mut registry, 55);
    assert_eq!(progress.fatal, None);
    let expected = BroadcastMessage::new("Alice".into(), "hi".into()).serialize(55);
    assert_eq!(
        progress.outputs,
        vec![Output {
            deliveries: vec![
                Delivery { connection_id: 2, frame: expected.clone() },
                Delivery { connection_id: 3, frame: expected },
            ],
            superseded: None,
            discarded: false,
        }]
    );
    assert_eq!(registry.len(), 3);
}

#[test]
fn two_clients_one_line() {
    let mut registry = Registry::new();
    let mut h1 = authenticated(1, "H1", "Alice", &mut registry);
    authenticated(2, "H2", "Bob", &mut registry);
    let progress = h1.on_bytes(&chat_line("H1", "hi"), &mut registry, 1);
    assert_eq!(progress.outputs.len(), 1);
    let deliveries = &progress.outputs[0].deliveries;
    assert_eq!(deliveries.len(), 1);
    assert_eq!(deliveries[0].connection_id, 2);
    let frame = deliveries[0].frame.as_ref().unwrap();
    match ServerMessage::decode(frame).unwrap() {
        (ServerMessage::BroadcastMessage(message), used) => {
            assert_eq!(used, frame.len());
            assert_eq!(message.content, "hi");
            assert_eq!(message.username, "Alice");
        }
        other => panic!("no broadcast: {other:?}"),
    }
}

#[test]
fn a_sender_that_is_not_registered_is_named_by_its_id() {
    let mut registry = Registry::new();
    authenticated(2, "B", "Bob", &mut registry);
    let deliveries = EventHandler::handle_send_message(
        ChatMessage::new("ghost".into(), "boo".into()),
        &registry,
        3,
    );
    assert_eq!(
        deliveries,
        vec![Delivery {
            connection_id: 2,
            frame: BroadcastMessage::new("ghost".into(), "boo".into()).serialize(3),
        }]
    );
}

#[test]
fn handle_auth_takes_the_credentials_out() {
    assert_eq!(
        EventHandler::handle_auth(ClientMessage::RequestAuthentication(
            RequestAuthentication::new("H1".into(), "Alice".into())
        )),
        Some(("H1".to_string(), "Alice".to_string()))
    );
    assert_eq!(
        EventHandler::handle_auth(ClientMessage::ChatMessage(ChatMessage::new(
            "H1".into(),
            "Alice".into()
        ))),
        None
    );
    assert_eq!(
        EventHandler::handle_auth(ClientMessage::ChangeUsername(ChangeUsername::new(
            "H1".into(),
            "Alice".into()
        ))),
        None
    );
}

#[test]
fn a_name_change_renames_the_client() {
    let mut registry = Registry::new();
    let mut a = authenticated(1, "A", "Alice", &mut registry);
    authenticated(2, "B", "Bob", &mut registry);
    let rename = ChangeUsername::new("A".into(), "Alicia".into()).serialize(0).unwrap();
    let progress = a.on_bytes(&rename, &mut registry, 1);
    assert_eq!(
        progress.outputs,
        vec![Output { deliveries: Vec::new(), superseded: None, discarded: false }]
    );
    assert_eq!(registry.get("A").unwrap().name, "Alicia");
    assert_eq!(registry.get("B").unwrap().name, "Bob");
    // The next line goes out under the new name.
    let progress = a.on_bytes(&chat_line("A", "hi"), &mut registry, 1);
    assert_eq!(
        progress.outputs[0].deliveries[0].frame,
        BroadcastMessage::new("Alicia".into(), "hi".into()).serialize(1)
    );
    assert!(EventHandler::handle_change_username(
        ChangeUsername::new("B".into(), "Rob".into()),
        &mut registry
    ));
    assert_eq!(registry.get("B").unwrap().name, "Rob");
    assert!(!EventHandler::handle_change_username(
        ChangeUsername::new("Z".into(), "Zed".into()),
        &mut registry
    ));
    assert!(EventHandler::handle_change_username(
        ChangeUsername::new("B".into(), "not valid".into()),
        &mut registry
    ));
    assert!(registry.get("B").unwrap().name.starts_with("User"));
    let unknown = ChangeUsername::new("Z".into(), "Zed".into()).serialize(0).unwrap();
    let progress = a.on_bytes(&unknown, &mut registry, 1);
    assert_eq!(
        progress.outputs,
        vec![Output { deliveries: Vec::new(), superseded: None, discarded: true }]
    );
}

#[test]
fn a_second_request_on_a_connection_is_discarded() {
    let mut registry = Registry::new();
    let mut a = authenticated(1, "A", "Alice", &mut registry);
    let progress = a.on_bytes(&request("B", "Bob"), &mut registry, 1);
    assert_eq!(progress.outputs, vec![EventHandler::handle_unknown_message()]);
    assert_eq!(registry.len(), 1);
    assert_eq!(a.hwid(), "A");
}

#[test]
fn authenticating_again_replaces_the_entry() {
    let mut registry = Registry::new();
    let mut first = authenticated(1, "H1", "Alice", &mut registry);
    let mut second = Session::new(2);
    let progress = second.on_bytes(&request("H1", "Alice2"), &mut registry, 100);
    assert_eq!(progress.outputs.len(), 1);
    assert_eq!(progress.outputs[0].superseded, Some(1));
    assert_eq!(registry.len(), 1);
    let entry = registry.get("H1").unwrap();
    assert_eq!(entry.connection_id, 2);
    assert_eq!(entry.name, "Alice2");
    // Closing the connection that was replaced leaves the new entry alone.
    first.close(&mut registry);
    assert_eq!(first.state(), SessionState::Closed);
    assert_eq!(registry.len(), 1);
    assert_eq!(registry.get("H1").unwrap().connection_id, 2);
    second.close(&mut registry);
    assert_eq!(registry.len(), 0);
}

#[test]
fn the_end_of_the_stream_closes_the_session() {
    let mut registry = Registry::new();
    let mut a = authenticated(1, "A", "Alice", &mut registry);
    authenticated(2, "B", "Bob", &mut registry);
    let progress = a.on_bytes(&[], &mut registry, 1);
    assert_eq!(progress, Progress { outputs: Vec::new(), fatal: None });
    assert_eq!(a.state(), SessionState::Closed);
    assert_eq!(registry.len(), 1);
    assert!(registry.contains("B"));
    // A closed session takes nothing in.
    let progress = a.on_bytes(&chat_line("A", "hi"), &mut registry, 1);
    assert_eq!(progress, Progress { outputs: Vec::new(), fatal: None });
    let mut message = Session::new(3);
    message.close(&mut registry);
    assert_eq!(
        message.on_message(
            ClientMessage::ChatMessage(ChatMessage::new("B".into(), "x".into())),
            &mut registry,
            0
        ),
        EventHandler::handle_unknown_message()
    );
    assert_eq!(registry.len(), 1);
}

#[test]
fn a_corrupt_stream_closes_only_its_own_session() {
    let mut registry = Registry::new();
    let mut a = authenticated(1, "A", "Alice", &mut registry);
    authenticated(2, "B", "Bob", &mut registry);
    let mut bytes = chat_line("A", "first");
    let mut damaged = chat_line("A", "second");
    let last = damaged.len() - 1;
    damaged[last] ^= 0x80;
    bytes.extend(damaged);
    let progress = a.on_bytes(&bytes, &mut registry, 1);
    assert_eq!(progress.fatal, Some(DeserializerError::ChecksumMismatch));
    assert_eq!(progress.outputs.len(), 1);
    assert_eq!(progress.outputs[0].deliveries.len(), 1);
    assert_eq!(a.state(), SessionState::Closed);
    assert!(!registry.contains("A"));
    assert!(registry.contains("B"));
}

#[test]
fn a_message_split_over_reads_is_handled_once() {
    let mut registry = Registry::new();
    let mut a = Session::new(1);
    let mut bytes = request("A", "Alice");
    bytes.extend(chat_line("A", "nobody hears this"));
    let (head, tail) = bytes.split_at(30);
    let progress = a.on_bytes(head, &mut registry, 1);
    assert_eq!(progress, Progress { outputs: Vec::new(), fatal: None });
    assert_eq!(a.state(), SessionState::AwaitingAuth);
    let progress = a.on_bytes(tail, &mut registry, 1);
    assert_eq!(progress.outputs.len(), 2);
    assert_eq!(progress.outputs[0].deliveries.len(), 1);
    assert_eq!(progress.outputs[1].deliveries.len(), 0);
    assert!(!progress.outputs[1].discarded);
    assert_eq!(a.state(), SessionState::Authenticated);
}
