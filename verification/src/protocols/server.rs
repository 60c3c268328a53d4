//! Messages that the server sends to clients.

use crate::error::{DeserializerError, SerializerError};
use crate::frame::{
    decode_expecting, encode_pair, encode_single, encoded, encoding_view,
    lemma_parse_frame_shape, parse_frame, Frame,
};
use crate::protocols::client::take_pair;
use crate::protocols::Catalog;
use crate::types::{Deserialize, Serialize, WireMessage};
use vstd::prelude::*;
use vstd::std_specs::convert::FromSpecImpl;

verus! {

/// The kinds of message the server can send, and what an unassigned tag is
/// read as.
#[derive(Debug, Clone, Copy, PartialEq, Eq, Structural)]
pub enum ServerMessageType {
    BroadcastMessage,
    AuthenticateToken,
    /// Any tag the catalog does not assign.
    InvalidEvent,
}

impl ServerMessageType {
    /// The kind that a tag stands for.
    pub open spec fn of_tag(value: u8) -> Self {
        if value == 0 {
            ServerMessageType::BroadcastMessage
        } else if value == 1 {
            ServerMessageType::AuthenticateToken
        } else {
            ServerMessageType::InvalidEvent
        }
    }

    /// The kind that a tag stands for. This is total: every tag that the
    /// catalog does not assign is an `InvalidEvent`.
    #[verifier::when_used_as_spec(of_tag)]
    pub fn from_tag(value: u8) -> (kind: Self)
        ensures
            kind == Self::of_tag(value),
    {
        Self::from(value)
    }

    pub open spec fn spec_tag(self) -> Option<u8> {
        match self {
            ServerMessageType::BroadcastMessage => Some(0u8),
            ServerMessageType::AuthenticateToken => Some(1u8),
            ServerMessageType::InvalidEvent => None,
        }
    }

    /// The tag that frames of this kind carry; `InvalidEvent` has none.
    #[verifier::when_used_as_spec(spec_tag)]
    pub fn tag(self) -> (tag: Option<u8>)
        ensures
            tag == self.spec_tag(),
            tag matches Some(t) ==> Self::of_tag(t) == self,
    {
        match self {
            ServerMessageType::BroadcastMessage => Some(0),
            ServerMessageType::AuthenticateToken => Some(1),
            ServerMessageType::InvalidEvent => None,
        }
    }

    pub open spec fn spec_field_count(self) -> Option<usize> {
        match self {
            ServerMessageType::BroadcastMessage => Some(2usize),
            ServerMessageType::AuthenticateToken => Some(1usize),
            ServerMessageType::InvalidEvent => None,
        }
    }

    /// How many string fields a message of this kind holds.
    #[verifier::when_used_as_spec(spec_field_count)]
    pub fn field_count(self) -> (count: Option<usize>)
        ensures
            count == self.spec_field_count(),
    {
        match self {
            ServerMessageType::BroadcastMessage => Some(2),
            ServerMessageType::AuthenticateToken => Some(1),
            ServerMessageType::InvalidEvent => None,
        }
    }
}

impl From<u8> for ServerMessageType {
    /// Total: every tag outside the catalog is an `InvalidEvent`.
    fn from(value: u8) -> (kind: Self) {
        match value {
            0 => Self::BroadcastMessage,
            1 => Self::AuthenticateToken,
            _ => Self::InvalidEvent,
        }
    }
}

impl FromSpecImpl<u8> for ServerMessageType {
    open spec fn obeys_from_spec() -> bool {
        true
    }

    open spec fn from_spec(value: u8) -> Self {
        Self::of_tag(value)
    }
}

/// Takes the string out of a frame of one field.
fn take_single(frame: Frame) -> (only: String)
    requires
        frame.fields@.len() == 1,
    ensures
        seq![only@] == frame@.fields,
{
    let mut fields = frame.fields;
    let only = fields.pop().unwrap();
    assert(seq![only@] =~= frame@.fields);
    only
}

/// A line of chat handed on to a client, under the name of who wrote it.
#[derive(Debug, Clone, PartialEq, Eq)]
pub struct BroadcastMessage {
    pub username: String,
    pub content: String,
}

impl BroadcastMessage {
    pub fn new(username: String, content: String) -> (message: Self)
        ensures
            message.username == username,
            message.content == content,
    {
        Self { username, content }
    }
}

impl WireMessage for BroadcastMessage {
    open spec fn catalog() -> Catalog {
        Catalog::Server
    }

    open spec fn type_tag() -> u8 {
        0
    }

    open spec fn fields(&self) -> Seq<Seq<char>> {
        seq![self.username@, self.content@]
    }
}

impl Serialize for BroadcastMessage {
    fn serialize(&self, timestamp: u64) -> (r: Result<Vec<u8>, SerializerError>) {
        encode_pair(0, timestamp, self.username.as_str(), self.content.as_str())
    }
}

impl Deserialize for BroadcastMessage {
    fn deserialize(data: &[u8]) -> (r: Result<Self, DeserializerError>) {
        match decode_expecting(data, Catalog::Server, 0) {
            Err(e) => Err(e),
            Ok(frame) => {
                let (username, content) = take_pair(frame);
                Ok(Self { username, content })
            },
        }
    }
}

/// The server's answer to an authentication request: the session token.
#[derive(Debug, Clone, PartialEq, Eq)]
pub struct AuthenticateToken {
    pub token: String,
}

impl AuthenticateToken {
    pub fn new(token: String) -> (message: Self)
        ensures
            message.token == token,
    {
        Self { token }
    }
}

impl WireMessage for AuthenticateToken {
    open spec fn catalog() -> Catalog {
        Catalog::Server
    }

    open spec fn type_tag() -> u8 {
        1
    }

    open spec fn fields(&self) -> Seq<Seq<char>> {
        seq![self.token@]
    }
}

impl Serialize for AuthenticateToken {
    fn serialize(&self, timestamp: u64) -> (r: Result<Vec<u8>, SerializerError>) {
        encode_single(1, timestamp, self.token.as_str())
    }
}

impl Deserialize for AuthenticateToken {
    fn deserialize(data: &[u8]) -> (r: Result<Self, DeserializerError>) {
        match decode_expecting(data, Catalog::Server, 1) {
            Err(e) => Err(e),
            Ok(frame) => {
                let token = take_single(frame);
                Ok(Self { token })
            },
        }
    }
}

/// Any message of the server catalog.
#[derive(Debug, Clone, PartialEq, Eq)]
pub enum ServerMessage {
    BroadcastMessage(BroadcastMessage),
    AuthenticateToken(AuthenticateToken),
}

impl ServerMessage {
    /// The kind of the message.
    pub open spec fn spec_message_type(&self) -> ServerMessageType {
        match self {
            ServerMessage::BroadcastMessage(_) => ServerMessageType::BroadcastMessage,
            ServerMessage::AuthenticateToken(_) => ServerMessageType::AuthenticateToken,
        }
    }

    /// The tag that its frames carry.
    pub open spec fn type_tag(&self) -> u8 {
        match self {
            ServerMessage::BroadcastMessage(_) => 0,
            ServerMessage::AuthenticateToken(_) => 1,
        }
    }

    /// Its string fields, in the order they stand in the field block.
    pub open spec fn fields(&self) -> Seq<Seq<char>> {
        match self {
            ServerMessage::BroadcastMessage(m) => m.fields(),
            ServerMessage::AuthenticateToken(m) => m.fields(),
        }
    }

    /// The kind of the message.
    #[verifier::when_used_as_spec(spec_message_type)]
    pub fn message_type(&self) -> (kind: ServerMessageType)
        ensures
            kind == self.spec_message_type(),
            kind.spec_tag() == Some(self.type_tag()),
    {
        match self {
            ServerMessage::BroadcastMessage(_) => ServerMessageType::BroadcastMessage,
            ServerMessage::AuthenticateToken(_) => ServerMessageType::AuthenticateToken,
        }
    }

    /// The bytes of the frame that carries this message with the given
    /// timestamp.
    pub fn encode(&self, timestamp: u64) -> (r: Result<Vec<u8>, SerializerError>)
        ensures
            encoding_view(r) == encoded(self.type_tag(), timestamp, self.fields()),
    {
        match self {
            ServerMessage::BroadcastMessage(m) => m.serialize(timestamp),
            ServerMessage::AuthenticateToken(m) => m.serialize(timestamp),
        }
    }

    /// The message that a frame carries, if its tag and the number of its
    /// fields are those of a message of the server catalog.
    pub fn from_frame(frame: Frame) -> (r: Option<ServerMessage>)
        ensures
            Catalog::Server.spec_field_count(frame.type_tag) == Some(frame.fields.len()) ==> (
            r matches Some(message) && message.type_tag() == frame.type_tag && message.fields()
                == frame@.fields),
            Catalog::Server.spec_field_count(frame.type_tag) != Some(frame.fields.len())
                ==> r is None,
    {
        let kind = ServerMessageType::from(frame.type_tag);
        if kind.field_count() != Some(frame.fields.len()) {
            return None;
        }
        match kind {
            ServerMessageType::BroadcastMessage => {
                let (username, content) = take_pair(frame);
                Some(ServerMessage::BroadcastMessage(BroadcastMessage { username, content }))
            },
            ServerMessageType::AuthenticateToken => {
                let token = take_single(frame);
                Some(ServerMessage::AuthenticateToken(AuthenticateToken { token }))
            },
            ServerMessageType::InvalidEvent => None,
        }
    }

    /// Decodes one server message from the front of `data` and says how many
    /// bytes its frame occupies.
    pub fn decode(data: &[u8]) -> (r: Result<(ServerMessage, usize), DeserializerError>)
        ensures
            match parse_frame(data@, Catalog::Server) {
                Ok((frame, n)) => r matches Ok((message, used)) && message.type_tag()
                    == frame.type_tag && message.fields() == frame.fields && used == n,
                Err(e) => r == Err::<(ServerMessage, usize), _>(e),
            },
    {
        match Frame::decode(data, Catalog::Server) {
            Err(e) => Err(e),
            Ok((frame, used)) => {
                proof {
                    lemma_parse_frame_shape(data@, Catalog::Server);
                }
                match Self::from_frame(frame) {
                    Some(message) => Ok((message, used)),
                    None => Err(DeserializerError::UnknownType),
                }
            },
        }
    }
}

} // verus!
