//! Messages that clients send to the server.

use crate::error::{DeserializerError, SerializerError};
use crate::frame::{
    decode_expecting, encode_pair, encoded, encoding_view, lemma_parse_frame_shape, parse_frame,
    Frame,
};
use crate::protocols::Catalog;
use crate::types::{Deserialize, Serialize, WireMessage};
use vstd::prelude::*;
use vstd::std_specs::convert::FromSpecImpl;

verus! {

/// The kinds of message a client can send, and what an unassigned tag is
/// read as.
#[derive(Debug, Clone, Copy, PartialEq, Eq, Structural)]
pub enum ClientMessageType {
    ChatMessage,
    ChangeUsername,
    RequestAuthentication,
    /// Any tag the catalog does not assign.
    InvalidEvent,
}

impl ClientMessageType {
    /// The kind that a tag stands for.
    pub open spec fn of_tag(value: u8) -> Self {
        if value == 0 {
            ClientMessageType::ChatMessage
        } else if value == 1 {
            ClientMessageType::ChangeUsername
        } else if value == 2 {
            ClientMessageType::RequestAuthentication
        } else {
            ClientMessageType::InvalidEvent
        }
    }

    /// The kind that a tag stands for. This is total: every tag that the
    /// catalog does not assign is an `InvalidEvent`.
    #[verifier::when_used_as_spec(of_tag)]
    pub fn from_tag(value: u8) -> (kind: Self)
        ensures
            kind == Self::of_tag(value),
    {
        Self::from(value)
    }

    pub open spec fn spec_tag(self) -> Option<u8> {
        match self {
            ClientMessageType::ChatMessage => Some(0u8),
            ClientMessageType::ChangeUsername => Some(1u8),
            ClientMessageType::RequestAuthentication => Some(2u8),
            ClientMessageType::InvalidEvent => None,
        }
    }

    /// The tag that frames of this kind carry; `InvalidEvent` has none.
    #[verifier::when_used_as_spec(spec_tag)]
    pub fn tag(self) -> (tag: Option<u8>)
        ensures
            tag == self.spec_tag(),
            tag matches Some(t) ==> Self::of_tag(t) == self,
    {
        match self {
            ClientMessageType::ChatMessage => Some(0),
            ClientMessageType::ChangeUsername => Some(1),
            ClientMessageType::RequestAuthentication => Some(2),
            ClientMessageType::InvalidEvent => None,
        }
    }

    pub open spec fn spec_field_count(self) -> Option<usize> {
        match self {
            ClientMessageType::ChatMessage => Some(2usize),
            ClientMessageType::ChangeUsername => Some(2usize),
            ClientMessageType::RequestAuthentication => Some(2usize),
            ClientMessageType::InvalidEvent => None,
        }
    }

    /// How many string fields a message of this kind holds.
    #[verifier::when_used_as_spec(spec_field_count)]
    pub fn field_count(self) -> (count: Option<usize>)
        ensures
            count == self.spec_field_count(),
    {
        match self {
            ClientMessageType::ChatMessage => Some(2),
            ClientMessageType::ChangeUsername => Some(2),
            ClientMessageType::RequestAuthentication => Some(2),
            ClientMessageType::InvalidEvent => None,
        }
    }
}

impl From<u8> for ClientMessageType {
    /// Total: every tag outside the catalog is an `InvalidEvent`.
    fn from(value: u8) -> (kind: Self) {
        match value {
            0 => Self::ChatMessage,
            1 => Self::ChangeUsername,
            2 => Self::RequestAuthentication,
            _ => Self::InvalidEvent,
        }
    }
}

impl FromSpecImpl<u8> for ClientMessageType {
    open spec fn obeys_from_spec() -> bool {
        true
    }

    open spec fn from_spec(value: u8) -> Self {
        Self::of_tag(value)
    }
}

/// Takes the two strings out of a frame of two fields.
pub(crate) fn take_pair(frame: Frame) -> (pair: (String, String))
    requires
        frame.fields@.len() == 2,
    ensures
        seq![pair.0@, pair.1@] == frame@.fields,
{
    let mut fields = frame.fields;
    let second = fields.pop().unwrap();
    let first = fields.pop().unwrap();
    assert(seq![first@, second@] =~= frame@.fields);
    (first, second)
}

/// A line of chat from the client with the given hardware id.
#[derive(Debug, Clone, PartialEq, Eq)]
pub struct ChatMessage {
    pub hwid: String,
    pub content: String,
}

impl ChatMessage {
    pub fn new(hwid: String, content: String) -> (message: Self)
        ensures
            message.hwid == hwid,
            message.content == content,
    {
        Self { hwid, content }
    }
}

impl WireMessage for ChatMessage {
    open spec fn catalog() -> Catalog {
        Catalog::Client
    }

    open spec fn type_tag() -> u8 {
        0
    }

    open spec fn fields(&self) -> Seq<Seq<char>> {
        seq![self.hwid@, self.content@]
    }
}

impl Serialize for ChatMessage {
    fn serialize(&self, timestamp: u64) -> (r: Result<Vec<u8>, SerializerError>) {
        encode_pair(0, timestamp, self.hwid.as_str(), self.content.as_str())
    }
}

impl Deserialize for ChatMessage {
    fn deserialize(data: &[u8]) -> (r: Result<Self, DeserializerError>) {
        match decode_expecting(data, Catalog::Client, 0) {
            Err(e) => Err(e),
            Ok(frame) => {
                let (hwid, content) = take_pair(frame);
                Ok(Self { hwid, content })
            },
        }
    }
}

/// A request to be shown under another name.
#[derive(Debug, Clone, PartialEq, Eq)]
pub struct ChangeUsername {
    pub hwid: String,
    pub new_username: String,
}

impl ChangeUsername {
    pub fn new(hwid: String, new_username: String) -> (message: Self)
        ensures
            message.hwid == hwid,
            message.new_username == new_username,
    {
        Self { hwid, new_username }
    }
}

impl WireMessage for ChangeUsername {
    open spec fn catalog() -> Catalog {
        Catalog::Client
    }

    open spec fn type_tag() -> u8 {
        1
    }

    open spec fn fields(&self) -> Seq<Seq<char>> {
        seq![self.hwid@, self.new_username@]
    }
}

impl Serialize for ChangeUsername {
    fn serialize(&self, timestamp: u64) -> (r: Result<Vec<u8>, SerializerError>) {
        encode_pair(1, timestamp, self.hwid.as_str(), self.new_username.as_str())
    }
}

impl Deserialize for ChangeUsername {
    fn deserialize(data: &[u8]) -> (r: Result<Self, DeserializerError>) {
        match decode_expecting(data, Catalog::Client, 1) {
            Err(e) => Err(e),
            Ok(frame) => {
                let (hwid, new_username) = take_pair(frame);
                Ok(Self { hwid, new_username })
            },
        }
    }
}

/// The first message of a connection: who the client is and what it wants
/// to be called.
#[derive(Debug, Clone, PartialEq, Eq)]
pub struct RequestAuthentication {
    pub hwid: String,
    pub name: String,
}

impl RequestAuthentication {
    pub fn new(hwid: String, name: String) -> (message: Self)
        ensures
            message.hwid == hwid,
            message.name == name,
    {
        Self { hwid, name }
    }
}

impl WireMessage for RequestAuthentication {
    open spec fn catalog() -> Catalog {
        Catalog::Client
    }

    open spec fn type_tag() -> u8 {
        2
    }

    open spec fn fields(&self) -> Seq<Seq<char>> {
        seq![self.hwid@, self.name@]
    }
}

impl Serialize for RequestAuthentication {
    fn serialize(&self, timestamp: u64) -> (r: Result<Vec<u8>, SerializerError>) {
        encode_pair(2, timestamp, self.hwid.as_str(), self.name.as_str())
    }
}

impl Deserialize for RequestAuthentication {
    fn deserialize(data: &[u8]) -> (r: Result<Self, DeserializerError>) {
        match decode_expecting(data, Catalog::Client, 2) {
            Err(e) => Err(e),
            Ok(frame) => {
                let (hwid, name) = take_pair(frame);
                Ok(Self { hwid, name })
            },
        }
    }
}

/// Any message of the client catalog.
#[derive(Debug, Clone, PartialEq, Eq)]
pub enum ClientMessage {
    ChatMessage(ChatMessage),
    ChangeUsername(ChangeUsername),
    RequestAuthentication(RequestAuthentication),
}

impl ClientMessage {
    /// The kind of the message.
    pub open spec fn spec_message_type(&self) -> ClientMessageType {
        match self {
            ClientMessage::ChatMessage(_) => ClientMessageType::ChatMessage,
            ClientMessage::ChangeUsername(_) => ClientMessageType::ChangeUsername,
            ClientMessage::RequestAuthentication(_) => ClientMessageType::RequestAuthentication,
        }
    }

    /// The tag that its frames carry.
    pub open spec fn type_tag(&self) -> u8 {
        match self {
            ClientMessage::ChatMessage(_) => 0,
            ClientMessage::ChangeUsername(_) => 1,
            ClientMessage::RequestAuthentication(_) => 2,
        }
    }

    /// Its string fields, in the order they stand in the field block.
    pub open spec fn fields(&self) -> Seq<Seq<char>> {
        match self {
            ClientMessage::ChatMessage(m) => m.fields(),
            ClientMessage::ChangeUsername(m) => m.fields(),
            ClientMessage::RequestAuthentication(m) => m.fields(),
        }
    }

    /// The kind of the message.
    #[verifier::when_used_as_spec(spec_message_type)]
    pub fn message_type(&self) -> (kind: ClientMessageType)
        ensures
            kind == self.spec_message_type(),
            kind.spec_tag() == Some(self.type_tag()),
    {
        match self {
            ClientMessage::ChatMessage(_) => ClientMessageType::ChatMessage,
            ClientMessage::ChangeUsername(_) => ClientMessageType::ChangeUsername,
            ClientMessage::RequestAuthentication(_) => ClientMessageType::RequestAuthentication,
        }
    }

    /// The bytes of the frame that carries this message with the given
    /// timestamp.
    pub fn encode(&self, timestamp: u64) -> (r: Result<Vec<u8>, SerializerError>)
        ensures
            encoding_view(r) == encoded(self.type_tag(), timestamp, self.fields()),
    {
        match self {
            ClientMessage::ChatMessage(m) => m.serialize(timestamp),
            ClientMessage::ChangeUsername(m) => m.serialize(timestamp),
            ClientMessage::RequestAuthentication(m) => m.serialize(timestamp),
        }
    }

    /// The message that a frame carries, if its tag and the number of its
    /// fields are those of a message of the client catalog.
    pub fn from_frame(frame: Frame) -> (r: Option<ClientMessage>)
        ensures
            Catalog::Client.spec_field_count(frame.type_tag) == Some(frame.fields.len()) ==> (
            r matches Some(message) && message.type_tag() == frame.type_tag && message.fields()
                == frame@.fields),
            Catalog::Client.spec_field_count(frame.type_tag) != Some(frame.fields.len())
                ==> r is None,
    {
        let kind = ClientMessageType::from(frame.type_tag);
        if kind.field_count() != Some(frame.fields.len()) {
            return None;
        }
        match kind {
            ClientMessageType::ChatMessage => {
                let (hwid, content) = take_pair(frame);
                Some(ClientMessage::ChatMessage(ChatMessage { hwid, content }))
            },
            ClientMessageType::ChangeUsername => {
                let (hwid, new_username) = take_pair(frame);
                Some(ClientMessage::ChangeUsername(ChangeUsername { hwid, new_username }))
            },
            ClientMessageType::RequestAuthentication => {
                let (hwid, name) = take_pair(frame);
                Some(ClientMessage::RequestAuthentication(RequestAuthentication { hwid, name }))
            },
            ClientMessageType::InvalidEvent => None,
        }
    }

    /// Decodes one client message from the front of `data` and says how many
    /// bytes its frame occupies.
    pub fn decode(data: &[u8]) -> (r: Result<(ClientMessage, usize), DeserializerError>)
        ensures
            match parse_frame(data@, Catalog::Client) {
                Ok((frame, n)) => r matches Ok((message, used)) && message.type_tag()
                    == frame.type_tag && message.fields() == frame.fields && used == n,
                Err(e) => r == Err::<(ClientMessage, usize), _>(e),
            },
    {
        match Frame::decode(data, Catalog::Client) {
            Err(e) => Err(e),
            Ok((frame, used)) => {
                proof {
                    lemma_parse_frame_shape(data@, Catalog::Client);
                }
                match Self::from_frame(frame) {
                    Some(message) => Ok((message, used)),
                    None => Err(DeserializerError::UnknownType),
                }
            },
        }
    }
}

} // verus!
