//! The message catalogs: which messages travel in each direction, the tag
//! each one carries and the fields it holds.

use crate::error::DeserializerError;
use crate::frame::{
    encodable, fields_block, frame_bytes, lemma_decode_of_encode, lemma_refused_by_other_catalog,
    lemma_sealed_layout, parse_frame, parse_message, well_formed, FrameView,
};
use crate::types::WireMessage;
use vstd::prelude::*;

pub mod client;
pub mod server;

use client::{ClientMessage, ClientMessageType};
use server::{ServerMessage, ServerMessageType};

verus! {

/// One of the two directions of traffic, each with a tag space of its own.
#[derive(Debug, Clone, Copy, PartialEq, Eq, Structural)]
pub enum Catalog {
    /// Messages that clients send to the server.
    Client,
    /// Messages that the server sends to clients.
    Server,
}

impl Catalog {
    /// The number of string fields a frame with this tag holds, `None` where
    /// the catalog assigns the tag to no message.
    pub open spec fn spec_field_count(self, tag: u8) -> Option<usize> {
        match self {
            Catalog::Client => ClientMessageType::of_tag(tag).spec_field_count(),
            Catalog::Server => ServerMessageType::of_tag(tag).spec_field_count(),
        }
    }

    /// The number of string fields a frame with this tag holds, `None` where
    /// the catalog assigns the tag to no message.
    #[verifier::when_used_as_spec(spec_field_count)]
    pub fn field_count(self, tag: u8) -> (count: Option<usize>)
        ensures
            count == self.spec_field_count(tag),
    {
        match self {
            Catalog::Client => ClientMessageType::from(tag).field_count(),
            Catalog::Server => ServerMessageType::from(tag).field_count(),
        }
    }
}

impl ClientMessage {
    /// The frame that carries the message with this timestamp.
    pub open spec fn frame(&self, timestamp: u64) -> FrameView {
        FrameView { type_tag: self.type_tag(), timestamp, fields: self.fields() }
    }
}

impl ServerMessage {
    /// The frame that carries the message with this timestamp.
    pub open spec fn frame(&self, timestamp: u64) -> FrameView {
        FrameView { type_tag: self.type_tag(), timestamp, fields: self.fields() }
    }
}

/// Every client message whose fields fit their length prefixes has a frame
/// that the client catalog carries. So what holds of all well-formed frames
/// of a catalog holds of the frames of all client messages.
pub proof fn lemma_client_frames_well_formed(message: ClientMessage, timestamp: u64)
    requires
        encodable(message.fields()),
    ensures
        well_formed(message.frame(timestamp), Catalog::Client),
{
}

/// Every server message whose fields fit their length prefixes has a frame
/// that the server catalog carries.
pub proof fn lemma_server_frames_well_formed(message: ServerMessage, timestamp: u64)
    requires
        encodable(message.fields()),
    ensures
        well_formed(message.frame(timestamp), Catalog::Server),
{
}

/// Round trip: decoding what a client message was encoded to gives the
/// message's tag, timestamp and fields back, and uses exactly the bytes of
/// the frame, whatever follows them.
pub proof fn lemma_client_round_trip(message: ClientMessage, timestamp: u64, tail: Seq<u8>)
    requires
        encodable(message.fields()),
    ensures
        parse_frame(frame_bytes(message.frame(timestamp)) + tail, Catalog::Client) == Ok::<
            _,
            DeserializerError,
        >((message.frame(timestamp), frame_bytes(message.frame(timestamp)).len() as int)),
{
    lemma_client_frames_well_formed(message, timestamp);
    lemma_decode_of_encode(message.frame(timestamp), Catalog::Client, tail);
}

/// Round trip: decoding what a server message was encoded to gives the
/// message's tag, timestamp and fields back, and uses exactly the bytes of
/// the frame, whatever follows them.
pub proof fn lemma_server_round_trip(message: ServerMessage, timestamp: u64, tail: Seq<u8>)
    requires
        encodable(message.fields()),
    ensures
        parse_frame(frame_bytes(message.frame(timestamp)) + tail, Catalog::Server) == Ok::<
            _,
            DeserializerError,
        >((message.frame(timestamp), frame_bytes(message.frame(timestamp)).len() as int)),
{
    lemma_server_frames_well_formed(message, timestamp);
    lemma_decode_of_encode(message.frame(timestamp), Catalog::Server, tail);
}

/// Round trip, one kind of message at a time: reading what a message was
/// written to, as a message of its own kind, gives its fields back.
pub proof fn lemma_message_round_trip<M: WireMessage>(message: M, timestamp: u64, tail: Seq<u8>)
    requires
        well_formed(
            FrameView { type_tag: M::type_tag(), timestamp, fields: message.fields() },
            M::catalog(),
        ),
    ensures
        parse_message(
            frame_bytes(
                FrameView { type_tag: M::type_tag(), timestamp, fields: message.fields() },
            ) + tail,
            M::catalog(),
            M::type_tag(),
        ) == Ok::<_, DeserializerError>(message.fields()),
{
    let frame = FrameView { type_tag: M::type_tag(), timestamp, fields: message.fields() };
    lemma_decode_of_encode(frame, M::catalog(), tail);
    lemma_sealed_layout(M::type_tag(), timestamp, fields_block(message.fields()), tail);
}

/// Tag isolation, client to server: the frame of a name change or of an
/// authentication request is refused under the server catalog. (The frame
/// of a chat line is not: on the wire it is a `BroadcastMessage`.)
pub proof fn lemma_server_refuses_client_frames(
    message: ClientMessage,
    timestamp: u64,
    tail: Seq<u8>,
)
    requires
        encodable(message.fields()),
        !(message is ChatMessage),
    ensures
        parse_frame(frame_bytes(message.frame(timestamp)) + tail, Catalog::Server) is Err,
{
    lemma_client_frames_well_formed(message, timestamp);
    lemma_refused_by_other_catalog(
        message.frame(timestamp),
        Catalog::Client,
        Catalog::Server,
        tail,
    );
}

/// Tag isolation, server to client: the frame of a session token is refused
/// under the client catalog. (The frame of a broadcast is not: on the wire
/// it is a `ChatMessage`.)
pub proof fn lemma_client_refuses_server_frames(
    message: ServerMessage,
    timestamp: u64,
    tail: Seq<u8>,
)
    requires
        encodable(message.fields()),
        !(message is BroadcastMessage),
    ensures
        parse_frame(frame_bytes(message.frame(timestamp)) + tail, Catalog::Client) is Err,
{
    lemma_server_frames_well_formed(message, timestamp);
    lemma_refused_by_other_catalog(
        message.frame(timestamp),
        Catalog::Server,
        Catalog::Client,
        tail,
    );
}

/// Tag isolation, tag by tag: a tag that both catalogs assign stands for
/// messages of two different types, and the tag of an authentication
/// request, which only the client catalog assigns, is unknown to the server
/// catalog.
pub proof fn lemma_tag_spaces(tag: u8)
    ensures
        Catalog::Client.spec_field_count(tag) is Some <==> tag <= 2,
        Catalog::Server.spec_field_count(tag) is Some <==> tag <= 1,
        ClientMessageType::of_tag(tag) is InvalidEvent <==> tag > 2,
        ServerMessageType::of_tag(tag) is InvalidEvent <==> tag > 1,
{
}

} // verus!
