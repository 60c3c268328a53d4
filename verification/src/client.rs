//! The client's side of a connection: what it sends, and what it makes of
//! what the server sends.

use crate::error::{DeserializerError, SerializerError};
use crate::frame::{encoded, encoding_view, lemma_parse_frame_shape, FrameView};
use crate::protocols::client::{ChatMessage, RequestAuthentication};
use crate::protocols::server::ServerMessage;
use crate::protocols::Catalog;
use crate::reader::{drain, FrameReader, ReadOutcome};
use crate::types::Serialize;
use vstd::prelude::*;
use vstd::string::StringExecFns;

verus! {

/// `text` without the white space at its two ends, as Unicode defines
/// white space.
pub uninterp spec fn trimmed(text: Seq<char>) -> Seq<char>;

/// `str::trim` of the standard library, which cuts the white space off both
/// ends of a string. What is white space is decided by the Unicode tables it
/// was built with; the result depends on the text alone.
pub assume_specification<'a>[ str::trim ](text: &'a str) -> (cut: &'a str)
    ensures
        cut@ == trimmed(text@),
;

/// What the server said, as far as the client keeps it.
#[derive(Debug)]
pub struct Client {
    session_token: Option<String>,
    connected: bool,
    reader: FrameReader,
}

/// What a `Client` stands for.
pub struct ClientState {
    /// The token of the session, once the server has sent one.
    pub session_token: Option<Seq<char>>,
    /// Whether the stream from the server can still be read.
    pub connected: bool,
    /// The bytes that have arrived and not yet been used.
    pub pending: Seq<u8>,
}

impl View for Client {
    type V = ClientState;

    closed spec fn view(&self) -> ClientState {
        ClientState {
            session_token: match self.session_token {
                Some(token) => Some(token@),
                None => None,
            },
            connected: self.connected,
            pending: self.reader@,
        }
    }
}

/// What reading from the server brought.
#[derive(Debug, PartialEq, Eq)]
pub struct Received {
    /// The messages that were read, in their order.
    pub messages: Vec<ServerMessage>,
    /// Why the stream cannot be read any further, if it cannot.
    pub fatal: Option<DeserializerError>,
}

/// The token a client holds after these frames of the server: the one of
/// the last `AuthenticateToken` among them, or the one it held before.
pub open spec fn token_after(token: Option<Seq<char>>, frames: Seq<FrameView>) -> Option<
    Seq<char>,
>
    decreases frames.len(),
{
    if frames.len() == 0 {
        token
    } else if frames.last().type_tag == 1 {
        Some(frames.last().fields[0])
    } else {
        token_after(token, frames.drop_last())
    }
}

/// The frames that a list of server messages stands for, but for their
/// timestamps.
pub open spec fn carries(messages: Seq<ServerMessage>, frames: Seq<FrameView>) -> bool {
    &&& messages.len() == frames.len()
    &&& forall|i: int|
        0 <= i < messages.len() ==> (#[trigger] messages[i]).type_tag() == frames[i].type_tag
            && messages[i].fields() == frames[i].fields
}

impl Client {
    /// A client that has heard nothing from the server yet.
    pub fn new() -> (client: Self)
        ensures
            client@ == (ClientState {
                session_token: None,
                connected: true,
                pending: Seq::empty(),
            }),
    {
        Client { session_token: None, connected: true, reader: FrameReader::new() }
    }

    /// The token of the session, once the server has sent one.
    pub fn session_token(&self) -> (token: Option<&str>)
        ensures
            match self@.session_token {
                Some(text) => token matches Some(t) && t@ == text,
                None => token is None,
            },
    {
        match &self.session_token {
            Some(token) => Some(token.as_str()),
            None => None,
        }
    }

    /// Whether the stream from the server can still be read.
    pub fn is_connected(&self) -> (connected: bool)
        ensures
            connected == self@.connected,
    {
        self.connected
    }

    /// The frame that asks the server to authenticate this client.
    pub fn request_authentication(hwid: &str, name: &str, now: u64) -> (frame: Result<
        Vec<u8>,
        SerializerError,
    >)
        ensures
            encoding_view(frame) == encoded(2, now, seq![hwid@, name@]),
    {
        let message = RequestAuthentication {
            hwid: String::from_str(hwid),
            name: String::from_str(name),
        };
        message.serialize(now)
    }

    /// The chat message that carries `line`; an empty line gives none.
    pub fn message_for(hwid: &str, line: &str) -> (message: Option<ChatMessage>)
        ensures
            line@.len() == 0 ==> message is None,
            line@.len() > 0 ==> (message matches Some(m) && m.hwid@ == hwid@ && m.content@
                == line@),
    {
        if line.is_empty() {
            return None;
        }
        Some(ChatMessage { hwid: String::from_str(hwid), content: String::from_str(line) })
    }

    /// The chat message for a line that the user typed: the line without
    /// the white space at its ends. A line that holds nothing else gives no
    /// message.
    pub fn compose(hwid: &str, input: &str) -> (message: Option<ChatMessage>)
        ensures
            trimmed(input@).len() == 0 ==> message is None,
            trimmed(input@).len() > 0 ==> (message matches Some(m) && m.hwid@ == hwid@ && m.content@
                == trimmed(input@)),
    {
        Self::message_for(hwid, input.trim())
    }

    /// Takes in what one read from the server brought, and hands out every
    /// message that is complete by now. The token of an `AuthenticateToken`
    /// is kept.
    ///
    /// An empty read is the end of the stream, and bytes that are no frame
    /// leave the stream unreadable: in both cases the client is no longer
    /// connected. A client that is not connected takes nothing in.
    pub fn on_bytes(&mut self, bytes: &[u8]) -> (received: Received)
        ensures
            !old(self)@.connected ==> {
                &&& final(self)@ == old(self)@
                &&& received.messages@.len() == 0
                &&& received.fatal is None
            },
            old(self)@.connected && bytes@.len() == 0 ==> {
                &&& final(self)@ == (ClientState { connected: false, ..old(self)@ })
                &&& received.messages@.len() == 0
                &&& received.fatal is None
            },
            old(self)@.connected && bytes@.len() > 0 ==> ({
                let (frames, rest, fatal) = drain(old(self)@.pending + bytes@, Catalog::Server);
                &&& carries(received.messages@, frames)
                &&& received.fatal == fatal
                &&& final(self)@ == (ClientState {
                    session_token: token_after(old(self)@.session_token, frames),
                    connected: fatal is None,
                    pending: rest,
                })
            }),
    {
        let mut messages: Vec<ServerMessage> = Vec::new();
        if !self.connected {
            return Received { messages, fatal: None };
        }
        if bytes.len() == 0 {
            self.connected = false;
            return Received { messages, fatal: None };
        }
        self.reader.push_bytes(bytes);
        let ghost start = self.reader@;
        let ghost first_token = self@.session_token;
        let ghost mut done: Seq<FrameView> = Seq::empty();
        let mut fatal: Option<DeserializerError> = None;
        proof {
            let (fs, _, _) = drain(start, Catalog::Server);
            assert(done + fs =~= fs);
        }
        loop
            invariant_except_break
                fatal is None,
                ({
                    let (fs, rest, err) = drain(self.reader@, Catalog::Server);
                    drain(start, Catalog::Server) == (done + fs, rest, err)
                }),
            invariant
                self.connected,
                carries(messages@, done),
                self@.session_token == token_after(first_token, done),
            ensures
                drain(start, Catalog::Server) == (done, self.reader@, fatal),
            decreases self.reader@.len(),
        {
            let ghost before = self.reader@;
            match self.reader.next_frame(Catalog::Server) {
                ReadOutcome::Frame(frame) => {
                    proof {
                        lemma_parse_frame_shape(before, Catalog::Server);
                        let (fs, _, _) = drain(self.reader@, Catalog::Server);
                        assert(done + (seq![frame@] + fs) =~= done.push(frame@) + fs);
                    }
                    let ghost view = frame@;
                    match ServerMessage::from_frame(frame) {
                        Some(message) => {
                            match &message {
                                ServerMessage::AuthenticateToken(reply) => {
                                    self.session_token = Some(reply.token.clone());
                                },
                                ServerMessage::BroadcastMessage(_) => {},
                            }
                            proof {
                                assert(done.push(view).drop_last() =~= done);
                            }
                            messages.push(message);
                        },
                        None => {},
                    }
                    proof {
                        done = done.push(view);
                    }
                },
                ReadOutcome::Incomplete => {
                    proof {
                        assert(done + Seq::<FrameView>::empty() =~= done);
                    }
                    break ;
                },
                ReadOutcome::Corrupt(e) => {
                    proof {
                        assert(done + Seq::<FrameView>::empty() =~= done);
                    }
                    fatal = Some(e);
                    break ;
                },
            }
        }
        if fatal.is_some() {
            self.connected = false;
        }
        Received { messages, fatal }
    }
}

} // verus!
