//! The server's side of one connection: a state machine from
//! `AwaitingAuth` over `Authenticated` to `Closed`.
//!
//! The task that owns the socket reads bytes and hands them to the session.
//! The session says what to write and which connections to close; it reads
//! and writes nothing itself.

use crate::error::DeserializerError;
use crate::event_handler::{discarded_output, fan_out, EventHandler, Output, OutputView};
use crate::frame::{encoded, lemma_parse_frame_shape, FrameView};
use crate::protocols::client::ClientMessage;
use crate::protocols::server::AuthenticateToken;
use crate::protocols::Catalog;
use crate::reader::{drain, FrameReader, ReadOutcome};
use crate::registry::{
    lemma_one_entry_per_hwid, lookup, registered, renamed_entries, unique_hwids, without, Client,
    ClientView, Delivery, DeliveryView, Registry,
};
use crate::types::Serialize;
use crate::utils::{check_username, placeholder, valid_username};
use vstd::prelude::*;

verus! {

/// Where a connection stands.
#[derive(Debug, Clone, Copy, PartialEq, Eq, Structural)]
pub enum SessionState {
    /// Nothing is accepted but an authentication request.
    AwaitingAuth,
    /// The client is registered; chat lines and name changes are accepted.
    Authenticated,
    /// The connection is over.
    Closed,
}

/// Whether `c` is a digit or one of the letters `a` to `f`.
pub open spec fn is_lower_hex(c: char) -> bool {
    let code = c as u32;
    48 <= code <= 57 || 97 <= code <= 102
}

/// Whether `text` has the shape of a UUID as it is usually written: five
/// groups of 8, 4, 4, 4 and 12 lower-case hexadecimal digits with a hyphen
/// between them, 36 characters in all.
pub open spec fn uuid_shaped(text: Seq<char>) -> bool {
    &&& text.len() == 36
    &&& forall|i: int|
        0 <= i < 36 ==> if i == 8 || i == 13 || i == 18 || i == 23 {
            text[i] == '-'
        } else {
            is_lower_hex(#[trigger] text[i])
        }
}

/// `uuid::Uuid::new_v4`, written out with `to_string`: a fresh random UUID
/// in its hyphenated lower-case form. Only the shape of the text is claimed,
/// nothing of which UUID it is. The random bytes come from the operating
/// system, and the call does not return if that fails.
#[verifier::external_body]
fn mint_session_token() -> (token: String)
    ensures
        uuid_shaped(token@),
{
    uuid::Uuid::new_v4().to_string()
}

/// Whether `shown` is a display name for a client that asked to be called
/// `asked`: the name itself where it is accepted, else some placeholder.
pub open spec fn resolves_to(asked: Seq<char>, shown: Seq<char>) -> bool {
    if valid_username(asked) {
        shown == asked
    } else {
        exists|number: i16| shown == #[trigger] placeholder(number)
    }
}

/// The state of one connection.
#[derive(Debug)]
pub struct Session {
    connection_id: u64,
    state: SessionState,
    hwid: String,
    reader: FrameReader,
}

/// What a `Session` stands for.
pub struct SessionView {
    pub connection_id: u64,
    pub state: SessionState,
    /// The hardware id the connection authenticated with; empty before.
    pub hwid: Seq<char>,
}

impl View for Session {
    type V = SessionView;

    closed spec fn view(&self) -> SessionView {
        SessionView { connection_id: self.connection_id, state: self.state, hwid: self.hwid@ }
    }
}

/// What was handled of a stream: the frames it held, what each of them led
/// to, and the states of session and registry before, between and after
/// them.
pub open spec fn handled(
    trace: Seq<(SessionView, Seq<ClientView>)>,
    frames: Seq<FrameView>,
    outputs: Seq<OutputView>,
    now: u64,
) -> bool {
    &&& trace.len() == frames.len() + 1
    &&& outputs.len() == frames.len()
    &&& forall|i: int|
        0 <= i < frames.len() ==> reacts(
            trace[i].0,
            trace[i].1,
            frames[i].type_tag,
            frames[i].fields,
            now,
            trace[i + 1].0,
            trace[i + 1].1,
            #[trigger] outputs[i],
        )
}

/// The views of a list of outputs.
pub open spec fn output_views(outputs: Seq<Output>) -> Seq<OutputView> {
    Seq::new(outputs.len(), |i: int| outputs[i]@)
}

/// What reading from a connection led to.
#[derive(Debug, PartialEq, Eq)]
pub struct Progress {
    /// What each of the messages that were read led to, in their order.
    pub outputs: Vec<Output>,
    /// Why the stream cannot be read any further, if it cannot. The session
    /// is closed then, and the connection is to be dropped.
    pub fatal: Option<DeserializerError>,
}

/// What taking a client in does: the connection is authenticated under the
/// hardware id, the client is registered under it in place of any client
/// that was, the token is sent back on the connection, and the connection of
/// a client that was replaced is to be closed.
pub open spec fn welcomed(
    session: SessionView,
    entries: Seq<ClientView>,
    hwid: Seq<char>,
    shown: Seq<char>,
    token: Seq<char>,
    now: u64,
) -> (SessionView, Seq<ClientView>, OutputView) {
    let client = ClientView {
        connection_id: session.connection_id,
        name: shown,
        hwid,
        session_token: token,
    };
    let reply = DeliveryView {
        connection_id: session.connection_id,
        frame: encoded(1, now, seq![token]),
    };
    let superseded = match lookup(entries, hwid) {
        Some(prior) => if prior.connection_id != session.connection_id {
            Some(prior.connection_id)
        } else {
            None
        },
        None => None,
    };
    (
        SessionView { state: SessionState::Authenticated, hwid, ..session },
        without(entries, hwid).push(client),
        OutputView { deliveries: seq![reply], superseded, discarded: false },
    )
}

/// What closing a connection leaves of the registry: the entry of the
/// connection is taken out, unless the connection was not authenticated or
/// another connection has taken its entry over.
pub open spec fn entries_after_close(session: SessionView, entries: Seq<ClientView>) -> Seq<
    ClientView,
> {
    if session.state is Authenticated && (lookup(entries, session.hwid) matches Some(client)
        && client.connection_id == session.connection_id) {
        without(entries, session.hwid)
    } else {
        entries
    }
}

/// Whether handling a message with this tag and these fields can lead from
/// the one state of session and registry to the other, with this output.
///
/// While the connection awaits authentication, an authentication request
/// takes the client in under a resolved display name and a freshly minted
/// token. Once it is authenticated, a chat line is handed on and a name
/// change renames the client. Every other message is left alone.
pub open spec fn reacts(
    before: SessionView,
    entries: Seq<ClientView>,
    tag: u8,
    fields: Seq<Seq<char>>,
    now: u64,
    after: SessionView,
    entries_after: Seq<ClientView>,
    output: OutputView,
) -> bool {
    if before.state is AwaitingAuth && tag == 2 {
        exists|shown: Seq<char>, token: Seq<char>|
            {
                &&& resolves_to(fields[1], shown)
                &&& uuid_shaped(token)
                &&& (after, entries_after, output) == #[trigger] welcomed(
                    before,
                    entries,
                    fields[0],
                    shown,
                    token,
                    now,
                )
            }
    } else if before.state is Authenticated && tag == 0 {
        &&& after == before
        &&& entries_after == entries
        &&& output == OutputView {
            deliveries: fan_out(entries, fields[0], fields[1], now),
            superseded: None,
            discarded: false,
        }
    } else if before.state is Authenticated && tag == 1 {
        &&& after == before
        &&& exists|shown: Seq<char>|
            resolves_to(fields[1], shown) && entries_after == #[trigger] renamed_entries(
                entries,
                fields[0],
                shown,
            )
        &&& output == OutputView {
            deliveries: Seq::empty(),
            superseded: None,
            discarded: !registered(entries, fields[0]),
        }
    } else {
        &&& after == before
        &&& entries_after == entries
        &&& output == discarded_output()
    }
}

/// How far a connection has come: it awaits authentication, then is
/// authenticated, then closed.
pub open spec fn progress_of(state: SessionState) -> int {
    match state {
        SessionState::AwaitingAuth => 0,
        SessionState::Authenticated => 1,
        SessionState::Closed => 2,
    }
}

/// A message never takes a connection back: it leaves the state as it is,
/// or authenticates a connection that awaited authentication. Nothing moves
/// a closed connection, and a message never changes which connection the
/// session belongs to.
pub proof fn lemma_messages_only_move_forward(
    before: SessionView,
    entries: Seq<ClientView>,
    tag: u8,
    fields: Seq<Seq<char>>,
    now: u64,
    after: SessionView,
    entries_after: Seq<ClientView>,
    output: OutputView,
)
    requires
        reacts(before, entries, tag, fields, now, after, entries_after, output),
    ensures
        progress_of(before.state) <= progress_of(after.state),
        after.connection_id == before.connection_id,
        after.state != before.state ==> before.state is AwaitingAuth && after.state
            is Authenticated && tag == 2,
        before.state is Closed ==> after == before && entries_after == entries && output
            == discarded_output(),
{
}

/// Re-authentication and renaming keep the registry a mapping: whatever
/// message is handled, no two entries have the same hardware id afterwards.
pub proof fn lemma_messages_keep_hwids_unique(
    before: SessionView,
    entries: Seq<ClientView>,
    tag: u8,
    fields: Seq<Seq<char>>,
    now: u64,
    after: SessionView,
    entries_after: Seq<ClientView>,
    output: OutputView,
)
    requires
        unique_hwids(entries),
        reacts(before, entries, tag, fields, now, after, entries_after, output),
    ensures
        unique_hwids(entries_after),
{
    if before.state is AwaitingAuth && tag == 2 {
        let (shown, token) = choose|shown: Seq<char>, token: Seq<char>|
            {
                &&& resolves_to(fields[1], shown)
                &&& uuid_shaped(token)
                &&& (after, entries_after, output) == #[trigger] welcomed(
                    before,
                    entries,
                    fields[0],
                    shown,
                    token,
                    now,
                )
            };
        lemma_one_entry_per_hwid(
            entries,
            ClientView {
                connection_id: before.connection_id,
                name: shown,
                hwid: fields[0],
                session_token: token,
            },
        );
    } else if before.state is Authenticated && tag == 1 {
        let shown = choose|shown: Seq<char>|
            resolves_to(fields[1], shown) && entries_after == #[trigger] renamed_entries(
                entries,
                fields[0],
                shown,
            );
        assert forall|i: int, j: int| 0 <= i < j < entries_after.len() implies (
        #[trigger] entries_after[i]).hwid != (#[trigger] entries_after[j]).hwid by {
            assert(entries_after[i].hwid == entries[i].hwid);
            assert(entries_after[j].hwid == entries[j].hwid);
        }
    }
}

impl Session {
    /// The session of a connection that has just been accepted.
    pub fn new(connection_id: u64) -> (session: Self)
        ensures
            session@ == (SessionView {
                connection_id,
                state: SessionState::AwaitingAuth,
                hwid: Seq::empty(),
            }),
            session.pending() == Seq::<u8>::empty(),
    {
        Session {
            connection_id,
            state: SessionState::AwaitingAuth,
            hwid: String::new(),
            reader: FrameReader::new(),
        }
    }

    /// The bytes that have arrived and not yet been used.
    pub closed spec fn pending(&self) -> Seq<u8> {
        self.reader@
    }

    /// Where the connection stands.
    pub fn state(&self) -> (state: SessionState)
        ensures
            state == self@.state,
    {
        self.state
    }

    /// The connection this session belongs to.
    pub fn connection_id(&self) -> (id: u64)
        ensures
            id == self@.connection_id,
    {
        self.connection_id
    }

    /// The hardware id the connection authenticated with; empty before.
    pub fn hwid(&self) -> (hwid: &str)
        ensures
            hwid@ == self@.hwid,
    {
        self.hwid.as_str()
    }

    /// Takes in the client of an authentication request under the display
    /// name `shown` and with the session token `token`.
    pub fn welcome(
        &mut self,
        hwid: String,
        shown: String,
        token: String,
        registry: &mut Registry,
        now: u64,
    ) -> (output: Output)
        ensures
            (final(self)@, final(registry).entries(), output@) == welcomed(
                old(self)@,
                old(registry).entries(),
                hwid@,
                shown@,
                token@,
                now,
            ),
            unique_hwids(final(registry).entries()),
            final(self).pending() == old(self).pending(),
    {
        let reply = AuthenticateToken { token: token.clone() };
        let frame = reply.serialize(now);
        let client = Client {
            connection_id: self.connection_id,
            name: shown,
            hwid: hwid.clone(),
            session_token: token,
        };
        let superseded = match registry.insert(client) {
            Some(prior) => if prior.connection_id != self.connection_id {
                Some(prior.connection_id)
            } else {
                None
            },
            None => None,
        };
        self.state = SessionState::Authenticated;
        self.hwid = hwid;
        let mut deliveries: Vec<Delivery> = Vec::new();
        deliveries.push(Delivery { connection_id: self.connection_id, frame });
        let output = Output { deliveries, superseded, discarded: false };
        proof {
            let expected = welcomed(
                old(self)@,
                old(registry).entries(),
                hwid@,
                shown@,
                token@,
                now,
            );
            assert(output@.deliveries =~= expected.2.deliveries);
        }
        output
    }

    /// Handles one message of the client.
    pub fn on_message(&mut self, message: ClientMessage, registry: &mut Registry, now: u64) -> (output:
        Output)
        ensures
            reacts(
                old(self)@,
                old(registry).entries(),
                message.type_tag(),
                message.fields(),
                now,
                final(self)@,
                final(registry).entries(),
                output@,
            ),
            unique_hwids(final(registry).entries()),
            final(self).pending() == old(self).pending(),
    {
        let ghost before = self@;
        let ghost entries = registry.entries();
        let ghost tag = message.type_tag();
        let ghost fields = message.fields();
        registry.recall_unique();
        match self.state {
            SessionState::AwaitingAuth => match EventHandler::handle_auth(message) {
                Some((hwid, name)) => {
                    let shown = check_username(name.as_str());
                    let token = mint_session_token();
                    let ghost (shown_text, token_text) = (shown@, token@);
                    let output = self.welcome(hwid, shown, token, registry, now);
                    proof {
                        assert(resolves_to(fields[1], shown_text));
                        assert((self@, registry.entries(), output@) == welcomed(
                            before,
                            entries,
                            fields[0],
                            shown_text,
                            token_text,
                            now,
                        ));
                    }
                    output
                },
                None => EventHandler::handle_unknown_message(),
            },
            SessionState::Authenticated => match message {
                ClientMessage::ChatMessage(chat_message) => {
                    let deliveries = EventHandler::handle_send_message(
                        chat_message,
                        registry,
                        now,
                    );
                    Output { deliveries, superseded: None, discarded: false }
                },
                ClientMessage::ChangeUsername(change_username) => {
                    let renamed = EventHandler::handle_change_username(change_username, registry);
                    let output = Output {
                        deliveries: Vec::new(),
                        superseded: None,
                        discarded: !renamed,
                    };
                    proof {
                        assert(output@.deliveries =~= Seq::<DeliveryView>::empty());
                        if valid_username(fields[1]) {
                            assert(resolves_to(fields[1], fields[1]));
                            assert(registry.entries() == renamed_entries(
                                entries,
                                fields[0],
                                fields[1],
                            ));
                        } else {
                            let number = choose|number: i16|
                                registry.entries() == renamed_entries(
                                    entries,
                                    fields[0],
                                    #[trigger] placeholder(number),
                                );
                            assert(resolves_to(fields[1], placeholder(number)));
                            assert(registry.entries() == renamed_entries(
                                entries,
                                fields[0],
                                placeholder(number),
                            ));
                        }
                    }
                    output
                },
                ClientMessage::RequestAuthentication(_) => EventHandler::handle_unknown_message(),
            },
            SessionState::Closed => EventHandler::handle_unknown_message(),
        }
    }

    /// Ends the session. The entry of the connection is taken out of the
    /// registry, unless another connection has taken it over.
    pub fn close(&mut self, registry: &mut Registry)
        ensures
            final(self)@ == (SessionView { state: SessionState::Closed, ..old(self)@ }),
            final(self).pending() == old(self).pending(),
            final(registry).entries() == entries_after_close(
                old(self)@,
                old(registry).entries(),
            ),
            unique_hwids(final(registry).entries()),
    {
        registry.recall_unique();
        if self.state == SessionState::Authenticated {
            let own = match registry.get(self.hwid.as_str()) {
                Some(client) => client.connection_id == self.connection_id,
                None => false,
            };
            if own {
                registry.remove(self.hwid.as_str());
            }
        }
        self.state = SessionState::Closed;
    }

    /// Takes in what one read from the connection brought, and handles
    /// every message that is complete by now.
    ///
    /// An empty read is the end of the stream, and bytes that are no frame
    /// leave the stream unreadable: in both cases the session closes. A
    /// closed session takes nothing in.
    pub fn on_bytes(&mut self, bytes: &[u8], registry: &mut Registry, now: u64) -> (progress:
        Progress)
        ensures
            final(self)@.connection_id == old(self)@.connection_id,
            unique_hwids(final(registry).entries()),
            old(self)@.state is Closed ==> {
                &&& final(self)@ == old(self)@
                &&& final(self).pending() == old(self).pending()
                &&& final(registry).entries() == old(registry).entries()
                &&& progress.outputs@.len() == 0
                &&& progress.fatal is None
            },
            !(old(self)@.state is Closed) && bytes@.len() == 0 ==> {
                &&& final(self)@ == (SessionView { state: SessionState::Closed, ..old(self)@ })
                &&& final(self).pending() == old(self).pending()
                &&& final(registry).entries() == entries_after_close(
                    old(self)@,
                    old(registry).entries(),
                )
                &&& progress.outputs@.len() == 0
                &&& progress.fatal is None
            },
            !(old(self)@.state is Closed) && bytes@.len() > 0 ==> ({
                let (frames, rest, fatal) = drain(old(self).pending() + bytes@, Catalog::Client);
                &&& final(self).pending() == rest
                &&& progress.fatal == fatal
                &&& exists|trace: Seq<(SessionView, Seq<ClientView>)>|
                    {
                        &&& #[trigger] handled(
                            trace,
                            frames,
                            output_views(progress.outputs@),
                            now,
                        )
                        &&& trace[0] == (old(self)@, old(registry).entries())
                        &&& (final(self)@, final(registry).entries()) == if fatal is Some {
                            (
                                SessionView { state: SessionState::Closed, ..trace.last().0 },
                                entries_after_close(trace.last().0, trace.last().1),
                            )
                        } else {
                            trace.last()
                        }
                    }
            }),
    {
        registry.recall_unique();
        let mut outputs: Vec<Output> = Vec::new();
        if self.state == SessionState::Closed {
            return Progress { outputs, fatal: None };
        }
        if bytes.len() == 0 {
            self.close(registry);
            return Progress { outputs, fatal: None };
        }
        self.reader.push_bytes(bytes);
        let ghost start = self.reader@;
        let ghost mut trace: Seq<(SessionView, Seq<ClientView>)> = seq![
            (self@, registry.entries()),
        ];
        let ghost mut done: Seq<FrameView> = Seq::empty();
        let mut fatal: Option<DeserializerError> = None;
        proof {
            let (fs, _, _) = drain(start, Catalog::Client);
            assert(done + fs =~= fs);
        }
        loop
            invariant_except_break
                fatal is None,
                ({
                    let (fs, rest, err) = drain(self.reader@, Catalog::Client);
                    drain(start, Catalog::Client) == (done + fs, rest, err)
                }),
            invariant
                self@.connection_id == old(self)@.connection_id,
                unique_hwids(registry.entries()),
                handled(trace, done, output_views(outputs@), now),
                trace[0] == (old(self)@, old(registry).entries()),
                trace.last() == (self@, registry.entries()),
            ensures
                drain(start, Catalog::Client) == (done, self.reader@, fatal),
            decreases self.reader@.len(),
        {
            let ghost before = self.reader@;
            match self.reader.next_frame(Catalog::Client) {
                ReadOutcome::Frame(frame) => {
                    proof {
                        lemma_parse_frame_shape(before, Catalog::Client);
                        let (fs, _, _) = drain(self.reader@, Catalog::Client);
                        assert(done + (seq![frame@] + fs) =~= done.push(frame@) + fs);
                    }
                    let ghost view = frame@;
                    let ghost state = (self@, registry.entries());
                    let output = match ClientMessage::from_frame(frame) {
                        Some(message) => self.on_message(message, registry, now),
                        None => EventHandler::handle_unknown_message(),
                    };
                    proof {
                        let ghost old_trace = trace;
                        let ghost old_done = done;
                        let ghost old_outputs = output_views(outputs@);
                        trace = trace.push((self@, registry.entries()));
                        done = done.push(view);
                        let new_outputs = output_views(outputs@.push(output));
                        assert(new_outputs =~= old_outputs.push(output@));
                        assert forall|i: int| 0 <= i < done.len() implies reacts(
                            trace[i].0,
                            trace[i].1,
                            done[i].type_tag,
                            done[i].fields,
                            now,
                            trace[i + 1].0,
                            trace[i + 1].1,
                            #[trigger] new_outputs[i],
                        ) by {
                            if i < old_done.len() {
                                assert(trace[i] == old_trace[i]);
                                assert(trace[i + 1] == old_trace[i + 1]);
                                assert(done[i] == old_done[i]);
                                assert(new_outputs[i] == old_outputs[i]);
                            } else {
                                assert(trace[i] == state);
                            }
                        }
                    }
                    outputs.push(output);
                },
                ReadOutcome::Incomplete => {
                    proof {
                        assert(done + Seq::<FrameView>::empty() =~= done);
                    }
                    break ;
                },
                ReadOutcome::Corrupt(e) => {
                    proof {
                        assert(done + Seq::<FrameView>::empty() =~= done);
                    }
                    fatal = Some(e);
                    break ;
                },
            }
        }
        let ghost last = trace.last();
        if fatal.is_some() {
            self.close(registry);
        }
        let progress = Progress { outputs, fatal };
        proof {
            let (frames, rest, err) = drain(old(self).pending() + bytes@, Catalog::Client);
            assert(frames == done);
            assert(handled(trace, frames, output_views(progress.outputs@), now));
            assert(trace.last() == last);
        }
        progress
    }
}

} // verus!
