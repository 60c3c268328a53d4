//! What the server does with each kind of client message.

use crate::frame::encoded;
use crate::protocols::client::{ChangeUsername, ChatMessage, ClientMessage};
use crate::protocols::server::{BroadcastMessage, ServerMessage};
use crate::registry::{
    delivery_views, lookup, registered, renamed_entries, unique_hwids, without, Client,
    ClientView, Delivery, DeliveryView, Registry,
};
use crate::utils::{check_username, placeholder, valid_username};
use vstd::prelude::*;

verus! {

/// The name a chat line is handed on under: the display name of the client
/// registered under the sender's hardware id, or the id itself where none
/// is.
pub open spec fn sender_name(entries: Seq<ClientView>, hwid: Seq<char>) -> Seq<char> {
    match lookup(entries, hwid) {
        Some(client) => client.name,
        None => hwid,
    }
}

/// What handing on a chat line delivers: to every registered client but the
/// sender, in the order of registration, one `BroadcastMessage` frame with
/// the sender's name and the line.
pub open spec fn fan_out(
    entries: Seq<ClientView>,
    hwid: Seq<char>,
    content: Seq<char>,
    timestamp: u64,
) -> Seq<DeliveryView> {
    without(entries, hwid).map_values(
        |to: ClientView|
            DeliveryView {
                connection_id: to.connection_id,
                frame: encoded(0, timestamp, seq![sender_name(entries, hwid), content]),
            },
    )
}

/// What the task of a connection has to do after a message was handled.
#[derive(Debug, PartialEq, Eq)]
pub struct Output {
    /// The frames to write, each to its connection, in this order. One that
    /// cannot be written takes nothing from the others.
    pub deliveries: Vec<Delivery>,
    /// The connection of an entry that this message replaced in the
    /// registry. It is to be closed.
    pub superseded: Option<u64>,
    /// Whether the message was left alone: it was of no known kind, came in
    /// a state that does not accept it, or named a client that is not
    /// registered.
    pub discarded: bool,
}

/// What an `Output` stands for.
pub struct OutputView {
    pub deliveries: Seq<DeliveryView>,
    pub superseded: Option<u64>,
    pub discarded: bool,
}

impl View for Output {
    type V = OutputView;

    open spec fn view(&self) -> OutputView {
        OutputView {
            deliveries: delivery_views(self.deliveries@),
            superseded: self.superseded,
            discarded: self.discarded,
        }
    }
}

/// The output of a message that was left alone.
pub open spec fn discarded_output() -> OutputView {
    OutputView { deliveries: Seq::empty(), superseded: None, discarded: true }
}

/// The handlers of the client messages.
pub struct EventHandler;

impl EventHandler {
    /// The hardware id and the name of an authentication request; `None`
    /// for every other message.
    pub fn handle_auth(message: ClientMessage) -> (credentials: Option<(String, String)>)
        ensures
            match message {
                ClientMessage::RequestAuthentication(request) => credentials matches Some(
                    (hwid, name),
                ) && hwid@ == request.hwid@ && name@ == request.name@,
                _ => credentials is None,
            },
    {
        match message {
            ClientMessage::RequestAuthentication(request) => Some((request.hwid, request.name)),
            _ => None,
        }
    }

    /// Hands a chat line on: builds, for every registered client but the
    /// sender, the frame of a `BroadcastMessage` with the sender's name and
    /// the line.
    pub fn handle_send_message(chat_message: ChatMessage, clients: &Registry, timestamp: u64) -> (
        deliveries: Vec<Delivery>
    )
        ensures
            delivery_views(deliveries@) == fan_out(
                clients.entries(),
                chat_message.hwid@,
                chat_message.content@,
                timestamp,
            ),
    {
        let sender = match clients.get(chat_message.hwid.as_str()) {
            Some(client) => client.name.clone(),
            None => chat_message.hwid.clone(),
        };
        let build = |recipient: &Client| -> (message: ServerMessage)
            ensures
                message.type_tag() == 0,
                message.fields() == seq![sender@, chat_message.content@],
            {
                ServerMessage::BroadcastMessage(
                    BroadcastMessage {
                        username: sender.clone(),
                        content: chat_message.content.clone(),
                    },
                )
            };
        let deliveries = clients.broadcast(chat_message.hwid.as_str(), timestamp, build);
        proof {
            let expected = fan_out(
                clients.entries(),
                chat_message.hwid@,
                chat_message.content@,
                timestamp,
            );
            assert(delivery_views(deliveries@).len() == expected.len());
            assert forall|i: int| 0 <= i < expected.len() implies delivery_views(deliveries@)[i]
                == expected[i] by {
                let d = deliveries@[i];
            }
            assert(delivery_views(deliveries@) =~= expected);
        }
        deliveries
    }

    /// Shows the client registered under the message's hardware id under the
    /// name it asks for, or under a placeholder where that name is not
    /// accepted. Says whether there was such a client.
    pub fn handle_change_username(change_username: ChangeUsername, clients: &mut Registry) -> (renamed:
        bool)
        ensures
            renamed == registered(old(clients).entries(), change_username.hwid@),
            unique_hwids(final(clients).entries()),
            valid_username(change_username.new_username@) ==> final(clients).entries()
                == renamed_entries(
                old(clients).entries(),
                change_username.hwid@,
                change_username.new_username@,
            ),
            !valid_username(change_username.new_username@) ==> exists|number: i16|
                final(clients).entries() == renamed_entries(
                    old(clients).entries(),
                    change_username.hwid@,
                    #[trigger] placeholder(number),
                ),
    {
        let shown = check_username(change_username.new_username.as_str());
        clients.rename(change_username.hwid.as_str(), shown)
    }

    /// A message of no known kind, or one that the connection's state does
    /// not accept, is left alone: nothing is delivered and nothing changes.
    pub fn handle_unknown_message() -> (output: Output)
        ensures
            output@ == discarded_output(),
    {
        let output = Output { deliveries: Vec::new(), superseded: None, discarded: true };
        assert(output@.deliveries =~= Seq::<DeliveryView>::empty());
        output
    }
}

} // verus!
