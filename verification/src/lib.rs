//! Wire protocol and connection registry of a small chat service.
//!
//! Clients authenticate with a hardware id and send lines of chat; the
//! server hands each line on to every other client. This library holds the
//! part of that which has rules to keep, and nothing that touches a socket:
//!
//! - [`checksum`], [`wire`] and [`frame`] are the frame codec: the binary
//!   envelope of a message, bit for bit.
//! - [`protocols`] and [`types`] are the message catalogs: the messages of
//!   each direction, their tags and their fields.
//! - [`reader`] turns the bytes of a stream, however the reads cut them,
//!   into frames.
//! - [`registry`] keeps the authenticated clients, one for each hardware id.
//! - [`server`] and [`event_handler`] are the server's side of a connection,
//!   from authentication to the end of the stream, and [`client`] is the
//!   client's side.
//! - [`utils`] decides which display names are accepted.
//!
//! The program around the library reads from the sockets, hands the bytes
//! in, and writes what comes back.

pub mod checksum;
pub mod client;
pub mod error;
pub mod event_handler;
pub mod frame;
pub mod protocols;
pub mod reader;
pub mod registry;
pub mod server;
pub mod types;
pub mod utils;
pub mod wire;
