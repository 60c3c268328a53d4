//! What every message of the catalogs can do: say which frame it is, turn
//! itself into that frame's bytes, and be read back from them.

use crate::error::{DeserializerError, SerializerError};
use crate::frame::{encoded, encoding_view, parse_message};
use crate::protocols::Catalog;
use vstd::prelude::*;

verus! {

/// A message's place in its catalog and its wire content.
pub trait WireMessage {
    /// The direction the message travels in.
    spec fn catalog() -> Catalog;

    /// The tag that its frames carry.
    spec fn type_tag() -> u8;

    /// Its string fields, in the order they stand in the field block.
    spec fn fields(&self) -> Seq<Seq<char>>;
}

/// Messages that can be written as a frame.
pub trait Serialize: WireMessage {
    /// The bytes of the frame that carries this message with the given
    /// timestamp (seconds since the epoch). This fails only where a field,
    /// or the field block, is too long for its `u32` length.
    fn serialize(&self, timestamp: u64) -> (r: Result<Vec<u8>, SerializerError>)
        ensures
            encoding_view(r) == encoded(Self::type_tag(), timestamp, self.fields()),
    ;
}

/// Messages that can be read from a frame.
pub trait Deserialize: WireMessage + Sized {
    /// Reads the message from the frame at the front of `data`. The frame
    /// must carry this message's tag; bytes behind the frame are ignored.
    fn deserialize(data: &[u8]) -> (r: Result<Self, DeserializerError>)
        ensures
            match parse_message(data@, Self::catalog(), Self::type_tag()) {
                Ok(fields) => r matches Ok(message) && message.fields() == fields,
                Err(e) => r == Err::<Self, _>(e),
            },
    ;
}

} // verus!
