//! The frame codec: the binary envelope that carries one message.
//!
//! A frame is laid out as
//!
//! ```text
//! byte 0        1..9               9..13           13..17              17..
//! type_tag: u8 | timestamp: u64 LE | crc32: u32 LE | block_len: u32 LE | field block
//! ```
//!
//! and the field block holds the message's strings in catalog order, each as
//! a `u32` LE length followed by that many bytes of UTF-8. The checksum is
//! the CRC-32 of the field block. How many strings a block holds is not
//! written down in the frame: the catalog knows it from the tag.

use crate::checksum::{
    checksum, crc32, flip_bit, lemma_crc32_detects_byte_change, lemma_flip_bit_changes,
};
use crate::error::{DeserializerError, SerializerError};
use crate::protocols::Catalog;
use crate::wire::{
    field_bytes, field_fits, lemma_read_field_of_field_bytes, lemma_u32_le_roundtrip,
    lemma_u64_le_roundtrip, prepare_inner_cursor, read_field, read_string_from_buffer, read_u32,
    read_u64, u32_le, u32_of_le, u64_le, u64_of_le, write_bytes, write_string, write_u32,
    write_u64,
};
use vstd::prelude::*;

verus! {

/// The number of bytes in front of the field block.
pub const HEADER_LEN: usize = 17;

/// One message in its wire shape: a tag, a timestamp in seconds since the
/// epoch, and the message's strings in catalog order.
#[derive(Debug, Clone, PartialEq, Eq)]
pub struct Frame {
    pub type_tag: u8,
    pub timestamp: u64,
    pub fields: Vec<String>,
}

/// What a `Frame` stands for.
pub struct FrameView {
    pub type_tag: u8,
    pub timestamp: u64,
    pub fields: Seq<Seq<char>>,
}

/// The texts that a list of strings holds.
pub open spec fn texts(fields: Seq<String>) -> Seq<Seq<char>> {
    Seq::new(fields.len(), |i: int| fields[i]@)
}

impl View for Frame {
    type V = FrameView;

    open spec fn view(&self) -> FrameView {
        FrameView {
            type_tag: self.type_tag,
            timestamp: self.timestamp,
            fields: texts(self.fields@),
        }
    }
}

/// The field block of a message: its fields one after the other.
pub open spec fn fields_block(fields: Seq<Seq<char>>) -> Seq<u8>
    decreases fields.len(),
{
    if fields.len() == 0 {
        Seq::empty()
    } else {
        field_bytes(fields[0]) + fields_block(fields.drop_first())
    }
}

/// Whether a message with these fields can be framed: every field, and the
/// block of all of them, must be countable by a `u32`.
pub open spec fn encodable(fields: Seq<Seq<char>>) -> bool {
    &&& forall|i: int| 0 <= i < fields.len() ==> field_fits(#[trigger] fields[i])
    &&& fields_block(fields).len() <= u32::MAX
}

/// The header and the field block put together.
pub open spec fn sealed(type_tag: u8, timestamp: u64, block: Seq<u8>) -> Seq<u8> {
    seq![type_tag] + u64_le(timestamp) + u32_le(crc32(block)) + u32_le(block.len() as u32)
        + block
}

/// What encoding a message with this tag, timestamp and fields gives: its
/// frame, or an overflow where a length does not fit.
pub open spec fn encoded(type_tag: u8, timestamp: u64, fields: Seq<Seq<char>>) -> Result<
    Seq<u8>,
    SerializerError,
> {
    if encodable(fields) {
        Ok(sealed(type_tag, timestamp, fields_block(fields)))
    } else {
        Err(SerializerError::EncodeOverflow)
    }
}

/// What the result of an encoding stands for.
pub open spec fn encoding_view(r: Result<Vec<u8>, SerializerError>) -> Result<
    Seq<u8>,
    SerializerError,
> {
    match r {
        Ok(bytes) => Ok(bytes@),
        Err(e) => Err(e),
    }
}

/// The bytes of a frame.
pub open spec fn frame_bytes(frame: FrameView) -> Seq<u8> {
    sealed(frame.type_tag, frame.timestamp, fields_block(frame.fields))
}

/// What reading `count` fields from a field block gives. The fields must
/// fill the block exactly.
pub open spec fn parse_fields(block: Seq<u8>, count: nat) -> Result<
    Seq<Seq<char>>,
    DeserializerError,
>
    decreases count,
{
    if count == 0 {
        if block.len() == 0 {
            Ok(Seq::empty())
        } else {
            Err(DeserializerError::TrailingBytes)
        }
    } else {
        match read_field(block) {
            Err(e) => Err(e),
            Ok((text, n)) => match parse_fields(block.skip(n), (count - 1) as nat) {
                Err(e) => Err(e),
                Ok(rest) => Ok(seq![text] + rest),
            },
        }
    }
}

/// What decoding the front of `data` under `catalog` gives: the frame and
/// the number of bytes it occupies, or the first reason it cannot be read.
pub open spec fn parse_frame(data: Seq<u8>, catalog: Catalog) -> Result<
    (FrameView, int),
    DeserializerError,
> {
    if data.len() == 0 {
        Err(DeserializerError::TruncatedFrame)
    } else {
        match catalog.spec_field_count(data[0]) {
            None => Err(DeserializerError::UnknownType),
            Some(count) => {
                if data.len() < 17 {
                    Err(DeserializerError::TruncatedFrame)
                } else {
                    let n = u32_of_le(data.subrange(13, 17)) as int;
                    if data.len() < 17 + n {
                        Err(DeserializerError::TruncatedFrame)
                    } else {
                        let block = data.subrange(17, 17 + n);
                        if crc32(block) != u32_of_le(data.subrange(9, 13)) {
                            Err(DeserializerError::ChecksumMismatch)
                        } else {
                            match parse_fields(block, count as nat) {
                                Err(e) => Err(e),
                                Ok(fields) => Ok(
                                    (
                                        FrameView {
                                            type_tag: data[0],
                                            timestamp: u64_of_le(data.subrange(1, 9)),
                                            fields,
                                        },
                                        17 + n,
                                    ),
                                ),
                            }
                        }
                    }
                }
            },
        }
    }
}

/// The block of a list of fields is the block of its first `i` fields
/// followed by the block of the others.
pub proof fn lemma_fields_block_split(fields: Seq<Seq<char>>, i: int)
    requires
        0 <= i <= fields.len(),
    ensures
        fields_block(fields) == fields_block(fields.take(i)) + fields_block(fields.skip(i)),
    decreases i,
{
    if i == 0 {
        assert(fields.skip(0) =~= fields);
        assert(fields_block(fields.take(0)) =~= Seq::<u8>::empty());
        assert(fields_block(fields) =~= fields_block(fields.take(0)) + fields_block(
            fields.skip(0),
        ));
    } else {
        let rest = fields.drop_first();
        lemma_fields_block_split(rest, i - 1);
        assert(fields.take(i).drop_first() =~= rest.take(i - 1));
        assert(fields.skip(i) =~= rest.skip(i - 1));
        assert(fields.take(i)[0] == fields[0]);
        assert(fields_block(fields) =~= fields_block(fields.take(i)) + fields_block(
            fields.skip(i),
        ));
    }
}

/// Fields that were written are read back, and fill their block.
pub proof fn lemma_parse_fields_of_block(fields: Seq<Seq<char>>)
    requires
        forall|i: int| 0 <= i < fields.len() ==> field_fits(#[trigger] fields[i]),
    ensures
        parse_fields(fields_block(fields), fields.len()) == Ok::<_, DeserializerError>(fields),
    decreases fields.len(),
{
    if fields.len() > 0 {
        let rest = fields.drop_first();
        assert forall|i: int| 0 <= i < rest.len() implies field_fits(#[trigger] rest[i]) by {
            assert(rest[i] == fields[i + 1]);
        }
        lemma_parse_fields_of_block(rest);
        lemma_read_field_of_field_bytes(fields[0], fields_block(rest));
        let n = field_bytes(fields[0]).len() as int;
        assert(fields_block(fields).skip(n) =~= fields_block(rest));
        assert(seq![fields[0]] + rest =~= fields);
    } else {
        assert(fields =~= Seq::<Seq<char>>::empty());
    }
}

/// Reading a field block is decided by the block alone: a longer or shorter
/// list of fields than the block was written with is refused.
pub proof fn lemma_parse_fields_count(fields: Seq<Seq<char>>, count: nat)
    requires
        forall|i: int| 0 <= i < fields.len() ==> field_fits(#[trigger] fields[i]),
        count != fields.len(),
    ensures
        parse_fields(fields_block(fields), count) is Err,
    decreases count,
{
    if count == 0 {
        lemma_read_field_of_field_bytes(fields[0], fields_block(fields.drop_first()));
    } else if fields.len() == 0 {
    } else {
        let rest = fields.drop_first();
        assert forall|i: int| 0 <= i < rest.len() implies field_fits(#[trigger] rest[i]) by {
            assert(rest[i] == fields[i + 1]);
        }
        lemma_read_field_of_field_bytes(fields[0], fields_block(rest));
        let n = field_bytes(fields[0]).len() as int;
        assert(fields_block(fields).skip(n) =~= fields_block(rest));
        lemma_parse_fields_count(rest, (count - 1) as nat);
    }
}

/// The parts of a sealed frame, where they lie.
pub proof fn lemma_sealed_layout(type_tag: u8, timestamp: u64, block: Seq<u8>, tail: Seq<u8>)
    requires
        block.len() <= u32::MAX,
    ensures
        ({
            let data = sealed(type_tag, timestamp, block) + tail;
            &&& data.len() == 17 + block.len() + tail.len()
            &&& data[0] == type_tag
            &&& u64_of_le(data.subrange(1, 9)) == timestamp
            &&& u32_of_le(data.subrange(9, 13)) == crc32(block)
            &&& u32_of_le(data.subrange(13, 17)) == block.len()
            &&& data.subrange(17, 17 + block.len() as int) == block
        }),
{
    let data = sealed(type_tag, timestamp, block) + tail;
    lemma_u64_le_roundtrip(timestamp);
    lemma_u32_le_roundtrip(crc32(block));
    lemma_u32_le_roundtrip(block.len() as u32);
    assert(data.subrange(1, 9) =~= u64_le(timestamp));
    assert(data.subrange(9, 13) =~= u32_le(crc32(block)));
    assert(data.subrange(13, 17) =~= u32_le(block.len() as u32));
    assert(data.subrange(17, 17 + block.len() as int) =~= block);
}

/// Puts the header in front of a finished field block.
pub fn seal(type_tag: u8, timestamp: u64, block: Vec<u8>) -> (r: Result<Vec<u8>, SerializerError>)
    ensures
        encoding_view(r) == if block@.len() <= u32::MAX {
            Ok::<_, SerializerError>(sealed(type_tag, timestamp, block@))
        } else {
            Err(SerializerError::EncodeOverflow)
        },
{
    if block.len() > u32::MAX as usize {
        return Err(SerializerError::EncodeOverflow);
    }
    let mut bytes: Vec<u8> = Vec::new();
    bytes.push(type_tag);
    write_u64(&mut bytes, timestamp);
    write_u32(&mut bytes, checksum(block.as_slice()));
    write_u32(&mut bytes, block.len() as u32);
    write_bytes(&mut bytes, block.as_slice());
    assert(bytes@ =~= sealed(type_tag, timestamp, block@));
    Ok(bytes)
}

/// Reads `count` fields that must fill `block` exactly.
pub fn read_fields(block: &[u8], count: usize) -> (r: Result<Vec<String>, DeserializerError>)
    ensures
        match parse_fields(block@, count as nat) {
            Ok(fields) => r matches Ok(v) && texts(v@) == fields,
            Err(e) => r == Err::<Vec<String>, _>(e),
        },
{
    let mut fields: Vec<String> = Vec::new();
    let mut at: usize = 0;
    let mut i: usize = 0;
    proof {
        assert(block@.skip(0) =~= block@);
        let all = parse_fields(block@, count as nat);
        if all is Ok {
            assert(texts(fields@) + all->Ok_0 =~= all->Ok_0);
        }
    }
    while i < count
        invariant
            i <= count,
            at <= block.len(),
            match parse_fields(block@.skip(at as int), (count - i) as nat) {
                Ok(rest) => parse_fields(block@, count as nat) == Ok::<_, DeserializerError>(
                    texts(fields@) + rest,
                ),
                Err(e) => parse_fields(block@, count as nat) == Err::<Seq<Seq<char>>, _>(e),
            },
        decreases count - i,
    {
        let ghost before = block@.skip(at as int);
        match read_string_from_buffer(block, at) {
            Err(e) => {
                return Err(e);
            },
            Ok((text, next)) => {
                proof {
                    let n = next - at;
                    assert(before.skip(n) =~= block@.skip(next as int));
                    let rest = parse_fields(block@.skip(next as int), (count - i - 1) as nat);
                    if rest is Ok {
                        assert(texts(fields@.push(text)) =~= texts(fields@) + seq![text@]);
                        assert(texts(fields@) + (seq![text@] + rest->Ok_0) =~= texts(
                            fields@.push(text),
                        ) + rest->Ok_0);
                    }
                }
                fields.push(text);
                at = next;
                i += 1;
            },
        }
    }
    proof {
        assert(texts(fields@) + Seq::<Seq<char>>::empty() =~= texts(fields@));
    }
    if at != block.len() {
        return Err(DeserializerError::TrailingBytes);
    }
    Ok(fields)
}

impl Frame {
    /// Encodes the frame. This fails only where a field, or the field block,
    /// is too long for its `u32` length.
    pub fn encode(&self) -> (r: Result<Vec<u8>, SerializerError>)
        ensures
            encoding_view(r) == encoded(self.type_tag, self.timestamp, self@.fields),
    {
        let ghost all = self@.fields;
        let mut block: Vec<u8> = Vec::new();
        let mut i: usize = 0;
        while i < self.fields.len()
            invariant
                i <= self.fields.len(),
                all == texts(self.fields@),
                block@ == fields_block(all.take(i as int)),
                forall|j: int| 0 <= j < i ==> field_fits(#[trigger] all[j]),
            decreases self.fields.len() - i,
        {
            match write_string(&mut block, self.fields[i].as_str()) {
                Err(e) => {
                    assert(!field_fits(all[i as int]));
                    return Err(e);
                },
                Ok(()) => {},
            }
            proof {
                let next = all.take(i + 1);
                lemma_fields_block_split(next, i as int);
                assert(next.take(i as int) =~= all.take(i as int));
                assert(next.skip(i as int) =~= seq![all[i as int]]);
                assert(fields_block(seq![all[i as int]]) =~= field_bytes(all[i as int])) by {
                    reveal_with_fuel(fields_block, 2);
                }
            }
            i += 1;
        }
        proof {
            assert(all.take(i as int) =~= all);
        }
        seal(self.type_tag, self.timestamp, block)
    }

    /// Decodes one frame from the front of `data`, reading its tag under
    /// `catalog`, and says how many bytes the frame occupies. Bytes behind
    /// the frame are left alone.
    ///
    /// The checks are made in this order, and the first that fails decides
    /// the error: an empty buffer is a `TruncatedFrame`; a tag the catalog
    /// does not assign is an `UnknownType`; a buffer that ends before the
    /// header or the declared field block does is a `TruncatedFrame`; a
    /// checksum that is not the CRC-32 of the field block is a
    /// `ChecksumMismatch`; then the fields are read in order, where one that
    /// runs past the block is a `TruncatedFrame` and one that is not UTF-8 an
    /// `InvalidEncoding`; bytes left in the block behind the last field are
    /// `TrailingBytes`.
    pub fn decode(data: &[u8], catalog: Catalog) -> (r: Result<(Frame, usize), DeserializerError>)
        ensures
            match parse_frame(data@, catalog) {
                Ok((frame, n)) => r matches Ok((f, used)) && f@ == frame && used == n,
                Err(e) => r == Err::<(Frame, usize), _>(e),
            },
    {
        if data.len() == 0 {
            return Err(DeserializerError::TruncatedFrame);
        }
        let type_tag = data[0];
        let count = match catalog.field_count(type_tag) {
            None => {
                return Err(DeserializerError::UnknownType);
            },
            Some(count) => count,
        };
        if data.len() < HEADER_LEN {
            return Err(DeserializerError::TruncatedFrame);
        }
        let timestamp = read_u64(data, 1);
        let stored = read_u32(data, 9);
        let (block, behind) = match prepare_inner_cursor(data, 13) {
            Err(e) => {
                return Err(e);
            },
            Ok(found) => found,
        };
        if checksum(block) != stored {
            return Err(DeserializerError::ChecksumMismatch);
        }
        match read_fields(block, count) {
            Err(e) => Err(e),
            Ok(fields) => Ok((Frame { type_tag, timestamp, fields }, behind)),
        }
    }
}

/// What reading `data` as one message of the given tag gives: the fields of
/// the frame at its front. A buffer that begins with another tag is refused
/// before anything else of it is looked at.
pub open spec fn parse_message(data: Seq<u8>, catalog: Catalog, type_tag: u8) -> Result<
    Seq<Seq<char>>,
    DeserializerError,
> {
    if data.len() == 0 {
        Err(DeserializerError::TruncatedFrame)
    } else if data[0] != type_tag {
        Err(DeserializerError::UnknownType)
    } else {
        match parse_frame(data, catalog) {
            Err(e) => Err(e),
            Ok((frame, _)) => Ok(frame.fields),
        }
    }
}

/// Encodes a message of one field.
pub fn encode_single(type_tag: u8, timestamp: u64, only: &str) -> (r: Result<
    Vec<u8>,
    SerializerError,
>)
    ensures
        encoding_view(r) == encoded(type_tag, timestamp, seq![only@]),
{
    let ghost fields = seq![only@];
    proof {
        reveal_with_fuel(fields_block, 2);
        assert(fields_block(fields) =~= field_bytes(only@));
    }
    let mut block: Vec<u8> = Vec::new();
    match write_string(&mut block, only) {
        Err(e) => {
            assert(!field_fits(fields[0]));
            return Err(e);
        },
        Ok(()) => {},
    }
    seal(type_tag, timestamp, block)
}

/// Encodes a message of two fields.
pub fn encode_pair(type_tag: u8, timestamp: u64, first: &str, second: &str) -> (r: Result<
    Vec<u8>,
    SerializerError,
>)
    ensures
        encoding_view(r) == encoded(type_tag, timestamp, seq![first@, second@]),
{
    let ghost fields = seq![first@, second@];
    proof {
        reveal_with_fuel(fields_block, 3);
        assert(fields.drop_first() =~= seq![second@]);
        assert(fields_block(fields) =~= field_bytes(first@) + field_bytes(second@));
    }
    let mut block: Vec<u8> = Vec::new();
    match write_string(&mut block, first) {
        Err(e) => {
            assert(!field_fits(fields[0]));
            return Err(e);
        },
        Ok(()) => {},
    }
    match write_string(&mut block, second) {
        Err(e) => {
            assert(!field_fits(fields[1]));
            return Err(e);
        },
        Ok(()) => {},
    }
    seal(type_tag, timestamp, block)
}

/// Decodes the frame at the front of `data`, which must carry `type_tag`.
pub fn decode_expecting(data: &[u8], catalog: Catalog, type_tag: u8) -> (r: Result<
    Frame,
    DeserializerError,
>)
    ensures
        match parse_message(data@, catalog, type_tag) {
            Ok(fields) => r matches Ok(frame) && frame@.fields == fields && frame.type_tag
                == type_tag && catalog.spec_field_count(type_tag) == Some(frame.fields.len()),
            Err(e) => r == Err::<Frame, _>(e),
        },
{
    if data.len() == 0 {
        return Err(DeserializerError::TruncatedFrame);
    }
    if data[0] != type_tag {
        return Err(DeserializerError::UnknownType);
    }
    match Frame::decode(data, catalog) {
        Err(e) => Err(e),
        Ok((frame, _)) => {
            proof {
                lemma_parse_frame_shape(data@, catalog);
            }
            Ok(frame)
        },
    }
}

/// A frame that was read has the tag the buffer begins with and as many
/// fields as the catalog gives that tag, and lies within the buffer.
pub proof fn lemma_parse_frame_shape(data: Seq<u8>, catalog: Catalog)
    requires
        parse_frame(data, catalog) is Ok,
    ensures
        ({
            let (frame, n) = parse_frame(data, catalog)->Ok_0;
            &&& data.len() >= 17
            &&& 17 <= n <= data.len()
            &&& frame.type_tag == data[0]
            &&& catalog.spec_field_count(frame.type_tag) matches Some(count)
            &&& frame.fields.len() == count
        }),
{
    let count = catalog.spec_field_count(data[0])->Some_0;
    let n = u32_of_le(data.subrange(13, 17)) as int;
    lemma_parse_fields_len(data.subrange(17, 17 + n), count as nat);
}

/// Fields that were read are as many as were asked for.
pub proof fn lemma_parse_fields_len(block: Seq<u8>, count: nat)
    requires
        parse_fields(block, count) is Ok,
    ensures
        parse_fields(block, count)->Ok_0.len() == count,
    decreases count,
{
    if count > 0 {
        let (text, n) = read_field(block)->Ok_0;
        lemma_parse_fields_len(block.skip(n), (count - 1) as nat);
    }
}

/// Whether `catalog` carries frames like this one, and the frame can be
/// written: the catalog assigns the tag to a message with as many fields,
/// and the fields fit their length prefixes.
pub open spec fn well_formed(frame: FrameView, catalog: Catalog) -> bool {
    &&& encodable(frame.fields)
    &&& catalog.spec_field_count(frame.type_tag) matches Some(count)
    &&& frame.fields.len() == count
}

/// Round trip: decoding the bytes of a frame gives the frame back and uses
/// exactly the frame's bytes, whatever follows them in the buffer.
pub proof fn lemma_decode_of_encode(frame: FrameView, catalog: Catalog, tail: Seq<u8>)
    requires
        well_formed(frame, catalog),
    ensures
        parse_frame(frame_bytes(frame) + tail, catalog) == Ok::<_, DeserializerError>(
            (frame, frame_bytes(frame).len() as int),
        ),
{
    let block = fields_block(frame.fields);
    lemma_sealed_layout(frame.type_tag, frame.timestamp, block, tail);
    lemma_parse_fields_of_block(frame.fields);
}

/// Truncation: every proper prefix of a frame's bytes is a `TruncatedFrame`.
pub proof fn lemma_prefix_is_truncated(frame: FrameView, catalog: Catalog, k: int)
    requires
        well_formed(frame, catalog),
        0 <= k < frame_bytes(frame).len(),
    ensures
        parse_frame(frame_bytes(frame).take(k), catalog) == Err::<(FrameView, int), _>(
            DeserializerError::TruncatedFrame,
        ),
{
    let bytes = frame_bytes(frame);
    let data = bytes.take(k);
    let block = fields_block(frame.fields);
    lemma_sealed_layout(frame.type_tag, frame.timestamp, block, Seq::empty());
    assert(bytes + Seq::<u8>::empty() =~= bytes);
    if k >= 17 {
        assert(data.subrange(13, 17) =~= bytes.subrange(13, 17));
    }
}

/// Checksum: replacing any one byte of the field block of a frame by another
/// makes the frame a `ChecksumMismatch`.
pub proof fn lemma_changed_byte_is_detected(frame: FrameView, catalog: Catalog, i: int, byte: u8)
    requires
        well_formed(frame, catalog),
        17 <= i < frame_bytes(frame).len(),
        byte != frame_bytes(frame)[i],
    ensures
        parse_frame(frame_bytes(frame).update(i, byte), catalog) == Err::<(FrameView, int), _>(
            DeserializerError::ChecksumMismatch,
        ),
{
    let bytes = frame_bytes(frame);
    let damaged = bytes.update(i, byte);
    let block = fields_block(frame.fields);
    lemma_sealed_layout(frame.type_tag, frame.timestamp, block, Seq::empty());
    assert(bytes + Seq::<u8>::empty() =~= bytes);
    assert(damaged.subrange(9, 13) =~= bytes.subrange(9, 13));
    assert(damaged.subrange(13, 17) =~= bytes.subrange(13, 17));
    let n = block.len() as int;
    assert(damaged.subrange(17, 17 + n) =~= block.update(i - 17, byte));
    lemma_crc32_detects_byte_change(block, i - 17, byte);
}

/// Checksum: inverting any one bit of the field block of a frame makes the
/// frame a `ChecksumMismatch`.
pub proof fn lemma_bit_flip_is_detected(frame: FrameView, catalog: Catalog, i: int, bit: u8)
    requires
        well_formed(frame, catalog),
        17 <= i < frame_bytes(frame).len(),
        bit < 8,
    ensures
        parse_frame(
            frame_bytes(frame).update(i, flip_bit(frame_bytes(frame)[i], bit)),
            catalog,
        ) == Err::<(FrameView, int), _>(DeserializerError::ChecksumMismatch),
{
    lemma_flip_bit_changes(frame_bytes(frame)[i], bit);
    lemma_changed_byte_is_detected(frame, catalog, i, flip_bit(frame_bytes(frame)[i], bit));
}

/// A frame is refused under a catalog that gives its tag to no message, or
/// to a message with another number of fields.
pub proof fn lemma_refused_by_other_catalog(
    frame: FrameView,
    home: Catalog,
    other: Catalog,
    tail: Seq<u8>,
)
    requires
        well_formed(frame, home),
        !well_formed(frame, other),
    ensures
        parse_frame(frame_bytes(frame) + tail, other) is Err,
{
    let block = fields_block(frame.fields);
    lemma_sealed_layout(frame.type_tag, frame.timestamp, block, tail);
    match other.spec_field_count(frame.type_tag) {
        None => {},
        Some(count) => {
            lemma_parse_fields_count(frame.fields, count as nat);
        },
    }
}

} // verus!
