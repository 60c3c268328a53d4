//! The primitives of the wire format: little-endian integers and
//! length-prefixed UTF-8 strings.

use crate::error::{DeserializerError, SerializerError};
use std::string::FromUtf8Error;
use vstd::prelude::*;
use vstd::slice::{slice_subrange, slice_to_vec};
use vstd::utf8::{
    decode_utf8, encode_utf8, encode_utf8_decode_utf8, encode_utf8_valid_utf8, valid_utf8,
};

verus! {

/// The four bytes of `x`, least significant first.
pub open spec fn u32_le(x: u32) -> Seq<u8> {
    seq![
        (x % 256) as u8,
        (x / 256 % 256) as u8,
        (x / 65536 % 256) as u8,
        (x / 16777216 % 256) as u8,
    ]
}

/// The number whose little-endian bytes are the first four of `bytes`.
pub open spec fn u32_of_le(bytes: Seq<u8>) -> u32
    recommends
        bytes.len() >= 4,
{
    (bytes[0] as int + 256 * (bytes[1] as int) + 65536 * (bytes[2] as int) + 16777216 * (
    bytes[3] as int)) as u32
}

/// The eight bytes of `x`, least significant first.
pub open spec fn u64_le(x: u64) -> Seq<u8> {
    u32_le((x % 0x1_0000_0000) as u32) + u32_le((x / 0x1_0000_0000) as u32)
}

/// The number whose little-endian bytes are the first eight of `bytes`.
pub open spec fn u64_of_le(bytes: Seq<u8>) -> u64
    recommends
        bytes.len() >= 8,
{
    (u32_of_le(bytes.subrange(0, 4)) as int + 0x1_0000_0000 * (u32_of_le(
        bytes.subrange(4, 8),
    ) as int)) as u64
}

/// Reading back what `u32_le` wrote gives the number again.
pub proof fn lemma_u32_le_roundtrip(x: u32)
    ensures
        u32_le(x).len() == 4,
        u32_of_le(u32_le(x)) == x,
{
}

/// Reading back what `u64_le` wrote gives the number again.
pub proof fn lemma_u64_le_roundtrip(x: u64)
    ensures
        u64_le(x).len() == 8,
        u64_of_le(u64_le(x)) == x,
{
    let lo = (x % 0x1_0000_0000) as u32;
    let hi = (x / 0x1_0000_0000) as u32;
    lemma_u32_le_roundtrip(lo);
    lemma_u32_le_roundtrip(hi);
    assert(u64_le(x).subrange(0, 4) =~= u32_le(lo));
    assert(u64_le(x).subrange(4, 8) =~= u32_le(hi));
}

/// Appends the little-endian bytes of `x` to `buffer`.
pub fn write_u32(buffer: &mut Vec<u8>, x: u32)
    ensures
        final(buffer)@ == old(buffer)@ + u32_le(x),
{
    buffer.push((x % 256) as u8);
    buffer.push((x / 256 % 256) as u8);
    buffer.push((x / 65536 % 256) as u8);
    buffer.push((x / 16777216 % 256) as u8);
    assert(buffer@ =~= old(buffer)@ + u32_le(x));
}

/// Appends the little-endian bytes of `x` to `buffer`.
pub fn write_u64(buffer: &mut Vec<u8>, x: u64)
    ensures
        final(buffer)@ == old(buffer)@ + u64_le(x),
{
    write_u32(buffer, (x % 0x1_0000_0000) as u32);
    write_u32(buffer, (x / 0x1_0000_0000) as u32);
    assert(buffer@ =~= old(buffer)@ + u64_le(x));
}

/// Reads the little-endian `u32` that starts at `at`.
pub fn read_u32(data: &[u8], at: usize) -> (x: u32)
    requires
        at + 4 <= data.len(),
    ensures
        x == u32_of_le(data@.subrange(at as int, at + 4)),
{
    let b0 = data[at] as u32;
    let b1 = data[at + 1] as u32;
    let b2 = data[at + 2] as u32;
    let b3 = data[at + 3] as u32;
    b0 + 256 * b1 + 65536 * b2 + 16777216 * b3
}

/// Reads the little-endian `u64` that starts at `at`.
pub fn read_u64(data: &[u8], at: usize) -> (x: u64)
    requires
        at + 8 <= data.len(),
    ensures
        x == u64_of_le(data@.subrange(at as int, at + 8)),
{
    let lo = read_u32(data, at) as u64;
    let hi = read_u32(data, at + 4) as u64;
    proof {
        let whole = data@.subrange(at as int, at + 8);
        assert(whole.subrange(0, 4) =~= data@.subrange(at as int, at + 4));
        assert(whole.subrange(4, 8) =~= data@.subrange(at + 4, at + 8));
    }
    lo + 0x1_0000_0000 * hi
}

/// Appends `bytes` to `buffer`.
pub fn write_bytes(buffer: &mut Vec<u8>, bytes: &[u8])
    ensures
        final(buffer)@ == old(buffer)@ + bytes@,
{
    let mut i: usize = 0;
    while i < bytes.len()
        invariant
            i <= bytes@.len(),
            buffer@ == old(buffer)@ + bytes@.take(i as int),
        decreases bytes@.len() - i,
    {
        buffer.push(bytes[i]);
        proof {
            assert(bytes@.take(i + 1) =~= bytes@.take(i as int).push(bytes@[i as int]));
            assert(buffer@ =~= old(buffer)@ + bytes@.take(i + 1));
        }
        i += 1;
    }
    assert(bytes@.take(i as int) =~= bytes@);
}

/// Whether `text` can be a field: its UTF-8 length must fit the `u32` prefix.
pub open spec fn field_fits(text: Seq<char>) -> bool {
    encode_utf8(text).len() <= u32::MAX
}

/// A field on the wire: the length of the UTF-8 bytes, then the bytes.
pub open spec fn field_bytes(text: Seq<char>) -> Seq<u8> {
    u32_le(encode_utf8(text).len() as u32) + encode_utf8(text)
}

/// What reading one field from the front of `block` gives: the text and the
/// number of bytes it occupies, or the reason it cannot be read.
pub open spec fn read_field(block: Seq<u8>) -> Result<(Seq<char>, int), DeserializerError> {
    if block.len() < 4 {
        Err(DeserializerError::TruncatedFrame)
    } else {
        let n = u32_of_le(block.subrange(0, 4)) as int;
        if block.len() < 4 + n {
            Err(DeserializerError::TruncatedFrame)
        } else if !valid_utf8(block.subrange(4, 4 + n)) {
            Err(DeserializerError::InvalidEncoding)
        } else {
            Ok((decode_utf8(block.subrange(4, 4 + n)), 4 + n))
        }
    }
}

/// A field that was written is read back, whatever follows it.
pub proof fn lemma_read_field_of_field_bytes(text: Seq<char>, rest: Seq<u8>)
    requires
        field_fits(text),
    ensures
        read_field(field_bytes(text) + rest) == Ok::<_, DeserializerError>(
            (text, field_bytes(text).len() as int),
        ),
        field_bytes(text).len() == 4 + encode_utf8(text).len(),
{
    let raw = encode_utf8(text);
    let block = field_bytes(text) + rest;
    lemma_u32_le_roundtrip(raw.len() as u32);
    assert(block.subrange(0, 4) =~= u32_le(raw.len() as u32));
    assert(block.subrange(4, 4 + raw.len() as int) =~= raw);
    encode_utf8_valid_utf8(text);
    encode_utf8_decode_utf8(text);
}

/// `std::string::FromUtf8Error`, the error of `String::from_utf8`. Nothing
/// of what it holds is looked at.
#[verifier::external_type_specification]
#[verifier::external_body]
pub struct ExFromUtf8Error(FromUtf8Error);

/// `String::from_utf8` of the standard library. It succeeds exactly on valid
/// UTF-8, and the string it gives has the bytes it was given.
pub assume_specification[ String::from_utf8 ](vec: Vec<u8>) -> (text: Result<
    String,
    FromUtf8Error,
>)
    ensures
        text is Ok <==> valid_utf8(vec@),
        text matches Ok(s) ==> encode_utf8(s@) == vec@,
;

/// Appends `text` to `buffer` as a length-prefixed field.
pub fn write_string(buffer: &mut Vec<u8>, text: &str) -> (r: Result<(), SerializerError>)
    ensures
        field_fits(text@) ==> r is Ok && final(buffer)@ == old(buffer)@ + field_bytes(text@),
        !field_fits(text@) ==> r == Err::<(), _>(SerializerError::EncodeOverflow)
            && final(buffer)@ == old(buffer)@,
{
    let bytes = text.as_bytes();
    if bytes.len() > u32::MAX as usize {
        return Err(SerializerError::EncodeOverflow);
    }
    write_u32(buffer, bytes.len() as u32);
    write_bytes(buffer, bytes);
    assert(buffer@ =~= old(buffer)@ + field_bytes(text@));
    Ok(())
}

/// What reading the length-prefixed block that starts at `start` in
/// `buffer` gives: the bytes behind the length, and the position just
/// behind them.
pub open spec fn read_block_at(buffer: Seq<u8>, start: int) -> Result<
    (Seq<u8>, int),
    DeserializerError,
> {
    if !(0 <= start && start + 4 <= buffer.len()) {
        Err(DeserializerError::TruncatedFrame)
    } else {
        let n = u32_of_le(buffer.subrange(start, start + 4)) as int;
        if buffer.len() < start + 4 + n {
            Err(DeserializerError::TruncatedFrame)
        } else {
            Ok((buffer.subrange(start + 4, start + 4 + n), start + 4 + n))
        }
    }
}

/// Reads the `u32` length that starts at `start` in `cursor` and hands out
/// the block of that many bytes behind it, with the position just behind
/// the block.
pub fn prepare_inner_cursor<'a>(cursor: &'a [u8], start: usize) -> (r: Result<
    (&'a [u8], usize),
    DeserializerError,
>)
    ensures
        match read_block_at(cursor@, start as int) {
            Ok((block, next)) => r matches Ok((inner, behind)) && inner@ == block && behind
                == next,
            Err(e) => r == Err::<(&'a [u8], usize), _>(e),
        },
{
    if start > cursor.len() || cursor.len() - start < 4 {
        return Err(DeserializerError::TruncatedFrame);
    }
    let n = read_u32(cursor, start) as usize;
    if cursor.len() - start - 4 < n {
        return Err(DeserializerError::TruncatedFrame);
    }
    Ok((slice_subrange(cursor, start + 4, start + 4 + n), start + 4 + n))
}

/// What reading the field that starts at `start` in `buffer` gives.
pub open spec fn read_field_at(buffer: Seq<u8>, start: int) -> Result<
    (Seq<char>, int),
    DeserializerError,
> {
    if 0 <= start <= buffer.len() {
        read_field(buffer.skip(start))
    } else {
        Err(DeserializerError::TruncatedFrame)
    }
}

/// Reads the length-prefixed string that starts at `start` in `buffer` and
/// returns it with the position just behind it.
pub fn read_string_from_buffer(buffer: &[u8], start: usize) -> (r: Result<
    (String, usize),
    DeserializerError,
>)
    ensures
        match read_field_at(buffer@, start as int) {
            Ok((text, n)) => r matches Ok((s, next)) && s@ == text && next == start + n,
            Err(e) => r == Err::<(String, usize), _>(e),
        },
{
    proof {
        if start <= buffer.len() {
            let block = buffer@.skip(start as int);
            if block.len() >= 4 {
                assert(block.subrange(0, 4) =~= buffer@.subrange(start as int, start + 4));
                let n = u32_of_le(block.subrange(0, 4)) as int;
                if block.len() >= 4 + n {
                    assert(block.subrange(4, 4 + n) =~= buffer@.subrange(
                        start + 4,
                        start + 4 + n,
                    ));
                }
            }
        }
    }
    let (inner, behind) = match prepare_inner_cursor(buffer, start) {
        Err(e) => {
            return Err(e);
        },
        Ok(found) => found,
    };
    match String::from_utf8(slice_to_vec(inner)) {
        Ok(s) => {
            proof {
                encode_utf8_decode_utf8(s@);
            }
            Ok((s, behind))
        },
        Err(_) => Err(DeserializerError::InvalidEncoding),
    }
}

} // verus!
