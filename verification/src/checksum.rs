//! CRC-32 (the reflected IEEE 802.3 polynomial), the checksum that guards a
//! frame's field block.
//!
//! The checksum is defined bit by bit: a byte is folded into the low bits of a
//! 32-bit register, which is then shifted right eight times, the polynomial
//! being folded in whenever a set bit falls out. The register starts with all
//! bits set and the result is the register's complement.

use vstd::prelude::*;

verus! {

/// One shift of the register: the lowest bit falls out and, if it was set,
/// the polynomial `0xEDB88320` is folded in.
pub open spec fn crc32_shift(register: u32) -> u32 {
    if register & 1 == 1 {
        (register >> 1) ^ 0xEDB8_8320u32
    } else {
        register >> 1
    }
}

/// The register after one more byte of input.
pub open spec fn crc32_absorb(register: u32, byte: u8) -> u32 {
    let r0 = register ^ (byte as u32);
    let r1 = crc32_shift(r0);
    let r2 = crc32_shift(r1);
    let r3 = crc32_shift(r2);
    let r4 = crc32_shift(r3);
    let r5 = crc32_shift(r4);
    let r6 = crc32_shift(r5);
    let r7 = crc32_shift(r6);
    crc32_shift(r7)
}

/// The register after all of `data`, starting from `0xFFFFFFFF`.
pub open spec fn crc32_register(data: Seq<u8>) -> u32
    decreases data.len(),
{
    if data.len() == 0 {
        0xFFFF_FFFFu32
    } else {
        crc32_absorb(crc32_register(data.drop_last()), data.last())
    }
}

/// The CRC-32 of `data`.
pub open spec fn crc32(data: Seq<u8>) -> u32 {
    crc32_register(data) ^ 0xFFFF_FFFFu32
}

/// `byte` with bit number `bit` inverted.
pub open spec fn flip_bit(byte: u8, bit: u8) -> u8
    recommends
        bit < 8,
{
    byte ^ (1u8 << bit)
}

fn shift(register: u32) -> (out: u32)
    ensures
        out == crc32_shift(register),
{
    if register & 1 == 1 {
        (register >> 1) ^ 0xEDB8_8320u32
    } else {
        register >> 1
    }
}

fn absorb(register: u32, byte: u8) -> (out: u32)
    ensures
        out == crc32_absorb(register, byte),
{
    let mut r: u32 = register ^ (byte as u32);
    r = shift(r);
    r = shift(r);
    r = shift(r);
    r = shift(r);
    r = shift(r);
    r = shift(r);
    r = shift(r);
    shift(r)
}

/// Computes the CRC-32 of `data`.
pub fn checksum(data: &[u8]) -> (crc: u32)
    ensures
        crc == crc32(data@),
{
    let mut register: u32 = 0xFFFF_FFFF;
    let mut i: usize = 0;
    while i < data.len()
        invariant
            i <= data.len(),
            register == crc32_register(data@.take(i as int)),
        decreases data.len() - i,
    {
        proof {
            assert(data@.take(i + 1).drop_last() =~= data@.take(i as int));
        }
        register = absorb(register, data[i]);
        i += 1;
    }
    proof {
        assert(data@.take(i as int) =~= data@);
    }
    register ^ 0xFFFF_FFFF
}

proof fn lemma_shift_injective(a: u32, b: u32)
    requires
        crc32_shift(a) == crc32_shift(b),
    ensures
        a == b,
{
    assert(crc32_shift(a) == crc32_shift(b) ==> a == b) by (bit_vector);
}

/// Two registers and bytes lead to the same register only if they agree
/// once the byte is folded in.
proof fn lemma_absorb_injective(c1: u32, b1: u8, c2: u32, b2: u8)
    requires
        crc32_absorb(c1, b1) == crc32_absorb(c2, b2),
    ensures
        c1 ^ (b1 as u32) == c2 ^ (b2 as u32),
{
    let x0 = c1 ^ (b1 as u32);
    let x1 = crc32_shift(x0);
    let x2 = crc32_shift(x1);
    let x3 = crc32_shift(x2);
    let x4 = crc32_shift(x3);
    let x5 = crc32_shift(x4);
    let x6 = crc32_shift(x5);
    let x7 = crc32_shift(x6);
    let y0 = c2 ^ (b2 as u32);
    let y1 = crc32_shift(y0);
    let y2 = crc32_shift(y1);
    let y3 = crc32_shift(y2);
    let y4 = crc32_shift(y3);
    let y5 = crc32_shift(y4);
    let y6 = crc32_shift(y5);
    let y7 = crc32_shift(y6);
    lemma_shift_injective(x7, y7);
    lemma_shift_injective(x6, y6);
    lemma_shift_injective(x5, y5);
    lemma_shift_injective(x4, y4);
    lemma_shift_injective(x3, y3);
    lemma_shift_injective(x2, y2);
    lemma_shift_injective(x1, y1);
    lemma_shift_injective(x0, y0);
}

proof fn lemma_register_detects_byte_change(data: Seq<u8>, i: int, byte: u8)
    requires
        0 <= i < data.len(),
        byte != data[i],
    ensures
        crc32_register(data.update(i, byte)) != crc32_register(data),
    decreases data.len(),
{
    let changed = data.update(i, byte);
    let c1 = crc32_register(changed.drop_last());
    let c2 = crc32_register(data.drop_last());
    if crc32_register(changed) == crc32_register(data) {
        lemma_absorb_injective(c1, changed.last(), c2, data.last());
        if i == data.len() - 1 {
            assert(changed.drop_last() =~= data.drop_last());
            let (p, q) = (byte, data[i]);
            assert(c1 ^ (p as u32) == c1 ^ (q as u32) ==> p == q) by (bit_vector);
        } else {
            assert(changed.drop_last() =~= data.drop_last().update(i, byte));
            lemma_register_detects_byte_change(data.drop_last(), i, byte);
            let last = data.last();
            assert(c1 ^ (last as u32) == c2 ^ (last as u32) ==> c1 == c2) by (bit_vector);
        }
    }
}

/// Replacing any one byte by a different one changes the CRC-32.
pub proof fn lemma_crc32_detects_byte_change(data: Seq<u8>, i: int, byte: u8)
    requires
        0 <= i < data.len(),
        byte != data[i],
    ensures
        crc32(data.update(i, byte)) != crc32(data),
{
    lemma_register_detects_byte_change(data, i, byte);
    let a = crc32_register(data.update(i, byte));
    let b = crc32_register(data);
    assert(a != b ==> a ^ 0xFFFF_FFFFu32 != b ^ 0xFFFF_FFFFu32) by (bit_vector);
}

/// Inverting one bit of a byte gives a different byte.
pub proof fn lemma_flip_bit_changes(byte: u8, bit: u8)
    requires
        bit < 8,
    ensures
        flip_bit(byte, bit) != byte,
{
    assert(bit < 8 ==> byte ^ (1u8 << bit) != byte) by (bit_vector);
}

/// Inverting any single bit of `data` changes its CRC-32.
pub proof fn lemma_crc32_detects_bit_flip(data: Seq<u8>, i: int, bit: u8)
    requires
        0 <= i < data.len(),
        bit < 8,
    ensures
        crc32(data.update(i, flip_bit(data[i], bit))) != crc32(data),
{
    lemma_flip_bit_changes(data[i], bit);
    lemma_crc32_detects_byte_change(data, i, flip_bit(data[i], bit));
}

} // verus!
