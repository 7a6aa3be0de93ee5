//! Conversions between 32-bit words and bytes.
use byteorder::{BigEndian, ByteOrder, LittleEndian};
use vstd::prelude::*;

verus! {

/// The word whose little-endian bytes are `b0, b1, b2, b3`.
pub open spec fn le_word(b0: u8, b1: u8, b2: u8, b3: u8) -> u32 {
    (b0 as u32) | ((b1 as u32) << 8u32) | ((b2 as u32) << 16u32) | ((b3 as u32) << 24u32)
}

/// The byte of `w` that starts at bit `sh`.
pub open spec fn byte_of(w: u32, sh: u32) -> u8 {
    ((w >> sh) & 0xffu32) as u8
}

/// The little-endian bytes of `w`.
pub open spec fn le_bytes(w: u32) -> Seq<u8> {
    seq![byte_of(w, 0), byte_of(w, 8), byte_of(w, 16), byte_of(w, 24)]
}

/// The big-endian bytes of `w`.
pub open spec fn be_bytes(w: u32) -> Seq<u8> {
    seq![byte_of(w, 24), byte_of(w, 16), byte_of(w, 8), byte_of(w, 0)]
}

/// Bytes shifted into place one by one, as a partial word is assembled,
/// make the little-endian word.
pub proof fn lemma_assemble(b0: u8, b1: u8, b2: u8, b3: u8)
    ensures
        (((0u32 ^ ((b0 as u32) << 0u32)) ^ ((b1 as u32) << 8u32)) ^ ((b2 as u32) << 16u32)) ^ ((
        b3 as u32) << 24u32) == le_word(b0, b1, b2, b3),
{
    assert((((0u32 ^ ((b0 as u32) << 0u32)) ^ ((b1 as u32) << 8u32)) ^ ((b2 as u32) << 16u32)) ^ ((
    b3 as u32) << 24u32) == (b0 as u32) | ((b1 as u32) << 8u32) | ((b2 as u32) << 16u32) | ((
    b3 as u32) << 24u32)) by (bit_vector);
}

/// Masking a word with `x` masks each of its bytes with the matching byte of `x`.
pub proof fn lemma_mask(b0: u8, b1: u8, b2: u8, b3: u8, x: u32)
    ensures
        le_bytes(le_word(b0, b1, b2, b3) ^ x) == seq![
            b0 ^ byte_of(x, 0),
            b1 ^ byte_of(x, 8),
            b2 ^ byte_of(x, 16),
            b3 ^ byte_of(x, 24),
        ],
        le_word(b0 ^ byte_of(x, 0), b1 ^ byte_of(x, 8), b2 ^ byte_of(x, 16), b3 ^ byte_of(x, 24))
            == le_word(b0, b1, b2, b3) ^ x,
{
    let w = (b0 as u32) | ((b1 as u32) << 8u32) | ((b2 as u32) << 16u32) | ((b3 as u32) << 24u32);
    assert(((((w ^ x) >> 0u32) & 0xffu32) as u8) == b0 ^ (((x >> 0u32) & 0xffu32) as u8)
        && ((((w ^ x) >> 8u32) & 0xffu32) as u8) == b1 ^ (((x >> 8u32) & 0xffu32) as u8)
        && ((((w ^ x) >> 16u32) & 0xffu32) as u8) == b2 ^ (((x >> 16u32) & 0xffu32) as u8)
        && ((((w ^ x) >> 24u32) & 0xffu32) as u8) == b3 ^ (((x >> 24u32) & 0xffu32) as u8))
        by (bit_vector)
        requires
            w == (b0 as u32) | ((b1 as u32) << 8u32) | ((b2 as u32) << 16u32) | ((b3 as u32)
                << 24u32),
    ;
    let c0 = b0 ^ (((x >> 0u32) & 0xffu32) as u8);
    let c1 = b1 ^ (((x >> 8u32) & 0xffu32) as u8);
    let c2 = b2 ^ (((x >> 16u32) & 0xffu32) as u8);
    let c3 = b3 ^ (((x >> 24u32) & 0xffu32) as u8);
    assert((c0 as u32) | ((c1 as u32) << 8u32) | ((c2 as u32) << 16u32) | ((c3 as u32) << 24u32)
        == w ^ x) by (bit_vector)
        requires
            w == (b0 as u32) | ((b1 as u32) << 8u32) | ((b2 as u32) << 16u32) | ((b3 as u32)
                << 24u32),
            c0 == b0 ^ (((x >> 0u32) & 0xffu32) as u8),
            c1 == b1 ^ (((x >> 8u32) & 0xffu32) as u8),
            c2 == b2 ^ (((x >> 16u32) & 0xffu32) as u8),
            c3 == b3 ^ (((x >> 24u32) & 0xffu32) as u8),
    ;
    assert(le_bytes(w ^ x) =~= seq![c0, c1, c2, c3]);
}

/// Relies on byteorder's `LittleEndian::read_u32`: the word whose
/// little-endian bytes are `buf[i..i + 4]`.
#[verifier::external_body]
pub(crate) fn read_le(buf: &[u8], i: usize) -> (r: u32)
    requires
        i + 4 <= buf@.len(),
    ensures
        r == le_word(buf@[i as int], buf@[i + 1], buf@[i + 2], buf@[i + 3]),
{
    LittleEndian::read_u32(&buf[i..i + 4])
}

/// Relies on byteorder's `LittleEndian::write_u32`: stores the little-endian
/// bytes of `w` at `buf[i..i + 4]` and leaves the rest of `buf` alone.
#[verifier::external_body]
pub(crate) fn write_le(buf: &mut [u8], i: usize, w: u32)
    requires
        i + 4 <= old(buf)@.len(),
    ensures
        final(buf)@ == old(buf)@.take(i as int) + le_bytes(w) + old(buf)@.skip(i + 4),
{
    LittleEndian::write_u32(&mut buf[i..i + 4], w)
}

/// Relies on byteorder's `BigEndian::write_u32`: the big-endian bytes of `w`.
#[verifier::external_body]
pub(crate) fn to_be(w: u32) -> (r: [u8; 4])
    ensures
        r@ == be_bytes(w),
{
    let mut b = [0u8; 4];
    BigEndian::write_u32(&mut b, w);
    b
}

} // verus!
