//! Integers and bit fields as they lie on the wire, in network order.

use vstd::prelude::*;

verus! {

/// The two bytes of a 16-bit field, high byte first.
pub open spec fn be16(value: u16) -> Seq<u8> {
    seq![(value / 0x100) as u8, (value % 0x100) as u8]
}

/// The four bytes of a 32-bit field, high byte first.
pub open spec fn be32(value: u32) -> Seq<u8> {
    seq![
        (value / 0x100_0000) as u8,
        (value / 0x1_0000 % 0x100) as u8,
        (value / 0x100 % 0x100) as u8,
        (value % 0x100) as u8,
    ]
}

/// The 16-bit field stored in two bytes, high byte first.
pub open spec fn from_be16(high: u8, low: u8) -> u16 {
    (high as int * 0x100 + low as int) as u16
}

/// The 32-bit field stored in four bytes, high byte first.
pub open spec fn from_be32(b0: u8, b1: u8, b2: u8, b3: u8) -> u32 {
    (b0 as int * 0x100_0000 + b1 as int * 0x1_0000 + b2 as int * 0x100 + b3 as int) as u32
}

/// The 16-bit field that `bytes` holds at `at`.
pub open spec fn be16_at(bytes: Seq<u8>, at: int) -> u16 {
    from_be16(bytes[at], bytes[at + 1])
}

/// The 32-bit field that `bytes` holds at `at`.
pub open spec fn be32_at(bytes: Seq<u8>, at: int) -> u32 {
    from_be32(bytes[at], bytes[at + 1], bytes[at + 2], bytes[at + 3])
}

/// One byte shared by two fields: the upper field above the lower one,
/// which can hold the values below `low_range`, a power of two. Each field
/// keeps only the bits that fit its width.
pub open spec fn packed(high: u8, low: u8, low_range: int) -> u8
    recommends
        1 < low_range < 256,
        256int % low_range == 0,
{
    ((high as int % (256int / low_range)) * low_range + low as int % low_range) as u8
}

/// The upper field of a shared byte.
pub open spec fn upper_field(byte: u8, low_range: int) -> u8 {
    (byte as int / low_range) as u8
}

/// The lower field of a shared byte.
pub open spec fn lower_field(byte: u8, low_range: int) -> u8 {
    (byte as int % low_range) as u8
}

/// `bytes` with the run that starts at `at` replaced by `patch`.
pub open spec fn overwrite(bytes: Seq<u8>, at: int, patch: Seq<u8>) -> Seq<u8>
    recommends
        0 <= at,
        at + patch.len() <= bytes.len(),
{
    bytes.take(at) + patch + bytes.skip(at + patch.len())
}

/// Packs two 4-bit fields into one byte.
pub fn pack_4_4(high: u8, low: u8) -> (byte: u8)
    ensures
        byte == packed(high, low, 16),
{
    let byte = ((high & 0x0f) << 4) | (low & 0x0f);
    assert(((high & 0x0f) << 4) | (low & 0x0f) == (high % 16) * 16 + low % 16) by (bit_vector);
    byte
}

/// Packs a 6-bit field above a 2-bit field.
pub fn pack_6_2(high: u8, low: u8) -> (byte: u8)
    ensures
        byte == packed(high, low, 4),
{
    let byte = ((high & 0x3f) << 2) | (low & 0x03);
    assert(((high & 0x3f) << 2) | (low & 0x03) == (high % 64) * 4 + low % 4) by (bit_vector);
    byte
}

/// Packs a 3-bit field above a 5-bit field.
pub fn pack_3_5(high: u8, low: u8) -> (byte: u8)
    ensures
        byte == packed(high, low, 32),
{
    let byte = ((high & 0x07) << 5) | (low & 0x1f);
    assert(((high & 0x07) << 5) | (low & 0x1f) == (high % 8) * 32 + low % 32) by (bit_vector);
    byte
}

/// Splits a byte into its 4-bit fields, upper first.
pub fn unpack_4_4(byte: u8) -> (fields: (u8, u8))
    ensures
        fields.0 == upper_field(byte, 16),
        fields.1 == lower_field(byte, 16),
{
    assert(byte >> 4 == byte / 16 && byte & 0x0f == byte % 16) by (bit_vector);
    (byte >> 4, byte & 0x0f)
}

/// Splits a byte into a 6-bit field and a 2-bit field, upper first.
pub fn unpack_6_2(byte: u8) -> (fields: (u8, u8))
    ensures
        fields.0 == upper_field(byte, 4),
        fields.1 == lower_field(byte, 4),
{
    assert(byte >> 2 == byte / 4 && byte & 0x03 == byte % 4) by (bit_vector);
    (byte >> 2, byte & 0x03)
}

/// Splits a byte into a 3-bit field and a 5-bit field, upper first.
pub fn unpack_3_5(byte: u8) -> (fields: (u8, u8))
    ensures
        fields.0 == upper_field(byte, 32),
        fields.1 == lower_field(byte, 32),
{
    assert(byte >> 5 == byte / 32 && byte & 0x1f == byte % 32) by (bit_vector);
    (byte >> 5, byte & 0x1f)
}

/// Writes a 16-bit field at `at`, high byte first.
pub fn put_be16(buffer: &mut [u8], at: usize, value: u16)
    requires
        at + 2 <= old(buffer)@.len(),
    ensures
        final(buffer)@ == overwrite(old(buffer)@, at as int, be16(value)),
{
    assert(value >> 8 == value / 0x100 && value & 0xff == value % 0x100) by (bit_vector);
    buffer[at] = (value >> 8) as u8;
    buffer[at + 1] = (value & 0xff) as u8;
}

/// Writes a 32-bit field at `at`, high byte first.
pub fn put_be32(buffer: &mut [u8], at: usize, value: u32)
    requires
        at + 4 <= old(buffer)@.len(),
    ensures
        final(buffer)@ == overwrite(old(buffer)@, at as int, be32(value)),
{
    assert(value >> 24 == value / 0x100_0000 && (value >> 16) & 0xff == value / 0x1_0000 % 0x100
        && (value >> 8) & 0xff == value / 0x100 % 0x100 && value & 0xff == value % 0x100)
        by (bit_vector);
    buffer[at] = (value >> 24) as u8;
    buffer[at + 1] = ((value >> 16) & 0xff) as u8;
    buffer[at + 2] = ((value >> 8) & 0xff) as u8;
    buffer[at + 3] = (value & 0xff) as u8;
}

/// Reads the 16-bit field at `at`.
pub fn get_be16(bytes: &[u8], at: usize) -> (value: u16)
    requires
        at + 2 <= bytes@.len(),
    ensures
        value == be16_at(bytes@, at as int),
{
    let high = bytes[at];
    let low = bytes[at + 1];
    assert(((high as u16) << 8) | (low as u16) == high * 0x100 + low) by (bit_vector);
    ((high as u16) << 8) | (low as u16)
}

/// Reads the 32-bit field at `at`.
pub fn get_be32(bytes: &[u8], at: usize) -> (value: u32)
    requires
        at + 4 <= bytes@.len(),
    ensures
        value == be32_at(bytes@, at as int),
{
    let b0 = bytes[at];
    let b1 = bytes[at + 1];
    let b2 = bytes[at + 2];
    let b3 = bytes[at + 3];
    assert(((b0 as u32) << 24) | ((b1 as u32) << 16) | ((b2 as u32) << 8) | (b3 as u32) == b0
        * 0x100_0000 + b1 * 0x1_0000 + b2 * 0x100 + b3) by (bit_vector);
    ((b0 as u32) << 24) | ((b1 as u32) << 16) | ((b2 as u32) << 8) | (b3 as u32)
}

/// Copies `source` into `buffer` from `at` on.
pub fn put_bytes(buffer: &mut [u8], at: usize, source: &[u8])
    requires
        at + source@.len() <= old(buffer)@.len(),
    ensures
        final(buffer)@ == overwrite(old(buffer)@, at as int, source@),
{
    let capacity: usize = buffer.len();
    let mut copied: usize = 0;
    while copied < source.len()
        invariant
            copied <= source@.len(),
            at + source@.len() <= capacity,
            buffer@.len() == old(buffer)@.len() == capacity,
            buffer@ == overwrite(old(buffer)@, at as int, source@.take(copied as int)),
        decreases source@.len() - copied,
    {
        buffer[at + copied] = source[copied];
        copied = copied + 1;
    }
    assert(source@.take(copied as int) == source@);
}

/// A field read back from its own bytes is the field.
pub proof fn lemma_be16_inverse(value: u16)
    ensures
        be16(value).len() == 2,
        be16_at(be16(value), 0) == value,
{
}

/// A field read back from its own bytes is the field.
pub proof fn lemma_be32_inverse(value: u32)
    ensures
        be32(value).len() == 4,
        be32_at(be32(value), 0) == value,
{
}

/// What a shared byte gives back is each field cut to its width.
pub proof fn lemma_packed_inverse(high: u8, low: u8, low_range: int)
    requires
        low_range == 4 || low_range == 16 || low_range == 32,
    ensures
        upper_field(packed(high, low, low_range), low_range) == high as int % (256int / low_range),
        lower_field(packed(high, low, low_range), low_range) == low as int % low_range,
{
    if low_range == 4 {
        assert(packed(high, low, 4) == (high as int % 64) * 4 + low as int % 4);
    } else if low_range == 16 {
        assert(packed(high, low, 16) == (high as int % 16) * 16 + low as int % 16);
    } else {
        assert(packed(high, low, 32) == (high as int % 8) * 32 + low as int % 32);
    }
}

} // verus!
