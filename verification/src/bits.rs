//! Bit-level vocabulary: the bits of a byte, most significant first, the
//! least significant bit of a colour component, and the eight-byte big-endian
//! form of a length.

use vstd::prelude::*;

verus! {

/// The numeric value of a bit.
pub open spec fn bit_value(bit: bool) -> u8 {
    if bit {
        1u8
    } else {
        0u8
    }
}

/// Bit `i` of `byte`, counting from the most significant bit.
pub open spec fn bit_of(byte: u8, i: int) -> bool {
    (byte >> ((7 - i) as u8)) & 1u8 == 1u8
}

/// The byte built from the first `k` bits of the group that begins at `start`,
/// the first bit being the most significant; the other bits are zero.
pub open spec fn group_bits(bits: Seq<bool>, start: int, k: nat) -> u8
    decreases k,
{
    if k == 0 {
        0u8
    } else {
        group_bits(bits, start, (k - 1) as nat) | (bit_value(bits[start + k - 1]) << ((8 - k) as u8))
    }
}

/// The bits of a byte sequence: bytes front to back, each most significant
/// bit first.
pub open spec fn bytes_to_bits(bytes: Seq<u8>) -> Seq<bool> {
    Seq::new(8 * bytes.len(), |i: int| bit_of(bytes[i / 8], i % 8))
}

/// The bytes of a bit sequence, taken in groups of eight; a last group of
/// fewer than eight bits is dropped.
pub open spec fn bits_to_bytes(bits: Seq<bool>) -> Seq<u8> {
    Seq::new(bits.len() / 8, |j: int| group_bits(bits, 8 * j, 8))
}

/// `value` with its least significant bit replaced by `bit`.
pub open spec fn with_lsb(value: u8, bit: bool) -> u8 {
    if bit {
        value | 1u8
    } else {
        value & !1u8
    }
}

/// The least significant bit of `value`.
pub open spec fn lsb(value: u8) -> bool {
    value & 1u8 == 1u8
}

/// The eight bytes of `value`, most significant first.
pub open spec fn be_bytes(value: u64) -> Seq<u8> {
    seq![
        ((value >> 56) & 0xff) as u8,
        ((value >> 48) & 0xff) as u8,
        ((value >> 40) & 0xff) as u8,
        ((value >> 32) & 0xff) as u8,
        ((value >> 24) & 0xff) as u8,
        ((value >> 16) & 0xff) as u8,
        ((value >> 8) & 0xff) as u8,
        (value & 0xff) as u8,
    ]
}

/// The number whose big-endian form is the first eight bytes of `bytes`.
pub open spec fn be_value(bytes: Seq<u8>) -> u64 {
    (bytes[0] as u64) << 56 | (bytes[1] as u64) << 48 | (bytes[2] as u64) << 40 | (bytes[3] as u64)
        << 32 | (bytes[4] as u64) << 24 | (bytes[5] as u64) << 16 | (bytes[6] as u64) << 8
        | (bytes[7] as u64)
}

/// The eight bytes of `value`, most significant first.
pub fn to_be_bytes(value: u64) -> (r: [u8; 8])
    ensures
        r@ == be_bytes(value),
{
    assert(forall|v: u64| #[trigger] (v & 0xff) < 0x100) by (bit_vector);
    let r = [
        ((value >> 56) & 0xff) as u8,
        ((value >> 48) & 0xff) as u8,
        ((value >> 40) & 0xff) as u8,
        ((value >> 32) & 0xff) as u8,
        ((value >> 24) & 0xff) as u8,
        ((value >> 16) & 0xff) as u8,
        ((value >> 8) & 0xff) as u8,
        (value & 0xff) as u8,
    ];
    assert(r@ =~= be_bytes(value));
    r
}

/// The number whose big-endian form is the first eight bytes of `bytes`.
pub fn from_be_bytes(bytes: &[u8]) -> (r: u64)
    requires
        bytes@.len() >= 8,
    ensures
        r == be_value(bytes@),
{
    (bytes[0] as u64) << 56 | (bytes[1] as u64) << 48 | (bytes[2] as u64) << 40 | (bytes[3] as u64)
        << 32 | (bytes[4] as u64) << 24 | (bytes[5] as u64) << 16 | (bytes[6] as u64) << 8
        | (bytes[7] as u64)
}

/// Writing a bit into a component and reading it back gives that bit.
pub proof fn lemma_lsb_of_with_lsb(value: u8, bit: bool)
    ensures
        lsb(with_lsb(value, bit)) == bit,
{
    assert((value | 1u8) & 1u8 == 1u8) by (bit_vector);
    assert((value & !1u8) & 1u8 == 0u8) by (bit_vector);
}

/// Writing a bit into a component leaves its seven upper bits as they were.
pub proof fn lemma_with_lsb_keeps_upper_bits(value: u8, bit: bool)
    ensures
        with_lsb(value, bit) >> 1u8 == value >> 1u8,
{
    assert((value | 1u8) >> 1u8 == value >> 1u8) by (bit_vector);
    assert((value & !1u8) >> 1u8 == value >> 1u8) by (bit_vector);
}

/// A group of eight bits that are the bits of `byte` packs to `byte`.
pub proof fn lemma_group_of_byte(bits: Seq<bool>, start: int, byte: u8)
    requires
        forall|i: int| 0 <= i < 8 ==> bits[start + i] == bit_of(byte, i),
    ensures
        group_bits(bits, start, 8) == byte,
{
    reveal_with_fuel(group_bits, 9);
    let v0 = bit_value(bits[start + 0]);
    let v1 = bit_value(bits[start + 1]);
    let v2 = bit_value(bits[start + 2]);
    let v3 = bit_value(bits[start + 3]);
    let v4 = bit_value(bits[start + 4]);
    let v5 = bit_value(bits[start + 5]);
    let v6 = bit_value(bits[start + 6]);
    let v7 = bit_value(bits[start + 7]);
    assert(bits[start + 0] == bit_of(byte, 0));
    assert(bits[start + 1] == bit_of(byte, 1));
    assert(bits[start + 2] == bit_of(byte, 2));
    assert(bits[start + 3] == bit_of(byte, 3));
    assert(bits[start + 4] == bit_of(byte, 4));
    assert(bits[start + 5] == bit_of(byte, 5));
    assert(bits[start + 6] == bit_of(byte, 6));
    assert(bits[start + 7] == bit_of(byte, 7));
    assert((0u8 | (v0 << 7u8) | (v1 << 6u8) | (v2 << 5u8) | (v3 << 4u8) | (v4 << 3u8) | (v5 << 2u8)
        | (v6 << 1u8) | (v7 << 0u8)) == byte) by (bit_vector)
        requires
            v0 == (if (byte >> 7u8) & 1u8 == 1u8 { 1u8 } else { 0u8 }),
            v1 == (if (byte >> 6u8) & 1u8 == 1u8 { 1u8 } else { 0u8 }),
            v2 == (if (byte >> 5u8) & 1u8 == 1u8 { 1u8 } else { 0u8 }),
            v3 == (if (byte >> 4u8) & 1u8 == 1u8 { 1u8 } else { 0u8 }),
            v4 == (if (byte >> 3u8) & 1u8 == 1u8 { 1u8 } else { 0u8 }),
            v5 == (if (byte >> 2u8) & 1u8 == 1u8 { 1u8 } else { 0u8 }),
            v6 == (if (byte >> 1u8) & 1u8 == 1u8 { 1u8 } else { 0u8 }),
            v7 == (if (byte >> 0u8) & 1u8 == 1u8 { 1u8 } else { 0u8 }),
    ;
}

/// Packing the bits of a byte sequence gives the bytes back.
pub proof fn lemma_bytes_of_bits(bytes: Seq<u8>)
    ensures
        bits_to_bytes(bytes_to_bits(bytes)) == bytes,
{
    let bits = bytes_to_bits(bytes);
    assert(bits.len() / 8 == bytes.len());
    assert forall|j: int| 0 <= j < bytes.len() implies bits_to_bytes(bits)[j] == bytes[j] by {
        assert forall|i: int| 0 <= i < 8 implies bits[8 * j + i] == bit_of(bytes[j], i) by {
            assert((8 * j + i) / 8 == j);
            assert((8 * j + i) % 8 == i);
        }
        lemma_group_of_byte(bits, 8 * j, bytes[j]);
    }
    assert(bits_to_bytes(bits) =~= bytes);
}

/// Reading back the big-endian form of a number gives the number.
pub proof fn lemma_be_value_of_be_bytes(value: u64)
    ensures
        be_bytes(value).len() == 8,
        be_value(be_bytes(value)) == value,
{
    let b0 = ((value >> 56) & 0xff) as u8;
    let b1 = ((value >> 48) & 0xff) as u8;
    let b2 = ((value >> 40) & 0xff) as u8;
    let b3 = ((value >> 32) & 0xff) as u8;
    let b4 = ((value >> 24) & 0xff) as u8;
    let b5 = ((value >> 16) & 0xff) as u8;
    let b6 = ((value >> 8) & 0xff) as u8;
    let b7 = (value & 0xff) as u8;
    assert((b0 as u64) << 56 | (b1 as u64) << 48 | (b2 as u64) << 40 | (b3 as u64) << 32 | (
    b4 as u64) << 24 | (b5 as u64) << 16 | (b6 as u64) << 8 | (b7 as u64) == value) by (bit_vector)
        requires
            b0 == ((value >> 56) & 0xff) as u8,
            b1 == ((value >> 48) & 0xff) as u8,
            b2 == ((value >> 40) & 0xff) as u8,
            b3 == ((value >> 32) & 0xff) as u8,
            b4 == ((value >> 24) & 0xff) as u8,
            b5 == ((value >> 16) & 0xff) as u8,
            b6 == ((value >> 8) & 0xff) as u8,
            b7 == (value & 0xff) as u8,
    ;
}

} // verus!
