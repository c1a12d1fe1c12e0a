//! What holds of writing and reading taken together.

use crate::bits::{
    be_bytes, bit_of, bits_to_bytes, lemma_be_value_of_be_bytes, lemma_group_of_byte,
    lemma_lsb_of_with_lsb, lemma_with_lsb_keeps_upper_bits,
};
use crate::carrier::{
    capacity, embedded, embedded_byte, extracted, is_carrier, is_target, lemma_extracted_len,
    slots_below,
};
use crate::color_channel::Channel;
use crate::decode::{extract_result, DecodeError};
use crate::encode::{embed_result, EncodeError};
use crate::message_iter::{frame_bits, frame_bytes};
use crate::pixel_grid::Raster;
use vstd::prelude::*;
use vstd::utf8::{encode_utf8, encode_utf8_decode_utf8, encode_utf8_valid_utf8};

verus! {

/// The bits read from a raster into which `bits` were written begin with
/// `bits`, as far as the carriers among the first `j` bytes reach.
pub proof fn lemma_extracted_of_embedded(
    data: Seq<u8>,
    bits: Seq<bool>,
    channels: Seq<Channel>,
    offsets: Seq<u32>,
    skip: u32,
    j: nat,
)
    requires
        j <= data.len(),
    ensures
        forall|r: int|
            0 <= r < slots_below(channels, offsets, skip, j) && r < bits.len() ==> extracted(
                embedded(data, bits, channels, offsets, skip),
                channels,
                offsets,
                skip,
                j,
            )[r] == bits[r],
    decreases j,
{
    if j > 0 {
        let i = (j - 1) as nat;
        let out = embedded(data, bits, channels, offsets, skip);
        lemma_extracted_of_embedded(data, bits, channels, offsets, skip, i);
        lemma_extracted_len(out, channels, offsets, skip, i);
        let slot = slots_below(channels, offsets, skip, i);
        if is_carrier(channels, offsets, skip, i) && slot < bits.len() {
            assert(out[i as int] == embedded_byte(data, bits, channels, offsets, skip, i));
            lemma_lsb_of_with_lsb(data[i as int], bits[slot as int]);
        }
    }
}

/// A text that was written into a raster with room for its frame is read
/// back from the result, with the same masks, gaps and skip, as it was.
pub proof fn lemma_round_trip(
    grid: Raster,
    text: Seq<char>,
    channels: Seq<Channel>,
    offsets: Seq<u32>,
    skip: u32,
)
    requires
        channels.len() > 0,
        offsets.len() > 0,
        grid.data.len() == 4 * (grid.width * grid.height),
        encode_utf8(text).len() <= u64::MAX,
        frame_bits(text).len() <= capacity(channels, offsets, skip, grid.width * grid.height),
    ensures
        embed_result(grid, text, channels, offsets, skip) is Ok,
        extract_result(
            embed_result(grid, text, channels, offsets, skip)->Ok_0,
            channels,
            offsets,
            skip,
        ) == Ok::<Seq<char>, DecodeError>(text),
{
    let payload = encode_utf8(text);
    let frame = frame_bytes(payload);
    let bits = frame_bits(text);
    let out = embedded(grid.data, bits, channels, offsets, skip);
    let read = extracted(out, channels, offsets, skip, out.len());
    let bytes = bits_to_bytes(read);
    lemma_extracted_of_embedded(grid.data, bits, channels, offsets, skip, grid.data.len());
    lemma_extracted_len(out, channels, offsets, skip, out.len());
    lemma_be_value_of_be_bytes(payload.len() as u64);
    assert(frame.len() == 8 + payload.len());
    assert(bits.len() == 8 * frame.len());
    assert(bytes.len() >= frame.len());
    assert forall|j: int| 0 <= j < frame.len() implies bytes[j] == frame[j] by {
        assert forall|i: int| 0 <= i < 8 implies read[8 * j + i] == bit_of(frame[j], i) by {
            assert(read[8 * j + i] == bits[8 * j + i]);
            assert((8 * j + i) / 8 == j);
            assert((8 * j + i) % 8 == i);
        }
        lemma_group_of_byte(read, 8 * j, frame[j]);
    }
    assert forall|i: int| 0 <= i < 8 implies bytes[i] == #[trigger] be_bytes(payload.len() as u64)[i] by {
        assert(bytes[i] == frame[i]);
    }
    assert(bytes.subrange(8, 8 + payload.len() as int) =~= payload);
    encode_utf8_valid_utf8(text);
    encode_utf8_decode_utf8(text);
}

/// Writing touches nothing but the last bit of carriers: a byte of a pixel
/// that is no target stays, a byte of a component that no mask marks stays,
/// and of every byte the seven upper bits stay.
pub proof fn lemma_channel_isolation(
    data: Seq<u8>,
    bits: Seq<bool>,
    channels: Seq<Channel>,
    offsets: Seq<u32>,
    skip: u32,
    j: nat,
)
    requires
        channels.len() > 0,
        j < data.len(),
    ensures
        !is_target(offsets, skip, j / 4) ==> embedded(data, bits, channels, offsets, skip)[j as int]
            == data[j as int],
        (forall|i: int| 0 <= i < channels.len() ==> !channels[i].marks(j as int % 4)) ==> embedded(
            data,
            bits,
            channels,
            offsets,
            skip,
        )[j as int] == data[j as int],
        embedded(data, bits, channels, offsets, skip)[j as int] >> 1u8 == data[j as int] >> 1u8,
        embedded(data, bits, channels, offsets, skip).len() == data.len(),
{
    let slot = slots_below(channels, offsets, skip, j);
    if is_carrier(channels, offsets, skip, j) && slot < bits.len() {
        lemma_with_lsb_keeps_upper_bits(data[j as int], bits[slot as int]);
    }
}

/// A raster with fewer than sixty-four carriers holds no frame: reading it
/// fails for want of bytes.
pub proof fn lemma_underflow(grid: Raster, channels: Seq<Channel>, offsets: Seq<u32>, skip: u32)
    requires
        channels.len() > 0,
        offsets.len() > 0,
        slots_below(channels, offsets, skip, grid.data.len()) < 64,
    ensures
        extract_result(grid, channels, offsets, skip) == Err::<Seq<char>, DecodeError>(
            DecodeError::Underflow,
        ),
{
    lemma_extracted_len(grid.data, channels, offsets, skip, grid.data.len());
}

/// A text whose frame has more bits than the raster has carriers is not
/// written, whatever the raster holds.
pub proof fn lemma_capacity_exceeded(
    grid: Raster,
    text: Seq<char>,
    channels: Seq<Channel>,
    offsets: Seq<u32>,
    skip: u32,
)
    requires
        channels.len() > 0,
        offsets.len() > 0,
    ensures
        embed_result(grid, text, channels, offsets, skip) == Err::<Raster, EncodeError>(
            EncodeError::Capacity,
        ) <==> frame_bits(text).len() > capacity(channels, offsets, skip, grid.width * grid.height),
        frame_bits(text).len() == 8 * (8 + encode_utf8(text).len()),
{
}

} // verus!
