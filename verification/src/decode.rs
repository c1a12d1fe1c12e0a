//! Reading a text back from a raster.

use crate::bits::{be_value, bit_value, bits_to_bytes, from_be_bytes, group_bits};
use crate::carrier::{extracted, is_target, lemma_pixel_carriers, mask_of, targets_below};
use crate::color_channel::{Channel, ChannelIter};
use crate::offset_iter::{lemma_target_increasing, target, OffsetIter};
use crate::pixel_grid::{raster_of, PixelGrid, Raster};
use image::DynamicImage;
use core::str::Utf8Error;
use vstd::prelude::*;
use vstd::slice::{slice_subrange, slice_to_vec};
use vstd::utf8::{decode_utf8, encode_utf8, encode_utf8_decode_utf8, valid_utf8};

verus! {

/// The error of `core::str::from_utf8`; nothing is read from it.
#[verifier::external_type_specification]
#[verifier::external_body]
pub struct ExUtf8Error(Utf8Error);

/// `core::str::from_utf8` accepts exactly the byte sequences that are
/// well-formed UTF-8, and the string that it gives has those bytes.
pub assume_specification[ core::str::from_utf8 ](v: &[u8]) -> (r: Result<&str, Utf8Error>)
    ensures
        r is Ok <==> valid_utf8(v@),
        r is Ok ==> encode_utf8(r->Ok_0@) == v@,
;

/// Why no text could be read from a raster.
#[derive(Clone, Copy, Debug, PartialEq, Eq)]
pub enum DecodeError {
    /// The list of masks or the list of gaps is empty.
    Configuration,
    /// Fewer than eight bytes were read, or fewer after them than the length
    /// that the first eight state.
    Underflow,
    /// The bytes of the payload are not well-formed UTF-8.
    Encoding,
}

impl DecodeError {
    /// The words for the error.
    pub open spec fn text(self) -> Seq<char> {
        match self {
            DecodeError::Configuration => "No channels or no offsets given"@,
            DecodeError::Underflow => "Too few bytes for the message"@,
            DecodeError::Encoding => "Message is not valid UTF-8"@,
        }
    }

    /// The words for the error.
    pub fn message(&self) -> (r: &'static str)
        ensures
            r@ == self.text(),
    {
        match self {
            DecodeError::Configuration => "No channels or no offsets given",
            DecodeError::Underflow => "Too few bytes for the message",
            DecodeError::Encoding => "Message is not valid UTF-8",
        }
    }
}

/// The text in a frame that stands at the start of `bytes`, or the reason
/// why there is none.
pub open spec fn unframe_result(bytes: Seq<u8>) -> Result<Seq<char>, DecodeError> {
    if bytes.len() < 8 {
        Err(DecodeError::Underflow)
    } else if be_value(bytes) > bytes.len() - 8 {
        Err(DecodeError::Underflow)
    } else if !valid_utf8(bytes.subrange(8, 8 + be_value(bytes))) {
        Err(DecodeError::Encoding)
    } else {
        Ok(decode_utf8(bytes.subrange(8, 8 + be_value(bytes))))
    }
}

/// What reading `grid` gives: the text framed in the bits of its carriers, or
/// the reason why there is none.
pub open spec fn extract_result(
    grid: Raster,
    channels: Seq<Channel>,
    offsets: Seq<u32>,
    skip: u32,
) -> Result<Seq<char>, DecodeError> {
    if channels.len() == 0 || offsets.len() == 0 {
        Err(DecodeError::Configuration)
    } else {
        unframe_result(bits_to_bytes(extracted(grid.data, channels, offsets, skip, grid.data.len())))
    }
}

/// Packs bits into bytes, eight to a byte and the first bit of each group the
/// most significant; a last group of fewer than eight bits is dropped.
pub fn to_bytes(message: Vec<bool>) -> (result: Vec<u8>)
    ensures
        result@ == bits_to_bytes(message@),
        result@.len() == message@.len() / 8,
{
    let mut result: Vec<u8> = Vec::new();
    let mut byte: u8 = 0;
    let mut i: usize = 0;
    while i < message.len()
        invariant
            i <= message@.len(),
            result@.len() == i / 8,
            forall|j: int| 0 <= j < i / 8 ==> #[trigger] result@[j] == group_bits(message@, 8 * j, 8),
            byte == group_bits(message@, 8 * (i as int / 8), (i % 8) as nat),
        decreases message@.len() - i,
    {
        let value: u8 = if message[i] {
            1
        } else {
            0
        };
        let shift: u8 = (7 - i % 8) as u8;
        proof {
            assert(value == bit_value(message@[8 * (i as int / 8) + (i % 8)]));
            assert(shift == ((8 - (i % 8 + 1)) as u8));
        }
        byte = byte | (value << shift);
        if i % 8 == 7 {
            result.push(byte);
            byte = 0;
        }
        i += 1;
    }
    assert(result@ =~= bits_to_bytes(message@));
    result
}

/// Reads the frame at the start of `bytes`: eight bytes of length, then that
/// many bytes of UTF-8.
pub fn unframe(bytes: &[u8]) -> (r: Result<String, DecodeError>)
    ensures
        r matches Ok(text) ==> unframe_result(bytes@) == Ok::<Seq<char>, DecodeError>(text@),
        r matches Err(e) ==> unframe_result(bytes@) == Err::<Seq<char>, DecodeError>(e),
{
    if bytes.len() < 8 {
        return Err(DecodeError::Underflow);
    }
    let length = from_be_bytes(bytes);
    if length > (bytes.len() - 8) as u64 {
        return Err(DecodeError::Underflow);
    }
    let message_bytes = slice_subrange(bytes, 8, 8 + length as usize);
    match core::str::from_utf8(message_bytes) {
        Ok(text) => {
            proof {
                encode_utf8_decode_utf8(text@);
            }
            Ok(text.to_owned())
        },
        Err(_) => Err(DecodeError::Encoding),
    }
}

/// Reads the text that was written into `grid`: the least significant bits of
/// its carriers, in order, packed into bytes and unframed.
pub fn extract(grid: &PixelGrid, channels: Vec<Channel>, offsets: &[u32], skip: u32) -> (r: Result<
    String,
    DecodeError,
>)
    ensures
        r matches Ok(text) ==> extract_result(grid@, channels@, offsets@, skip) == Ok::<
            Seq<char>,
            DecodeError,
        >(text@),
        r matches Err(e) ==> extract_result(grid@, channels@, offsets@, skip) == Err::<
            Seq<char>,
            DecodeError,
        >(e),
{
    if channels.len() == 0 || offsets.len() == 0 {
        return Err(DecodeError::Configuration);
    }
    let ghost masks = channels@;
    let ghost gaps = offsets@;
    let source = grid.as_bytes();
    let pixels = grid.pixel_count();
    let mut message: Vec<bool> = Vec::new();
    let mut channel_iter = ChannelIter::new(channels);
    let mut offset_iter = OffsetIter::new(slice_to_vec(offsets), skip);
    let mut next_data_index = offset_iter.next();
    let mut index: usize = 0;
    let ghost mut k: nat = 0;
    while index < pixels
        invariant
            index <= pixels,
            source@.len() == 4 * pixels,
            4 * pixels <= usize::MAX,
            masks.len() > 0,
            gaps.len() > 0,
            k == targets_below(gaps, skip, index as nat),
            channel_iter.channels() == masks,
            channel_iter.cursor() == k as int % masks.len() as int,
            target(gaps, skip, k) >= index,
            offset_iter.offsets() == gaps,
            match next_data_index {
                Some(t) => t == target(gaps, skip, k) && offset_iter.at(skip, k + 1),
                None => target(gaps, skip, k) >= usize::MAX,
            },
            message@ == extracted(source@, masks, gaps, skip, 4 * (index as nat)),
        decreases pixels - index,
    {
        proof {
            lemma_pixel_carriers(masks, gaps, skip, index as nat);
            reveal_with_fuel(extracted, 5);
        }
        if next_data_index == Some(index) {
            let channel = channel_iter.next().unwrap();
            assert(is_target(gaps, skip, index as nat));
            assert(channel == mask_of(masks, gaps, skip, index as nat));
            if channel.red {
                message.push((source[4 * index] & 1) == 1);
            }
            if channel.green {
                message.push((source[4 * index + 1] & 1) == 1);
            }
            if channel.blue {
                message.push((source[4 * index + 2] & 1) == 1);
            }
            if channel.alpha {
                message.push((source[4 * index + 3] & 1) == 1);
            }
            proof {
                lemma_target_increasing(gaps, skip, k, k + 1);
                vstd::arithmetic::div_mod::lemma_add_mod_noop_right(1, k as int, masks.len() as int);
                k = k + 1;
            }
            next_data_index = offset_iter.next();
        } else {
            assert(!is_target(gaps, skip, index as nat));
        }
        proof {
            assert(message@ == extracted(source@, masks, gaps, skip, 4 * (index as nat) + 4));
        }
        index += 1;
    }
    let bytes = to_bytes(message);
    unframe(bytes.as_slice())
}

/// Reads the text that was written into the pixels of `from`.
pub fn decode(from: DynamicImage, channels: Vec<Channel>, offsets: &[u32], skip: u32) -> (r: Result<
    String,
    DecodeError,
>)
    ensures
        r matches Ok(text) ==> extract_result(raster_of(from), channels@, offsets@, skip) == Ok::<
            Seq<char>,
            DecodeError,
        >(text@),
        r matches Err(e) ==> extract_result(raster_of(from), channels@, offsets@, skip) == Err::<
            Seq<char>,
            DecodeError,
        >(e),
{
    let grid = PixelGrid::from_image(&from);
    extract(&grid, channels, offsets, skip)
}

} // verus!
