//! Writing a text into a raster.

use crate::bits::with_lsb;
use crate::carrier::{
    capacity, embedded, embedded_byte, is_target, lemma_pixel_carriers, mask_of, slots_below,
    targets_below,
};
use crate::color_channel::{Channel, ChannelIter};
use crate::message_iter::{frame_bits, MessageIter};
use crate::offset_iter::{lemma_target_increasing, target, OffsetIter};
use crate::pixel_grid::{raster_of, PixelGrid, Raster};
use image::DynamicImage;
use vstd::prelude::*;
use vstd::slice::slice_to_vec;

verus! {

/// Why a text could not be written into a raster.
#[derive(Clone, Copy, Debug, PartialEq, Eq)]
pub enum EncodeError {
    /// The list of masks or the list of gaps is empty.
    Configuration,
    /// The frame of the text has more bits than the raster has carriers.
    Capacity,
}

impl EncodeError {
    /// The words for the error.
    pub open spec fn text(self) -> Seq<char> {
        match self {
            EncodeError::Configuration => "No channels or no offsets given"@,
            EncodeError::Capacity => "Message too long or offsets too sparse"@,
        }
    }

    /// The words for the error.
    pub fn message(&self) -> (r: &'static str)
        ensures
            r@ == self.text(),
    {
        match self {
            EncodeError::Configuration => "No channels or no offsets given",
            EncodeError::Capacity => "Message too long or offsets too sparse",
        }
    }
}

/// What writing `text` into `grid` gives: the grid with the bits of the
/// frame in its carriers, or the reason why there is none.
pub open spec fn embed_result(
    grid: Raster,
    text: Seq<char>,
    channels: Seq<Channel>,
    offsets: Seq<u32>,
    skip: u32,
) -> Result<Raster, EncodeError> {
    if channels.len() == 0 || offsets.len() == 0 {
        Err(EncodeError::Configuration)
    } else if frame_bits(text).len() > capacity(channels, offsets, skip, grid.width * grid.height) {
        Err(EncodeError::Capacity)
    } else {
        Ok(
            Raster {
                width: grid.width,
                height: grid.height,
                data: embedded(grid.data, frame_bits(text), channels, offsets, skip),
            },
        )
    }
}

/// One component of a target pixel: where the mask marks it and a bit is
/// left, the component ends in that bit; else it stays.
fn carry(value: u8, marked: bool, message: &mut MessageIter) -> (r: u8)
    ensures
        final(message).bits() == old(message).bits(),
        marked && old(message).position() < old(message).bits().len() ==> {
            &&& r == with_lsb(value, old(message).bits()[old(message).position() as int])
            &&& final(message).position() == old(message).position() + 1
        },
        !(marked && old(message).position() < old(message).bits().len()) ==> {
            &&& r == value
            &&& final(message).position() == old(message).position()
        },
{
    if marked {
        if let Some(bit) = message.next() {
            return if bit {
                value | 1
            } else {
                value & !1
            };
        }
    }
    value
}

/// Writes `text` into a copy of `grid`: the bits of its frame go, in order,
/// into the least significant bits of the carriers.
pub fn embed(
    grid: &PixelGrid,
    text: &str,
    channels: Vec<Channel>,
    offsets: &[u32],
    skip: u32,
) -> (r: Result<PixelGrid, EncodeError>)
    ensures
        r matches Ok(g) ==> embed_result(grid@, text@, channels@, offsets@, skip) == Ok::<
            Raster,
            EncodeError,
        >(g@),
        r matches Err(e) ==> embed_result(grid@, text@, channels@, offsets@, skip) == Err::<
            Raster,
            EncodeError,
        >(e),
{
    if channels.len() == 0 || offsets.len() == 0 {
        return Err(EncodeError::Configuration);
    }
    let ghost masks = channels@;
    let ghost gaps = offsets@;
    let source = grid.as_bytes();
    let pixels = grid.pixel_count();
    let mut result: Vec<u8> = Vec::new();
    let mut message_iter = MessageIter::new(text);
    let ghost bits = message_iter.bits();
    let mut channel_iter = ChannelIter::new(channels);
    let mut offset_iter = OffsetIter::new(slice_to_vec(offsets), skip);
    let mut next_data_index = offset_iter.next();
    let mut index: usize = 0;
    let ghost mut k: nat = 0;
    let ghost mut slots: nat = 0;
    while index < pixels
        invariant
            index <= pixels,
            source@.len() == 4 * pixels,
            4 * pixels <= usize::MAX,
            masks.len() > 0,
            gaps.len() > 0,
            result@.len() == 4 * index,
            k == targets_below(gaps, skip, index as nat),
            slots == slots_below(masks, gaps, skip, 4 * (index as nat)),
            channel_iter.channels() == masks,
            channel_iter.cursor() == k as int % masks.len() as int,
            target(gaps, skip, k) >= index,
            offset_iter.offsets() == gaps,
            match next_data_index {
                Some(t) => t == target(gaps, skip, k) && offset_iter.at(skip, k + 1),
                None => target(gaps, skip, k) >= usize::MAX,
            },
            message_iter.bits() == bits,
            message_iter.position() == if slots < bits.len() {
                slots
            } else {
                bits.len()
            },
            forall|j: int|
                0 <= j < 4 * index ==> #[trigger] result@[j] == embedded_byte(
                    source@,
                    bits,
                    masks,
                    gaps,
                    skip,
                    j as nat,
                ),
        decreases pixels - index,
    {
        let mut red = source[4 * index];
        let mut green = source[4 * index + 1];
        let mut blue = source[4 * index + 2];
        let mut alpha = source[4 * index + 3];
        proof {
            lemma_pixel_carriers(masks, gaps, skip, index as nat);
        }
        if next_data_index == Some(index) {
            let channel = channel_iter.next().unwrap();
            assert(is_target(gaps, skip, index as nat));
            assert(channel == mask_of(masks, gaps, skip, index as nat));
            red = carry(red, channel.red, &mut message_iter);
            green = carry(green, channel.green, &mut message_iter);
            blue = carry(blue, channel.blue, &mut message_iter);
            alpha = carry(alpha, channel.alpha, &mut message_iter);
            proof {
                lemma_target_increasing(gaps, skip, k, k + 1);
                vstd::arithmetic::div_mod::lemma_add_mod_noop_right(1, k as int, masks.len() as int);
                k = k + 1;
            }
            next_data_index = offset_iter.next();
        } else {
            assert(!is_target(gaps, skip, index as nat));
        }
        proof {
            slots = slots_below(masks, gaps, skip, 4 * (index as nat) + 4);
            assert(red == embedded_byte(source@, bits, masks, gaps, skip, 4 * (index as nat)));
            assert(green == embedded_byte(source@, bits, masks, gaps, skip, 4 * (index as nat) + 1));
            assert(blue == embedded_byte(source@, bits, masks, gaps, skip, 4 * (index as nat) + 2));
            assert(alpha == embedded_byte(source@, bits, masks, gaps, skip, 4 * (index as nat) + 3));
        }
        result.push(red);
        result.push(green);
        result.push(blue);
        result.push(alpha);
        index += 1;
    }
    if message_iter.next().is_some() {
        Err(EncodeError::Capacity)
    } else {
        proof {
            assert(result@ =~= embedded(source@, bits, masks, gaps, skip));
        }
        Ok(PixelGrid::from_parts(grid.width(), grid.height(), result))
    }
}

/// Writes `text` into the pixels of `onto` and gives the result as an RGBA
/// image of the same extent.
pub fn encode(
    onto: DynamicImage,
    text: &str,
    channels: Vec<Channel>,
    offsets: &[u32],
    skip: u32,
) -> (r: Result<DynamicImage, EncodeError>)
    ensures
        r matches Ok(img) ==> embed_result(raster_of(onto), text@, channels@, offsets@, skip) == Ok::<
            Raster,
            EncodeError,
        >(raster_of(img)),
        r matches Err(e) ==> embed_result(raster_of(onto), text@, channels@, offsets@, skip) == Err::<
            Raster,
            EncodeError,
        >(e),
{
    let grid = PixelGrid::from_image(&onto);
    match embed(&grid, text, channels, offsets, skip) {
        Ok(result) => {
            let pixels = result.pixel_count();
            proof {
                let width = result@.width;
                let height = result@.height;
                assert(frame_bits(text@).len() >= 64);
                assert(capacity(channels@, offsets@, skip, width * height) > 0);
                assert(width * height > 0);
                assert(4 * width <= 4 * (width * height)) by (nonlinear_arith)
                    requires
                        width * height > 0,
                ;
            }
            match result.into_image() {
                Some(img) => Ok(img),
                None => unreached(),
            }
        },
        Err(e) => Err(e),
    }
}

} // verus!
