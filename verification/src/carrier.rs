//! Which bytes of a raster carry payload, and what a raster holds after a
//! payload was written into it. A raster is a flat sequence of bytes, four
//! for each pixel in the order red, green, blue, alpha, the pixels in
//! row-major order: byte `j` is component `j % 4` of pixel `j / 4`.

use crate::bits::{lsb, with_lsb};
use crate::color_channel::Channel;
use crate::offset_iter::{lemma_target_from_base, lemma_target_increasing, target};
use vstd::prelude::*;

verus! {

/// How many targets of the schedule lie below pixel `p`.
pub open spec fn targets_below(offsets: Seq<u32>, skip: u32, p: nat) -> nat
    decreases p,
{
    if p == 0 {
        0
    } else {
        let k = targets_below(offsets, skip, (p - 1) as nat);
        if target(offsets, skip, k) == p - 1 {
            k + 1
        } else {
            k
        }
    }
}

/// Whether pixel `p` is a target of the schedule.
pub open spec fn is_target(offsets: Seq<u32>, skip: u32, p: nat) -> bool {
    target(offsets, skip, targets_below(offsets, skip, p)) == p
}

/// The mask that falls to pixel `p` if it is a target: the masks go to the
/// targets in turn, the first mask to the first target.
pub open spec fn mask_of(channels: Seq<Channel>, offsets: Seq<u32>, skip: u32, p: nat) -> Channel {
    channels[targets_below(offsets, skip, p) as int % channels.len() as int]
}

/// Whether byte `j` of a raster carries a payload bit: its pixel is a target
/// and the mask of that target marks its component.
pub open spec fn is_carrier(channels: Seq<Channel>, offsets: Seq<u32>, skip: u32, j: nat) -> bool {
    &&& is_target(offsets, skip, j / 4)
    &&& mask_of(channels, offsets, skip, j / 4).marks(j as int % 4)
}

/// One for a byte that counts, nothing for one that does not.
pub open spec fn step(counts: bool) -> nat {
    if counts {
        1
    } else {
        0
    }
}

/// How many carriers lie below byte `j`. For a carrier this is the place in
/// the payload of the bit that it carries.
pub open spec fn slots_below(channels: Seq<Channel>, offsets: Seq<u32>, skip: u32, j: nat) -> nat
    decreases j,
{
    if j == 0 {
        0
    } else {
        slots_below(channels, offsets, skip, (j - 1) as nat) + step(
            is_carrier(channels, offsets, skip, (j - 1) as nat),
        )
    }
}

/// How many payload bits a raster of `pixels` pixels can carry.
pub open spec fn capacity(channels: Seq<Channel>, offsets: Seq<u32>, skip: u32, pixels: nat) -> nat {
    slots_below(channels, offsets, skip, 4 * pixels)
}

/// Byte `j` of the raster `data` after `bits` were written into it: a
/// carrier that has a bit to carry ends in that bit, every other byte is as
/// it was.
pub open spec fn embedded_byte(
    data: Seq<u8>,
    bits: Seq<bool>,
    channels: Seq<Channel>,
    offsets: Seq<u32>,
    skip: u32,
    j: nat,
) -> u8 {
    let slot = slots_below(channels, offsets, skip, j);
    if is_carrier(channels, offsets, skip, j) && slot < bits.len() {
        with_lsb(data[j as int], bits[slot as int])
    } else {
        data[j as int]
    }
}

/// The raster `data` after `bits` were written into it.
pub open spec fn embedded(
    data: Seq<u8>,
    bits: Seq<bool>,
    channels: Seq<Channel>,
    offsets: Seq<u32>,
    skip: u32,
) -> Seq<u8> {
    Seq::new(data.len(), |j: int| embedded_byte(data, bits, channels, offsets, skip, j as nat))
}

/// The bits read from the carriers among the first `j` bytes of `data`, in
/// order.
pub open spec fn extracted(
    data: Seq<u8>,
    channels: Seq<Channel>,
    offsets: Seq<u32>,
    skip: u32,
    j: nat,
) -> Seq<bool>
    decreases j,
{
    if j == 0 {
        Seq::empty()
    } else {
        let before = extracted(data, channels, offsets, skip, (j - 1) as nat);
        if is_carrier(channels, offsets, skip, (j - 1) as nat) {
            before.push(lsb(data[j - 1]))
        } else {
            before
        }
    }
}

/// `targets_below` counts what its name says: of the targets, exactly the
/// first `targets_below(p)` lie below `p`.
pub proof fn lemma_targets_below(offsets: Seq<u32>, skip: u32, p: nat)
    requires
        offsets.len() > 0,
    ensures
        targets_below(offsets, skip, p) <= p,
        target(offsets, skip, targets_below(offsets, skip, p)) >= p,
        forall|k: nat| k < targets_below(offsets, skip, p) ==> target(offsets, skip, k) < p,
        forall|k: nat| k >= targets_below(offsets, skip, p) ==> target(offsets, skip, k) >= p,
    decreases p,
{
    let n = targets_below(offsets, skip, p);
    if p == 0 {
        lemma_target_from_base(offsets, skip, 0);
    } else {
        lemma_targets_below(offsets, skip, (p - 1) as nat);
        let m = targets_below(offsets, skip, (p - 1) as nat);
        if target(offsets, skip, m) == p - 1 {
            lemma_target_increasing(offsets, skip, m, m + 1);
        }
    }
    assert forall|k: nat| k >= n implies target(offsets, skip, k) >= p by {
        if k > n {
            lemma_target_increasing(offsets, skip, n, k);
        }
    }
}

/// A pixel is a target exactly if the schedule names it.
pub proof fn lemma_is_target(offsets: Seq<u32>, skip: u32, p: nat)
    requires
        offsets.len() > 0,
    ensures
        is_target(offsets, skip, p) <==> exists|k: nat| target(offsets, skip, k) == p,
{
    lemma_targets_below(offsets, skip, p);
    let n = targets_below(offsets, skip, p);
    if exists|k: nat| target(offsets, skip, k) == p {
        let k = choose|k: nat| target(offsets, skip, k) == p;
        if k > n {
            lemma_target_increasing(offsets, skip, n, k);
        }
    }
}

/// The four bytes of pixel `p` hold carriers exactly where `p` is a target
/// and its mask marks the component, and the count of carriers grows by one
/// over each of them.
pub proof fn lemma_pixel_carriers(channels: Seq<Channel>, offsets: Seq<u32>, skip: u32, p: nat)
    ensures
        is_carrier(channels, offsets, skip, 4 * p) == (is_target(offsets, skip, p) && mask_of(
            channels,
            offsets,
            skip,
            p,
        ).red),
        is_carrier(channels, offsets, skip, 4 * p + 1) == (is_target(offsets, skip, p) && mask_of(
            channels,
            offsets,
            skip,
            p,
        ).green),
        is_carrier(channels, offsets, skip, 4 * p + 2) == (is_target(offsets, skip, p) && mask_of(
            channels,
            offsets,
            skip,
            p,
        ).blue),
        is_carrier(channels, offsets, skip, 4 * p + 3) == (is_target(offsets, skip, p) && mask_of(
            channels,
            offsets,
            skip,
            p,
        ).alpha),
        slots_below(channels, offsets, skip, 4 * p + 1) == slots_below(channels, offsets, skip, 4 * p)
            + step(is_carrier(channels, offsets, skip, 4 * p)),
        slots_below(channels, offsets, skip, 4 * p + 2) == slots_below(
            channels,
            offsets,
            skip,
            4 * p + 1,
        ) + step(is_carrier(channels, offsets, skip, 4 * p + 1)),
        slots_below(channels, offsets, skip, 4 * p + 3) == slots_below(
            channels,
            offsets,
            skip,
            4 * p + 2,
        ) + step(is_carrier(channels, offsets, skip, 4 * p + 2)),
        slots_below(channels, offsets, skip, 4 * p + 4) == slots_below(
            channels,
            offsets,
            skip,
            4 * p + 3,
        ) + step(is_carrier(channels, offsets, skip, 4 * p + 3)),
{
    assert((4 * p) / 4 == p && (4 * p) as int % 4 == 0);
    assert((4 * p + 1) / 4 == p && (4 * p + 1) as int % 4 == 1);
    assert((4 * p + 2) / 4 == p && (4 * p + 2) as int % 4 == 2);
    assert((4 * p + 3) / 4 == p && (4 * p + 3) as int % 4 == 3);
}

/// How many components the masks of the first `k` targets mark together.
pub open spec fn weights(channels: Seq<Channel>, k: nat) -> nat
    decreases k,
{
    if k == 0 {
        0
    } else {
        weights(channels, (k - 1) as nat) + channels[(k - 1) as int % channels.len() as int].weight()
    }
}

/// A raster carries as many bits as the masks of the targets that lie in it
/// mark components.
pub proof fn lemma_capacity(channels: Seq<Channel>, offsets: Seq<u32>, skip: u32, pixels: nat)
    ensures
        capacity(channels, offsets, skip, pixels) == weights(
            channels,
            targets_below(offsets, skip, pixels),
        ),
    decreases pixels,
{
    if pixels > 0 {
        let p = (pixels - 1) as nat;
        lemma_capacity(channels, offsets, skip, p);
        lemma_pixel_carriers(channels, offsets, skip, p);
        assert(4 * p + 4 == 4 * pixels);
    }
}

/// The bits read from the first `j` bytes are as many as the carriers among
/// those bytes.
pub proof fn lemma_extracted_len(
    data: Seq<u8>,
    channels: Seq<Channel>,
    offsets: Seq<u32>,
    skip: u32,
    j: nat,
)
    ensures
        extracted(data, channels, offsets, skip, j).len() == slots_below(channels, offsets, skip, j),
    decreases j,
{
    if j > 0 {
        lemma_extracted_len(data, channels, offsets, skip, (j - 1) as nat);
    }
}

} // verus!
