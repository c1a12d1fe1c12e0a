//! The message frame and the cursor that hands out its bits.

use crate::bits::{be_bytes, bytes_to_bits, to_be_bytes};
use crate::utils::prepend;
use vstd::prelude::*;
use vstd::string::*;
use vstd::utf8::encode_utf8;

verus! {

/// The frame of a payload: its length in bytes as eight big-endian bytes,
/// then the payload.
pub open spec fn frame_bytes(payload: Seq<u8>) -> Seq<u8> {
    be_bytes(payload.len() as u64) + payload
}

/// The bits that carry a text: those of the frame of its UTF-8 form.
pub open spec fn frame_bits(text: Seq<char>) -> Seq<bool> {
    bytes_to_bits(frame_bytes(encode_utf8(text)))
}

/// The bits of a framed text that are still to be handed out.
pub struct MessageIter {
    frame: Vec<u8>,
    byte: usize,
    bit: u8,
}

impl View for MessageIter {
    type V = Seq<bool>;

    /// The bits that are still to come, in order.
    open spec fn view(&self) -> Seq<bool> {
        self.bits().skip(self.position() as int)
    }
}

impl MessageIter {
    #[verifier::type_invariant]
    spec fn inv(self) -> bool {
        &&& self.byte <= self.frame@.len()
        &&& self.bit < 8
        &&& self.byte == self.frame@.len() ==> self.bit == 0
    }

    /// All the bits of the frame, those handed out and those to come.
    pub closed spec fn bits(&self) -> Seq<bool> {
        bytes_to_bits(self.frame@)
    }

    /// How many bits were handed out.
    pub closed spec fn position(&self) -> nat {
        (8 * self.byte + self.bit) as nat
    }

    /// All the bits of the frame of `text`, none handed out yet.
    pub fn new(text: &str) -> (r: Self)
        ensures
            r.bits() == frame_bits(text@),
            r.position() == 0,
    {
        let payload = text.as_bytes_vec();
        let length = to_be_bytes(payload.len() as u64);
        let frame = prepend(payload, length.as_slice());
        assert(frame@ =~= frame_bytes(encode_utf8(text@)));
        MessageIter { frame, byte: 0, bit: 0 }
    }

    /// The next bit, or nothing once every bit of the frame was handed out.
    pub fn next(&mut self) -> (r: Option<bool>)
        ensures
            old(self).position() <= old(self).bits().len(),
            final(self).bits() == old(self).bits(),
            old(self).position() < old(self).bits().len() ==> {
                &&& r == Some(old(self).bits()[old(self).position() as int])
                &&& final(self).position() == old(self).position() + 1
            },
            old(self).position() == old(self).bits().len() ==> {
                &&& r is None
                &&& final(self).position() == old(self).position()
            },
    {
        proof {
            use_type_invariant(&*self);
        }
        if self.byte >= self.frame.len() {
            return None;
        }
        let ghost position = 8 * self.byte + self.bit;
        let value = self.frame[self.byte];
        let bit = (value >> (7 - self.bit)) & 1 == 1;
        proof {
            assert((position / 8) == self.byte);
            assert((position % 8) == self.bit);
        }
        if self.bit == 7 {
            self.bit = 0;
            self.byte = self.byte + 1;
        } else {
            self.bit = self.bit + 1;
        }
        Some(bit)
    }
}

} // verus!
