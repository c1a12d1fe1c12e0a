//! Channel masks, and the cursor that hands them out in a cycle.

use vstd::prelude::*;

verus! {

/// Which of the four components of a pixel carry payload bits.
#[derive(Clone, Copy, Debug)]
pub struct Channel {
    pub red: bool,
    pub green: bool,
    pub blue: bool,
    pub alpha: bool,
}

impl Channel {
    /// Whether the mask marks component `c` of a pixel, the components being
    /// numbered red 0, green 1, blue 2, alpha 3.
    pub open spec fn marks(self, c: int) -> bool {
        ||| c == 0 && self.red
        ||| c == 1 && self.green
        ||| c == 2 && self.blue
        ||| c == 3 && self.alpha
    }

    /// How many components the mask marks.
    pub open spec fn weight(self) -> nat {
        (if self.red { 1nat } else { 0nat }) + (if self.green { 1nat } else { 0nat }) + (if self.blue { 1nat } else { 0nat })
            + (if self.alpha { 1nat } else { 0nat })
    }
}

/// A non-empty list of masks with a cursor that wraps round.
pub struct ChannelIter {
    index: usize,
    channels: Vec<Channel>,
}

impl ChannelIter {
    #[verifier::type_invariant]
    spec fn inv(self) -> bool {
        self.index < self.channels@.len()
    }

    /// The masks, in the order in which they were given.
    pub closed spec fn channels(&self) -> Seq<Channel> {
        self.channels@
    }

    /// The place in the list of the mask that the next call hands out.
    pub closed spec fn cursor(&self) -> nat {
        self.index as nat
    }

    /// A cursor at the first mask of a non-empty list.
    pub fn new(channels: Vec<Channel>) -> (r: Self)
        requires
            channels@.len() > 0,
        ensures
            r.channels() == channels@,
            r.cursor() == 0,
    {
        Self { index: 0, channels }
    }

    /// The mask under the cursor; the cursor moves on by one and wraps to the
    /// start after the last mask.
    pub fn next(&mut self) -> (r: Option<Channel>)
        ensures
            old(self).cursor() < old(self).channels().len(),
            r == Some(old(self).channels()[old(self).cursor() as int]),
            final(self).channels() == old(self).channels(),
            final(self).cursor() == (old(self).cursor() as int + 1) % (old(self).channels().len() as int),
    {
        proof {
            use_type_invariant(&*self);
        }
        let len = self.channels.len();
        let channel = self.channels[self.index];
        self.index = (self.index + 1) % len;
        Some(channel)
    }
}

} // verus!
