//! Frames: fixed-size units of physical memory, named by their index.

use vstd::prelude::*;

verus! {

/// The size of one frame, in bytes.
pub const FRAME_SIZE: usize = 4096;

/// The largest number of frames one table can track.
pub const MAX_FRAMES: usize = 1048576;

/// A byte offset into physical memory. It need not be aligned.
pub type PhysicalAddress = usize;

/// The number of the frame that holds the byte at `address`.
pub open spec fn frame_number(address: int) -> int {
    address / (FRAME_SIZE as int)
}

/// A frame, known by its number alone.
#[derive(Clone, Copy, Debug, PartialEq, Eq, PartialOrd, Ord, Hash, Structural)]
pub struct Frame {
    pub number: usize,
}

impl Frame {
    /// The frame that holds the byte at `address`.
    pub fn containing_address(address: PhysicalAddress) -> (frame: Frame)
        ensures
            frame.number == frame_number(address as int),
            frame.number * FRAME_SIZE <= address < (frame.number + 1) * FRAME_SIZE,
    {
        Frame { number: address / FRAME_SIZE }
    }

    /// The address of the frame's first byte, where it fits in an address.
    pub fn start_address(&self) -> (address: Option<PhysicalAddress>)
        ensures
            address == (if self.number * FRAME_SIZE <= usize::MAX {
                Some((self.number * FRAME_SIZE) as usize)
            } else {
                None
            }),
    {
        self.number.checked_mul(FRAME_SIZE)
    }

    /// The frames from `start` to `end`, both included, in rising order.
    pub fn range_inclusive(start: Frame, end: Frame) -> (range: FrameRange)
        ensures
            range@ == frames_between(start.number as int, end.number as int),
    {
        FrameRange { next: start.number, last: end.number, exhausted: false }
    }
}

/// The frames numbered `first ..= last` in rising order; none if
/// `last < first`.
pub open spec fn frames_between(first: int, last: int) -> Seq<Frame> {
    if last < first {
        Seq::empty()
    } else {
        Seq::new((last - first + 1) as nat, |i: int| Frame { number: (first + i) as usize })
    }
}

/// A run of consecutive frames that hands them out one at a time.
#[derive(Clone, Copy, Debug)]
pub struct FrameRange {
    next: usize,
    last: usize,
    exhausted: bool,
}

impl View for FrameRange {
    type V = Seq<Frame>;

    /// The frames still to come.
    closed spec fn view(&self) -> Seq<Frame> {
        if self.exhausted {
            Seq::empty()
        } else {
            frames_between(self.next as int, self.last as int)
        }
    }
}

impl FrameRange {
    /// Whether no frame is left.
    pub fn is_empty(&self) -> (empty: bool)
        ensures
            empty == (self@.len() == 0),
    {
        self.exhausted || self.last < self.next
    }

    /// Takes the first of the remaining frames.
    pub fn next(&mut self) -> (frame: Option<Frame>)
        ensures
            match frame {
                Some(f) => old(self)@.len() > 0 && f == old(self)@[0] && final(self)@
                    == old(self)@.drop_first(),
                None => old(self)@.len() == 0 && final(self)@ == old(self)@,
            },
    {
        if self.exhausted || self.last < self.next {
            None
        } else {
            let number: usize = self.next;
            if number == self.last {
                self.exhausted = true;
            } else {
                self.next = number + 1;
            }
            Some(Frame { number })
        }
    }
}

/// A frame's first byte lies in that frame, and the frame that holds an
/// address starts at or below it, less than one frame away.
pub proof fn lemma_frame_address_round_trip(number: int, address: int)
    requires
        0 <= number,
        0 <= address,
    ensures
        frame_number(number * FRAME_SIZE) == number,
        frame_number(address) * FRAME_SIZE <= address < (frame_number(address) + 1) * FRAME_SIZE,
{
    assert(number * 4096 / 4096 == number);
}

} // verus!
