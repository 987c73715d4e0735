//! The frame allocator: a reservation bit per frame in a `BitStore`, and a
//! hint below which no frame is free, so that a search never looks back.

use crate::frame::{frames_between, Frame, PhysicalAddress, FRAME_SIZE, MAX_FRAMES};
use crate::store::{
    store_bits, store_from_words, store_get, store_len, store_set, word_bit, word_bits, BitStore,
};
use crate::table::{lemma_next_allocated, FrameTable};
use vstd::prelude::*;

verus! {

/// Something that hands out frames and takes them back.
pub trait FrameAllocator {
    /// The state is one that the allocator's own operations produce.
    spec fn valid(&self) -> bool;

    /// The numbers of the frames that may be handed out.
    spec fn free_frames(&self) -> Set<int>;

    /// `frame` is one that the allocator keeps a record of.
    spec fn tracks(&self, frame: Frame) -> bool;

    /// Hands out a free frame, or nothing when none is free.
    fn allocate_frame(&mut self) -> (frame: Option<Frame>)
        requires
            old(self).valid(),
        ensures
            final(self).valid(),
            forall|f: Frame| #[trigger] final(self).tracks(f) == old(self).tracks(f),
            match frame {
                Some(f) => {
                    &&& old(self).tracks(f)
                    &&& old(self).free_frames().contains(f.number as int)
                    &&& final(self).free_frames() == old(self).free_frames().remove(
                        f.number as int,
                    )
                },
                None => {
                    &&& old(self).free_frames() == Set::<int>::empty()
                    &&& final(self).free_frames() == old(self).free_frames()
                },
            },
    ;

    /// Takes `frame` back: it is free afterwards.
    fn deallocate_frame(&mut self, frame: Frame)
        requires
            old(self).valid(),
            old(self).tracks(frame),
        ensures
            final(self).valid(),
            forall|f: Frame| #[trigger] final(self).tracks(f) == old(self).tracks(f),
            final(self).free_frames() == old(self).free_frames().insert(frame.number as int),
    ;
}

/// A frame allocator over a table of reservation bits.
pub struct BitmapFrameAllocator {
    frame_bitmap: BitStore,
    next_free_frame: usize,
    initialized: bool,
}

impl View for BitmapFrameAllocator {
    type V = FrameTable;

    closed spec fn view(&self) -> FrameTable {
        FrameTable {
            reserved: store_bits(self.frame_bitmap),
            hint: self.next_free_frame as nat,
            initialized: self.initialized,
        }
    }
}

/// Every bit of the all-ones word is set.
proof fn lemma_all_ones(position: usize)
    requires
        position < usize::BITS,
    ensures
        word_bit(usize::MAX, position),
{
    let word = usize::MAX as u64;
    let shift = position as u64;
    if usize::BITS == 32 {
        assert((word >> shift) & 1 == 1) by (bit_vector)
            requires
                word == 0xffff_ffffu64,
                shift < 32,
        ;
    } else {
        assert((word >> shift) & 1 == 1) by (bit_vector)
            requires
                word == 0xffff_ffff_ffff_ffffu64,
                shift < 64,
        ;
    }
}

/// The lowest index at or above `start` whose bit is clear.
fn first_unset(store: &BitStore, start: usize) -> (found: Option<usize>)
    ensures
        match found {
            Some(index) => {
                &&& start <= index < store_bits(*store).len()
                &&& !store_bits(*store)[index as int]
                &&& forall|i: int| start <= i < index ==> store_bits(*store)[i]
            },
            None => forall|i: int| start <= i < store_bits(*store).len() ==> store_bits(*store)[i],
        },
{
    let entries: usize = store_len(store);
    let mut index: usize = start;
    while index < entries
        invariant
            start <= index,
            entries == store_bits(*store).len(),
            forall|i: int| start <= i < index && i < entries ==> store_bits(*store)[i],
        decreases entries - index,
    {
        match store_get(store, index) {
            Some(0) => {
                return Some(index);
            },
            _ => {},
        }
        index = index + 1;
    }
    None
}

/// Writes `reserved` into the bits of the frames `start ..= end`.
fn set_frames(store: &mut BitStore, start: Frame, end: Frame, reserved: bool)
    requires
        end.number < store_bits(*old(store)).len(),
    ensures
        store_bits(*final(store)) == Seq::new(
            store_bits(*old(store)).len(),
            |f: int|
                if start.number <= f <= end.number {
                    reserved
                } else {
                    store_bits(*old(store))[f]
                },
        ),
{
    let value: u64 = if reserved {
        1
    } else {
        0
    };
    let mut range = Frame::range_inclusive(start, end);
    let ghost all = range@;
    let ghost before = store_bits(*store);
    let ghost mut done: int = 0;
    loop
        invariant
            all == frames_between(start.number as int, end.number as int),
            0 <= done <= all.len(),
            range@ == all.subrange(done, all.len() as int),
            end.number < before.len(),
            value == (if reserved {
                1u64
            } else {
                0u64
            }),
            store_bits(*store) == Seq::new(
                before.len(),
                |f: int|
                    if start.number <= f < start.number + done {
                        reserved
                    } else {
                        before[f]
                    },
            ),
        ensures
            done == all.len(),
        decreases all.len() - done,
    {
        match range.next() {
            Some(frame) => {
                store_set(store, frame.number, value);
                proof {
                    assert(range@ == all.subrange(done + 1, all.len() as int));
                    done = done + 1;
                }
            },
            None => {
                break ;
            },
        }
    }
}

impl BitmapFrameAllocator {
    /// An allocator over `MAX_FRAMES` frames, all of them reserved: memory
    /// counts as in use until it is reported available.
    pub fn new() -> (allocator: BitmapFrameAllocator)
        ensures
            allocator@ == FrameTable::all_reserved(MAX_FRAMES as nat),
            allocator@.wf(),
            forall|f: int| 0 <= f < MAX_FRAMES ==> allocator@.reserved[f],
    {
        BitmapFrameAllocator::with_capacity(MAX_FRAMES)
    }

    /// An allocator over `max_frames` frames, all of them reserved.
    pub fn with_capacity(max_frames: usize) -> (allocator: BitmapFrameAllocator)
        requires
            max_frames <= MAX_FRAMES,
        ensures
            allocator@ == FrameTable::all_reserved(max_frames as nat),
            allocator@.wf(),
            forall|f: int| 0 <= f < max_frames ==> allocator@.reserved[f],
    {
        let bits_per_word: usize = usize::BITS as usize;
        let word_count: usize = max_frames / bits_per_word + 1;
        let mut words: Vec<usize> = Vec::new();
        while words.len() < word_count
            invariant
                words.len() <= word_count,
                forall|w: int| 0 <= w < words.len() ==> words[w] == usize::MAX,
            decreases word_count - words.len(),
        {
            words.push(usize::MAX);
        }
        let ghost filled = words@;
        proof {
            assert(word_bits() == 32 || word_bits() == 64);
            assert(words.len() == max_frames as int / word_bits() + 1);
        }
        let made = store_from_words(max_frames, words);
        let store = made.unwrap();
        proof {
            assert forall|f: int| 0 <= f < max_frames implies store_bits(store)[f] by {
                lemma_all_ones((f % word_bits()) as usize);
                assert(filled[f / word_bits()] == usize::MAX);
            }
            assert(store_bits(store) == Seq::new(max_frames as nat, |f: int| true));
        }
        BitmapFrameAllocator { frame_bitmap: store, next_free_frame: 0, initialized: false }
    }

    /// How many frames the allocator tracks.
    pub fn capacity(&self) -> (frames: usize)
        ensures
            frames == self@.capacity(),
    {
        store_len(&self.frame_bitmap)
    }

    /// The search hint: no frame below it is free.
    pub fn next_free_frame(&self) -> (hint: usize)
        ensures
            hint == self@.hint,
    {
        self.next_free_frame
    }

    /// Whether `frame` is in use. A frame that the allocator does not track
    /// counts as in use.
    pub fn is_reserved(&self, frame: Frame) -> (reserved: bool)
        ensures
            reserved == !self@.is_free(frame.number as int),
    {
        match store_get(&self.frame_bitmap, frame.number) {
            Some(0) => false,
            _ => true,
        }
    }

    /// Whether the boot protocol has run on this allocator.
    pub fn is_initialized(&self) -> (initialized: bool)
        ensures
            initialized == self@.initialized,
    {
        self.initialized
    }

    /// Records that the boot protocol has run.
    pub(crate) fn set_initialized(&mut self)
        ensures
            final(self)@ == (FrameTable { initialized: true, ..old(self)@ }),
    {
        self.initialized = true;
    }

    /// Whether the area of `length` bytes at `address` is empty or lies
    /// within the tracked frames.
    pub fn covers(&self, address: PhysicalAddress, length: usize) -> (covered: bool)
        requires
            self@.wf(),
        ensures
            covered == self@.covers(address as int, length as int),
    {
        if length == 0 {
            true
        } else {
            match address.checked_add(length - 1) {
                Some(last) => last / FRAME_SIZE < store_len(&self.frame_bitmap),
                None => false,
            }
        }
    }

    /// Frees every frame that the area of `length` bytes at `address`
    /// touches, and draws the hint back to the first of them.
    pub fn mark_area_as_available(&mut self, address: PhysicalAddress, length: usize)
        requires
            old(self)@.wf(),
            old(self)@.covers(address as int, length as int),
        ensures
            final(self)@ == old(self)@.mark_area_as_available(address as int, length as int),
            final(self)@.wf(),
    {
        if length == 0 {
            return ;
        }
        let start_frame = Frame::containing_address(address);
        let end_frame = Frame::containing_address(address + (length - 1));

        if self.next_free_frame > start_frame.number {
            self.next_free_frame = start_frame.number;
        }
        set_frames(&mut self.frame_bitmap, start_frame, end_frame, false);
        proof {
            assert(self@.reserved =~= old(self)@.with_frames(
                start_frame.number as int,
                end_frame.number as int,
                false,
            ));
        }
    }

    /// Reserves every frame that the area of `length` bytes at `address`
    /// touches, and moves a hint that pointed into the area to just behind
    /// it.
    pub fn mark_area_in_use(&mut self, address: PhysicalAddress, length: usize)
        requires
            old(self)@.wf(),
            old(self)@.covers(address as int, length as int),
        ensures
            final(self)@ == old(self)@.mark_area_in_use(address as int, length as int),
            final(self)@.wf(),
    {
        if length == 0 {
            return ;
        }
        let start_frame = Frame::containing_address(address);
        let end_frame = Frame::containing_address(address + (length - 1));
        if self.next_free_frame >= start_frame.number && self.next_free_frame
            <= end_frame.number {
            self.next_free_frame = end_frame.number + 1;
        }
        set_frames(&mut self.frame_bitmap, start_frame, end_frame, true);
        proof {
            assert(self@.reserved =~= old(self)@.with_frames(
                start_frame.number as int,
                end_frame.number as int,
                true,
            ));
        }
    }
}

impl FrameAllocator for BitmapFrameAllocator {
    open spec fn valid(&self) -> bool {
        self@.wf()
    }

    open spec fn free_frames(&self) -> Set<int> {
        self@.free_frames()
    }

    open spec fn tracks(&self, frame: Frame) -> bool {
        frame.number < self@.capacity()
    }

    /// Hands out the lowest free frame at or above the hint, which is the
    /// lowest free frame there is, and moves the hint just behind it.
    fn allocate_frame(&mut self) -> (frame: Option<Frame>)
        ensures
            match frame {
                Some(f) => {
                    &&& old(self)@.is_lowest_free_from(old(self)@.hint as int, f.number as int)
                    &&& final(self)@ == old(self)@.claim(f.number as int)
                },
                None => {
                    &&& old(self)@.none_free_from(old(self)@.hint as int)
                    &&& final(self)@ == old(self)@
                },
            },
            final(self)@ == old(self)@.allocate(),
            (forall|f: int| 0 <= f < old(self)@.capacity() ==> old(self)@.reserved[f])
                ==> frame.is_none() && final(self)@ == old(self)@,
    {
        let free_frame = match store_get(&self.frame_bitmap, self.next_free_frame) {
            Some(0) => Some(self.next_free_frame),
            _ => first_unset(&self.frame_bitmap, self.next_free_frame),
        };

        if let Some(number) = free_frame {
            store_set(&mut self.frame_bitmap, number, 1);
            self.next_free_frame = number + 1;
            proof {
                assert(self@.free_frames() == old(self)@.free_frames().remove(number as int));
                lemma_next_allocated(old(self)@, number as int);
            }
            Some(Frame { number })
        } else {
            proof {
                assert(old(self)@.free_frames() == Set::<int>::empty());
                lemma_next_allocated(old(self)@, 0);
            }
            None
        }
    }

    /// Clears the bit of `frame` and draws the hint back to it.
    fn deallocate_frame(&mut self, frame: Frame)
        ensures
            final(self)@ == old(self)@.release(frame.number as int),
    {
        store_set(&mut self.frame_bitmap, frame.number, 0);
        if frame.number < self.next_free_frame {
            self.next_free_frame = frame.number;
        }
        proof {
            assert(self@.free_frames() == old(self)@.free_frames().insert(frame.number as int));
        }
    }
}

} // verus!
