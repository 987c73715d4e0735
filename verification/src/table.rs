//! The reservation table as a mathematical object: one boolean per frame
//! and a search hint, with the transitions that the allocator performs on
//! it and the laws that hold of them.

use crate::frame::{frame_number, MAX_FRAMES};
use vstd::prelude::*;

verus! {

/// What an allocator stands for: which frames are reserved, where the next
/// search starts, and whether the boot protocol has run.
pub struct FrameTable {
    /// `reserved[f]` is `true` while frame `f` is in use.
    pub reserved: Seq<bool>,
    /// No frame below the hint is free.
    pub hint: nat,
    /// Set once, by the boot protocol.
    pub initialized: bool,
}

impl FrameTable {
    /// The table of a fresh allocator: every frame reserved, the hint at 0.
    pub open spec fn all_reserved(capacity: nat) -> FrameTable {
        FrameTable { reserved: Seq::new(capacity, |f: int| true), hint: 0, initialized: false }
    }

    /// How many frames the table tracks.
    pub open spec fn capacity(self) -> nat {
        self.reserved.len()
    }

    /// Frame `number` is tracked and not in use.
    pub open spec fn is_free(self, number: int) -> bool {
        0 <= number < self.reserved.len() && !self.reserved[number]
    }

    /// Every frame below the hint is reserved.
    pub open spec fn hint_invariant(self) -> bool {
        forall|f: int| 0 <= f < self.hint && f < self.reserved.len() ==> self.reserved[f]
    }

    /// The table is one that an allocator can hold.
    pub open spec fn wf(self) -> bool {
        &&& self.reserved.len() <= MAX_FRAMES
        &&& self.hint <= self.reserved.len()
        &&& self.hint_invariant()
    }

    /// The area of `length` bytes at `address` is empty or lies within the
    /// tracked frames.
    pub open spec fn covers(self, address: int, length: int) -> bool {
        length == 0 || (0 <= address && 0 < length && frame_number(address + length - 1)
            < self.reserved.len())
    }

    /// The reservation bits with those of frames `first ..= last` set to
    /// `value`.
    pub open spec fn with_frames(self, first: int, last: int, value: bool) -> Seq<bool> {
        Seq::new(
            self.reserved.len(),
            |f: int|
                if first <= f <= last {
                    value
                } else {
                    self.reserved[f]
                },
        )
    }

    /// Frees every frame that the area touches and draws the hint back to
    /// the first of them. An empty area changes nothing.
    pub open spec fn mark_area_as_available(self, address: int, length: int) -> FrameTable {
        if length <= 0 {
            self
        } else {
            let first = frame_number(address);
            let last = frame_number(address + length - 1);
            FrameTable {
                reserved: self.with_frames(first, last, false),
                hint: if first < self.hint {
                    first as nat
                } else {
                    self.hint
                },
                ..self
            }
        }
    }

    /// Reserves every frame that the area touches and moves a hint that
    /// pointed into the area to just behind it. An empty area changes
    /// nothing.
    pub open spec fn mark_area_in_use(self, address: int, length: int) -> FrameTable {
        if length <= 0 {
            self
        } else {
            let first = frame_number(address);
            let last = frame_number(address + length - 1);
            FrameTable {
                reserved: self.with_frames(first, last, true),
                hint: if first <= self.hint <= last {
                    (last + 1) as nat
                } else {
                    self.hint
                },
                ..self
            }
        }
    }

    /// Frame `number` is free and no frame from `from` up to it is.
    pub open spec fn is_lowest_free_from(self, from: int, number: int) -> bool {
        &&& from <= number
        &&& self.is_free(number)
        &&& forall|f: int| from <= f < number ==> !self.is_free(f)
    }

    /// No frame at or above `from` is free.
    pub open spec fn none_free_from(self, from: int) -> bool {
        forall|f: int| from <= f ==> !self.is_free(f)
    }

    /// The frame that an allocation hands out: the lowest free one at or
    /// above the hint, if there is one.
    pub open spec fn next_allocated(self) -> Option<int> {
        if exists|number: int| self.is_lowest_free_from(self.hint as int, number) {
            Some(choose|number: int| self.is_lowest_free_from(self.hint as int, number))
        } else {
            None
        }
    }

    /// The table after an allocation: unchanged where nothing was free.
    pub open spec fn allocate(self) -> FrameTable {
        match self.next_allocated() {
            Some(number) => self.claim(number),
            None => self,
        }
    }

    /// The table after frame `number` was handed out.
    pub open spec fn claim(self, number: int) -> FrameTable {
        FrameTable {
            reserved: self.reserved.update(number, true),
            hint: (number + 1) as nat,
            ..self
        }
    }

    /// The table after frame `number` was given back.
    pub open spec fn release(self, number: int) -> FrameTable {
        FrameTable {
            reserved: self.reserved.update(number, false),
            hint: if number < self.hint {
                number as nat
            } else {
                self.hint
            },
            ..self
        }
    }

    /// The numbers of the free frames.
    pub open spec fn free_frames(self) -> Set<int> {
        Set::new(|f: int| self.is_free(f))
    }
}

/// A fresh table is well formed and has every frame reserved.
pub proof fn lemma_fresh_table_is_reserved(capacity: nat)
    requires
        capacity <= MAX_FRAMES,
    ensures
        FrameTable::all_reserved(capacity).wf(),
        FrameTable::all_reserved(capacity).capacity() == capacity,
        forall|f: int| 0 <= f < capacity ==> FrameTable::all_reserved(capacity).reserved[f],
        forall|f: int| !FrameTable::all_reserved(capacity).is_free(f),
{
}

/// Marking an area available and then in use leaves every frame that the
/// area touches reserved and every other frame as it was: the bits are
/// those of marking the area in use at once.
pub proof fn lemma_available_then_in_use(table: FrameTable, address: nat, length: nat)
    ensures
        ({
            let after = table.mark_area_as_available(address as int, length as int).mark_area_in_use(
                address as int,
                length as int,
            );
            &&& after.reserved == table.mark_area_in_use(address as int, length as int).reserved
            &&& forall|f: int|
                0 <= f < table.capacity() && length > 0 && frame_number(address as int) <= f
                    <= frame_number(address + length - 1) ==> after.reserved[f]
            &&& forall|f: int|
                0 <= f < table.capacity() && !(length > 0 && frame_number(address as int) <= f
                    <= frame_number(address + length - 1)) ==> after.reserved[f]
                    == table.reserved[f]
        }),
{
    let after = table.mark_area_as_available(address as int, length as int).mark_area_in_use(
        address as int,
        length as int,
    );
    assert(after.reserved =~= table.mark_area_in_use(address as int, length as int).reserved);
}

/// Marking an area in use a second time changes nothing.
pub proof fn lemma_mark_in_use_idempotent(table: FrameTable, address: nat, length: nat)
    ensures
        table.mark_area_in_use(address as int, length as int).mark_area_in_use(
            address as int,
            length as int,
        ) == table.mark_area_in_use(address as int, length as int),
{
    let once = table.mark_area_in_use(address as int, length as int);
    let twice = once.mark_area_in_use(address as int, length as int);
    assert(twice.reserved =~= once.reserved);
}

/// In a well-formed table every frame below the hint is reserved, also
/// where the hint has reached the capacity.
pub proof fn lemma_below_hint_reserved(table: FrameTable, number: int)
    requires
        table.wf(),
        0 <= number < table.hint,
    ensures
        number < table.capacity(),
        table.reserved[number],
        !table.is_free(number),
{
}

/// Handing out the lowest free frame at or above the hint keeps the table
/// well formed.
pub proof fn lemma_claim_keeps_wf(table: FrameTable, number: int)
    requires
        table.wf(),
        table.is_lowest_free_from(table.hint as int, number),
    ensures
        table.claim(number).wf(),
        table.claim(number).capacity() == table.capacity(),
{
    assert forall|f: int| 0 <= f < number + 1 implies table.claim(number).reserved[f] by {
        if table.hint <= f < number {
            assert(!table.is_free(f));
        }
    }
}

/// Handing out a free frame turns exactly its bit from free to reserved.
pub proof fn lemma_claim_flips_one_bit(table: FrameTable, number: int)
    requires
        table.is_free(number),
    ensures
        !table.reserved[number],
        table.claim(number).reserved[number],
        forall|f: int|
            0 <= f < table.capacity() && f != number ==> table.claim(number).reserved[f]
                == table.reserved[f],
        table.claim(number).free_frames() == table.free_frames().remove(number),
{
    assert(table.claim(number).free_frames() =~= table.free_frames().remove(number));
}

/// At most one frame is the lowest free one from a given start.
pub proof fn lemma_lowest_free_unique(table: FrameTable, from: int, first: int, second: int)
    requires
        table.is_lowest_free_from(from, first),
        table.is_lowest_free_from(from, second),
    ensures
        first == second,
{
}

/// An allocation hands out the lowest free frame at or above the hint, and
/// nothing where there is none.
pub proof fn lemma_next_allocated(table: FrameTable, number: int)
    ensures
        table.is_lowest_free_from(table.hint as int, number) ==> table.next_allocated() == Some(
            number,
        ) && table.allocate() == table.claim(number),
        table.none_free_from(table.hint as int) ==> table.next_allocated().is_none()
            && table.allocate() == table,
        table.next_allocated() matches Some(found) ==> table.is_lowest_free_from(
            table.hint as int,
            found,
        ),
        table.next_allocated().is_none() ==> table.none_free_from(table.hint as int),
{
    if table.is_lowest_free_from(table.hint as int, number) {
        let found = choose|found: int| table.is_lowest_free_from(table.hint as int, found);
        lemma_lowest_free_unique(table, table.hint as int, number, found);
    }
    if table.next_allocated().is_none() {
        assert forall|f: int| table.hint as int <= f implies !table.is_free(f) by {
            if table.is_free(f) {
                lemma_lowest_free_exists(table, table.hint as int, f);
            }
        }
    }
}

/// Where a frame at or above `from` is free, one of them is the lowest.
pub proof fn lemma_lowest_free_exists(table: FrameTable, from: int, number: int)
    requires
        from <= number,
        table.is_free(number),
    ensures
        exists|lowest: int| table.is_lowest_free_from(from, lowest),
    decreases number - from,
{
    if exists|f: int| from <= f < number && table.is_free(f) {
        let lower = choose|f: int| from <= f < number && table.is_free(f);
        lemma_lowest_free_exists(table, from, lower);
    } else {
        assert(table.is_lowest_free_from(from, number));
    }
}

/// A search from the hint misses nothing: in a well-formed table the
/// lowest free frame at or above the hint is the lowest free frame of all,
/// and where none is free from the hint on, none is free at all.
pub proof fn lemma_search_from_hint_is_exhaustive(table: FrameTable, number: int)
    requires
        table.wf(),
    ensures
        table.is_lowest_free_from(table.hint as int, number) ==> table.is_lowest_free_from(
            0,
            number,
        ),
        table.none_free_from(table.hint as int) ==> table.none_free_from(0),
        table.none_free_from(table.hint as int) ==> table.free_frames() == Set::<int>::empty(),
{
    if table.none_free_from(table.hint as int) {
        assert(table.free_frames() =~= Set::<int>::empty());
    }
}

/// In a table with every frame reserved no frame is the lowest free one,
/// from wherever the search starts.
pub proof fn lemma_full_table_has_no_free(table: FrameTable, from: int, number: int)
    requires
        forall|f: int| 0 <= f < table.capacity() ==> table.reserved[f],
    ensures
        !table.is_lowest_free_from(from, number),
        table.none_free_from(from),
{
}

} // verus!
