//! The boot protocol: run once, it frees what the boot memory map reports
//! as usable and then reserves the kernel's own memory, which wins over
//! anything the map said.

use crate::allocator::BitmapFrameAllocator;
use crate::frame::{frame_number, PhysicalAddress, FRAME_SIZE, MAX_FRAMES};
use crate::table::FrameTable;
use vstd::prelude::*;

verus! {

/// One region of usable RAM, as the boot loader reports it.
#[derive(Clone, Copy, Debug, PartialEq, Eq, Structural)]
pub struct MemoryArea {
    pub base_addr: u64,
    pub length: u64,
}

/// `area` is empty or lies within the frames that `table` tracks, and its
/// length fits the machine's word.
pub open spec fn covers_area(table: FrameTable, area: MemoryArea) -> bool {
    table.covers(area.base_addr as int, area.length as int) && area.length <= usize::MAX
}

/// `table` covers every area.
pub open spec fn covers_all(table: FrameTable, areas: Seq<MemoryArea>) -> bool {
    forall|i: int| 0 <= i < areas.len() ==> covers_area(table, #[trigger] areas[i])
}

/// `table` after each area, in order, was marked available.
pub open spec fn with_areas_available(table: FrameTable, areas: Seq<MemoryArea>) -> FrameTable
    decreases areas.len(),
{
    if areas.len() == 0 {
        table
    } else {
        with_areas_available(table, areas.drop_last()).mark_area_as_available(
            areas.last().base_addr as int,
            areas.last().length as int,
        )
    }
}

/// `table` after the boot protocol: the areas marked available, then the
/// memory below `kernel_end` marked in use.
pub open spec fn booted(table: FrameTable, areas: Seq<MemoryArea>, kernel_end: int) -> FrameTable {
    FrameTable {
        initialized: true,
        ..with_areas_available(table, areas).mark_area_in_use(0, kernel_end)
    }
}

/// Marking areas available changes neither the capacity nor the boot flag.
pub proof fn lemma_with_areas_available_keeps_shape(table: FrameTable, areas: Seq<MemoryArea>)
    ensures
        with_areas_available(table, areas).capacity() == table.capacity(),
        with_areas_available(table, areas).initialized == table.initialized,
    decreases areas.len(),
{
    if areas.len() > 0 {
        lemma_with_areas_available_keeps_shape(table, areas.drop_last());
    }
}

/// The boot protocol keeps a table well formed, marks it initialized, and
/// leaves every frame reserved that the memory below `kernel_end` touches,
/// whatever the areas said of it.
pub proof fn lemma_booted(table: FrameTable, areas: Seq<MemoryArea>, kernel_end: nat)
    requires
        table.wf(),
        covers_all(table, areas),
        table.covers(0, kernel_end as int),
    ensures
        with_areas_available(table, areas).wf(),
        booted(table, areas, kernel_end as int).wf(),
        booted(table, areas, kernel_end as int).initialized,
        booted(table, areas, kernel_end as int).capacity() == table.capacity(),
        forall|f: int|
            0 <= f <= frame_number(kernel_end - 1) && kernel_end > 0 ==> booted(
                table,
                areas,
                kernel_end as int,
            ).reserved[f],
    decreases areas.len(),
{
    lemma_with_areas_available_keeps_shape(table, areas);
    if areas.len() > 0 {
        let earlier = areas.drop_last();
        assert forall|i: int| 0 <= i < earlier.len() implies covers_area(
            table,
            #[trigger] earlier[i],
        ) by {
            assert(earlier[i] == areas[i]);
        }
        lemma_booted(table, earlier, kernel_end);
        lemma_with_areas_available_keeps_shape(table, earlier);
        assert(covers_area(table, areas.last()));
    }
}

/// Whether `area` is empty or lies within the tracked frames, with a
/// length that fits the machine's word.
pub fn area_fits(allocator: &BitmapFrameAllocator, area: &MemoryArea) -> (fits: bool)
    requires
        allocator@.wf(),
    ensures
        fits == covers_area(allocator@, *area),
{
    if area.length == 0 {
        true
    } else if area.length > usize::MAX as u64 {
        false
    } else {
        match area.base_addr.checked_add(area.length - 1) {
            Some(last) => last / (FRAME_SIZE as u64) < allocator.capacity() as u64,
            None => false,
        }
    }
}

/// Whether `init` may run on these inputs: every area, and the memory
/// below `kernel_end`, is empty or lies within the tracked frames.
pub fn boot_map_fits(
    allocator: &BitmapFrameAllocator,
    memory_areas: &Vec<MemoryArea>,
    kernel_end: PhysicalAddress,
) -> (fits: bool)
    requires
        allocator@.wf(),
    ensures
        fits == (covers_all(allocator@, memory_areas@) && allocator@.covers(
            0,
            kernel_end as int,
        )),
{
    if !allocator.covers(0, kernel_end) {
        return false;
    }
    let mut index: usize = 0;
    while index < memory_areas.len()
        invariant
            allocator@.wf(),
            index <= memory_areas.len(),
            covers_all(allocator@, memory_areas@.take(index as int)),
        decreases memory_areas.len() - index,
    {
        if !area_fits(allocator, &memory_areas[index]) {
            return false;
        }
        index = index + 1;
        proof {
            assert forall|i: int| 0 <= i < index implies covers_area(
                allocator@,
                #[trigger] memory_areas@.take(index as int)[i],
            ) by {
                if i < index - 1 {
                    assert(memory_areas@.take(index as int)[i] == memory_areas@.take(
                        index - 1,
                    )[i]);
                }
            }
        }
    }
    proof {
        assert(memory_areas@.take(index as int) == memory_areas@);
    }
    true
}

/// Brings a fresh allocator to its initial state. Each area of
/// `memory_areas` is marked available, in order; then the memory below
/// `kernel_end` is marked in use, whatever the areas said of it.
pub fn init(
    allocator: &mut BitmapFrameAllocator,
    memory_areas: &Vec<MemoryArea>,
    kernel_end: PhysicalAddress,
)
    requires
        old(allocator)@.wf(),
        !old(allocator)@.initialized,
        covers_all(old(allocator)@, memory_areas@),
        old(allocator)@.covers(0, kernel_end as int),
    ensures
        final(allocator)@ == booted(old(allocator)@, memory_areas@, kernel_end as int),
        final(allocator)@.wf(),
        final(allocator)@.initialized,
        final(allocator)@.capacity() == old(allocator)@.capacity(),
        forall|f: int|
            0 <= f <= frame_number(kernel_end - 1) && kernel_end > 0
                ==> final(allocator)@.reserved[f],
{
    let mut index: usize = 0;
    while index < memory_areas.len()
        invariant
            index <= memory_areas.len(),
            allocator@.wf(),
            allocator@.capacity() == old(allocator)@.capacity(),
            covers_all(old(allocator)@, memory_areas@),
            allocator@ == with_areas_available(old(allocator)@, memory_areas@.take(index as int)),
        decreases memory_areas.len() - index,
    {
        let area = memory_areas[index];
        assert(covers_area(old(allocator)@, area));
        if area.length != 0 {
            assert(area.base_addr + area.length - 1 < 0x1_0000_0000) by {
                assert(frame_number(area.base_addr + area.length - 1) < MAX_FRAMES);
            }
            allocator.mark_area_as_available(area.base_addr as usize, area.length as usize);
        }
        proof {
            assert(memory_areas@.take(index + 1).drop_last() == memory_areas@.take(index as int));
        }
        index = index + 1;
    }
    proof {
        assert(memory_areas@.take(index as int) == memory_areas@);
    }
    allocator.mark_area_in_use(0, kernel_end);
    allocator.set_initialized();
}

} // verus!
