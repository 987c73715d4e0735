//! Runs of operations on a table, and what holds after every one of them.

use crate::boot::{booted, covers_all, lemma_booted, MemoryArea};
use crate::table::{lemma_claim_keeps_wf, lemma_next_allocated, FrameTable};
use vstd::prelude::*;

verus! {

/// One call on an allocator.
pub enum Operation {
    MarkAvailable { address: nat, length: nat },
    MarkInUse { address: nat, length: nat },
    Allocate,
    Deallocate { number: nat },
    Init { areas: Seq<MemoryArea>, kernel_end: nat },
}

/// The allocator accepts `operation` in the state `table`.
pub open spec fn permits(table: FrameTable, operation: Operation) -> bool {
    match operation {
        Operation::MarkAvailable { address, length } => table.covers(address as int, length as int),
        Operation::MarkInUse { address, length } => table.covers(address as int, length as int),
        Operation::Allocate => true,
        Operation::Deallocate { number } => number < table.capacity(),
        Operation::Init { areas, kernel_end } => !table.initialized && covers_all(table, areas)
            && table.covers(0, kernel_end as int),
    }
}

/// The table that `operation` leaves behind.
pub open spec fn after(table: FrameTable, operation: Operation) -> FrameTable {
    match operation {
        Operation::MarkAvailable { address, length } => table.mark_area_as_available(
            address as int,
            length as int,
        ),
        Operation::MarkInUse { address, length } => table.mark_area_in_use(
            address as int,
            length as int,
        ),
        Operation::Allocate => table.allocate(),
        Operation::Deallocate { number } => table.release(number as int),
        Operation::Init { areas, kernel_end } => booted(table, areas, kernel_end as int),
    }
}

/// The table that the operations leave behind, applied in order.
pub open spec fn after_all(table: FrameTable, operations: Seq<Operation>) -> FrameTable
    decreases operations.len(),
{
    if operations.len() == 0 {
        table
    } else {
        after(after_all(table, operations.drop_last()), operations.last())
    }
}

/// Each operation is accepted in the state that the ones before it left.
pub open spec fn permits_all(table: FrameTable, operations: Seq<Operation>) -> bool
    decreases operations.len(),
{
    operations.len() == 0 || (permits_all(table, operations.drop_last()) && permits(
        after_all(table, operations.drop_last()),
        operations.last(),
    ))
}

/// An accepted operation keeps a table well formed and its capacity.
pub proof fn lemma_operation_keeps_wf(table: FrameTable, operation: Operation)
    requires
        table.wf(),
        permits(table, operation),
    ensures
        after(table, operation).wf(),
        after(table, operation).capacity() == table.capacity(),
{
    match operation {
        Operation::Allocate => {
            lemma_next_allocated(table, 0);
            if let Some(number) = table.next_allocated() {
                lemma_claim_keeps_wf(table, number);
            }
        },
        Operation::Init { areas, kernel_end } => {
            lemma_booted(table, areas, kernel_end);
        },
        _ => {},
    }
}

/// After any run of accepted operations on a well-formed table, every
/// frame below the hint is reserved.
pub proof fn lemma_hint_invariant_always_holds(table: FrameTable, operations: Seq<Operation>)
    requires
        table.wf(),
        permits_all(table, operations),
    ensures
        after_all(table, operations).wf(),
        after_all(table, operations).capacity() == table.capacity(),
        forall|f: int|
            0 <= f < after_all(table, operations).hint ==> after_all(table, operations).reserved[f],
    decreases operations.len(),
{
    if operations.len() > 0 {
        lemma_hint_invariant_always_holds(table, operations.drop_last());
        lemma_operation_keeps_wf(after_all(table, operations.drop_last()), operations.last());
    }
}

} // verus!
