//! A physical-memory frame allocator: one reservation bit per fixed-size
//! frame, a forward-only search hint, and the boot-time protocol that
//! brings the table from "everything reserved" to its initial state.

pub mod allocator;
pub mod boot;
pub mod frame;
pub mod history;
pub mod store;
pub mod table;

pub use allocator::{BitmapFrameAllocator, FrameAllocator};
pub use boot::{area_fits, boot_map_fits, init, MemoryArea};
pub use frame::{Frame, FrameRange, PhysicalAddress, FRAME_SIZE, MAX_FRAMES};
