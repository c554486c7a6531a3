//! Core logic of a small bare-metal kernel: the heap allocator and the pure
//! parts of its descriptor tables and peripheral drivers.

pub mod util;
pub mod allocator;
pub mod gdt;
pub mod interrupt;
pub mod io;
pub mod libc;
pub mod multiboot;
