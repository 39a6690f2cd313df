//! A 32-bit MIPS-style virtual machine: a register CPU with a
//! fetch-decode-execute cycle, a segmented address space served by a
//! memory mapper, and memory-mapped devices.

pub mod bits;
pub mod cpu;
pub mod error;
pub mod memory;
pub mod memory_mapper;
pub mod screen_device;
