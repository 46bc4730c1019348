//! Constants of the machine and of the kernel.
use vstd::prelude::*;

verus! {

/// Bytes in a page, and in the physical frame behind it.
pub const PAGE_SIZE: usize = 4096;

/// Entries in one page table of the SV39 tree.
pub const TABLE_ENTRIES: usize = 512;

/// Size of an SV39 virtual address space: 39 address bits.
pub const VA_SPACE: u64 = 0x80_0000_0000;

/// System call numbers are below this bound.
pub const MAX_SYSCALL_NUM: usize = 500;

/// Number of the `trace` system call.
pub const SYSCALL_TRACE: usize = 410;

} // verus!
