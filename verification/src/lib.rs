//! Virtual-memory core: physical frame ownership, a user/kernel page table
//! with a cursor-based mutation protocol, TLB-flush batching, and the
//! address-space wrapper that ties them together.

pub mod boot_pt;
pub mod cpu;
pub mod frame;
pub mod page_prop;
pub mod page_table;
pub mod pte;
pub mod tlb;
pub mod vm_space;

use vstd::prelude::*;

verus! {

/// A virtual address.
pub type Vaddr = u64;

/// A physical address.
pub type Paddr = u64;

/// A level of a multi-level page table. Level 1 is the leaf level; entries
/// at level `l` cover `page_size(l)` bytes.
pub type PagingLevel = u8;

/// The size in bytes of one base page, the unit of mapping and of physical
/// frame accounting.
pub const PAGE_SIZE: u64 = 4096;

/// The number of page-table entries in one node, `2^9`.
pub const NR_ENTRIES_PER_PAGE: u64 = 512;

/// The number of levels of the page table.
pub const NR_LEVELS: PagingLevel = 4;

/// The end (exclusive) of the user-mode virtual address range. A user-mode
/// cursor must stay below this address.
pub const MAX_USERSPACE_VADDR: u64 = 0x0000_8000_0000_0000 - PAGE_SIZE;

/// The start of the kernel virtual address range: kernel-mode cursors must
/// stay at or above this address.
pub const KERNEL_BASE_VADDR: u64 = 0xffff_8000_0000_0000;

/// The end (exclusive) of the kernel virtual address range.
pub const KERNEL_END_VADDR: u64 = 0xffff_ffff_ffff_0000;

/// The error kinds that the per-operation failures of this crate report.
///
/// Structural-invariant violations are never reported this way: operations
/// exclude them with preconditions instead of aborting at run time.
#[derive(Clone, Copy, Debug, PartialEq, Eq, Structural)]
pub enum Error {
    /// A misaligned or zero-length range, or a range outside the bounds that
    /// the mode of the page table permits.
    InvalidArgs,
    /// No physical frame (or run of frames) is available.
    OutOfMemory,
    /// The request needs exclusive or active access that the caller does not
    /// hold: a byte access against an address space that is not active, or a
    /// cursor over a range that overlaps a live cursor.
    AccessDenied,
}

/// The number of bytes covered by one entry at `level`:
/// `PAGE_SIZE * 512^(level - 1)`.
pub open spec fn page_size_spec(level: PagingLevel) -> u64 {
    if level == 1 {
        0x1000
    } else if level == 2 {
        0x20_0000
    } else if level == 3 {
        0x4000_0000
    } else {
        0x80_0000_0000
    }
}

/// The number of bytes covered by one page-table entry at the given level.
#[verifier::when_used_as_spec(page_size_spec)]
pub fn page_size(level: PagingLevel) -> (r: u64)
    requires
        1 <= level <= NR_LEVELS,
    ensures
        r == page_size_spec(level),
        r == PAGE_SIZE * vstd::arithmetic::power::pow(NR_ENTRIES_PER_PAGE as int, (level - 1) as nat),
{
    proof {
        reveal_with_fuel(vstd::arithmetic::power::pow, 4);
    }
    if level == 1 {
        0x1000
    } else if level == 2 {
        0x20_0000
    } else if level == 3 {
        0x4000_0000
    } else {
        0x80_0000_0000
    }
}

} // verus!
