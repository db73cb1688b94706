//! The boot page-table walker over a word-level physical memory.

use ostd_mm::boot_pt::{PageTable, PhysMem, WALK_HUGE_MASK};
use ostd_mm::PAGE_SIZE;

#[test]
fn pte_index_extracts_nine_bits() {
    // Level 1 uses bits 12..21, level 2 bits 21..30, and so on.
    assert_eq!(PageTable::pte_index(0x5000, 1), 5);
    assert_eq!(PageTable::pte_index(0x5000, 2), 0);
    let va = (3u64 << 30) | (7u64 << 21) | (5u64 << 12);
    assert_eq!(PageTable::pte_index(va, 1), 5);
    assert_eq!(PageTable::pte_index(va, 2), 7);
    assert_eq!(PageTable::pte_index(va, 3), 3);
    assert_eq!(PageTable::pte_index(va, 4), 0);
}

#[test]
fn page_walk_follows_four_levels() {
    let mut mem = PhysMem::new(8192);
    let table = PageTable::new(0x1000);
    assert_eq!(table.root_paddr(), 0x1000);

    // A chain of nodes for addresses whose upper indexes are all zero, and
    // a leaf for page five.
    mem.write_word(0x1000, 0x2000);
    mem.write_word(0x2000, 0x3000);
    mem.write_word(0x3000, 0x4000);
    mem.write_word(0x4000 + 8 * 5, 0x7000);

    assert_eq!(table.page_walk(&mem, 0x5000), Some(0x7000));
    assert_eq!(table.page_walk(&mem, 0x5123), Some(0x7123));
}

#[test]
fn page_walk_stops_at_leaf_bit() {
    let mut mem = PhysMem::new(8192);
    let table = PageTable::new(0x1000);
    mem.write_word(0x1000, 0x2000);
    mem.write_word(0x2000, 0x3000);
    // A leaf two levels above the base pages keeps 21 offset bits.
    mem.write_word(0x3000, 0x20_0000 | WALK_HUGE_MASK);
    assert_eq!(table.page_walk(&mem, 0x5123), Some(0x20_5123));
    assert_eq!(table.page_walk(&mem, 0x1F_F000), Some(0x3F_F000));
}

#[test]
fn recorded_views() {
    let mut table = PageTable::new(2 * PAGE_SIZE);
    assert_eq!(table.paddr_to_vaddr(PAGE_SIZE), None);
    table.record_view(PAGE_SIZE, 0xffff_8000_0000_1000);
    table.record_view(3 * PAGE_SIZE, 0xffff_8000_0000_3000);
    assert_eq!(table.paddr_to_vaddr(PAGE_SIZE), Some(0xffff_8000_0000_1000));
    assert_eq!(table.paddr_to_vaddr(3 * PAGE_SIZE), Some(0xffff_8000_0000_3000));
    assert_eq!(table.paddr_to_vaddr(5 * PAGE_SIZE), None);
}
