//! Page properties, flags and the architecture's entry encoding.

use ostd_mm::page_prop::{CachePolicy, PageFlags, PageProperty, PrivilegedPageFlags, PropertyOp,
    PF_R, PF_W, PF_X};
use ostd_mm::pte::{PageTableEntry, PagingConsts, VeryHugePagingConsts};
use ostd_mm::PAGE_SIZE;

#[test]
fn page_property_new() {
    let flags = PageFlags::rw();
    let page_property = PageProperty::new(flags, CachePolicy::Writeback);
    assert_eq!(page_property.flags, flags);
    assert_eq!(page_property.cache, CachePolicy::Writeback);
    assert_eq!(page_property.priv_flags, PrivilegedPageFlags::user());
}

#[test]
fn page_property_new_absent() {
    let page_property = PageProperty::new_absent();
    assert_eq!(page_property.flags, PageFlags::empty());
    assert_eq!(page_property.cache, CachePolicy::Writeback);
    assert_eq!(page_property.priv_flags, PrivilegedPageFlags::empty());
}

#[test]
fn page_flags_basic() {
    let flags = PageFlags::r();
    assert!(flags.contains(PageFlags::r()));
    assert!(!flags.contains(PageFlags::from_bits(PF_W)));
    assert!(!flags.contains(PageFlags::from_bits(PF_X)));

    let flags = PageFlags::rwx();
    assert!(flags.contains(PageFlags::from_bits(PF_R)));
    assert!(flags.contains(PageFlags::from_bits(PF_W)));
    assert!(flags.contains(PageFlags::from_bits(PF_X)));
}

#[test]
fn page_flags_combinations() {
    let rw = PageFlags::r().union(PageFlags::from_bits(PF_W));
    assert_eq!(rw, PageFlags::rw());
    let rx = PageFlags::r().union(PageFlags::from_bits(PF_X));
    assert_eq!(rx, PageFlags::rx());
    let rwx = rw.union(PageFlags::from_bits(PF_X));
    assert_eq!(rwx, PageFlags::rwx());
}

#[test]
fn page_flags_bit_operations() {
    let mut flags = PageFlags::empty();
    flags.insert(PageFlags::r());
    assert!(flags.contains(PageFlags::r()));
    assert!(!flags.contains(PageFlags::from_bits(PF_W)));
    flags.insert(PageFlags::from_bits(PF_W));
    assert!(flags.contains(PageFlags::rw()));
    flags.remove(PageFlags::r());
    assert!(!flags.contains(PageFlags::r()));
    assert!(flags.contains(PageFlags::from_bits(PF_W)));
}

#[test]
fn privileged_page_flags_bit_operations() {
    let mut flags = PrivilegedPageFlags::empty();
    flags.insert(PrivilegedPageFlags::user());
    assert!(flags.contains(PrivilegedPageFlags::user()));
    assert!(!flags.contains(PrivilegedPageFlags::global()));
    flags.insert(PrivilegedPageFlags::global());
    assert!(flags.contains(PrivilegedPageFlags::user()));
    assert!(flags.contains(PrivilegedPageFlags::global()));
    flags.remove(PrivilegedPageFlags::user());
    assert!(!flags.contains(PrivilegedPageFlags::user()));
    assert!(flags.contains(PrivilegedPageFlags::global()));
}

#[test]
fn property_op_apply() {
    let rw = PageProperty::new(PageFlags::rw(), CachePolicy::Writeback);
    let removed = PropertyOp::RemoveFlags(PageFlags::from_bits(PF_W)).apply(rw);
    assert_eq!(removed.flags, PageFlags::r());
    assert_eq!(removed.cache, CachePolicy::Writeback);
    let set = PropertyOp::SetFlags(PageFlags::rx()).apply(rw);
    assert_eq!(set.flags, PageFlags::rx());
    let added = PropertyOp::AddFlags(PageFlags::from_bits(PF_X)).apply(rw);
    assert_eq!(added.flags, PageFlags::rwx());
    let cached = PropertyOp::SetCache(CachePolicy::Uncacheable).apply(rw);
    assert_eq!(cached.cache, CachePolicy::Uncacheable);
    assert_eq!(cached.flags, PageFlags::rw());
}

#[test]
fn paging_consts() {
    assert_eq!(PagingConsts::base_page_size(), PAGE_SIZE);
    assert_eq!(PagingConsts::nr_levels(), 4);
    assert_eq!(PagingConsts::address_width(), 48);
    assert_eq!(PagingConsts::highest_translation_level(), 4);
    assert_eq!(VeryHugePagingConsts::base_page_size(), PAGE_SIZE);
    assert_eq!(VeryHugePagingConsts::nr_levels(), 4);
    assert_eq!(VeryHugePagingConsts::highest_translation_level(), 3);
}

#[test]
fn pte_encode_decode() {
    let prop = PageProperty::new(PageFlags::rw(), CachePolicy::Writethrough);
    let pte = PageTableEntry::new_page(0x4000, 1, prop);
    assert_eq!(pte.paddr(), 0x4000);
    assert!(pte.is_present());
    assert!(pte.is_last(1));
    let decoded = pte.prop();
    assert_eq!(decoded.flags, PageFlags::rw());
    assert_eq!(decoded.cache, CachePolicy::Writethrough);
    assert_eq!(decoded.priv_flags, PrivilegedPageFlags::user());
}

#[test]
fn pte_child_pointer() {
    let pte = PageTableEntry::new_pt(0x8000);
    assert_eq!(pte.paddr(), 0x8000);
    assert!(pte.is_present());
    assert!(!pte.is_last(2));
}

#[test]
fn pte_set_prop_keeps_address() {
    let first = PageProperty::new(PageFlags::rw(), CachePolicy::Writeback);
    let mut pte = PageTableEntry::new_page(0x1_0000, 1, first);
    let second = PageProperty::new(PageFlags::rx(), CachePolicy::Uncacheable);
    pte.set_prop(second);
    assert_eq!(pte.paddr(), 0x1_0000);
    let decoded = pte.prop();
    assert_eq!(decoded.flags, PageFlags::rx());
    assert_eq!(decoded.cache, CachePolicy::Uncacheable);
}

#[test]
fn pte_absent_value() {
    let pte = PageTableEntry::new_paddr(0);
    assert!(!pte.is_present());
}
