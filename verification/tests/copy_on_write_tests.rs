//! The copy-on-write scenario: sharing a frame into a child space with the
//! write flag removed, with parent and child fully independent afterwards.

use ostd_mm::frame::FrameRegistry;
use ostd_mm::page_prop::{CachePolicy, PageFlags, PageProperty, PropertyOp};
use ostd_mm::vm_space::{VmItem, VmSpace};
use ostd_mm::PAGE_SIZE;

#[test]
fn user_copy_on_write() {
    let mut reg = FrameRegistry::new(16);
    let remove_write = PropertyOp::RemoveFlags(PageFlags::from_bits(2));
    let rw = PageProperty::new(PageFlags::rw(), CachePolicy::Writeback);
    let ro = PageProperty::new(PageFlags::r(), CachePolicy::Writeback);
    let lo = PAGE_SIZE;
    let hi = 2 * PAGE_SIZE;

    // The parent maps [0x1000, 0x2000) read-write to frame F.
    let mut parent = VmSpace::new();
    let frame = reg.alloc_frame().unwrap();
    let pa = frame.start_paddr();
    let mut pc = parent.cursor_mut(lo, hi, 0).unwrap();
    pc.map(&mut parent, &mut reg, frame, rw);
    parent.close_cursor_mut(pc);
    assert_eq!(reg.slot(pa).refcount, 1);

    // A child is created by copying the mapping with the write flag removed
    // from a copy of the property.
    let mut child = VmSpace::new();
    let mut cc = child.cursor_mut(lo, hi, 0).unwrap();
    let mut pc = parent.cursor_mut(lo, hi, 0).unwrap();
    cc.copy_from(&mut child, &mut pc, &parent, &mut reg, PAGE_SIZE, &remove_write);
    parent.close_cursor_mut(pc);
    child.close_cursor_mut(cc);

    // The frame is now shared: one count for each space's mapping.
    assert_eq!(reg.slot(pa).refcount, 2);

    // The child reports F with the write flag removed.
    let mut c = child.cursor(lo, hi).unwrap();
    assert_eq!(c.query(&child).unwrap(), VmItem::Mapped { va: lo, frame: pa, prop: ro });
    child.close_cursor(c);

    // The parent still reports F read-write: the mutation applied to a copy.
    let mut p = parent.cursor(lo, hi).unwrap();
    assert_eq!(p.query(&parent).unwrap(), VmItem::Mapped { va: lo, frame: pa, prop: rw });
    parent.close_cursor(p);

    // Unmapping the range from the parent does not affect the child.
    let mut pc = parent.cursor_mut(lo, hi, 0).unwrap();
    pc.unmap(&mut parent, &mut reg, PAGE_SIZE);
    parent.close_cursor_mut(pc);
    assert_eq!(reg.slot(pa).refcount, 1);
    let mut c = child.cursor(lo, hi).unwrap();
    assert_eq!(c.query(&child).unwrap(), VmItem::Mapped { va: lo, frame: pa, prop: ro });
    child.close_cursor(c);

    // A sibling created the same way, after the parent lost the mapping,
    // initially sees nothing: the child is an independent copy, not a
    // back-reference.
    let mut sibling = VmSpace::new();
    let mut sc = sibling.cursor_mut(lo, hi, 0).unwrap();
    let mut pc = parent.cursor_mut(lo, hi, 0).unwrap();
    sc.copy_from(&mut sibling, &mut pc, &parent, &mut reg, PAGE_SIZE, &remove_write);
    parent.close_cursor_mut(pc);
    sibling.close_cursor_mut(sc);
    let mut s = sibling.cursor(lo, hi).unwrap();
    assert_eq!(s.query(&sibling).unwrap(), VmItem::NotMapped { va: lo, len: PAGE_SIZE });
    sibling.close_cursor(s);

    // Dropping the parent entirely leaves the child's mapping of F intact.
    assert!(parent.clear(&mut reg, 0).is_ok());
    drop(parent);
    let mut c = child.cursor(lo, hi).unwrap();
    assert_eq!(c.query(&child).unwrap(), VmItem::Mapped { va: lo, frame: pa, prop: ro });
    child.close_cursor(c);

    // Unmapping from the child finally frees F.
    let mut cc = child.cursor_mut(lo, hi, 0).unwrap();
    cc.unmap(&mut child, &mut reg, PAGE_SIZE);
    child.close_cursor_mut(cc);
    assert_eq!(reg.slot(pa).refcount, 0);

    // The sibling can map the range afresh, independently of the child.
    let new_frame = reg.alloc_frame().unwrap();
    let new_pa = new_frame.start_paddr();
    let mut sc = sibling.cursor_mut(lo, hi, 0).unwrap();
    sc.map(&mut sibling, &mut reg, new_frame, rw);
    sibling.close_cursor_mut(sc);
    let mut s = sibling.cursor(lo, hi).unwrap();
    assert_eq!(s.query(&sibling).unwrap(), VmItem::Mapped { va: lo, frame: new_pa, prop: rw });
    sibling.close_cursor(s);
    let mut c = child.cursor(lo, hi).unwrap();
    assert_eq!(c.query(&child).unwrap(), VmItem::NotMapped { va: lo, len: PAGE_SIZE });
    child.close_cursor(c);
}

#[test]
fn copy_from_applies_op_to_copy_only() {
    let mut reg = FrameRegistry::new(16);
    let set_cache = PropertyOp::SetCache(CachePolicy::Uncacheable);
    let prop = PageProperty::new(PageFlags::rwx(), CachePolicy::Writeback);
    let lo = 8 * PAGE_SIZE;
    let hi = 9 * PAGE_SIZE;

    let mut src_vm = VmSpace::new();
    let frame = reg.alloc_frame().unwrap();
    let pa = frame.start_paddr();
    let mut sc = src_vm.cursor_mut(lo, hi, 0).unwrap();
    sc.map(&mut src_vm, &mut reg, frame, prop);
    src_vm.close_cursor_mut(sc);

    let mut dst_vm = VmSpace::new();
    let mut dc = dst_vm.cursor_mut(lo, hi, 0).unwrap();
    let mut sc = src_vm.cursor_mut(lo, hi, 0).unwrap();
    dc.copy_from(&mut dst_vm, &mut sc, &src_vm, &mut reg, PAGE_SIZE, &set_cache);
    src_vm.close_cursor_mut(sc);
    dst_vm.close_cursor_mut(dc);

    let expected = PageProperty::new(PageFlags::rwx(), CachePolicy::Uncacheable);
    let mut d = dst_vm.cursor(lo, hi).unwrap();
    assert_eq!(d.query(&dst_vm).unwrap(), VmItem::Mapped { va: lo, frame: pa, prop: expected });
    dst_vm.close_cursor(d);
    let mut s = src_vm.cursor(lo, hi).unwrap();
    assert_eq!(s.query(&src_vm).unwrap(), VmItem::Mapped { va: lo, frame: pa, prop });
    src_vm.close_cursor(s);
}
