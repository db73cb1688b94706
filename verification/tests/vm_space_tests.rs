//! Address-space behaviour: cursors, mapping, unmapping, clearing,
//! activation, readers and writers, and the flush-before-release protocol.

use ostd_mm::frame::FrameRegistry;
use ostd_mm::page_prop::{CachePolicy, PageFlags, PageProperty, PropertyOp};
use ostd_mm::tlb::TlbFlushOp;
use ostd_mm::vm_space::{VmItem, VmSpace, VmSpaceClearError};
use ostd_mm::{Error, PAGE_SIZE};

#[test]
fn vmspace_creation() {
    let mut vmspace = VmSpace::new();
    let mut cursor = vmspace.cursor(0, PAGE_SIZE).expect("no cursor");
    let item = cursor.next(&vmspace);
    assert_eq!(item, Some(VmItem::NotMapped { va: 0, len: PAGE_SIZE }));
    vmspace.close_cursor(cursor);
}

#[test]
fn vmspace_map_unmap() {
    let mut reg = FrameRegistry::new(16);
    let mut vmspace = VmSpace::new();
    let frame = reg.alloc_frame().unwrap();
    let pa = frame.start_paddr();
    let prop = PageProperty::new(PageFlags::r(), CachePolicy::Writeback);

    let mut cursor_mut = vmspace.cursor_mut(PAGE_SIZE, 2 * PAGE_SIZE, 0).unwrap();
    assert_eq!(
        cursor_mut.query(&vmspace).unwrap(),
        VmItem::NotMapped { va: PAGE_SIZE, len: PAGE_SIZE }
    );
    cursor_mut.map(&mut vmspace, &mut reg, frame, prop);
    vmspace.close_cursor_mut(cursor_mut);

    // Query the mapping.
    let mut cursor = vmspace.cursor(PAGE_SIZE, 2 * PAGE_SIZE).unwrap();
    assert_eq!(cursor.virt_addr(), PAGE_SIZE);
    assert_eq!(
        cursor.query(&vmspace).unwrap(),
        VmItem::Mapped { va: PAGE_SIZE, frame: pa, prop }
    );
    vmspace.close_cursor(cursor);

    // Unmap, and the frame goes back to the allocator (its only count was
    // the mapping's).
    let mut cursor_mut = vmspace.cursor_mut(PAGE_SIZE, 2 * PAGE_SIZE, 0).unwrap();
    cursor_mut.unmap(&mut vmspace, &mut reg, PAGE_SIZE);
    vmspace.close_cursor_mut(cursor_mut);
    assert_eq!(reg.slot(pa).refcount, 0);

    let mut cursor = vmspace.cursor(PAGE_SIZE, 2 * PAGE_SIZE).unwrap();
    assert_eq!(
        cursor.query(&vmspace).unwrap(),
        VmItem::NotMapped { va: PAGE_SIZE, len: PAGE_SIZE }
    );
    vmspace.close_cursor(cursor);
}

#[test]
fn vmspace_map_twice() {
    let mut reg = FrameRegistry::new(16);
    let mut vmspace = VmSpace::new();
    let prop = PageProperty::new(PageFlags::r(), CachePolicy::Writeback);

    let frame1 = reg.alloc_frame().unwrap();
    let pa1 = frame1.start_paddr();
    let mut cursor_mut = vmspace.cursor_mut(PAGE_SIZE, 2 * PAGE_SIZE, 0).unwrap();
    cursor_mut.map(&mut vmspace, &mut reg, frame1, prop);
    vmspace.close_cursor_mut(cursor_mut);

    // The overlap tie-break: the second map wins, the first frame is
    // flushed and released.
    let frame2 = reg.alloc_frame().unwrap();
    let pa2 = frame2.start_paddr();
    let mut cursor_mut = vmspace.cursor_mut(PAGE_SIZE, 2 * PAGE_SIZE, 0).unwrap();
    assert_eq!(cursor_mut.flusher().dispatched_len(), 0);
    cursor_mut.map(&mut vmspace, &mut reg, frame2, prop);
    // An invalidation covering the replaced mapping was dispatched before
    // the old frame could go.
    assert_eq!(cursor_mut.flusher().dispatched_len(), 1);
    assert_eq!(
        cursor_mut.flusher().dispatched_at(0),
        TlbFlushOp::Range(PAGE_SIZE, PAGE_SIZE)
    );
    vmspace.close_cursor_mut(cursor_mut);
    assert_eq!(reg.slot(pa1).refcount, 0);

    let mut cursor = vmspace.cursor(PAGE_SIZE, 2 * PAGE_SIZE).unwrap();
    assert_eq!(
        cursor.query(&vmspace).unwrap(),
        VmItem::Mapped { va: PAGE_SIZE, frame: pa2, prop }
    );
    vmspace.close_cursor(cursor);
}

#[test]
fn vmspace_unmap_twice() {
    let mut reg = FrameRegistry::new(16);
    let mut vmspace = VmSpace::new();
    let frame = reg.alloc_frame().unwrap();
    let prop = PageProperty::new(PageFlags::r(), CachePolicy::Writeback);

    let mut cursor_mut = vmspace.cursor_mut(PAGE_SIZE, 2 * PAGE_SIZE, 0).unwrap();
    cursor_mut.map(&mut vmspace, &mut reg, frame, prop);
    vmspace.close_cursor_mut(cursor_mut);

    let mut cursor_mut = vmspace.cursor_mut(PAGE_SIZE, 2 * PAGE_SIZE, 0).unwrap();
    cursor_mut.unmap(&mut vmspace, &mut reg, PAGE_SIZE);
    vmspace.close_cursor_mut(cursor_mut);

    // Unmapping the already-absent range again is a no-op and never errors.
    let mut cursor_mut = vmspace.cursor_mut(PAGE_SIZE, 2 * PAGE_SIZE, 0).unwrap();
    cursor_mut.unmap(&mut vmspace, &mut reg, PAGE_SIZE);
    vmspace.close_cursor_mut(cursor_mut);

    let mut cursor = vmspace.cursor(PAGE_SIZE, 2 * PAGE_SIZE).unwrap();
    assert_eq!(
        cursor.query(&vmspace).unwrap(),
        VmItem::NotMapped { va: PAGE_SIZE, len: PAGE_SIZE }
    );
    vmspace.close_cursor(cursor);
}

#[test]
fn vmspace_clear() {
    let mut reg = FrameRegistry::new(16);
    let mut vmspace = VmSpace::new();
    let frame = reg.alloc_frame().unwrap();
    let pa = frame.start_paddr();
    let prop = PageProperty::new(PageFlags::r(), CachePolicy::Writeback);
    let mut cursor_mut = vmspace.cursor_mut(2 * PAGE_SIZE, 3 * PAGE_SIZE, 0).unwrap();
    cursor_mut.map(&mut vmspace, &mut reg, frame, prop);
    vmspace.close_cursor_mut(cursor_mut);

    assert!(vmspace.clear(&mut reg, 0).is_ok());
    assert_eq!(reg.slot(pa).refcount, 0);

    let mut cursor = vmspace.cursor(2 * PAGE_SIZE, 3 * PAGE_SIZE).unwrap();
    assert_eq!(
        cursor.next(&vmspace),
        Some(VmItem::NotMapped { va: 2 * PAGE_SIZE, len: PAGE_SIZE })
    );
    vmspace.close_cursor(cursor);
}

#[test]
fn vmspace_clear_with_alive_cursors() {
    let mut reg = FrameRegistry::new(16);
    let mut vmspace = VmSpace::new();
    let cursor_mut = vmspace.cursor_mut(3 * PAGE_SIZE, 4 * PAGE_SIZE, 0).unwrap();
    let result = vmspace.clear(&mut reg, 0);
    assert_eq!(result.unwrap_err(), VmSpaceClearError::CursorsAlive);
    vmspace.close_cursor_mut(cursor_mut);
    assert!(vmspace.clear(&mut reg, 0).is_ok());
}

#[test]
fn vmspace_clear_while_activated_elsewhere() {
    let mut reg = FrameRegistry::new(16);
    let mut vmspace = VmSpace::new();
    vmspace.activate(1);
    // Active on another CPU: clearing from CPU 0 is refused, and the error
    // carries the activated set.
    match vmspace.clear(&mut reg, 0).unwrap_err() {
        VmSpaceClearError::PageTableActivated(cpus) => {
            assert!(cpus.contains(1));
            assert!(!cpus.contains(0));
        },
        VmSpaceClearError::CursorsAlive => panic!("wrong error"),
    }
    // Active only on the caller's own CPU: clearing is allowed.
    vmspace.deactivate(1);
    vmspace.activate(0);
    assert!(vmspace.clear(&mut reg, 0).is_ok());
}

#[test]
fn vmspace_activate() {
    let mut vmspace = VmSpace::new();
    let mut vmspace2 = VmSpace::new();
    vmspace.activate(0);
    // Switching spaces on a CPU: the old one is deactivated there.
    vmspace.deactivate(0);
    vmspace2.activate(0);
    let reader = vmspace2.reader(0, 0x4000, 16);
    assert!(reader.is_ok());
    let stale = vmspace.reader(0, 0x4000, 16);
    assert_eq!(stale.unwrap_err(), Error::AccessDenied);
}

#[test]
fn vmspace_reader_writer() {
    let mut reg = FrameRegistry::new(16);
    let mut vmspace = VmSpace::new();
    let frame = reg.alloc_frame().unwrap();
    let prop = PageProperty::new(PageFlags::r(), CachePolicy::Writeback);
    let mut cursor_mut = vmspace.cursor_mut(4 * PAGE_SIZE, 5 * PAGE_SIZE, 0).unwrap();
    cursor_mut.map(&mut vmspace, &mut reg, frame, prop);
    vmspace.close_cursor_mut(cursor_mut);

    // Not active: no reader, no writer.
    assert!(vmspace.reader(0, 4 * PAGE_SIZE, PAGE_SIZE).is_err());
    assert!(vmspace.writer(0, 4 * PAGE_SIZE, PAGE_SIZE).is_err());

    vmspace.activate(0);
    let reader = vmspace.reader(0, 4 * PAGE_SIZE, PAGE_SIZE).unwrap();
    assert_eq!(reader.va, 4 * PAGE_SIZE);
    assert_eq!(reader.len, PAGE_SIZE);
    let writer = vmspace.writer(0, 4 * PAGE_SIZE, PAGE_SIZE).unwrap();
    assert_eq!(writer.va, 4 * PAGE_SIZE);

    // A range beyond the user ceiling is refused.
    assert_eq!(
        vmspace.reader(0, 4 * PAGE_SIZE, u64::MAX).unwrap_err(),
        Error::AccessDenied
    );
    assert_eq!(
        vmspace.writer(0, 4 * PAGE_SIZE, u64::MAX).unwrap_err(),
        Error::AccessDenied
    );
}

#[test]
fn overlapping_cursors() {
    let mut vmspace = VmSpace::new();
    let range1 = (5 * PAGE_SIZE, 6 * PAGE_SIZE);
    // Overlaps range1.
    let range2 = (5 * PAGE_SIZE, 7 * PAGE_SIZE);
    let cursor1 = vmspace.cursor(range1.0, range1.1).expect("no first cursor");
    let cursor2_result = vmspace.cursor(range2.0, range2.1);
    assert_eq!(cursor2_result.unwrap_err(), Error::AccessDenied);
    vmspace.close_cursor(cursor1);
    // Once the first is gone, the second range is available.
    let cursor2 = vmspace.cursor(range2.0, range2.1).unwrap();
    vmspace.close_cursor(cursor2);
}

#[test]
fn cursor_iterator() {
    let mut reg = FrameRegistry::new(16);
    let mut vmspace = VmSpace::new();
    let frame = reg.alloc_frame().unwrap();
    let pa = frame.start_paddr();
    let prop = PageProperty::new(PageFlags::r(), CachePolicy::Writeback);
    let mut cursor_mut = vmspace.cursor_mut(6 * PAGE_SIZE, 7 * PAGE_SIZE, 0).unwrap();
    cursor_mut.map(&mut vmspace, &mut reg, frame, prop);
    vmspace.close_cursor_mut(cursor_mut);

    let mut cursor = vmspace.cursor(6 * PAGE_SIZE, 7 * PAGE_SIZE).unwrap();
    assert!(cursor.jump(6 * PAGE_SIZE).is_ok());
    let item = cursor.next(&vmspace);
    assert_eq!(item, Some(VmItem::Mapped { va: 6 * PAGE_SIZE, frame: pa, prop }));
    // No more items.
    assert_eq!(cursor.next(&vmspace), None);
    vmspace.close_cursor(cursor);
}

#[test]
fn protect_next() {
    let mut reg = FrameRegistry::new(16);
    let mut vmspace = VmSpace::new();
    let frame = reg.alloc_frame().unwrap();
    let pa = frame.start_paddr();
    let rw = PageProperty::new(PageFlags::rw(), CachePolicy::Writeback);

    let mut cursor_mut = vmspace.cursor_mut(7 * PAGE_SIZE, 8 * PAGE_SIZE, 0).unwrap();
    cursor_mut.map(&mut vmspace, &mut reg, frame, rw);
    cursor_mut.jump(7 * PAGE_SIZE).expect("jump failed");
    let op = PropertyOp::SetFlags(PageFlags::r());
    let protected = cursor_mut.protect_next(&mut vmspace, PAGE_SIZE, &op);
    assert_eq!(protected, Some((7 * PAGE_SIZE, 8 * PAGE_SIZE)));
    vmspace.close_cursor_mut(cursor_mut);

    let ro = PageProperty::new(PageFlags::r(), CachePolicy::Writeback);
    let mut cursor = vmspace.cursor(7 * PAGE_SIZE, 8 * PAGE_SIZE).unwrap();
    assert_eq!(
        cursor.next(&vmspace),
        Some(VmItem::Mapped { va: 7 * PAGE_SIZE, frame: pa, prop: ro })
    );
    vmspace.close_cursor(cursor);
}

#[test]
fn cursor_mut_flusher() {
    let mut reg = FrameRegistry::new(16);
    let mut vmspace = VmSpace::new();
    let frame = reg.alloc_frame().unwrap();
    let pa = frame.start_paddr();
    let prop = PageProperty::new(PageFlags::r(), CachePolicy::Writeback);
    let mut cursor_mut = vmspace.cursor_mut(4 * PAGE_SIZE, 5 * PAGE_SIZE, 0).unwrap();
    cursor_mut.map(&mut vmspace, &mut reg, frame, prop);
    vmspace.close_cursor_mut(cursor_mut);

    // A caller may batch and dispatch flushes of its own through the
    // cursor's flusher; the mapping stays.
    let mut cursor_mut = vmspace.cursor_mut(4 * PAGE_SIZE, 5 * PAGE_SIZE, 0).unwrap();
    cursor_mut.issue_tlb_flush(TlbFlushOp::All);
    assert_eq!(cursor_mut.flusher().pending_len(), 1);
    cursor_mut.dispatch_tlb_flush(&mut reg);
    assert_eq!(cursor_mut.flusher().pending_len(), 0);
    assert_eq!(cursor_mut.flusher().dispatched_len(), 1);
    assert_eq!(cursor_mut.flusher().dispatched_at(0), TlbFlushOp::All);
    vmspace.close_cursor_mut(cursor_mut);

    let mut cursor = vmspace.cursor(4 * PAGE_SIZE, 5 * PAGE_SIZE).unwrap();
    assert_eq!(
        cursor.next(&vmspace),
        Some(VmItem::Mapped { va: 4 * PAGE_SIZE, frame: pa, prop })
    );
    vmspace.close_cursor(cursor);
}

#[test]
fn vm_item_equality_ignores_absent_len() {
    let a = VmItem::NotMapped { va: PAGE_SIZE, len: PAGE_SIZE };
    let b = VmItem::NotMapped { va: PAGE_SIZE, len: 4 * PAGE_SIZE };
    let c = VmItem::NotMapped { va: 2 * PAGE_SIZE, len: PAGE_SIZE };
    assert_eq!(a, b);
    assert_ne!(a, c);
    let prop = PageProperty::new(PageFlags::r(), CachePolicy::Writeback);
    let m1 = VmItem::Mapped { va: PAGE_SIZE, frame: 0, prop };
    let m2 = VmItem::Mapped { va: PAGE_SIZE, frame: PAGE_SIZE, prop };
    assert_ne!(m1, m2);
    assert_ne!(m1, a);
}

#[test]
fn large_unmap_escalates_to_full_flush() {
    // Unmapping a range past the threshold on a space active nowhere else
    // releases frames eagerly and dispatches one full flush.
    let mut reg = FrameRegistry::new(64);
    let mut vmspace = VmSpace::new();
    let prop = PageProperty::new(PageFlags::r(), CachePolicy::Writeback);
    let pages = 33u64;

    let mut cursor_mut = vmspace.cursor_mut(0, pages * PAGE_SIZE, 0).unwrap();
    let frame = reg.alloc_frame().unwrap();
    let pa = frame.start_paddr();
    cursor_mut.map(&mut vmspace, &mut reg, frame, prop);
    vmspace.close_cursor_mut(cursor_mut);

    let mut cursor_mut = vmspace.cursor_mut(0, pages * PAGE_SIZE, 0).unwrap();
    cursor_mut.unmap(&mut vmspace, &mut reg, pages * PAGE_SIZE);
    assert_eq!(cursor_mut.flusher().dispatched_len(), 1);
    assert_eq!(cursor_mut.flusher().dispatched_at(0), TlbFlushOp::All);
    vmspace.close_cursor_mut(cursor_mut);
    assert_eq!(reg.slot(pa).refcount, 0);
}
