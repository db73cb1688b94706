//! Frame registry, frame handle and segment behaviour.

use ostd_mm::frame::{frame_into_typed, mem_available, mem_total, retype_pages_at,
    FrameRegistry, PageState, TypedKind};
use ostd_mm::{Error, PAGE_SIZE};

#[test]
fn frame_allocation() {
    let mut reg = FrameRegistry::new(16);
    let frame = reg.alloc_frame().expect("no frame");
    assert_eq!(frame.start_paddr(), 0);
    assert_eq!(frame.size(), PAGE_SIZE);
    assert_eq!(frame.level(), 1);
    assert_eq!(reg.slot(frame.start_paddr()).refcount, 1);
    assert!(matches!(reg.slot(frame.start_paddr()).state, PageState::Untyped));
}

#[test]
fn frame_clone() {
    let mut reg = FrameRegistry::new(16);
    let frame1 = reg.alloc_frame().unwrap();
    let frame2 = reg.clone_frame(&frame1);
    assert_eq!(frame1.start_paddr(), frame2.start_paddr());
    assert_eq!(reg.slot(frame1.start_paddr()).refcount, 2);
    reg.release_frame(frame2);
    assert_eq!(reg.slot(frame1.start_paddr()).refcount, 1);
    reg.release_frame(frame1);
}

#[test]
fn frame_drop() {
    let mut reg = FrameRegistry::new(16);
    let frame = reg.alloc_frame().unwrap();
    let paddr_before = frame.start_paddr();
    assert_eq!(reg.slot(paddr_before).refcount, 1);
    reg.release_frame(frame);
    assert!(matches!(reg.slot(paddr_before).state, PageState::Unused));
    assert_eq!(reg.slot(paddr_before).refcount, 0);
    // The first-fit allocator reuses the page, and only then.
    let new_frame = reg.alloc_frame().unwrap();
    assert_eq!(new_frame.start_paddr(), paddr_before);
    assert_eq!(reg.slot(new_frame.start_paddr()).refcount, 1);
}

#[test]
fn refcount_zero_means_reusable() {
    // A page with a positive count is never handed out again; once the
    // count returns to zero it is the first to be reused.
    let mut reg = FrameRegistry::new(4);
    let a = reg.alloc_frame().unwrap();
    let b = reg.alloc_frame().unwrap();
    assert_ne!(a.start_paddr(), b.start_paddr());
    let a_addr = a.start_paddr();
    reg.release_frame(a);
    let c = reg.alloc_frame().unwrap();
    assert_eq!(c.start_paddr(), a_addr);
    reg.release_frame(b);
    reg.release_frame(c);
}

#[test]
fn clone_n_release_n_roundtrip() {
    // Cloning three times and releasing the three clones restores the
    // original count.
    let mut reg = FrameRegistry::new(8);
    let frame = reg.alloc_frame().unwrap();
    let paddr = frame.start_paddr();
    assert_eq!(reg.slot(paddr).refcount, 1);
    let c1 = reg.clone_frame(&frame);
    let c2 = reg.clone_frame(&frame);
    let c3 = reg.clone_frame(&frame);
    assert_eq!(reg.slot(paddr).refcount, 4);
    reg.release_frame(c3);
    reg.release_frame(c2);
    reg.release_frame(c1);
    assert_eq!(reg.slot(paddr).refcount, 1);
    assert!(matches!(reg.slot(paddr).state, PageState::Untyped));
}

#[test]
fn out_of_memory() {
    let mut reg = FrameRegistry::new(1);
    let a = reg.alloc_frame().unwrap();
    assert_eq!(reg.alloc_frame().unwrap_err(), Error::OutOfMemory);
    reg.release_frame(a);
    assert!(reg.alloc_frame().is_ok());
}

#[test]
fn allocator_counting() {
    let mut reg = FrameRegistry::new(8);
    let total = mem_total(&reg);
    assert_eq!(total, 8 * PAGE_SIZE);
    let initial_available = mem_available(&reg);
    assert_eq!(initial_available, 8 * PAGE_SIZE);
    let frame = reg.alloc_frame().unwrap();
    let after_alloc = mem_available(&reg);
    assert_eq!(initial_available - after_alloc, PAGE_SIZE);
    reg.release_frame(frame);
    assert_eq!(mem_available(&reg), initial_available);
}

#[test]
fn segment_creation() {
    let mut reg = FrameRegistry::new(16);
    let segment = reg.alloc_segment(4).expect("no segment");
    assert_eq!(segment.size(), 4 * PAGE_SIZE);
    assert_eq!(segment.start_paddr(), 0);
    assert_eq!(segment.end_paddr(), 4 * PAGE_SIZE);
    reg.release_segment(segment);
}

#[test]
fn empty_segment_creation() {
    let mut reg = FrameRegistry::new(16);
    let result = reg.alloc_segment(0);
    assert_eq!(result.unwrap_err(), Error::InvalidArgs);
}

#[test]
fn segment_out_of_memory() {
    let mut reg = FrameRegistry::new(4);
    assert_eq!(reg.alloc_segment(5).unwrap_err(), Error::OutOfMemory);
    let held = reg.alloc_frame().unwrap();
    // Three pages remain, but no run of four.
    assert_eq!(reg.alloc_segment(4).unwrap_err(), Error::OutOfMemory);
    reg.release_frame(held);
    assert!(reg.alloc_segment(4).is_ok());
}

#[test]
fn segment_split() {
    let mut reg = FrameRegistry::new(16);
    let segment = reg.alloc_segment(2).unwrap();
    let (first, second) = segment.split(PAGE_SIZE);
    assert_eq!(first.size(), PAGE_SIZE);
    assert_eq!(second.size(), PAGE_SIZE);
    // Splitting conserves the counts: each page still holds one unit.
    assert_eq!(reg.slot(first.start_paddr()).refcount, 1);
    assert_eq!(reg.slot(second.start_paddr()).refcount, 1);
    reg.release_segment(first);
    reg.release_segment(second);
}

#[test]
fn segment_slice() {
    let mut reg = FrameRegistry::new(16);
    let segment = reg.alloc_segment(3).unwrap();
    let slice = segment.slice(&mut reg, PAGE_SIZE, 2 * PAGE_SIZE);
    assert_eq!(slice.size(), PAGE_SIZE);
    assert_eq!(slice.start_paddr(), segment.start_paddr() + PAGE_SIZE);
    // The slice shares ownership: the page in the middle holds two units.
    assert_eq!(reg.slot(PAGE_SIZE).refcount, 2);
    assert_eq!(reg.slot(0).refcount, 1);
    reg.release_segment(slice);
    assert_eq!(reg.slot(PAGE_SIZE).refcount, 1);
    reg.release_segment(segment);
}

#[test]
fn segment_iteration() {
    let mut reg = FrameRegistry::new(16);
    let segment = reg.alloc_segment(2).unwrap();
    let frames = segment.into_frames();
    assert_eq!(frames.len(), 2);
    let mut count = 0;
    for frame in frames {
        assert_eq!(frame.start_paddr(), count * PAGE_SIZE);
        assert_eq!(reg.slot(frame.start_paddr()).refcount, 1);
        count += 1;
        reg.release_frame(frame);
    }
    assert_eq!(count, 2);
}

#[test]
fn segment_drop() {
    let mut reg = FrameRegistry::new(16);
    let segment = reg.alloc_segment(1).unwrap();
    let paddr_before = segment.start_paddr();
    reg.release_segment(segment);
    let new_segment = reg.alloc_segment(1).unwrap();
    assert_eq!(new_segment.start_paddr(), paddr_before);
    reg.release_segment(new_segment);
}

#[test]
fn frame_to_segment() {
    let mut reg = FrameRegistry::new(16);
    let frame = reg.alloc_frame().unwrap();
    let paddr = frame.start_paddr();
    let segment = frame.into_segment();
    assert_eq!(segment.size(), PAGE_SIZE);
    assert_eq!(segment.start_paddr(), paddr);
    reg.release_segment(segment);
}

#[test]
fn retype_pages() {
    let mut reg = FrameRegistry::new(16);
    let segment = reg.alloc_segment(3).unwrap();
    let base = segment.start_paddr();
    retype_pages_at(&mut reg, base, 3, 8, TypedKind::PageTable);
    for i in 0..3u64 {
        let slot = reg.slot(base + i * PAGE_SIZE);
        assert_eq!(slot.refcount, 1);
        assert_eq!(
            slot.state,
            PageState::Typed { page_type: TypedKind::PageTable, type_size: 8 }
        );
    }
    reg.release_segment(segment);
    assert!(matches!(reg.slot(base).state, PageState::Unused));
}

#[test]
fn typed_kind_from_usize() {
    assert_eq!(TypedKind::from_usize(1), Some(TypedKind::Slab));
    assert_eq!(TypedKind::from_usize(2), Some(TypedKind::PageTable));
    assert_eq!(TypedKind::from_usize(3), Some(TypedKind::Stack));
    assert_eq!(TypedKind::from_usize(4), Some(TypedKind::Interpreter));
    assert_eq!(TypedKind::from_usize(0), None);
    assert_eq!(TypedKind::from_usize(5), None);
}

#[test]
fn frame_conversions() {
    let mut reg = FrameRegistry::new(16);
    let frame = reg.alloc_frame().unwrap();
    let paddr = frame.start_paddr();
    retype_pages_at(&mut reg, paddr, 1, 64, TypedKind::Slab);

    // The tag check fails on the wrong kind and hands the handle back.
    let frame = match frame_into_typed(&reg, frame, TypedKind::Stack) {
        Ok(_) => panic!("wrong kind accepted"),
        Err(f) => f,
    };
    assert_eq!(frame.start_paddr(), paddr);

    // The matching kind converts, and the typed handle converts back
    // unconditionally.
    let typed = frame_into_typed(&reg, frame, TypedKind::Slab).expect("matching kind refused");
    assert_eq!(typed.kind(), TypedKind::Slab);
    assert_eq!(typed.start_paddr(), paddr);
    let frame = typed.into_frame();
    assert_eq!(frame.start_paddr(), paddr);
    reg.release_frame(frame);
}

#[test]
fn untyped_frame_does_not_convert() {
    let mut reg = FrameRegistry::new(16);
    let frame = reg.alloc_frame().unwrap();
    let frame = match frame_into_typed(&reg, frame, TypedKind::Slab) {
        Ok(_) => panic!("untyped page accepted as typed"),
        Err(f) => f,
    };
    reg.release_frame(frame);
}
