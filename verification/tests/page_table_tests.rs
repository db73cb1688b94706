//! Page-table cursor behaviour: range validation, mapping, unmapping,
//! protection and page-size choice.

use ostd_mm::frame::FrameRegistry;
use ostd_mm::page_prop::{CachePolicy, PageFlags, PageProperty, PropertyOp};
use ostd_mm::page_table::{setup_page_table, PageTableItem, PtItem, PtMode};
use ostd_mm::{Error, KERNEL_BASE_VADDR, MAX_USERSPACE_VADDR, PAGE_SIZE};

#[test]
fn init_user_page_table() {
    let mut user_pt = setup_page_table(PtMode::User);
    assert!(user_pt.cursor(0, MAX_USERSPACE_VADDR).is_ok());
}

#[test]
fn init_kernel_page_table() {
    let mut kernel_pt = setup_page_table(PtMode::Kernel);
    assert!(kernel_pt.cursor(KERNEL_BASE_VADDR, KERNEL_BASE_VADDR + PAGE_SIZE).is_ok());
}

#[test]
fn range_check() {
    let mut page_table = setup_page_table(PtMode::User);
    // A valid range succeeds.
    let c = page_table.cursor_mut(0, PAGE_SIZE).unwrap();
    page_table.close_cursor_mut(c);
    // A misaligned length is rejected.
    assert_eq!(page_table.cursor_mut(0, PAGE_SIZE + 1).unwrap_err(), Error::InvalidArgs);
    // The kernel-reserved range is rejected on a user-mode table.
    assert_eq!(
        page_table.cursor_mut(KERNEL_BASE_VADDR, KERNEL_BASE_VADDR + PAGE_SIZE).unwrap_err(),
        Error::InvalidArgs
    );
}

#[test]
fn boundary_conditions() {
    let mut page_table = setup_page_table(PtMode::User);
    // An empty range is rejected.
    assert_eq!(page_table.cursor_mut(0, 0).unwrap_err(), Error::InvalidArgs);
    // A range beyond the user ceiling is rejected.
    assert_eq!(
        page_table
            .cursor_mut(MAX_USERSPACE_VADDR, MAX_USERSPACE_VADDR + PAGE_SIZE)
            .unwrap_err(),
        Error::InvalidArgs
    );
    // A misaligned start is rejected.
    assert_eq!(page_table.cursor_mut(1, PAGE_SIZE + 1).unwrap_err(), Error::InvalidArgs);
}

#[test]
fn tracked_map_unmap() {
    let mut reg = FrameRegistry::new(16);
    let mut page_table = setup_page_table(PtMode::User);
    let frame = reg.alloc_frame().unwrap();
    let start_paddr = frame.start_paddr();
    let prop = PageProperty::new(PageFlags::rw(), CachePolicy::Writeback);

    let mut cursor = page_table.cursor_mut(PAGE_SIZE, 2 * PAGE_SIZE).unwrap();
    let replaced = cursor.map(&mut page_table, frame, prop);
    assert_eq!(replaced.len(), 0);
    page_table.close_cursor_mut(cursor);

    // The round trip: the query reports the mapped frame and property.
    assert_eq!(page_table.query(PAGE_SIZE + 10), Some((start_paddr + 10, prop)));

    // Unmapping returns the frame.
    let mut cursor = page_table.cursor_mut(PAGE_SIZE, 2 * PAGE_SIZE).unwrap();
    let item = cursor.take_next(&mut page_table, PAGE_SIZE);
    match item {
        PageTableItem::Mapped { va, page, prop: p } => {
            assert_eq!(va, PAGE_SIZE);
            assert_eq!(page.start_paddr(), start_paddr);
            assert_eq!(p, prop);
            reg.release_frame(page);
        },
        _ => panic!("expected a tracked mapping"),
    }
    page_table.close_cursor_mut(cursor);
    assert_eq!(page_table.query(PAGE_SIZE + 10), None);
}

#[test]
fn take_next_absent_is_noop() {
    // Unmapping an absent range finds nothing, changes nothing and never
    // errors.
    let mut page_table = setup_page_table(PtMode::User);
    let mut cursor = page_table.cursor_mut(PAGE_SIZE, 3 * PAGE_SIZE).unwrap();
    let item = cursor.take_next(&mut page_table, 2 * PAGE_SIZE);
    assert!(matches!(item, PageTableItem::NotMapped { va, len } if va == PAGE_SIZE && len == 2 * PAGE_SIZE));
    page_table.close_cursor_mut(cursor);
    assert_eq!(page_table.query(PAGE_SIZE), None);
}

#[test]
fn remapping_same_range() {
    let mut reg = FrameRegistry::new(16);
    let mut page_table = setup_page_table(PtMode::User);
    let initial_prop = PageProperty::new(PageFlags::rw(), CachePolicy::Writeback);
    let new_prop = PageProperty::new(PageFlags::r(), CachePolicy::Writeback);

    let initial_frame = reg.alloc_frame().unwrap();
    let initial_paddr = initial_frame.start_paddr();
    let mut cursor = page_table.cursor_mut(PAGE_SIZE, 2 * PAGE_SIZE).unwrap();
    cursor.map(&mut page_table, initial_frame, initial_prop);
    page_table.close_cursor_mut(cursor);
    assert_eq!(page_table.query(PAGE_SIZE + 100), Some((initial_paddr + 100, initial_prop)));

    // Remapping replaces the mapping and hands the old frame back.
    let new_frame = reg.alloc_frame().unwrap();
    let new_paddr = new_frame.start_paddr();
    let mut cursor = page_table.cursor_mut(PAGE_SIZE, 2 * PAGE_SIZE).unwrap();
    let mut replaced = cursor.map(&mut page_table, new_frame, new_prop);
    page_table.close_cursor_mut(cursor);
    assert_eq!(replaced.len(), 1);
    let old_extent = replaced.pop().unwrap();
    assert_eq!(old_extent.pa, initial_paddr);
    reg.release_frame(old_extent.frame.unwrap());

    assert_eq!(page_table.query(PAGE_SIZE + 100), Some((new_paddr + 100, new_prop)));
}

#[test]
fn different_page_sizes() {
    // A 2-MiB-aligned position with 2 MiB of room takes a level-2 page; a
    // 1-GiB-aligned position with 1 GiB of room takes a level-3 page.
    let mut reg = FrameRegistry::new(16);
    let mut page_table = setup_page_table(PtMode::User);
    let prop = PageProperty::new(PageFlags::rw(), CachePolicy::Writeback);

    let two_m = PAGE_SIZE * 512;
    let frame_2m = reg.alloc_frame().unwrap();
    let pa_2m = frame_2m.start_paddr();
    let mut cursor = page_table.cursor_mut(two_m, 2 * two_m).unwrap();
    cursor.map(&mut page_table, frame_2m, prop);
    assert_eq!(cursor.virt_addr(), 2 * two_m);
    page_table.close_cursor_mut(cursor);
    // Every byte of the whole super-page reports the same mapping base.
    assert_eq!(page_table.query(two_m + 10), Some((pa_2m + 10, prop)));
    assert_eq!(page_table.query(2 * two_m - 1), Some((pa_2m + two_m - 1, prop)));

    let one_g = PAGE_SIZE * 512 * 512;
    let frame_1g = reg.alloc_frame().unwrap();
    let pa_1g = frame_1g.start_paddr();
    let mut cursor = page_table.cursor_mut(one_g, 2 * one_g).unwrap();
    cursor.map(&mut page_table, frame_1g, prop);
    assert_eq!(cursor.virt_addr(), 2 * one_g);
    page_table.close_cursor_mut(cursor);
    assert_eq!(page_table.query(one_g + 10), Some((pa_1g + 10, prop)));
    assert_eq!(page_table.query(2 * one_g - PAGE_SIZE), Some((pa_1g + one_g - PAGE_SIZE, prop)));
}

#[test]
fn small_range_takes_base_page() {
    // With only one page of room, the cursor chooses the base page size,
    // however aligned the position is.
    let mut reg = FrameRegistry::new(16);
    let mut page_table = setup_page_table(PtMode::User);
    let prop = PageProperty::new(PageFlags::r(), CachePolicy::Writeback);
    let two_m = PAGE_SIZE * 512;
    let frame = reg.alloc_frame().unwrap();
    let mut cursor = page_table.cursor_mut(two_m, two_m + PAGE_SIZE).unwrap();
    cursor.map(&mut page_table, frame, prop);
    assert_eq!(cursor.virt_addr(), two_m + PAGE_SIZE);
    page_table.close_cursor_mut(cursor);
    assert!(page_table.query(two_m).is_some());
    assert_eq!(page_table.query(two_m + PAGE_SIZE), None);
}

#[test]
fn protect_next_in_place() {
    let mut reg = FrameRegistry::new(16);
    let mut page_table = setup_page_table(PtMode::User);
    let frame = reg.alloc_frame().unwrap();
    let pa = frame.start_paddr();
    let rw = PageProperty::new(PageFlags::rw(), CachePolicy::Writeback);

    let mut cursor = page_table.cursor_mut(PAGE_SIZE, 2 * PAGE_SIZE).unwrap();
    cursor.map(&mut page_table, frame, rw);
    let jumped = cursor.jump(PAGE_SIZE);
    assert!(jumped.is_ok());
    let op = PropertyOp::SetFlags(PageFlags::r());
    let touched = cursor.protect_next(&mut page_table, PAGE_SIZE, &op);
    assert_eq!(touched, Some((PAGE_SIZE, 2 * PAGE_SIZE)));
    page_table.close_cursor_mut(cursor);

    let ro = PageProperty::new(PageFlags::r(), CachePolicy::Writeback);
    assert_eq!(page_table.query(PAGE_SIZE), Some((pa, ro)));
}

#[test]
fn protect_next_empty_entry() {
    let mut page_table = setup_page_table(PtMode::User);
    let mut cursor = page_table.cursor_mut(PAGE_SIZE, 2 * PAGE_SIZE).unwrap();
    let op = PropertyOp::SetFlags(PageFlags::r());
    let result = cursor.protect_next(&mut page_table, PAGE_SIZE, &op);
    assert!(result.is_none());
    page_table.close_cursor_mut(cursor);
}

#[test]
fn cursor_query_item() {
    let mut reg = FrameRegistry::new(16);
    let mut page_table = setup_page_table(PtMode::User);
    let frame = reg.alloc_frame().unwrap();
    let pa = frame.start_paddr();
    let prop = PageProperty::new(PageFlags::r(), CachePolicy::Writeback);
    let mut cursor = page_table.cursor_mut(PAGE_SIZE, 3 * PAGE_SIZE).unwrap();
    cursor.map(&mut page_table, frame, prop);
    page_table.close_cursor_mut(cursor);

    let mut cursor = page_table.cursor(PAGE_SIZE, 3 * PAGE_SIZE).unwrap();
    let item = cursor.query(&page_table);
    assert_eq!(item, PtItem::Mapped { va: PAGE_SIZE, len: PAGE_SIZE, pa, prop });
    let first = cursor.next(&page_table);
    assert_eq!(first, Some(PtItem::Mapped { va: PAGE_SIZE, len: PAGE_SIZE, pa, prop }));
    let second = cursor.next(&page_table);
    assert_eq!(second, Some(PtItem::NotMapped { va: 2 * PAGE_SIZE, len: PAGE_SIZE }));
    let third = cursor.next(&page_table);
    assert_eq!(third, None);
    page_table.close_cursor(cursor);
}

#[test]
fn untracked_map_unmap() {
    // A kernel table carries untracked runs: identity-style mappings of
    // physical memory the frame registry does not own.
    let mut kernel_pt = setup_page_table(PtMode::Kernel);
    let base = KERNEL_BASE_VADDR + 12444 * PAGE_SIZE;
    let target = 1434 * PAGE_SIZE;
    let prop = PageProperty::new(PageFlags::rw(), CachePolicy::Writeback);

    let mut cursor = kernel_pt.cursor_mut(base, base + 6 * PAGE_SIZE).unwrap();
    let replaced = cursor.map_untracked(&mut kernel_pt, target, 6 * PAGE_SIZE, prop);
    assert_eq!(replaced.len(), 0);
    assert_eq!(cursor.virt_addr(), base + 6 * PAGE_SIZE);
    kernel_pt.close_cursor_mut(cursor);

    // Every page of the run translates with the run's offset.
    for i in 0..6 {
        let offset = i * PAGE_SIZE;
        assert_eq!(kernel_pt.query(base + offset), Some((target + offset, prop)));
    }

    // Removing the run hands back an untracked item, never a frame.
    let mut cursor = kernel_pt.cursor_mut(base, base + 6 * PAGE_SIZE).unwrap();
    let item = cursor.take_next(&mut kernel_pt, 6 * PAGE_SIZE);
    match item {
        PageTableItem::MappedUntracked { va, pa, len, prop: p } => {
            assert_eq!(va, base);
            assert_eq!(pa, target);
            assert_eq!(len, 6 * PAGE_SIZE);
            assert_eq!(p, prop);
        },
        _ => panic!("expected an untracked mapping"),
    }
    kernel_pt.close_cursor_mut(cursor);
    assert_eq!(kernel_pt.query(base), None);
    assert_eq!(kernel_pt.query(base + 5 * PAGE_SIZE), None);
}

#[test]
fn full_unmap() {
    let mut reg = FrameRegistry::new(32);
    let mut page_table = setup_page_table(PtMode::User);
    let prop = PageProperty::new(PageFlags::rw(), CachePolicy::Writeback);
    let count = 8u64;

    let mut cursor = page_table.cursor_mut(0, count * PAGE_SIZE).unwrap();
    for _ in 0..count {
        let frame = reg.alloc_frame().unwrap();
        cursor.map(&mut page_table, frame, prop);
    }
    page_table.close_cursor_mut(cursor);
    for i in 0..count {
        assert!(page_table.query(i * PAGE_SIZE).is_some());
    }

    let mut cursor = page_table.cursor_mut(0, count * PAGE_SIZE).unwrap();
    for _ in 0..count {
        match cursor.take_next(&mut page_table, PAGE_SIZE) {
            PageTableItem::Mapped { page, .. } => reg.release_frame(page),
            _ => panic!("expected a tracked mapping"),
        }
    }
    page_table.close_cursor_mut(cursor);
    for i in 0..count {
        assert!(page_table.query(i * PAGE_SIZE).is_none());
    }
}

#[test]
fn base_protect_query() {
    let mut reg = FrameRegistry::new(32);
    let mut page_table = setup_page_table(PtMode::User);
    let prop = PageProperty::new(PageFlags::rw(), CachePolicy::Writeback);
    // Map pages 1 through 9.
    let mut cursor = page_table.cursor_mut(PAGE_SIZE, 10 * PAGE_SIZE).unwrap();
    for _ in 1..10 {
        let frame = reg.alloc_frame().unwrap();
        cursor.map(&mut page_table, frame, prop);
    }
    page_table.close_cursor_mut(cursor);

    // Protect pages 4 and 5 by removing the write flag.
    let mut cursor = page_table.cursor_mut(4 * PAGE_SIZE, 6 * PAGE_SIZE).unwrap();
    let op = PropertyOp::RemoveFlags(PageFlags::from_bits(2));
    let first = cursor.protect_next(&mut page_table, 2 * PAGE_SIZE, &op);
    assert_eq!(first, Some((4 * PAGE_SIZE, 5 * PAGE_SIZE)));
    let second = cursor.protect_next(&mut page_table, PAGE_SIZE, &op);
    assert_eq!(second, Some((5 * PAGE_SIZE, 6 * PAGE_SIZE)));
    page_table.close_cursor_mut(cursor);

    let ro = PageProperty::new(PageFlags::r(), CachePolicy::Writeback);
    assert_eq!(page_table.query(4 * PAGE_SIZE).unwrap().1, ro);
    assert_eq!(page_table.query(5 * PAGE_SIZE).unwrap().1, ro);
    // The neighbours keep their property.
    assert_eq!(page_table.query(3 * PAGE_SIZE).unwrap().1, prop);
    assert_eq!(page_table.query(6 * PAGE_SIZE).unwrap().1, prop);
}
