//! The address space of one user: a user-half page table composed with
//! cursor locking, CPU-activation bookkeeping and per-cursor TLB flushing.
//!
//! A `VmSpace` owns one user-mode page table. Cursors over it behave like
//! lock guards: each exclusively owns its virtual range. A mutating cursor
//! additionally holds one unit of the activation read lock, so the space
//! cannot be cleared — and should not be newly activated — while it lives,
//! and carries its own TLB flusher, through which every frame it unmaps or
//! replaces is flushed before it is released.

use vstd::prelude::*;

use crate::cpu::{CpuId, CpuSet};
use crate::frame::{Frame, FrameRegistry};
use crate::page_prop::{PageProperty, PropertyOp};
use crate::page_table::{backing_count, choose_level_spec, extent_backing, find_extent,
    lemma_find_some, locks_conflict, mapped_extent_spec, masked_find, mirror_at, range_valid,
    setup_page_table, MapExtent, PageTable, PtItem, PtMode};
use crate::tlb::{released_count, TlbFlushOp, TlbFlusher, FLUSH_ALL_RANGE_THRESHOLD};
use crate::{page_size_spec, Error, Paddr, Vaddr, MAX_USERSPACE_VADDR, NR_LEVELS, PAGE_SIZE};

verus! {

/// Why a `VmSpace::clear` was refused.
#[derive(Clone, Copy, Debug, PartialEq, Eq, Structural)]
pub enum VmSpaceClearError {
    /// The space is activated on CPUs beyond (at most) the caller's own;
    /// the set of activated CPUs is carried along.
    PageTableActivated(CpuSet),
    /// Cursors over the space are still alive.
    CursorsAlive,
}

/// The result of a query over the address space.
#[derive(Clone, Copy, Debug)]
pub enum VmItem {
    /// The queried slot is not mapped.
    NotMapped {
        /// The virtual address of the slot.
        va: Vaddr,
        /// The length of the unmapped stretch the query found.
        len: u64,
    },
    /// The queried slot is mapped.
    Mapped {
        /// The virtual address the mapping starts at.
        va: Vaddr,
        /// The physical address of the mapped frame.
        frame: Paddr,
        /// The property of the mapping.
        prop: PageProperty,
    },
}

impl PartialEq for VmItem {
    /// Two unmapped items agree when they name the same slot — the reported
    /// length varies with the neighbourhood and does not count — and two
    /// mapped items agree when address, frame and property all agree.
    fn eq(&self, other: &Self) -> (r: bool) {
        match (self, other) {
            (VmItem::NotMapped { va: va1, len: _ }, VmItem::NotMapped { va: va2, len: _ }) => va1
                == va2,
            (
                VmItem::Mapped { va: va1, frame: f1, prop: p1 },
                VmItem::Mapped { va: va2, frame: f2, prop: p2 },
            ) => va1 == va2 && f1 == f2 && p1 == p2,
            _ => false,
        }
    }
}

impl vstd::std_specs::cmp::PartialEqSpecImpl for VmItem {
    open spec fn obeys_eq_spec() -> bool {
        true
    }

    open spec fn eq_spec(&self, other: &VmItem) -> bool {
        match (self, other) {
            (VmItem::NotMapped { va: va1, .. }, VmItem::NotMapped { va: va2, .. }) => va1 == va2,
            (
                VmItem::Mapped { va: va1, frame: f1, prop: p1 },
                VmItem::Mapped { va: va2, frame: f2, prop: p2 },
            ) => va1 == va2 && f1 == f2 && p1 == p2,
            _ => false,
        }
    }
}

/// A fallible reader over a byte range of the user address space; handed out
/// only against an active space, for a range below the user ceiling.
#[derive(Clone, Copy, Debug, PartialEq, Eq, Structural)]
pub struct VmReader {
    /// The virtual address the reader starts at.
    pub va: Vaddr,
    /// How many bytes the reader may cover.
    pub len: u64,
}

/// A fallible writer over a byte range of the user address space; handed out
/// only against an active space, for a range below the user ceiling.
#[derive(Clone, Copy, Debug, PartialEq, Eq, Structural)]
pub struct VmWriter {
    /// The virtual address the writer starts at.
    pub va: Vaddr,
    /// How many bytes the writer may cover.
    pub len: u64,
}

/// One user virtual memory space.
#[derive(Debug)]
pub struct VmSpace {
    pt: PageTable,
    cpus: CpuSet,
    mut_cursors: usize,
}

impl VmSpace {
    /// The space's page table.
    pub closed spec fn pt_spec(&self) -> PageTable {
        self.pt
    }

    /// The CPUs the space is activated on.
    pub closed spec fn cpus_spec(&self) -> CpuSet {
        self.cpus
    }

    /// How many mutating cursors are alive: the readers of the activation
    /// lock.
    pub closed spec fn mut_cursors_spec(&self) -> int {
        self.mut_cursors as int
    }

    /// The extent mapping the virtual address `v`, if any.
    pub open spec fn query_spec(&self, v: int) -> Option<MapExtent> {
        find_extent(self.pt_spec().extents_seq(), v)
    }

    /// The space's invariant: a well-formed user-mode table that installs
    /// leaves at any supported level, with no more mutating cursors than
    /// cursors at all.
    pub open spec fn wf(&self) -> bool {
        &&& self.pt_spec().wf()
        &&& self.pt_spec().mode_spec() is User
        &&& self.pt_spec().highest_spec() == NR_LEVELS
        &&& self.mut_cursors_spec() <= self.pt_spec().locks_seq().len()
    }

    /// Whether every frame the space's mappings hold is a live page of
    /// `reg`, with at least as many reference-count units as the space's
    /// mappings hold on it.
    pub open spec fn frames_live_in(&self, reg: &FrameRegistry) -> bool {
        &&& forall|i: int|
            0 <= i < self.pt_spec().extents_seq().len() ==> reg.in_range(
                (#[trigger] self.pt_spec().extents_seq()[i]).pa,
            )
        &&& forall|j: int|
            0 <= j < reg.num_frames() ==> backing_count(self.pt_spec().extents_seq(), j) <= (
            #[trigger] reg.slots_seq()[j]).refcount
    }

    /// A new address space: no mappings, no live cursors, activated nowhere.
    pub fn new() -> (r: VmSpace)
        ensures
            r.wf(),
            r.pt_spec().extents_seq() == Seq::<MapExtent>::empty(),
            r.pt_spec().locks_seq() == Seq::<(Vaddr, Vaddr)>::empty(),
            r.cpus_spec().bits == 0,
            r.mut_cursors_spec() == 0,
    {
        VmSpace { pt: setup_page_table(PtMode::User), cpus: CpuSet::new_empty(), mut_cursors: 0 }
    }

    /// How many cursors of either kind are alive over the space.
    pub fn cursor_count(&self) -> (r: usize)
        ensures
            r == self.pt_spec().locks_seq().len(),
    {
        self.pt.lock_count()
    }

    /// A read-only cursor over `[start, end)`, locking the range against
    /// every other cursor. Fails with `InvalidArgs` exactly when the range
    /// is misaligned, empty or not inside the user half, and with
    /// `AccessDenied` exactly when it overlaps a live cursor's range.
    pub fn cursor(&mut self, start: Vaddr, end: Vaddr) -> (r: Result<Cursor, Error>)
        requires
            old(self).wf(),
        ensures
            final(self).wf(),
            final(self).pt_spec().extents_seq() == old(self).pt_spec().extents_seq(),
            final(self).cpus_spec() == old(self).cpus_spec(),
            final(self).mut_cursors_spec() == old(self).mut_cursors_spec(),
            match r {
                Ok(c) => {
                    &&& range_valid(PtMode::User, start as int, end as int)
                    &&& !locks_conflict(old(self).pt_spec().locks_seq(), start as int, end as int)
                    &&& c.inner.start_spec() == start
                    &&& c.inner.end_spec() == end
                    &&& c.inner.va_spec() == start
                    &&& c.inner.active_in(&final(self).pt_spec())
                },
                Err(e) => {
                    &&& final(self).pt_spec().locks_seq() == old(self).pt_spec().locks_seq()
                    &&& ((e == Error::InvalidArgs && !range_valid(
                        PtMode::User,
                        start as int,
                        end as int,
                    )) || (e == Error::AccessDenied && range_valid(
                        PtMode::User,
                        start as int,
                        end as int,
                    ) && locks_conflict(old(self).pt_spec().locks_seq(), start as int, end as int)))
                },
            },
    {
        match self.pt.cursor(start, end) {
            Ok(inner) => Ok(Cursor { inner }),
            Err(e) => Err(e),
        }
    }

    /// A mutating cursor over `[start, end)`, locking the range and taking
    /// one unit of the activation read lock; `current_cpu` names the CPU the
    /// cursor runs on, for the cursor's TLB flusher. The same acceptance and
    /// refusal conditions as for a read-only cursor.
    pub fn cursor_mut(&mut self, start: Vaddr, end: Vaddr, current_cpu: CpuId) -> (r: Result<
        CursorMut,
        Error,
    >)
        requires
            old(self).wf(),
        ensures
            final(self).wf(),
            final(self).pt_spec().extents_seq() == old(self).pt_spec().extents_seq(),
            final(self).cpus_spec() == old(self).cpus_spec(),
            match r {
                Ok(c) => {
                    &&& range_valid(PtMode::User, start as int, end as int)
                    &&& !locks_conflict(old(self).pt_spec().locks_seq(), start as int, end as int)
                    &&& c.inner.start_spec() == start
                    &&& c.inner.end_spec() == end
                    &&& c.inner.va_spec() == start
                    &&& c.inner.active_in(&final(self).pt_spec())
                    &&& c.flusher.pending_seq() == Seq::<TlbFlushOp>::empty()
                    &&& c.flusher.deferred_seq() == Seq::<Frame>::empty()
                    &&& c.flusher.dispatched_seq() == Seq::<TlbFlushOp>::empty()
                    &&& c.flusher.target_cpus_spec() == old(self).cpus_spec()
                    &&& c.flusher.current_cpu_spec() == current_cpu
                    &&& final(self).mut_cursors_spec() == old(self).mut_cursors_spec() + 1
                },
                Err(e) => {
                    &&& final(self).pt_spec().locks_seq() == old(self).pt_spec().locks_seq()
                    &&& final(self).mut_cursors_spec() == old(self).mut_cursors_spec()
                    &&& ((e == Error::InvalidArgs && !range_valid(
                        PtMode::User,
                        start as int,
                        end as int,
                    )) || (e == Error::AccessDenied && range_valid(
                        PtMode::User,
                        start as int,
                        end as int,
                    ) && locks_conflict(old(self).pt_spec().locks_seq(), start as int, end as int)))
                },
            },
    {
        match self.pt.cursor_mut(start, end) {
            Ok(inner) => {
                let lc = self.pt.lock_count();
                proof {
                    assert(self.mut_cursors < lc);
                }
                self.mut_cursors = self.mut_cursors + 1;
                Ok(CursorMut { inner, flusher: TlbFlusher::new(self.cpus, current_cpu) })
            },
            Err(e) => Err(e),
        }
    }

    /// Drops a read-only cursor, releasing its range lock. The cursor being
    /// closed holds one of the range locks but no unit of the activation
    /// lock, so strictly fewer mutating cursors than locks are alive.
    pub fn close_cursor(&mut self, cursor: Cursor)
        requires
            old(self).wf(),
            cursor.inner.active_in(&old(self).pt_spec()),
            old(self).mut_cursors_spec() < old(self).pt_spec().locks_seq().len(),
        ensures
            final(self).wf(),
            final(self).pt_spec().extents_seq() == old(self).pt_spec().extents_seq(),
            final(self).cpus_spec() == old(self).cpus_spec(),
            final(self).mut_cursors_spec() == old(self).mut_cursors_spec(),
            final(self).pt_spec().locks_seq().len() == old(self).pt_spec().locks_seq().len() - 1,
    {
        self.pt.close_cursor(cursor.inner);
    }

    /// Drops a mutating cursor, releasing its range lock and its unit of the
    /// activation read lock. The cursor must have dispatched its flushes:
    /// dropping a frame that still awaits a TLB flush is the fatal ordering
    /// violation this type exists to prevent.
    pub fn close_cursor_mut(&mut self, cursor: CursorMut)
        requires
            old(self).wf(),
            cursor.inner.active_in(&old(self).pt_spec()),
            cursor.flusher.deferred_seq().len() == 0,
        ensures
            final(self).wf(),
            final(self).pt_spec().extents_seq() == old(self).pt_spec().extents_seq(),
            final(self).cpus_spec() == old(self).cpus_spec(),
            final(self).pt_spec().locks_seq().len() == old(self).pt_spec().locks_seq().len() - 1,
            old(self).mut_cursors_spec() > 0 ==> final(self).mut_cursors_spec() == old(self).mut_cursors_spec() - 1,
    {
        self.pt.close_cursor_mut(cursor.inner);
        if self.mut_cursors > 0 {
            self.mut_cursors = self.mut_cursors - 1;
        }
    }

    /// Activates the space on `cpu`: records the CPU in the space's set.
    /// Requires the activation write lock, that is, no live mutating cursor.
    /// The caller deactivates whatever space was active on that CPU before.
    pub fn activate(&mut self, cpu: CpuId)
        requires
            old(self).wf(),
            old(self).mut_cursors_spec() == 0,
            cpu < 64,
        ensures
            final(self).wf(),
            final(self).pt_spec() == old(self).pt_spec(),
            final(self).mut_cursors_spec() == 0,
            final(self).cpus_spec().bits == old(self).cpus_spec().bits | (1u64 << cpu),
            final(self).cpus_spec().contains_spec(cpu),
            forall|c: CpuId|
                final(self).cpus_spec().contains_spec(c) <==> old(self).cpus_spec().contains_spec(
                    c,
                ) || c == cpu,
    {
        self.cpus.add(cpu);
        proof {
            assert forall|c: CpuId|
                final(self).cpus_spec().contains_spec(c) <==> old(self).cpus_spec().contains_spec(
                    c,
                ) || c == cpu by {
                if c == cpu {
                    assert(final(self).cpus_spec().contains_spec(c));
                }
            }
        }
    }

    /// Deactivates the space on `cpu`: removes the CPU from the space's set,
    /// as the counterpart of activating another space there.
    pub fn deactivate(&mut self, cpu: CpuId)
        requires
            old(self).wf(),
            cpu < 64,
        ensures
            final(self).wf(),
            final(self).pt_spec() == old(self).pt_spec(),
            final(self).mut_cursors_spec() == old(self).mut_cursors_spec(),
            final(self).cpus_spec().bits == old(self).cpus_spec().bits & !(1u64 << cpu),
            forall|c: CpuId|
                final(self).cpus_spec().contains_spec(c) <==> old(self).cpus_spec().contains_spec(
                    c,
                ) && c != cpu,
    {
        self.cpus.remove(cpu);
    }

    /// Creates a reader over `len` bytes of user memory at `vaddr`. Fails
    /// with `AccessDenied` exactly when the space is not active on the
    /// calling CPU or the range does not lie below the user ceiling.
    pub fn reader(&self, current_cpu: CpuId, vaddr: Vaddr, len: u64) -> (r: Result<VmReader, Error>)
        ensures
            match r {
                Ok(rd) => {
                    &&& self.cpus_spec().contains_spec(current_cpu)
                    &&& vaddr + len <= MAX_USERSPACE_VADDR
                    &&& rd.va == vaddr
                    &&& rd.len == len
                },
                Err(e) => e == Error::AccessDenied && !(self.cpus_spec().contains_spec(current_cpu)
                    && vaddr + len <= MAX_USERSPACE_VADDR),
            },
    {
        if !self.cpus.contains(current_cpu) {
            return Err(Error::AccessDenied);
        }
        if vaddr > MAX_USERSPACE_VADDR || len > MAX_USERSPACE_VADDR - vaddr {
            return Err(Error::AccessDenied);
        }
        Ok(VmReader { va: vaddr, len })
    }

    /// Creates a writer over `len` bytes of user memory at `vaddr`; the same
    /// acceptance and refusal conditions as for a reader.
    pub fn writer(&self, current_cpu: CpuId, vaddr: Vaddr, len: u64) -> (r: Result<VmWriter, Error>)
        ensures
            match r {
                Ok(wr) => {
                    &&& self.cpus_spec().contains_spec(current_cpu)
                    &&& vaddr + len <= MAX_USERSPACE_VADDR
                    &&& wr.va == vaddr
                    &&& wr.len == len
                },
                Err(e) => e == Error::AccessDenied && !(self.cpus_spec().contains_spec(current_cpu)
                    && vaddr + len <= MAX_USERSPACE_VADDR),
            },
    {
        if !self.cpus.contains(current_cpu) {
            return Err(Error::AccessDenied);
        }
        if vaddr > MAX_USERSPACE_VADDR || len > MAX_USERSPACE_VADDR - vaddr {
            return Err(Error::AccessDenied);
        }
        Ok(VmWriter { va: vaddr, len })
    }

    /// Clears every mapping of the space, releasing every owned frame.
    ///
    /// Fails with `CursorsAlive` when any cursor is alive, and with
    /// `PageTableActivated` when the space is activated on any CPU beyond
    /// (at most) the caller's own; a caller that clears while active on its
    /// own CPU must flush its local TLB afterwards.
    pub fn clear(&mut self, reg: &mut FrameRegistry, current_cpu: CpuId) -> (r: Result<
        (),
        VmSpaceClearError,
    >)
        requires
            old(self).wf(),
            old(reg).wf(),
            old(self).frames_live_in(old(reg)),
            current_cpu < 64,
        ensures
            final(self).wf(),
            final(reg).wf(),
            final(reg).num_frames() == old(reg).num_frames(),
            final(self).cpus_spec() == old(self).cpus_spec(),
            match r {
                Ok(()) => {
                    &&& old(self).pt_spec().locks_seq().len() == 0
                    &&& old(self).cpus_spec().only_on(current_cpu)
                    &&& final(self).pt_spec().extents_seq() == Seq::<MapExtent>::empty()
                    &&& forall|v: int| final(self).query_spec(v) is None
                    &&& forall|j: int|
                        0 <= j < old(reg).num_frames() ==> (#[trigger] final(reg).slots_seq()[j]).refcount
                            == old(reg).slots_seq()[j].refcount - backing_count(
                            old(self).pt_spec().extents_seq(),
                            j,
                        )
                    &&& forall|j: int|
                        0 <= j < old(reg).num_frames() && final(reg).slots_seq()[j].refcount > 0
                            ==> (#[trigger] final(reg).slots_seq()[j]).state == old(reg).slots_seq()[j].state
                    &&& final(self).frames_live_in(final(reg))
                },
                Err(e) => {
                    &&& final(self).pt_spec() == old(self).pt_spec()
                    &&& final(reg).slots_seq() == old(reg).slots_seq()
                    &&& (e == VmSpaceClearError::CursorsAlive <==> old(self).pt_spec().locks_seq().len()
                        > 0)
                    &&& (e matches VmSpaceClearError::PageTableActivated(cpus) ==> cpus == old(self).cpus_spec()
                        && !old(self).cpus_spec().only_on(current_cpu))
                },
            },
    {
        if self.pt.lock_count() > 0 {
            return Err(VmSpaceClearError::CursorsAlive);
        }
        if !self.cpus.is_subset_of_single(current_cpu) {
            return Err(VmSpaceClearError::PageTableActivated(self.cpus));
        }
        let mut taken = self.pt.clear();
        let ghost all = taken@;
        let ghost reg0 = reg.slots_seq();
        proof {
            assert(taken@ =~= all.subrange(0, taken@.len() as int));
        }
        while taken.len() > 0
            invariant
                old(self).wf(),
                reg.wf(),
                reg.num_frames() == old(reg).num_frames(),
                reg0 == old(reg).slots_seq(),
                all == old(self).pt_spec().extents_seq(),
                taken@ == all.subrange(0, taken@.len() as int),
                taken@.len() <= all.len(),
                forall|i: int| 0 <= i < all.len() ==> old(reg).in_range((#[trigger] all[i]).pa),
                forall|j: int|
                    0 <= j < reg.num_frames() ==> (#[trigger] reg.slots_seq()[j]).refcount == reg0[j].refcount
                        - backing_count(all, j) + backing_count(taken@, j),
                forall|j: int|
                    0 <= j < reg.num_frames() && reg.slots_seq()[j].refcount > 0 ==> (
                    #[trigger] reg.slots_seq()[j]).state == reg0[j].state,
                forall|j: int|
                    0 <= j < reg.num_frames() ==> backing_count(taken@, j) <= (
                    #[trigger] reg.slots_seq()[j]).refcount,
            decreases taken@.len(),
        {
            let ghost before = taken@;
            let e = match taken.pop() {
                Some(e) => e,
                None => {
                    proof {
                        assert(false);
                    }
                    vstd::pervasive::unreached()
                },
            };
            proof {
                assert(before.drop_last() =~= taken@);
                assert(e == before.last());
                assert(taken@ =~= all.subrange(0, taken@.len() as int));
                assert(all.contains(e)) by {
                    assert(before == all.subrange(0, before.len() as int));
                    assert(all[before.len() - 1] == e);
                }
                let ie = choose|ie: int| 0 <= ie < all.len() && all[ie] == e;
                assert(old(reg).in_range(all[ie].pa));
                assert(old(self).pt_spec().extents_seq()[ie].wf());
                assert(e.wf());
                assert(old(self).pt_spec().extents_seq()[ie].is_tracked());
            }
            match e.frame {
                Some(f) => {
                    proof {
                        let jf = f.paddr_spec() as int / PAGE_SIZE as int;
                        assert(extent_backing(e, jf) == 1);
                        assert(backing_count(before, jf) == backing_count(taken@, jf) + 1);
                        assert(reg.slots_seq()[jf].refcount >= 1);
                    }
                    reg.release_frame(f);
                },
                None => {
                    // A user-mode table holds only tracked mappings.
                    proof {
                        let ie = choose|ie: int| 0 <= ie < all.len() && all[ie] == e;
                        assert(old(self).pt_spec().extents_seq()[ie].is_tracked());
                        assert(false);
                    }
                },
            }
        }
        proof {
            assert(taken@ =~= Seq::<MapExtent>::empty());
            assert forall|j: int|
                0 <= j < reg.num_frames() implies (#[trigger] reg.slots_seq()[j]).refcount == reg0[j].refcount
                - backing_count(all, j) by {
                assert(backing_count(taken@, j) == 0);
            }
            assert forall|j: int|
                0 <= j < reg.num_frames() implies backing_count(
                self.pt_spec().extents_seq(),
                j,
            ) <= (#[trigger] reg.slots_seq()[j]).refcount by {
                assert(backing_count(Seq::<MapExtent>::empty(), j) == 0);
            }
        }
        Ok(())
    }
}

/// The read-only cursor over an address space: inspects, never changes.
#[derive(Debug)]
pub struct Cursor {
    /// The underlying page-table cursor.
    pub inner: crate::page_table::Cursor,
}

impl Cursor {
    /// The virtual address of the current slot.
    pub fn virt_addr(&self) -> (r: Vaddr)
        ensures
            r == self.inner.va_spec(),
    {
        self.inner.virt_addr()
    }

    /// Moves the cursor to `va`. Fails with `InvalidArgs` exactly when `va`
    /// is misaligned or outside the cursor's range.
    pub fn jump(&mut self, va: Vaddr) -> (r: Result<(), Error>)
        ensures
            final(self).inner.start_spec() == old(self).inner.start_spec(),
            final(self).inner.end_spec() == old(self).inner.end_spec(),
            match r {
                Ok(()) => old(self).inner.start_spec() <= va <= old(self).inner.end_spec() && va
                    % PAGE_SIZE == 0 && final(self).inner.va_spec() == va,
                Err(e) => e == Error::InvalidArgs && final(self).inner.va_spec() == old(self).inner.va_spec()
                    && !(old(self).inner.start_spec() <= va <= old(self).inner.end_spec() && va
                    % PAGE_SIZE == 0),
            },
    {
        self.inner.jump(va)
    }

    /// What the space maps at the cursor's position, without moving the
    /// cursor. Fails with `InvalidArgs` exactly when the cursor stands at
    /// the end of its range.
    pub fn query(&self, vm: &VmSpace) -> (r: Result<VmItem, Error>)
        requires
            vm.wf(),
            self.inner.active_in(&vm.pt_spec()),
        ensures
            match r {
                Ok(item) => {
                    &&& self.inner.va_spec() < self.inner.end_spec()
                    &&& match vm.query_spec(self.inner.va_spec() as int) {
                        Some(e) => item == (VmItem::Mapped {
                            va: e.va,
                            frame: e.pa,
                            prop: e.prop,
                        }),
                        None => item matches VmItem::NotMapped { va, len } && va
                            == self.inner.va_spec() && len > 0 && va + len
                            <= self.inner.end_spec() && (forall|w: int|
                            va <= w < va + len ==> vm.query_spec(w) is None),
                    }
                },
                Err(e) => e == Error::InvalidArgs && self.inner.va_spec()
                    == self.inner.end_spec(),
            },
    {
        if self.inner.virt_addr() >= self.inner.range_end() {
            return Err(Error::InvalidArgs);
        }
        proof {
            if vm.query_spec(self.inner.va_spec() as int) is Some {
                lemma_find_some(vm.pt_spec().extents_seq(), self.inner.va_spec() as int);
            }
        }
        let item = self.inner.query(vm.pt_borrow());
        Ok(convert_item(vm, item))
    }

    /// What the space maps at the cursor's position; then the cursor moves
    /// past it. Gives nothing back once the range is exhausted.
    pub fn next(&mut self, vm: &VmSpace) -> (r: Option<VmItem>)
        requires
            vm.wf(),
            old(self).inner.active_in(&vm.pt_spec()),
        ensures
            final(self).inner.active_in(&vm.pt_spec()),
            final(self).inner.start_spec() == old(self).inner.start_spec(),
            final(self).inner.end_spec() == old(self).inner.end_spec(),
            old(self).inner.va_spec() == old(self).inner.end_spec() ==> r is None,
            old(self).inner.va_spec() < old(self).inner.end_spec() ==> (r is Some && final(self).inner.va_spec() > old(self).inner.va_spec()),
            old(self).inner.va_spec() < old(self).inner.end_spec() ==> (match vm.query_spec(
                old(self).inner.va_spec() as int,
            ) {
                Some(e) => r == Some(VmItem::Mapped { va: e.va, frame: e.pa, prop: e.prop }),
                None => true,
            }),
    {
        proof {
            if vm.query_spec(self.inner.va_spec() as int) is Some {
                lemma_find_some(vm.pt_spec().extents_seq(), self.inner.va_spec() as int);
            }
        }
        match self.inner.next(vm.pt_borrow()) {
            Some(item) => Some(convert_item(vm, item)),
            None => None,
        }
    }
}

impl VmSpace {
    /// The page table, borrowed for the cursors' inspections.
    pub fn pt_borrow(&self) -> (r: &PageTable)
        ensures
            r == self.pt_spec(),
    {
        &self.pt
    }
}

/// Turns a page-table item into an address-space item. An untracked mapping
/// cannot stand in a user-mode table, so the conversion is total.
fn convert_item(vm: &VmSpace, item: PtItem) -> (r: VmItem)
    requires
        vm.wf(),
        item matches PtItem::MappedUntracked { .. } ==> exists|i: int|
            0 <= i < vm.pt_spec().extents_seq().len() && !(
            #[trigger] vm.pt_spec().extents_seq()[i]).is_tracked(),
    ensures
        match item {
            PtItem::NotMapped { va, len } => r == (VmItem::NotMapped { va, len }),
            PtItem::Mapped { va, len, pa, prop } => r == (VmItem::Mapped { va, frame: pa, prop }),
            PtItem::MappedUntracked { .. } => false,
        },
{
    match item {
        PtItem::NotMapped { va, len } => VmItem::NotMapped { va, len },
        PtItem::Mapped { va, len: _, pa, prop } => VmItem::Mapped { va, frame: pa, prop },
        PtItem::MappedUntracked { .. } => {
            proof {
                let i = choose|i: int|
                    0 <= i < vm.pt_spec().extents_seq().len() && !(
                    #[trigger] vm.pt_spec().extents_seq()[i]).is_tracked();
                assert(vm.pt_spec().extents_seq()[i].is_tracked());
                assert(false);
            }
            vstd::pervasive::unreached()
        },
    }
}

/// The mutating cursor over an address space: the only path by which its
/// mappings change. It carries a TLB flusher of its own, so that every frame
/// it unmaps or replaces is flushed before it is released.
#[derive(Debug)]
pub struct CursorMut {
    /// The underlying page-table cursor.
    pub inner: crate::page_table::CursorMut,
    /// The cursor's TLB flusher.
    pub flusher: TlbFlusher,
}

impl CursorMut {
    /// The virtual address of the current slot.
    pub fn virt_addr(&self) -> (r: Vaddr)
        ensures
            r == self.inner.va_spec(),
    {
        self.inner.virt_addr()
    }

    /// Moves the cursor to `va`. Fails with `InvalidArgs` exactly when `va`
    /// is misaligned or outside the cursor's range.
    pub fn jump(&mut self, va: Vaddr) -> (r: Result<(), Error>)
        ensures
            final(self).inner.start_spec() == old(self).inner.start_spec(),
            final(self).inner.end_spec() == old(self).inner.end_spec(),
            final(self).flusher == old(self).flusher,
            match r {
                Ok(()) => old(self).inner.start_spec() <= va <= old(self).inner.end_spec() && va
                    % PAGE_SIZE == 0 && final(self).inner.va_spec() == va,
                Err(e) => e == Error::InvalidArgs && final(self).inner.va_spec() == old(self).inner.va_spec()
                    && !(old(self).inner.start_spec() <= va <= old(self).inner.end_spec() && va
                    % PAGE_SIZE == 0),
            },
    {
        self.inner.jump(va)
    }

    /// What the space maps at the cursor's position, without moving the
    /// cursor. Fails with `InvalidArgs` exactly when the cursor stands at
    /// the end of its range.
    pub fn query(&self, vm: &VmSpace) -> (r: Result<VmItem, Error>)
        requires
            vm.wf(),
            self.inner.active_in(&vm.pt_spec()),
        ensures
            match r {
                Ok(item) => {
                    &&& self.inner.va_spec() < self.inner.end_spec()
                    &&& match vm.query_spec(self.inner.va_spec() as int) {
                        Some(e) => item == (VmItem::Mapped {
                            va: e.va,
                            frame: e.pa,
                            prop: e.prop,
                        }),
                        None => item matches VmItem::NotMapped { va, len } && va
                            == self.inner.va_spec() && len > 0 && va + len
                            <= self.inner.end_spec() && (forall|w: int|
                            va <= w < va + len ==> vm.query_spec(w) is None),
                    }
                },
                Err(e) => e == Error::InvalidArgs && self.inner.va_spec()
                    == self.inner.end_spec(),
            },
    {
        if self.inner.virt_addr() >= self.inner.range_end() {
            return Err(Error::InvalidArgs);
        }
        proof {
            if vm.query_spec(self.inner.va_spec() as int) is Some {
                lemma_find_some(vm.pt_spec().extents_seq(), self.inner.va_spec() as int);
            }
        }
        let item = self.inner.query(vm.pt_borrow());
        Ok(convert_item(vm, item))
    }

    /// The cursor's TLB flusher, for inspection.
    pub fn flusher(&self) -> (r: &TlbFlusher)
        ensures
            r == self.flusher,
    {
        &self.flusher
    }

    /// Batches one invalidation on the cursor's flusher.
    pub fn issue_tlb_flush(&mut self, op: TlbFlushOp)
        ensures
            final(self).inner == old(self).inner,
            final(self).flusher.pending_seq() == old(self).flusher.pending_seq().push(op),
            final(self).flusher.deferred_seq() == old(self).flusher.deferred_seq(),
            final(self).flusher.dispatched_seq() == old(self).flusher.dispatched_seq(),
            final(self).flusher.target_cpus_spec() == old(self).flusher.target_cpus_spec(),
            final(self).flusher.current_cpu_spec() == old(self).flusher.current_cpu_spec(),
    {
        self.flusher.issue_tlb_flush(op);
    }

    /// Dispatches the flusher's batch; see
    /// [`TlbFlusher::dispatch_tlb_flush`].
    pub fn dispatch_tlb_flush(&mut self, reg: &mut FrameRegistry)
        requires
            old(reg).wf(),
            forall|k: int|
                0 <= k < old(self).flusher.deferred_seq().len() ==> old(reg).in_range(
                    (#[trigger] old(self).flusher.deferred_seq()[k]).paddr_spec(),
                ),
            forall|j: int|
                0 <= j < old(reg).num_frames() ==> released_count(
                    old(self).flusher.deferred_seq(),
                    j,
                ) <= (#[trigger] old(reg).slots_seq()[j]).refcount,
        ensures
            final(self).inner == old(self).inner,
            final(reg).wf(),
            final(reg).num_frames() == old(reg).num_frames(),
            final(self).flusher.pending_seq() == Seq::<TlbFlushOp>::empty(),
            final(self).flusher.deferred_seq() == Seq::<Frame>::empty(),
            final(self).flusher.target_cpus_spec() == old(self).flusher.target_cpus_spec(),
            final(self).flusher.current_cpu_spec() == old(self).flusher.current_cpu_spec(),
            forall|j: int|
                0 <= j < old(reg).num_frames() ==> (#[trigger] final(reg).slots_seq()[j]).refcount
                    == old(reg).slots_seq()[j].refcount - released_count(
                    old(self).flusher.deferred_seq(),
                    j,
                ),
    {
        self.flusher.dispatch_tlb_flush(reg);
    }
}


impl CursorMut {
    /// Maps `frame` under `prop` at the cursor's position, choosing the
    /// largest page size that is aligned there and fits the cursor's
    /// remaining range, and moves the cursor past the new page.
    ///
    /// Afterwards every address of the new page — and it alone — translates
    /// through `frame` under `prop`. When the new page overlaps previously
    /// installed mappings, those are removed whole and their frames handed
    /// to the cursor's flusher, which dispatches an invalidation for them —
    /// so the batch of performed invalidations grows exactly when a mapping
    /// was replaced — and only then releases them.
    #[verifier::rlimit(100)]
    pub fn map(&mut self, vm: &mut VmSpace, reg: &mut FrameRegistry, frame: Frame, prop: PageProperty)
        requires
            old(vm).wf(),
            old(reg).wf(),
            old(vm).frames_live_in(old(reg)),
            old(self).inner.active_in(&old(vm).pt_spec()),
            old(self).inner.va_spec() < old(self).inner.end_spec(),
            old(reg).in_range(frame.paddr_spec()),
            old(reg).state_of(frame.paddr_spec()) is Untyped,
            old(reg).refcount_of(frame.paddr_spec()) >= backing_count(
                old(vm).pt_spec().extents_seq(),
                frame.paddr_spec() as int / PAGE_SIZE as int,
            ) + 1,
            old(self).flusher.pending_seq().len() == 0,
            old(self).flusher.deferred_seq().len() == 0,
        ensures
            final(vm).wf(),
            final(reg).wf(),
            final(reg).num_frames() == old(reg).num_frames(),
            final(vm).cpus_spec() == old(vm).cpus_spec(),
            final(vm).mut_cursors_spec() == old(vm).mut_cursors_spec(),
            final(vm).pt_spec().locks_seq() == old(vm).pt_spec().locks_seq(),
            final(self).inner.start_spec() == old(self).inner.start_spec(),
            final(self).inner.end_spec() == old(self).inner.end_spec(),
            final(self).inner.active_in(&final(vm).pt_spec()),
            final(self).inner.va_spec() == old(self).inner.va_spec() + page_size_spec(
                choose_level_spec(
                    old(self).inner.va_spec() as int,
                    old(self).inner.end_spec() as int,
                    NR_LEVELS,
                ),
            ),
            // The new mapping answers every query inside its page; every
            // mapping it overlapped is gone; everything else is untouched.
            forall|v: int|
                find_extent(final(vm).pt_spec().extents_seq(), v) == (if mapped_extent_spec(
                    old(self).inner.va_spec(),
                    old(self).inner.end_spec(),
                    NR_LEVELS,
                    frame,
                    prop,
                ).contains(v) {
                    Some(
                        mapped_extent_spec(
                            old(self).inner.va_spec(),
                            old(self).inner.end_spec(),
                            NR_LEVELS,
                            frame,
                            prop,
                        ),
                    )
                } else {
                    masked_find(
                        old(vm).pt_spec().extents_seq(),
                        old(self).inner.va_spec() as int,
                        old(self).inner.va_spec() + page_size_spec(
                            choose_level_spec(
                                old(self).inner.va_spec() as int,
                                old(self).inner.end_spec() as int,
                                NR_LEVELS,
                            ),
                        ),
                        v,
                    )
                }),
            // The registry: each page's count changes exactly by the
            // mappings' backing, the replaced ones released, the new one
            // moved in with the caller's handle.
            forall|j: int|
                0 <= j < old(reg).num_frames() ==> (#[trigger] final(reg).slots_seq()[j]).refcount
                    == old(reg).slots_seq()[j].refcount - backing_count(
                    old(vm).pt_spec().extents_seq(),
                    j,
                ) + backing_count(final(vm).pt_spec().extents_seq(), j) - extent_backing(
                    mapped_extent_spec(
                        old(self).inner.va_spec(),
                        old(self).inner.end_spec(),
                        NR_LEVELS,
                        frame,
                        prop,
                    ),
                    j,
                ),
            final(vm).frames_live_in(final(reg)),
            // The flusher: everything dispatched, nothing kept, and the
            // history grew exactly when a mapping was replaced.
            final(self).flusher.pending_seq().len() == 0,
            final(self).flusher.deferred_seq().len() == 0,
            (exists|i: int|
                0 <= i < old(vm).pt_spec().extents_seq().len() && (#[trigger] old(vm).pt_spec().extents_seq()[i]).overlaps(
                    old(self).inner.va_spec() as int,
                    old(self).inner.va_spec() + page_size_spec(
                        choose_level_spec(
                            old(self).inner.va_spec() as int,
                            old(self).inner.end_spec() as int,
                            NR_LEVELS,
                        ),
                    ),
                )) <==> final(self).flusher.dispatched_seq().len() > old(self).flusher.dispatched_seq().len(),
    {
        let ghost old_ext = vm.pt_spec().extents_seq();
        let ghost newe = mapped_extent_spec(
            self.inner.va_spec(),
            self.inner.end_spec(),
            NR_LEVELS,
            frame,
            prop,
        );
        let ghost j0 = frame.paddr_spec() as int / PAGE_SIZE as int;
        let mut replaced = self.inner.map(&mut vm.pt, frame, prop);
        let ghost inner_snap = self.inner;
        let ghost all0 = replaced@;
        let ghost reg0 = reg.slots_seq();
        proof {
            assert forall|k: int| 0 <= k < all0.len() implies (#[trigger] all0[k]).wf()
                && all0[k].is_tracked() && old(reg).in_range(all0[k].pa) by {
                assert(old_ext.contains(all0[k]));
                let i = choose|i: int| 0 <= i < old_ext.len() && old_ext[i] == all0[k];
                assert(old(vm).pt_spec().extents_seq()[i].wf());
                assert(old(vm).pt_spec().extents_seq()[i].is_tracked());
                assert(old(reg).in_range(old(vm).pt_spec().extents_seq()[i].pa));
            }
            assert(replaced@ =~= all0.subrange(0, replaced@.len() as int));
        }
        while replaced.len() > 0
            invariant
                self.inner == inner_snap,
                old(vm).wf(),
                reg.slots_seq() == reg0,
                all0.len() >= replaced@.len(),
                replaced@ == all0.subrange(0, replaced@.len() as int),
                forall|k: int|
                    0 <= k < all0.len() ==> (#[trigger] all0[k]).wf() && all0[k].is_tracked()
                        && old(reg).in_range(all0[k].pa),
                reg.num_frames() == old(reg).num_frames(),
                forall|j: int|
                    #![trigger backing_count(all0, j)]
                    released_count(self.flusher.deferred_seq(), j) + backing_count(replaced@, j)
                        == backing_count(all0, j),
                forall|k: int|
                    0 <= k < self.flusher.deferred_seq().len() ==> old(reg).in_range(
                        (#[trigger] self.flusher.deferred_seq()[k]).paddr_spec(),
                    ),
                self.flusher.pending_seq().len() == all0.len() - replaced@.len(),
                self.flusher.dispatched_seq() == old(self).flusher.dispatched_seq(),
                self.flusher.target_cpus_spec() == old(self).flusher.target_cpus_spec(),
                self.flusher.current_cpu_spec() == old(self).flusher.current_cpu_spec(),
            decreases replaced@.len(),
        {
            let ghost before = replaced@;
            let e = match replaced.pop() {
                Some(e) => e,
                None => {
                    proof {
                        assert(false);
                    }
                    vstd::pervasive::unreached()
                },
            };
            proof {
                assert(before.drop_last() =~= replaced@);
                assert(e == before.last());
                assert(before == all0.subrange(0, before.len() as int));
                assert(all0[before.len() - 1] == e);
                assert(replaced@ =~= all0.subrange(0, replaced@.len() as int));
                assert(e.wf() && e.is_tracked());
            }
            match e.frame {
                Some(f) => {
                    let ghost def_before = self.flusher.deferred_seq();
                    self.flusher.issue_tlb_flush_with(TlbFlushOp::Range(e.va, e.len), f);
                    proof {
                        assert(self.flusher.deferred_seq().drop_last() =~= def_before);
                        assert(self.flusher.deferred_seq().last() == f);
                        assert(f.paddr_spec() == e.pa);
                        assert forall|j: int|
                            #![trigger backing_count(all0, j)]
                            released_count(self.flusher.deferred_seq(), j) + backing_count(
                                replaced@,
                                j,
                            ) == backing_count(all0, j) by {
                            assert(released_count(self.flusher.deferred_seq(), j)
                                == released_count(def_before, j) + (if f.paddr_spec() as int
                                / PAGE_SIZE as int == j {
                                1nat
                            } else {
                                0nat
                            }));
                            assert(backing_count(before, j) == backing_count(replaced@, j)
                                + extent_backing(e, j));
                            assert(released_count(def_before, j) + backing_count(before, j)
                                == backing_count(all0, j));
                        }
                    }
                },
                None => {
                    proof {
                        assert(false);
                    }
                },
            }
        }
        proof {
            assert(replaced@ =~= Seq::<MapExtent>::empty());
            assert forall|j: int|
                #![trigger backing_count(all0, j)]
                released_count(self.flusher.deferred_seq(), j) == backing_count(all0, j) by {
                assert(backing_count(replaced@, j) == 0);
            }
            assert forall|j: int|
                0 <= j < old(reg).num_frames() implies released_count(
                self.flusher.deferred_seq(),
                j,
            ) <= (#[trigger] reg.slots_seq()[j]).refcount by {
                assert(released_count(self.flusher.deferred_seq(), j) == backing_count(all0, j));
                assert(backing_count(vm.pt_spec().extents_seq(), j) + backing_count(all0, j)
                    == backing_count(old_ext, j) + extent_backing(newe, j));
                if j == j0 {
                    assert(old(reg).slots_seq()[j].refcount >= backing_count(old_ext, j) + 1);
                } else {
                    assert(extent_backing(newe, j) == 0);
                    assert(old(reg).slots_seq()[j].refcount >= backing_count(old_ext, j));
                }
            }
        }
        self.flusher.dispatch_tlb_flush(reg);
        proof {
            // The registry accounting and liveness after the dispatch.
            assert forall|j: int|
                0 <= j < old(reg).num_frames() implies (#[trigger] reg.slots_seq()[j]).refcount
                == old(reg).slots_seq()[j].refcount - backing_count(old_ext, j) + backing_count(
                vm.pt_spec().extents_seq(),
                j,
            ) - extent_backing(newe, j) by {
                assert(backing_count(vm.pt_spec().extents_seq(), j) + backing_count(all0, j)
                    == backing_count(old_ext, j) + extent_backing(newe, j));
            }
            assert forall|i: int|
                0 <= i < vm.pt_spec().extents_seq().len() implies reg.in_range(
                (#[trigger] vm.pt_spec().extents_seq()[i]).pa,
            ) by {
                let x = vm.pt_spec().extents_seq()[i];
                assert(x.wf());
                assert(x.contains(x.va as int));
                crate::page_table::lemma_find_at(vm.pt_spec().extents_seq(), i, x.va as int);
                if newe.contains(x.va as int) {
                    assert(x == newe);
                } else {
                    assert(masked_find(old_ext, newe.va as int, newe.end(), x.va as int) == Some(
                        x,
                    ));
                    lemma_find_some(old_ext, x.va as int);
                    let io = choose|io: int|
                        0 <= io < old_ext.len() && old_ext[io] == x && (#[trigger] old_ext[io]).contains(
                            x.va as int,
                        );
                    assert(old(vm).pt_spec().extents_seq()[io] == x);
                    assert(old(reg).in_range(old(vm).pt_spec().extents_seq()[io].pa));
                }
            }
            assert forall|j: int|
                0 <= j < reg.num_frames() implies backing_count(vm.pt_spec().extents_seq(), j) <= (
            #[trigger] reg.slots_seq()[j]).refcount by {
                if j == j0 {
                    assert(old(reg).slots_seq()[j].refcount >= backing_count(old_ext, j) + 1);
                } else {
                    assert(extent_backing(newe, j) == 0);
                    assert(old(reg).slots_seq()[j].refcount >= backing_count(old_ext, j));
                }
            }
            // The history grew exactly when something was replaced.
            if all0.len() > 0 {
                assert(all0[0].overlaps(newe.va as int, newe.end()));
                assert(old_ext.contains(all0[0]));
                let i = choose|i: int| 0 <= i < old_ext.len() && old_ext[i] == all0[0];
                assert(old(vm).pt_spec().extents_seq()[i].overlaps(newe.va as int, newe.end()));
            } else {
                assert forall|i: int|
                    0 <= i < old_ext.len() implies !(#[trigger] old(vm).pt_spec().extents_seq()[i]).overlaps(
                    newe.va as int,
                    newe.end(),
                ) by {
                    if old(vm).pt_spec().extents_seq()[i].overlaps(newe.va as int, newe.end()) {
                        assert(all0.contains(old_ext[i]));
                        assert(false);
                    }
                }
            }
        }
    }
}

impl CursorMut {
    /// Clears every mapping overlapping the next `len` bytes — each removed
    /// whole — and moves the cursor past the range. An already-absent range
    /// is left exactly as it was: unmapping it is a no-op, never an error.
    ///
    /// Every removed frame is flushed — one invalidation per mapping, or one
    /// full flush when the range is large and the space is active on no
    /// other CPU — and released only after the dispatch.
    #[verifier::rlimit(100)]
    pub fn unmap(&mut self, vm: &mut VmSpace, reg: &mut FrameRegistry, len: u64)
        requires
            old(vm).wf(),
            old(reg).wf(),
            old(vm).frames_live_in(old(reg)),
            old(self).inner.active_in(&old(vm).pt_spec()),
            len % PAGE_SIZE == 0,
            len > 0,
            old(self).inner.va_spec() + len <= old(self).inner.end_spec(),
            old(self).flusher.pending_seq().len() == 0,
            old(self).flusher.deferred_seq().len() == 0,
            old(self).flusher.current_cpu_spec() < 64,
        ensures
            final(vm).wf(),
            final(reg).wf(),
            final(reg).num_frames() == old(reg).num_frames(),
            final(vm).cpus_spec() == old(vm).cpus_spec(),
            final(vm).mut_cursors_spec() == old(vm).mut_cursors_spec(),
            final(vm).pt_spec().locks_seq() == old(vm).pt_spec().locks_seq(),
            final(self).inner.start_spec() == old(self).inner.start_spec(),
            final(self).inner.end_spec() == old(self).inner.end_spec(),
            final(self).inner.active_in(&final(vm).pt_spec()),
            final(self).inner.va_spec() == old(self).inner.va_spec() + len,
            // Every mapping overlapping the range is gone; everything else
            // is untouched.
            forall|v: int|
                find_extent(final(vm).pt_spec().extents_seq(), v) == masked_find(
                    old(vm).pt_spec().extents_seq(),
                    old(self).inner.va_spec() as int,
                    old(self).inner.va_spec() + len,
                    v,
                ),
            // Unmapping an absent range changes nothing at all.
            (forall|i: int|
                0 <= i < old(vm).pt_spec().extents_seq().len() ==> !(
                #[trigger] old(vm).pt_spec().extents_seq()[i]).overlaps(
                    old(self).inner.va_spec() as int,
                    old(self).inner.va_spec() + len,
                )) ==> final(vm).pt_spec().extents_seq() == old(vm).pt_spec().extents_seq()
                && final(reg).slots_seq() == old(reg).slots_seq(),
            // The registry: each removed mapping's frame released, exactly.
            forall|j: int|
                0 <= j < old(reg).num_frames() ==> (#[trigger] final(reg).slots_seq()[j]).refcount
                    == old(reg).slots_seq()[j].refcount - backing_count(
                    old(vm).pt_spec().extents_seq(),
                    j,
                ) + backing_count(final(vm).pt_spec().extents_seq(), j),
            final(vm).frames_live_in(final(reg)),
            final(self).flusher.pending_seq().len() == 0,
            final(self).flusher.deferred_seq().len() == 0,
    {
        let lo = self.inner.virt_addr();
        let hi = lo + len;
        let ghost old_ext = vm.pt_spec().extents_seq();
        let prefer_all = len > FLUSH_ALL_RANGE_THRESHOLD;
        let remote = self.flusher.need_remote_flush();
        let mut removed = vm.pt.remove_window(lo, hi);
        let ghost inner_snap = self.inner;
        let ghost all0 = removed@;
        let ghost reg0 = reg.slots_seq();
        proof {
            assert forall|k: int| 0 <= k < all0.len() implies (#[trigger] all0[k]).wf()
                && all0[k].is_tracked() && old(reg).in_range(all0[k].pa) by {
                assert(old_ext.contains(all0[k]));
                let i = choose|i: int| 0 <= i < old_ext.len() && old_ext[i] == all0[k];
                assert(old(vm).pt_spec().extents_seq()[i].wf());
                assert(old(vm).pt_spec().extents_seq()[i].is_tracked());
                assert(old(reg).in_range(old(vm).pt_spec().extents_seq()[i].pa));
            }
            assert(removed@ =~= all0.subrange(0, removed@.len() as int));
        }
        while removed.len() > 0
            invariant
                self.inner == inner_snap,
                old(vm).wf(),
                reg.wf(),
                reg.num_frames() == old(reg).num_frames(),
                reg0 == old(reg).slots_seq(),
                all0.len() >= removed@.len(),
                removed@ == all0.subrange(0, removed@.len() as int),
                forall|k: int|
                    0 <= k < all0.len() ==> (#[trigger] all0[k]).wf() && all0[k].is_tracked()
                        && old(reg).in_range(all0[k].pa),
                forall|j: int|
                    #![trigger backing_count(all0, j)]
                    0 <= j < reg.num_frames() ==> reg.slots_seq()[j].refcount == reg0[j].refcount
                        - backing_count(all0, j) + backing_count(removed@, j) + released_count(
                        self.flusher.deferred_seq(),
                        j,
                    ),
                forall|j: int|
                    0 <= j < reg.num_frames() && reg.slots_seq()[j].refcount > 0 ==> (
                    #[trigger] reg.slots_seq()[j]).state == reg0[j].state,
                forall|j: int|
                    0 <= j < reg.num_frames() ==> backing_count(old_ext, j) <= reg0[j].refcount,
                forall|j: int|
                    #![trigger reg.slots_seq()[j]]
                    0 <= j < reg.num_frames() ==> backing_count(all0, j) <= backing_count(
                        old_ext,
                        j,
                    ),
                forall|k: int|
                    0 <= k < self.flusher.deferred_seq().len() ==> old(reg).in_range(
                        (#[trigger] self.flusher.deferred_seq()[k]).paddr_spec(),
                    ),
                self.flusher.deferred_seq().len() + removed@.len() <= all0.len(),
                self.flusher.dispatched_seq() == old(self).flusher.dispatched_seq(),
                self.flusher.target_cpus_spec() == old(self).flusher.target_cpus_spec(),
                self.flusher.current_cpu_spec() == old(self).flusher.current_cpu_spec(),
            decreases removed@.len(),
        {
            let ghost before = removed@;
            let e = match removed.pop() {
                Some(e) => e,
                None => {
                    proof {
                        assert(false);
                    }
                    vstd::pervasive::unreached()
                },
            };
            proof {
                assert(before.drop_last() =~= removed@);
                assert(e == before.last());
                assert(before == all0.subrange(0, before.len() as int));
                assert(all0[before.len() - 1] == e);
                assert(removed@ =~= all0.subrange(0, removed@.len() as int));
                assert(e.wf() && e.is_tracked());
                assert(backing_count(before, e.pa as int / PAGE_SIZE as int) == backing_count(
                    removed@,
                    e.pa as int / PAGE_SIZE as int,
                ) + 1);
            }
            match e.frame {
                Some(f) => {
                    if !remote && prefer_all {
                        proof {
                            let jf = f.paddr_spec() as int / PAGE_SIZE as int;
                            assert(reg.slots_seq()[jf].refcount >= 1);
                        }
                        reg.release_frame(f);
                    } else {
                        let ghost def_before = self.flusher.deferred_seq();
                        self.flusher.issue_tlb_flush_with(TlbFlushOp::Range(e.va, e.len), f);
                        proof {
                            assert(self.flusher.deferred_seq().drop_last() =~= def_before);
                            assert(self.flusher.deferred_seq().last() == f);
                        }
                    }
                },
                None => {
                    proof {
                        assert(false);
                    }
                },
            }
        }
        if !remote && prefer_all {
            self.flusher.issue_tlb_flush(TlbFlushOp::All);
        }
        proof {
            assert(removed@ =~= Seq::<MapExtent>::empty());
            assert forall|j: int|
                0 <= j < reg.num_frames() implies released_count(
                self.flusher.deferred_seq(),
                j,
            ) <= (#[trigger] reg.slots_seq()[j]).refcount by {
                assert(backing_count(removed@, j) == 0);
                assert(backing_count(all0, j) <= backing_count(old_ext, j));
            }
        }
        let ghost reg_mid = reg.slots_seq();
        let ghost def_at_dispatch = self.flusher.deferred_seq();
        self.flusher.dispatch_tlb_flush(reg);
        match self.inner.jump(hi) {
            Ok(()) => (),
            Err(_) => {
                proof {
                    assert((lo + len) as int % PAGE_SIZE as int == 0) by (nonlinear_arith)
                        requires
                            lo % PAGE_SIZE == 0,
                            len % PAGE_SIZE == 0,
                            lo + len <= u64::MAX,
                            PAGE_SIZE == 4096,
                    ;
                    assert(false);
                }
            },
        }
        proof {
            assert forall|j: int|
                0 <= j < old(reg).num_frames() implies (#[trigger] reg.slots_seq()[j]).refcount
                == old(reg).slots_seq()[j].refcount - backing_count(old_ext, j) + backing_count(
                vm.pt_spec().extents_seq(),
                j,
            ) by {
                assert(reg_mid[j].refcount == reg0[j].refcount - backing_count(all0, j)
                    + released_count(def_at_dispatch, j));
                assert(reg.slots_seq()[j].refcount == reg_mid[j].refcount - released_count(
                    def_at_dispatch,
                    j,
                ));
                assert(backing_count(vm.pt_spec().extents_seq(), j) + backing_count(all0, j)
                    == backing_count(old_ext, j));
            }
            assert forall|i: int|
                0 <= i < vm.pt_spec().extents_seq().len() implies reg.in_range(
                (#[trigger] vm.pt_spec().extents_seq()[i]).pa,
            ) by {
                let x = vm.pt_spec().extents_seq()[i];
                assert(x.wf());
                assert(x.contains(x.va as int));
                crate::page_table::lemma_find_at(vm.pt_spec().extents_seq(), i, x.va as int);
                assert(masked_find(old_ext, lo as int, hi as int, x.va as int) == Some(x));
                lemma_find_some(old_ext, x.va as int);
                let io = choose|io: int|
                    0 <= io < old_ext.len() && old_ext[io] == x && (#[trigger] old_ext[io]).contains(
                        x.va as int,
                    );
                assert(old(vm).pt_spec().extents_seq()[io] == x);
                assert(old(reg).in_range(old(vm).pt_spec().extents_seq()[io].pa));
            }
            assert forall|j: int|
                0 <= j < reg.num_frames() implies backing_count(vm.pt_spec().extents_seq(), j) <= (
            #[trigger] reg.slots_seq()[j]).refcount by {
                assert(backing_count(vm.pt_spec().extents_seq(), j) + backing_count(all0, j)
                    == backing_count(old_ext, j));
                assert(old(reg).slots_seq()[j].refcount >= backing_count(old_ext, j));
            }
            // The no-op case: nothing overlapped, nothing changed.
            if forall|i: int|
                0 <= i < old_ext.len() ==> !(#[trigger] old(vm).pt_spec().extents_seq()[i]).overlaps(
                    lo as int,
                    hi as int,
                ) {
                assert(all0.len() == 0) by {
                    if all0.len() > 0 {
                        assert(all0[0].overlaps(lo as int, hi as int));
                        assert(old_ext.contains(all0[0]));
                        let i = choose|i: int| 0 <= i < old_ext.len() && old_ext[i] == all0[0];
                        assert(!old(vm).pt_spec().extents_seq()[i].overlaps(lo as int, hi as int));
                        assert(false);
                    }
                }
                assert(vm.pt_spec().extents_seq() == old_ext);
                assert forall|j: int|
                    0 <= j < reg.num_frames() implies (#[trigger] reg.slots_seq()[j])
                    == old(reg).slots_seq()[j] by {
                    assert(released_count(def_at_dispatch, j) == 0) by {
                        assert(def_at_dispatch.len() == 0);
                        assert(def_at_dispatch =~= Seq::<Frame>::empty());
                    }
                    assert(reg.slots_seq()[j].refcount == reg0[j].refcount);
                    if reg0[j].refcount == 0 {
                        assert(reg0[j].state is Unused);
                        assert(reg.slots_seq()[j].state is Unused);
                    }
                }
                assert(reg.slots_seq() =~= old(reg).slots_seq());
            }
        }
    }

    /// Applies `op` to the property of the next mapping whose start lies
    /// within `len` bytes of the cursor — in place, on the mapping itself —
    /// and hands back the exact virtual range touched; nothing and `None`
    /// when no such mapping exists. The cursor moves past the protected
    /// mapping, or past the whole window when nothing was found. The TLB is
    /// not flushed: that stays with the caller, through the cursor's
    /// flusher.
    pub fn protect_next(&mut self, vm: &mut VmSpace, len: u64, op: &PropertyOp) -> (r: Option<
        (Vaddr, Vaddr),
    >)
        requires
            old(vm).wf(),
            old(self).inner.active_in(&old(vm).pt_spec()),
            len % PAGE_SIZE == 0,
            len > 0,
            old(self).inner.va_spec() + len <= old(self).inner.end_spec(),
        ensures
            final(vm).wf(),
            final(vm).cpus_spec() == old(vm).cpus_spec(),
            final(vm).mut_cursors_spec() == old(vm).mut_cursors_spec(),
            final(vm).pt_spec().locks_seq() == old(vm).pt_spec().locks_seq(),
            final(self).inner.start_spec() == old(self).inner.start_spec(),
            final(self).inner.end_spec() == old(self).inner.end_spec(),
            final(self).inner.active_in(&final(vm).pt_spec()),
            final(self).flusher == old(self).flusher,
            match crate::page_table::taken_extent(
                old(vm).pt_spec().extents_seq(),
                old(self).inner.va_spec() as int,
                old(self).inner.va_spec() + len,
            ) {
                Some(e) => {
                    &&& r == Some((e.va, (e.va + e.len) as u64))
                    &&& forall|v: int|
                        find_extent(final(vm).pt_spec().extents_seq(), v) == (if e.contains(v) {
                            Some(MapExtent { prop: op.apply_spec(e.prop), ..e })
                        } else {
                            find_extent(old(vm).pt_spec().extents_seq(), v)
                        })
                },
                None => {
                    &&& r is None
                    &&& final(vm).pt_spec().extents_seq() == old(vm).pt_spec().extents_seq()
                },
            },
            forall|j: int|
                backing_count(#[trigger] final(vm).pt_spec().extents_seq(), j) == backing_count(
                    old(vm).pt_spec().extents_seq(),
                    j,
                ),
    {
        self.inner.protect_next(&mut vm.pt, len, op)
    }
}


impl CursorMut {
    /// Copies, from the source cursor's address space into this cursor's,
    /// every mapping lying fully inside the next `len` bytes of the source
    /// cursor, applying `op` to a copy of each mapping's property; the
    /// source space keeps its mappings and its properties untouched. Each
    /// copy shares the source mapping's frame, whose reference count grows
    /// by one. The destination window must be entirely unmapped beforehand:
    /// overwriting would silently leak a frame reference, so the
    /// precondition rules it out. Both cursors advance by `len`. The TLB is
    /// not flushed: that stays with the caller, through the source cursor's
    /// flusher.
    #[verifier::rlimit(100)]
    pub fn copy_from(
        &mut self,
        dst_vm: &mut VmSpace,
        src: &mut CursorMut,
        src_vm: &VmSpace,
        reg: &mut FrameRegistry,
        len: u64,
        op: &PropertyOp,
    )
        requires
            old(dst_vm).wf(),
            src_vm.wf(),
            old(reg).wf(),
            old(dst_vm).frames_live_in(old(reg)),
            src_vm.frames_live_in(old(reg)),
            old(self).inner.active_in(&old(dst_vm).pt_spec()),
            old(src).inner.active_in(&src_vm.pt_spec()),
            len % PAGE_SIZE == 0,
            len > 0,
            old(self).inner.va_spec() + len <= old(self).inner.end_spec(),
            old(src).inner.va_spec() + len <= old(src).inner.end_spec(),
            forall|v: int|
                old(self).inner.va_spec() <= v < old(self).inner.va_spec() + len ==> find_extent(
                    old(dst_vm).pt_spec().extents_seq(),
                    v,
                ) is None,
            forall|i: int|
                0 <= i < src_vm.pt_spec().extents_seq().len() ==> old(reg).refcount_of(
                    (#[trigger] src_vm.pt_spec().extents_seq()[i]).pa,
                ) + len / PAGE_SIZE <= u64::MAX,
            forall|i: int|
                0 <= i < src_vm.pt_spec().extents_seq().len() && old(src).inner.va_spec() <= (
                #[trigger] src_vm.pt_spec().extents_seq()[i]).va < old(src).inner.va_spec() + len
                    ==> (src_vm.pt_spec().extents_seq()[i].va - old(src).inner.va_spec() + old(self).inner.va_spec())
                    % (page_size_spec(src_vm.pt_spec().extents_seq()[i].level) as int) == 0,
        ensures
            final(dst_vm).wf(),
            final(reg).wf(),
            final(reg).num_frames() == old(reg).num_frames(),
            final(dst_vm).cpus_spec() == old(dst_vm).cpus_spec(),
            final(dst_vm).mut_cursors_spec() == old(dst_vm).mut_cursors_spec(),
            final(dst_vm).pt_spec().locks_seq() == old(dst_vm).pt_spec().locks_seq(),
            final(self).inner.start_spec() == old(self).inner.start_spec(),
            final(self).inner.end_spec() == old(self).inner.end_spec(),
            final(self).inner.va_spec() == old(self).inner.va_spec() + len,
            final(self).inner.active_in(&final(dst_vm).pt_spec()),
            final(self).flusher == old(self).flusher,
            final(src).inner.start_spec() == old(src).inner.start_spec(),
            final(src).inner.end_spec() == old(src).inner.end_spec(),
            final(src).inner.va_spec() == old(src).inner.va_spec() + len,
            final(src).inner.active_in(&src_vm.pt_spec()),
            final(src).flusher == old(src).flusher,
            // Inside the destination window: the mirror of the source, with
            // `op` applied to each copy's property.
            forall|v: int|
                old(self).inner.va_spec() <= v < old(self).inner.va_spec() + len
                    ==> #[trigger] mirror_at(
                    src_vm.pt_spec().extents_seq(),
                    final(dst_vm).pt_spec().extents_seq(),
                    old(src).inner.va_spec() as int,
                    old(src).inner.va_spec() + len,
                    old(self).inner.va_spec() as int,
                    *op,
                    v,
                ),
            // Outside it: untouched.
            forall|v: int|
                !(old(self).inner.va_spec() <= v < old(self).inner.va_spec() + len)
                    ==> find_extent(final(dst_vm).pt_spec().extents_seq(), v) == find_extent(
                    old(dst_vm).pt_spec().extents_seq(),
                    v,
                ),
            // The registry: each page's count grows by exactly the copies
            // installed on it; the source space's mappings are untouched.
            forall|j: int|
                0 <= j < old(reg).num_frames() ==> (#[trigger] final(reg).slots_seq()[j]).state
                    == old(reg).slots_seq()[j].state && final(reg).slots_seq()[j].refcount
                    == old(reg).slots_seq()[j].refcount + backing_count(
                    final(dst_vm).pt_spec().extents_seq(),
                    j,
                ) - backing_count(old(dst_vm).pt_spec().extents_seq(), j),
            final(dst_vm).frames_live_in(final(reg)),
            src_vm.frames_live_in(final(reg)),
    {
        let ghost dst_old = dst_vm.pt_spec().extents_seq();
        let ghost src_ext = src_vm.pt_spec().extents_seq();
        let ghost dlo = self.inner.va_spec();
        let ghost slo = src.inner.va_spec();
        proof {
            assert forall|i: int|
                0 <= i < src_ext.len() implies old(reg).in_range(
                (#[trigger] src_ext[i]).pa,
            ) && 1 <= old(reg).refcount_of(src_ext[i].pa) && old(reg).refcount_of(src_ext[i].pa)
                + len / PAGE_SIZE <= u64::MAX by {
                assert(old(reg).in_range(src_vm.pt_spec().extents_seq()[i].pa));
                assert(src_vm.pt_spec().extents_seq()[i].is_tracked());
                assert(src_vm.pt_spec().extents_seq()[i].wf());
                let jp = src_ext[i].pa as int / PAGE_SIZE as int;
                crate::page_table::lemma_backing_member(src_ext, i, jp);
                assert(extent_backing(src_ext[i], jp) == 1);
                assert(backing_count(src_ext, jp) <= old(reg).slots_seq()[jp].refcount);
            }
        }
        self.inner.copy_from(&mut dst_vm.pt, &mut src.inner, src_vm.pt_borrow(), len, op, reg);
        proof {
            // Liveness of the destination space afterwards.
            assert forall|i: int|
                0 <= i < dst_vm.pt_spec().extents_seq().len() implies reg.in_range(
                (#[trigger] dst_vm.pt_spec().extents_seq()[i]).pa,
            ) by {
                let x = dst_vm.pt_spec().extents_seq()[i];
                assert(x.wf());
                assert(x.contains(x.va as int));
                crate::page_table::lemma_find_at(dst_vm.pt_spec().extents_seq(), i, x.va as int);
                if dlo <= x.va && (x.va as int) < dlo + len {
                    assert(mirror_at(
                        src_ext,
                        dst_vm.pt_spec().extents_seq(),
                        slo as int,
                        slo + len,
                        dlo as int,
                        *op,
                        x.va as int,
                    ));
                    let w = x.va as int - dlo + slo;
                    match find_extent(src_ext, w) {
                        Some(e) => {
                            lemma_find_some(src_ext, w);
                            let io = choose|io: int|
                                0 <= io < src_ext.len() && src_ext[io] == e && (
                                #[trigger] src_ext[io]).contains(w);
                            assert(x.pa == e.pa);
                            assert(old(reg).in_range(src_vm.pt_spec().extents_seq()[io].pa));
                        },
                        None => {
                            assert(false);
                        },
                    }
                } else {
                    assert(find_extent(dst_old, x.va as int) == Some(x));
                    lemma_find_some(dst_old, x.va as int);
                    let io = choose|io: int|
                        0 <= io < dst_old.len() && dst_old[io] == x && (#[trigger] dst_old[io]).contains(
                            x.va as int,
                        );
                    assert(old(dst_vm).pt_spec().extents_seq()[io] == x);
                    assert(old(reg).in_range(old(dst_vm).pt_spec().extents_seq()[io].pa));
                }
            }
            assert forall|j: int|
                0 <= j < reg.num_frames() implies backing_count(
                dst_vm.pt_spec().extents_seq(),
                j,
            ) <= (#[trigger] reg.slots_seq()[j]).refcount by {
                assert(backing_count(dst_old, j) <= old(reg).slots_seq()[j].refcount);
            }
            assert forall|j: int|
                0 <= j < reg.num_frames() implies backing_count(src_ext, j) <= (
            #[trigger] reg.slots_seq()[j]).refcount by {
                assert(backing_count(src_ext, j) <= old(reg).slots_seq()[j].refcount);
                assert(old(reg).slots_seq()[j].refcount <= reg.slots_seq()[j].refcount);
            }
        }
    }
}


} // verus!
