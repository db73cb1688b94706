//! The frame metadata registry: one metadata slot per physical page,
//! recording the page's type tag and its reference count, together with the
//! owning frame handle.
//!
//! A frame handle ([`Frame`]) owns one unit of a page's reference count. The
//! handle type has no `Clone`: sharing goes through
//! [`FrameRegistry::clone_frame`], which increments the count, and a handle
//! is given up through [`FrameRegistry::release_frame`], which decrements it
//! and recycles the page at zero. A page whose count is zero is `Unused` and
//! eligible for reallocation, and only such pages are ever handed out again.

use vstd::prelude::*;

use crate::{Error, Paddr, PAGE_SIZE};

verus! {

/// The kind of a typed page: what the page's memory has been committed to
/// hold after a retype.
#[derive(Clone, Copy, Debug, PartialEq, Eq, Structural)]
pub enum TypedKind {
    /// A slab of same-sized heap objects.
    Slab,
    /// A page-table node.
    PageTable,
    /// A kernel stack page.
    Stack,
    /// A page owned by the interpreter environment.
    Interpreter,
}

impl TypedKind {
    /// The kind encoded by `value`, if any. The encoding is the position of
    /// the variant, counting from one.
    pub fn from_usize(value: usize) -> (r: Option<TypedKind>)
        ensures
            r == if value == 1 {
                Some(TypedKind::Slab)
            } else if value == 2 {
                Some(TypedKind::PageTable)
            } else if value == 3 {
                Some(TypedKind::Stack)
            } else if value == 4 {
                Some(TypedKind::Interpreter)
            } else {
                None::<TypedKind>
            },
    {
        match value {
            1 => Some(TypedKind::Slab),
            2 => Some(TypedKind::PageTable),
            3 => Some(TypedKind::Stack),
            4 => Some(TypedKind::Interpreter),
            _ => None,
        }
    }
}

/// The lifecycle state of one physical page.
///
/// A page moves `Unused -> Untyped` on allocation, optionally
/// `Untyped -> Typed` on a retype, and back to `Unused` when its reference
/// count reaches zero. No other transition exists.
#[derive(Clone, Copy, Debug, PartialEq, Eq, Structural)]
pub enum PageState {
    /// Not allocated; eligible for reuse by the allocator.
    Unused,
    /// Allocated raw byte memory.
    Untyped,
    /// Allocated and committed to hold values of one kind.
    Typed {
        /// The kind the page was retyped to.
        page_type: TypedKind,
        /// The size in bytes of each slot of that kind on the page.
        type_size: usize,
    },
}

/// The metadata slot of one physical page: its lifecycle state and its
/// reference count.
#[derive(Clone, Copy, Debug, PartialEq, Eq, Structural)]
pub struct MetaSlot {
    /// The page's lifecycle state.
    pub state: PageState,
    /// How many owning handles (or owning mappings) the page has.
    pub refcount: u64,
}

/// An owning handle to one physical page.
///
/// The handle owns one unit of the page's reference count in the registry it
/// was allocated from. It is deliberately not `Clone` and not `Copy`:
/// duplicating ownership must go through [`FrameRegistry::clone_frame`].
#[derive(Debug)]
pub struct Frame {
    paddr: Paddr,
}

impl Frame {
    /// The physical address of the frame, stable for the frame's lifetime.
    pub closed spec fn paddr_spec(&self) -> Paddr {
        self.paddr
    }

    /// The physical address at which the frame starts.
    pub fn start_paddr(&self) -> (r: Paddr)
        ensures
            r == self.paddr_spec(),
    {
        self.paddr
    }

    /// The size of the frame in bytes: one base page.
    pub fn size(&self) -> (r: u64)
        ensures
            r == PAGE_SIZE,
    {
        PAGE_SIZE
    }

    /// The paging level whose page size equals the frame's size.
    pub fn level(&self) -> (r: u8)
        ensures
            r == 1,
    {
        1
    }
}

/// The metadata registry over a contiguous run of physical pages starting at
/// physical address zero: one [`MetaSlot`] per page.
pub struct FrameRegistry {
    slots: Vec<MetaSlot>,
}

/// How many of the slots are `Unused`.
pub open spec fn count_unused(s: Seq<MetaSlot>) -> nat
    decreases s.len(),
{
    if s.len() == 0 {
        0
    } else {
        count_unused(s.drop_last()) + if s.last().state is Unused {
            1nat
        } else {
            0nat
        }
    }
}

impl FrameRegistry {
    /// The slot of each physical page, in order of physical address.
    pub closed spec fn slots_seq(&self) -> Seq<MetaSlot> {
        self.slots@
    }

    /// The number of physical pages the registry covers.
    pub open spec fn num_frames(&self) -> nat {
        self.slots_seq().len()
    }

    /// Whether `paddr` names a page of this registry: page-aligned and in
    /// range.
    pub open spec fn in_range(&self, paddr: Paddr) -> bool {
        paddr % PAGE_SIZE == 0 && paddr / PAGE_SIZE < self.num_frames()
    }

    /// The lifecycle state of the page at `paddr`.
    pub open spec fn state_of(&self, paddr: Paddr) -> PageState {
        self.slots_seq()[paddr as int / PAGE_SIZE as int].state
    }

    /// The reference count of the page at `paddr`.
    pub open spec fn refcount_of(&self, paddr: Paddr) -> u64 {
        self.slots_seq()[paddr as int / PAGE_SIZE as int].refcount
    }

    /// The registry's invariant. The heart of it: a page's reference count
    /// is zero exactly when the page is `Unused`, that is, exactly when the
    /// allocator may hand the page out again. Reaching count zero is the one
    /// and only way a page becomes reusable.
    pub open spec fn wf(&self) -> bool {
        &&& self.num_frames() <= 0x1000_0000
        &&& forall|i: int|
            0 <= i < self.num_frames() ==> (#[trigger] self.slots_seq()[i].refcount == 0
                <==> self.slots_seq()[i].state is Unused)
    }

    /// A registry over `num_frames` pages, all initially `Unused`.
    pub fn new(num_frames: usize) -> (r: FrameRegistry)
        requires
            num_frames <= 0x1000_0000,
        ensures
            r.wf(),
            r.num_frames() == num_frames,
            forall|i: int|
                0 <= i < num_frames ==> #[trigger] r.slots_seq()[i] == (MetaSlot {
                    state: PageState::Unused,
                    refcount: 0,
                }),
    {
        let mut slots: Vec<MetaSlot> = Vec::new();
        let mut i: usize = 0;
        while i < num_frames
            invariant
                i <= num_frames,
                slots@.len() == i,
                forall|j: int|
                    0 <= j < i ==> #[trigger] slots@[j] == (MetaSlot {
                        state: PageState::Unused,
                        refcount: 0,
                    }),
            decreases num_frames - i,
        {
            slots.push(MetaSlot { state: PageState::Unused, refcount: 0 });
            i = i + 1;
        }
        FrameRegistry { slots }
    }

    /// The number of slots.
    pub fn len(&self) -> (r: usize)
        ensures
            r == self.num_frames(),
    {
        self.slots.len()
    }

    /// The index of the slot of the page at `paddr`.
    fn slot_index(&self, paddr: Paddr) -> (r: usize)
        requires
            self.in_range(paddr),
        ensures
            r == paddr as int / PAGE_SIZE as int,
    {
        let n = self.slots.len();
        let q = paddr / PAGE_SIZE;
        proof {
            assert(q < n);
        }
        q as usize
    }

    /// The slot of the page at `paddr`.
    pub fn slot(&self, paddr: Paddr) -> (r: MetaSlot)
        requires
            self.in_range(paddr),
        ensures
            r.state == self.state_of(paddr),
            r.refcount == self.refcount_of(paddr),
    {
        let idx = self.slot_index(paddr);
        self.slots[idx]
    }

    /// Whether the page at `paddr` is allocated untyped memory.
    pub fn is_untyped(&self, paddr: Paddr) -> (r: bool)
        requires
            self.in_range(paddr),
        ensures
            r == (self.state_of(paddr) is Untyped),
    {
        let idx = self.slot_index(paddr);
        match self.slots[idx].state {
            PageState::Untyped => true,
            _ => false,
        }
    }

    /// Reserves one previously `Unused` page — the first such page, so a
    /// just-released page is handed out again before any later one — and
    /// returns its handle, with the slot set to `Untyped` and the count set
    /// to one. Fails with `OutOfMemory` exactly when no page is `Unused`.
    pub fn alloc_frame(&mut self) -> (r: Result<Frame, Error>)
        requires
            old(self).wf(),
        ensures
            final(self).wf(),
            final(self).num_frames() == old(self).num_frames(),
            match r {
                Ok(f) => {
                    &&& old(self).in_range(f.paddr_spec())
                    &&& old(self).state_of(f.paddr_spec()) is Unused
                    &&& old(self).refcount_of(f.paddr_spec()) == 0
                    &&& forall|j: int|
                        0 <= j < f.paddr_spec() as int / PAGE_SIZE as int
                            ==> !(#[trigger] old(self).slots_seq()[j].state is Unused)
                    &&& final(self).slots_seq() == old(self).slots_seq().update(
                        f.paddr_spec() as int / PAGE_SIZE as int,
                        MetaSlot { state: PageState::Untyped, refcount: 1 },
                    )
                },
                Err(e) => {
                    &&& e == Error::OutOfMemory
                    &&& final(self).slots_seq() == old(self).slots_seq()
                    &&& forall|j: int|
                        0 <= j < old(self).num_frames()
                            ==> !(#[trigger] old(self).slots_seq()[j].state is Unused)
                },
            },
    {
        let n = self.slots.len();
        let mut i: usize = 0;
        while i < n
            invariant
                self.slots@ == old(self).slots@,
                n == self.slots@.len(),
                i <= n,
                self.wf(),
                forall|j: int| 0 <= j < i ==> !(#[trigger] self.slots@[j].state is Unused),
            decreases n - i,
        {
            let is_unused = match self.slots[i].state {
                PageState::Unused => true,
                _ => false,
            };
            if is_unused {
                self.slots.set(i, MetaSlot { state: PageState::Untyped, refcount: 1 });
                let paddr = (i as u64) * PAGE_SIZE;
                proof {
                    assert(paddr % PAGE_SIZE == 0 && paddr as int / PAGE_SIZE as int == i as int)
                        by (nonlinear_arith)
                        requires paddr == (i as u64) * PAGE_SIZE && PAGE_SIZE == 4096 && i
                            <= 0x1000_0000;
                }
                return Ok(Frame { paddr });
            }
            i = i + 1;
        }
        Err(Error::OutOfMemory)
    }

    /// Clones the handle: increments the page's reference count by one and
    /// hands back a second owning handle to the same page.
    pub fn clone_frame(&mut self, frame: &Frame) -> (r: Frame)
        requires
            old(self).wf(),
            old(self).in_range(frame.paddr_spec()),
            old(self).refcount_of(frame.paddr_spec()) >= 1,
            old(self).refcount_of(frame.paddr_spec()) < u64::MAX,
        ensures
            final(self).wf(),
            r.paddr_spec() == frame.paddr_spec(),
            final(self).slots_seq() == old(self).slots_seq().update(
                frame.paddr_spec() as int / PAGE_SIZE as int,
                MetaSlot {
                    state: old(self).state_of(frame.paddr_spec()),
                    refcount: (old(self).refcount_of(frame.paddr_spec()) + 1) as u64,
                },
            ),
    {
        let idx = self.slot_index(frame.start_paddr());
        let slot = self.slots[idx];
        self.slots.set(idx, MetaSlot { state: slot.state, refcount: slot.refcount + 1 });
        Frame { paddr: frame.paddr }
    }

    /// Gives the handle up: decrements the page's reference count by one,
    /// and when the count reaches zero, synchronously recycles the page to
    /// `Unused`, making it eligible for reallocation. No other path ever
    /// frees a page.
    pub fn release_frame(&mut self, frame: Frame)
        requires
            old(self).wf(),
            old(self).in_range(frame.paddr_spec()),
            old(self).refcount_of(frame.paddr_spec()) >= 1,
        ensures
            final(self).wf(),
            final(self).slots_seq() == old(self).slots_seq().update(
                frame.paddr_spec() as int / PAGE_SIZE as int,
                if old(self).refcount_of(frame.paddr_spec()) == 1 {
                    MetaSlot { state: PageState::Unused, refcount: 0 }
                } else {
                    MetaSlot {
                        state: old(self).state_of(frame.paddr_spec()),
                        refcount: (old(self).refcount_of(frame.paddr_spec()) - 1) as u64,
                    }
                },
            ),
    {
        let idx = self.slot_index(frame.start_paddr());
        let slot = self.slots[idx];
        if slot.refcount == 1 {
            self.slots.set(idx, MetaSlot { state: PageState::Unused, refcount: 0 });
        } else {
            self.slots.set(idx, MetaSlot { state: slot.state, refcount: slot.refcount - 1 });
        }
    }
}

impl FrameRegistry {
    /// The index of the slot of the page at `paddr`, also usable when the
    /// page is merely in bounds of the registry.
    fn slot_index_free(&self, paddr: Paddr) -> (r: usize)
        requires
            paddr % PAGE_SIZE == 0,
            paddr / PAGE_SIZE <= self.num_frames(),
        ensures
            r == paddr as int / PAGE_SIZE as int,
    {
        let n = self.slots.len();
        let q = paddr / PAGE_SIZE;
        proof {
            assert(q <= n);
        }
        q as usize
    }
}

/// Total memory the registry covers, in bytes.
pub fn mem_total(reg: &FrameRegistry) -> (r: u64)
    requires
        reg.wf(),
    ensures
        r == reg.num_frames() * PAGE_SIZE,
{
    (reg.len() as u64) * PAGE_SIZE
}

/// How many of the slots of a prefix are `Unused`.
proof fn lemma_count_unused_le(s: Seq<MetaSlot>)
    ensures
        count_unused(s) <= s.len(),
    decreases s.len(),
{
    if s.len() > 0 {
        lemma_count_unused_le(s.drop_last());
    }
}

proof fn lemma_count_unused_push(s: Seq<MetaSlot>, i: int)
    requires
        0 <= i < s.len(),
    ensures
        count_unused(s.subrange(0, i + 1)) == count_unused(s.subrange(0, i)) + if s[i].state is Unused {
            1nat
        } else {
            0nat
        },
{
    let t = s.subrange(0, i + 1);
    assert(t.drop_last() =~= s.subrange(0, i));
    assert(t.last() == s[i]);
}

/// Memory currently available for allocation, in bytes: the `Unused` pages.
pub fn mem_available(reg: &FrameRegistry) -> (r: u64)
    requires
        reg.wf(),
    ensures
        r == count_unused(reg.slots_seq()) * PAGE_SIZE,
{
    let n = reg.len();
    let mut avail: u64 = 0;
    let mut i: usize = 0;
    proof {
        assert(reg.slots_seq().subrange(0, 0) =~= Seq::<MetaSlot>::empty());
    }
    while i < n
        invariant
            reg.wf(),
            n == reg.num_frames(),
            i <= n,
            avail == count_unused(reg.slots_seq().subrange(0, i as int)) * PAGE_SIZE,
        decreases n - i,
    {
        proof {
            lemma_count_unused_push(reg.slots_seq(), i as int);
            lemma_count_unused_le(reg.slots_seq().subrange(0, i as int + 1));
        }
        let slot = reg.slot((i as u64) * PAGE_SIZE);
        let is_unused = match slot.state {
            PageState::Unused => true,
            _ => false,
        };
        if is_unused {
            avail = avail + PAGE_SIZE;
        }
        i = i + 1;
    }
    proof {
        assert(reg.slots_seq().subrange(0, n as int) =~= reg.slots_seq());
    }
    avail
}

/// Commits `count` pages starting at `paddr` to hold values of kind
/// `page_type` with `type_size`-byte slots. Retyping is only legal for pages
/// that are freshly allocated untyped memory with no second owner; the
/// precondition makes retyping a page with another live reference
/// impossible, rather than detecting it at run time.
pub fn retype_pages_at(
    reg: &mut FrameRegistry,
    paddr: Paddr,
    count: usize,
    type_size: usize,
    page_type: TypedKind,
)
    requires
        old(reg).wf(),
        paddr % PAGE_SIZE == 0,
        paddr / PAGE_SIZE + count <= old(reg).num_frames(),
        forall|j: int|
            paddr as int / PAGE_SIZE as int <= j < paddr as int / PAGE_SIZE as int + count
                ==> (#[trigger] old(reg).slots_seq()[j]) == (MetaSlot {
                state: PageState::Untyped,
                refcount: 1,
            }),
    ensures
        final(reg).wf(),
        final(reg).num_frames() == old(reg).num_frames(),
        forall|j: int|
            paddr as int / PAGE_SIZE as int <= j < paddr as int / PAGE_SIZE as int + count
                ==> (#[trigger] final(reg).slots_seq()[j]) == (MetaSlot {
                state: PageState::Typed { page_type, type_size },
                refcount: 1,
            }),
        forall|j: int|
            0 <= j < old(reg).num_frames()
                && !(paddr as int / PAGE_SIZE as int <= j < paddr as int / PAGE_SIZE as int + count)
                ==> (#[trigger] final(reg).slots_seq()[j]) == old(reg).slots_seq()[j],
{
    let base = reg.slot_index_free(paddr);
    let mut k: usize = 0;
    while k < count
        invariant
            reg.wf(),
            base == paddr as int / PAGE_SIZE as int,
            base + count <= reg.num_frames(),
            k <= count,
            forall|j: int|
                base <= j < base + k ==> (#[trigger] reg.slots_seq()[j]) == (MetaSlot {
                    state: PageState::Typed { page_type, type_size },
                    refcount: 1,
                }),
            forall|j: int|
                base + k <= j < base + count ==> (#[trigger] reg.slots_seq()[j]) == (MetaSlot {
                    state: PageState::Untyped,
                    refcount: 1,
                }),
            forall|j: int|
                0 <= j < reg.num_frames() && !(base <= j < base + count) ==> (#[trigger] reg.slots_seq()[j])
                    == old(reg).slots_seq()[j],
            reg.num_frames() == old(reg).num_frames(),
        decreases count - k,
    {
        reg.slots.set(base + k, MetaSlot {
            state: PageState::Typed { page_type, type_size },
            refcount: 1,
        });
        k = k + 1;
    }
}



/// A frame handle carrying a checked type tag: the registry's slot for its
/// page held the matching `Typed` state when the handle was converted.
#[derive(Debug)]
pub struct TypedFrame {
    frame: Frame,
    kind: TypedKind,
}

impl TypedFrame {
    /// The physical address of the frame.
    pub closed spec fn paddr_spec(&self) -> Paddr {
        self.frame.paddr_spec()
    }

    /// The kind the handle was checked against.
    pub closed spec fn kind_spec(&self) -> TypedKind {
        self.kind
    }

    /// The physical address at which the frame starts.
    pub fn start_paddr(&self) -> (r: Paddr)
        ensures
            r == self.paddr_spec(),
    {
        self.frame.start_paddr()
    }

    /// The kind the handle was checked against.
    pub fn kind(&self) -> (r: TypedKind)
        ensures
            r == self.kind_spec(),
    {
        self.kind
    }

    /// Gives the type tag up: a typed handle converts to a type-erased one
    /// unconditionally, keeping the ownership unit it held.
    pub fn into_frame(self) -> (r: Frame)
        ensures
            r.paddr_spec() == self.paddr_spec(),
    {
        self.frame
    }
}

/// Converts a type-erased handle to a typed one, checking the requested kind
/// against the page's slot at run time: the conversion succeeds exactly when
/// the tags match, and a mismatch hands the original handle back unchanged,
/// so no ownership is ever lost.
pub fn frame_into_typed(reg: &FrameRegistry, frame: Frame, kind: TypedKind) -> (r: Result<
    TypedFrame,
    Frame,
>)
    requires
        reg.in_range(frame.paddr_spec()),
    ensures
        match r {
            Ok(tf) => {
                &&& reg.state_of(frame.paddr_spec()) matches PageState::Typed { page_type, .. }
                    && page_type == kind
                &&& tf.paddr_spec() == frame.paddr_spec()
                &&& tf.kind_spec() == kind
            },
            Err(f) => {
                &&& f == frame
                &&& !(reg.state_of(frame.paddr_spec()) matches PageState::Typed { page_type, .. }
                    && page_type == kind)
            },
        },
{
    let slot = reg.slot(frame.start_paddr());
    match slot.state {
        PageState::Typed { page_type, type_size: _ } => {
            if page_type == kind {
                Ok(TypedFrame { frame, kind })
            } else {
                Err(frame)
            }
        },
        _ => Err(frame),
    }
}

/// A page is reusable by the allocator exactly when its reference count is
/// zero: the count reaching zero is the one and only trigger for
/// deallocation, and `FrameRegistry::alloc_frame` hands out `Unused` pages
/// alone.
pub proof fn lemma_refcount_zero_iff_reusable(reg: &FrameRegistry, paddr: Paddr)
    requires
        reg.wf(),
        reg.in_range(paddr),
    ensures
        reg.refcount_of(paddr) == 0 <==> reg.state_of(paddr) is Unused,
{
}

/// One application of `FrameRegistry::clone_frame` to the page at slot `i`,
/// as it acts on the registry's slot sequence.
pub open spec fn clone_step(s: Seq<MetaSlot>, i: int) -> Seq<MetaSlot> {
    s.update(i, MetaSlot { state: s[i].state, refcount: (s[i].refcount + 1) as u64 })
}

/// One application of `FrameRegistry::release_frame` to the page at slot `i`,
/// as it acts on the registry's slot sequence.
pub open spec fn release_step(s: Seq<MetaSlot>, i: int) -> Seq<MetaSlot> {
    if s[i].refcount == 1 {
        s.update(i, MetaSlot { state: PageState::Unused, refcount: 0 })
    } else {
        s.update(i, MetaSlot { state: s[i].state, refcount: (s[i].refcount - 1) as u64 })
    }
}

/// `n` applications of `clone_step` to slot `i`.
pub open spec fn clone_n(s: Seq<MetaSlot>, i: int, n: nat) -> Seq<MetaSlot>
    decreases n,
{
    if n == 0 {
        s
    } else {
        clone_step(clone_n(s, i, (n - 1) as nat), i)
    }
}

/// `n` applications of `release_step` to slot `i`.
pub open spec fn release_n(s: Seq<MetaSlot>, i: int, n: nat) -> Seq<MetaSlot>
    decreases n,
{
    if n == 0 {
        s
    } else {
        release_n(release_step(s, i), i, (n - 1) as nat)
    }
}

proof fn lemma_clone_n_shape(s: Seq<MetaSlot>, i: int, n: nat)
    requires
        0 <= i < s.len(),
        s[i].refcount + n <= u64::MAX,
    ensures
        clone_n(s, i, n) =~= s.update(i, MetaSlot {
            state: s[i].state,
            refcount: (s[i].refcount + n) as u64,
        }),
    decreases n,
{
    if n == 0 {
        assert(s.update(i, MetaSlot { state: s[i].state, refcount: s[i].refcount }) =~= s);
    } else {
        lemma_clone_n_shape(s, i, (n - 1) as nat);
    }
}

proof fn lemma_release_n_shape(s: Seq<MetaSlot>, i: int, n: nat)
    requires
        0 <= i < s.len(),
        s[i].refcount > n,
    ensures
        release_n(s, i, n) =~= s.update(i, MetaSlot {
            state: s[i].state,
            refcount: (s[i].refcount - n) as u64,
        }),
    decreases n,
{
    if n == 0 {
        assert(s.update(i, MetaSlot { state: s[i].state, refcount: s[i].refcount }) =~= s);
    } else {
        let s1 = release_step(s, i);
        assert(s1 =~= s.update(i, MetaSlot {
            state: s[i].state,
            refcount: (s[i].refcount - 1) as u64,
        }));
        lemma_release_n_shape(s1, i, (n - 1) as nat);
        assert(release_n(s, i, n) =~= s.update(i, MetaSlot {
            state: s[i].state,
            refcount: (s[i].refcount - n) as u64,
        }));
    }
}

/// Cloning a live frame's handle `n` times and then releasing the `n` extra
/// handles returns the page's metadata slot — its reference count included —
/// to exactly the state it started in. `clone_step` and `release_step` are
/// the slot-sequence effects that `FrameRegistry::clone_frame` and
/// `FrameRegistry::release_frame` promise in their contracts.
pub proof fn lemma_clone_release_roundtrip(s: Seq<MetaSlot>, i: int, n: nat)
    requires
        0 <= i < s.len(),
        s[i].refcount >= 1,
        s[i].refcount + n <= u64::MAX,
    ensures
        release_n(clone_n(s, i, n), i, n) =~= s,
{
    lemma_clone_n_shape(s, i, n);
    let c = clone_n(s, i, n);
    assert(c[i].refcount == s[i].refcount + n);
    lemma_release_n_shape(c, i, n);
    assert(release_n(c, i, n) =~= c.update(i, MetaSlot {
        state: c[i].state,
        refcount: (c[i].refcount - n) as u64,
    }));
}

/// Whether every slot of `[base, base + count)` is `Unused`, so that the
/// run is free for a contiguous allocation.
pub open spec fn run_free(s: Seq<MetaSlot>, base: int, count: int) -> bool {
    forall|j: int| base <= j < base + count ==> (#[trigger] s[j].state) is Unused
}

/// An owning handle over a contiguous run of physical pages that share one
/// metadata kind. Each page of the run carries its own reference count, of
/// which the segment owns one unit per page.
#[derive(Debug)]
pub struct Segment {
    start: Paddr,
    end: Paddr,
}

impl Segment {
    /// The physical address at which the segment starts.
    pub closed spec fn start_spec(&self) -> Paddr {
        self.start
    }

    /// The physical address at which the segment ends (exclusive).
    pub closed spec fn end_spec(&self) -> Paddr {
        self.end
    }

    /// Whether the segment is a well-formed run: page-aligned and non-empty.
    pub open spec fn wf(&self) -> bool {
        &&& self.start_spec() % PAGE_SIZE == 0
        &&& self.end_spec() % PAGE_SIZE == 0
        &&& self.start_spec() < self.end_spec()
    }

    /// The physical address at which the segment starts.
    pub fn start_paddr(&self) -> (r: Paddr)
        ensures
            r == self.start_spec(),
    {
        self.start
    }

    /// The physical address at which the segment ends (exclusive).
    pub fn end_paddr(&self) -> (r: Paddr)
        ensures
            r == self.end_spec(),
    {
        self.end
    }

    /// The size of the segment in bytes.
    pub fn size(&self) -> (r: u64)
        requires
            self.start_spec() <= self.end_spec(),
        ensures
            r == self.end_spec() - self.start_spec(),
    {
        self.end - self.start
    }

    /// Divides the run at `offset` bytes into two independently owned
    /// segments. Ownership moves: the pages' reference counts are untouched,
    /// so the total count over both halves equals the count the whole run
    /// held.
    pub fn split(self, offset: u64) -> (r: (Segment, Segment))
        requires
            self.wf(),
            offset % PAGE_SIZE == 0,
            0 < offset < self.end_spec() - self.start_spec(),
        ensures
            r.0.start_spec() == self.start_spec(),
            r.0.end_spec() == self.start_spec() + offset,
            r.1.start_spec() == self.start_spec() + offset,
            r.1.end_spec() == self.end_spec(),
            r.0.wf(),
            r.1.wf(),
    {
        let mid = self.start + offset;
        (Segment { start: self.start, end: mid }, Segment { start: mid, end: self.end })
    }

    /// Breaks the segment into one owning frame handle per page, in order of
    /// physical address. The pages' reference counts are untouched: each
    /// handle takes over the one unit the segment held for its page.
    pub fn into_frames(self) -> (r: Vec<Frame>)
        requires
            self.wf(),
        ensures
            r@.len() == (self.end_spec() - self.start_spec()) as int / PAGE_SIZE as int,
            forall|k: int|
                0 <= k < r@.len() ==> (#[trigger] r@[k].paddr_spec()) == self.start_spec() + k
                    * PAGE_SIZE,
    {
        let mut frames: Vec<Frame> = Vec::new();
        let mut paddr = self.start;
        proof {
            assert((self.end - self.start) as int % PAGE_SIZE as int == 0 && (self.end
                - self.start) as int / PAGE_SIZE as int >= 1) by (nonlinear_arith)
                requires
                    self.start % PAGE_SIZE == 0,
                    self.end % PAGE_SIZE == 0,
                    self.start < self.end,
                    PAGE_SIZE == 4096,
            ;
        }
        while paddr < self.end
            invariant
                self.start <= paddr <= self.end,
                paddr % PAGE_SIZE == 0,
                self.wf(),
                frames@.len() == (paddr - self.start) as int / PAGE_SIZE as int,
                forall|k: int|
                    0 <= k < frames@.len() ==> (#[trigger] frames@[k].paddr_spec())
                        == self.start_spec() + k * PAGE_SIZE,
            decreases self.end - paddr,
        {
            frames.push(Frame { paddr });
            proof {
                assert((paddr + PAGE_SIZE - self.start) as int / PAGE_SIZE as int == (paddr
                    - self.start) as int / PAGE_SIZE as int + 1 && (paddr - self.start) as int
                    / PAGE_SIZE as int * PAGE_SIZE == paddr - self.start && (paddr
                    + PAGE_SIZE) as int % PAGE_SIZE as int == 0) by (nonlinear_arith)
                    requires
                        self.start % PAGE_SIZE == 0,
                        paddr % PAGE_SIZE == 0,
                        self.start <= paddr < self.end,
                        self.end % PAGE_SIZE == 0,
                        PAGE_SIZE == 4096,
                ;
            }
            paddr = paddr + PAGE_SIZE;
        }
        frames
    }
}

impl Frame {
    /// Turns the frame handle into a one-page segment over the same page,
    /// keeping the ownership unit the handle held.
    pub fn into_segment(self) -> (r: Segment)
        requires
            self.paddr_spec() % PAGE_SIZE == 0,
            self.paddr_spec() + PAGE_SIZE <= u64::MAX,
        ensures
            r.start_spec() == self.paddr_spec(),
            r.end_spec() == self.paddr_spec() + PAGE_SIZE,
            r.wf(),
    {
        Segment { start: self.paddr, end: self.paddr + PAGE_SIZE }
    }
}

impl FrameRegistry {
    /// Whether every page of `[base, base + count)` slots starting at slot
    /// index `base` is `Unused`.
    fn run_is_free(&self, base: usize, count: usize) -> (r: bool)
        requires
            base + count <= self.num_frames(),
        ensures
            r == run_free(self.slots_seq(), base as int, count as int),
    {
        let n = self.slots.len();
        let mut k: usize = 0;
        while k < count
            invariant
                n == self.num_frames(),
                base + count <= n,
                k <= count,
                forall|j: int|
                    base <= j < base + k ==> (#[trigger] self.slots_seq()[j].state) is Unused,
            decreases count - k,
        {
            let is_unused = match self.slots[base + k].state {
                PageState::Unused => true,
                _ => false,
            };
            if !is_unused {
                return false;
            }
            k = k + 1;
        }
        true
    }

    /// Marks every slot of `[base, base + count)` allocated: `Untyped` with
    /// a reference count of one.
    fn commit_run(&mut self, base: usize, count: usize)
        requires
            old(self).wf(),
            base + count <= old(self).num_frames(),
            forall|j: int|
                base <= j < base + count ==> (#[trigger] old(self).slots_seq()[j].state) is Unused,
        ensures
            final(self).wf(),
            final(self).num_frames() == old(self).num_frames(),
            forall|j: int|
                base <= j < base + count ==> (#[trigger] final(self).slots_seq()[j]) == (MetaSlot {
                    state: PageState::Untyped,
                    refcount: 1,
                }),
            forall|j: int|
                0 <= j < old(self).num_frames() && !(base <= j < base + count)
                    ==> (#[trigger] final(self).slots_seq()[j]) == old(self).slots_seq()[j],
    {
        let mut k: usize = 0;
        while k < count
            invariant
                self.wf(),
                base + count <= self.num_frames(),
                self.num_frames() == old(self).num_frames(),
                k <= count,
                forall|j: int|
                    base <= j < base + k ==> (#[trigger] self.slots_seq()[j]) == (MetaSlot {
                        state: PageState::Untyped,
                        refcount: 1,
                    }),
                forall|j: int|
                    0 <= j < self.num_frames() && !(base <= j < base + k)
                        ==> (#[trigger] self.slots_seq()[j]) == old(self).slots_seq()[j],
            decreases count - k,
        {
            self.slots.set(base + k, MetaSlot { state: PageState::Untyped, refcount: 1 });
            k = k + 1;
        }
    }

    /// Reserves a contiguous run of `count` previously `Unused` pages — the
    /// first such run — and returns the owning segment, each page `Untyped`
    /// with a reference count of one. Fails with `InvalidArgs` exactly when
    /// `count` is zero, and with `OutOfMemory` exactly when no run of
    /// `count` `Unused` pages exists.
    pub fn alloc_segment(&mut self, count: usize) -> (r: Result<Segment, Error>)
        requires
            old(self).wf(),
        ensures
            final(self).wf(),
            final(self).num_frames() == old(self).num_frames(),
            count == 0 ==> (r matches Err(e) && e == Error::InvalidArgs),
            match r {
                Ok(s) => {
                    let base = s.start_spec() as int / PAGE_SIZE as int;
                    &&& count >= 1
                    &&& s.wf()
                    &&& s.start_spec() % PAGE_SIZE == 0
                    &&& s.end_spec() - s.start_spec() == count * PAGE_SIZE
                    &&& base + count <= old(self).num_frames()
                    &&& forall|j: int|
                        base <= j < base + count
                            ==> (#[trigger] old(self).slots_seq()[j].state) is Unused
                    &&& forall|j: int|
                        base <= j < base + count ==> (#[trigger] final(self).slots_seq()[j])
                            == (MetaSlot { state: PageState::Untyped, refcount: 1 })
                    &&& forall|j: int|
                        0 <= j < old(self).num_frames() && !(base <= j < base + count)
                            ==> (#[trigger] final(self).slots_seq()[j]) == old(self).slots_seq()[j]
                },
                Err(e) => {
                    &&& final(self).slots_seq() == old(self).slots_seq()
                    &&& (e == Error::InvalidArgs || e == Error::OutOfMemory)
                    &&& e == Error::OutOfMemory ==> count >= 1 && forall|base: int|
                        0 <= base && base + count <= old(self).num_frames() ==> !(#[trigger] run_free(
                            old(self).slots_seq(),
                            base,
                            count as int,
                        ))
                },
            },
    {
        if count == 0 {
            return Err(Error::InvalidArgs);
        }
        let n = self.slots.len();
        if count > n {
            return Err(Error::OutOfMemory);
        }
        let mut base: usize = 0;
        while base + count <= n
            invariant
                self.slots_seq() == old(self).slots_seq(),
                self.wf(),
                n == self.num_frames(),
                1 <= count <= n,
                base <= n,
                forall|b2: int|
                    0 <= b2 < base ==> !(#[trigger] run_free(self.slots_seq(), b2, count as int)),
            decreases n - base,
        {
            if self.run_is_free(base, count) {
                self.commit_run(base, count);
                let start = (base as u64) * PAGE_SIZE;
                let end = start + (count as u64) * PAGE_SIZE;
                proof {
                    assert(start % PAGE_SIZE == 0 && start as int / PAGE_SIZE as int == base as int
                        && end - start == count * PAGE_SIZE) by (nonlinear_arith)
                        requires
                            start == (base as u64) * PAGE_SIZE,
                            end == start + (count as u64) * PAGE_SIZE,
                            PAGE_SIZE == 4096,
                            base <= 0x1000_0000,
                            count <= 0x1000_0000,
                    ;
                }
                return Ok(Segment { start, end });
            }
            base = base + 1;
        }
        Err(Error::OutOfMemory)
    }

    /// Shares the run: increments each page's reference count by one and
    /// returns a second owning segment over the same pages. `slice` goes
    /// through this: a sub-view shares ownership with its parent.
    pub fn clone_segment_range(&mut self, start: Paddr, end: Paddr) -> (r: Segment)
        requires
            old(self).wf(),
            start % PAGE_SIZE == 0,
            end % PAGE_SIZE == 0,
            start < end,
            end / PAGE_SIZE <= old(self).num_frames(),
            forall|j: int|
                start as int / PAGE_SIZE as int <= j < end as int / PAGE_SIZE as int ==> 1 <= (
                #[trigger] old(self).slots_seq()[j].refcount) < u64::MAX,
        ensures
            final(self).wf(),
            final(self).num_frames() == old(self).num_frames(),
            r.start_spec() == start,
            r.end_spec() == end,
            r.wf(),
            forall|j: int|
                start as int / PAGE_SIZE as int <= j < end as int / PAGE_SIZE as int ==> (
                #[trigger] final(self).slots_seq()[j]) == (MetaSlot {
                    state: old(self).slots_seq()[j].state,
                    refcount: (old(self).slots_seq()[j].refcount + 1) as u64,
                }),
            forall|j: int|
                0 <= j < old(self).num_frames() && !(start as int / PAGE_SIZE as int <= j < end as int
                    / PAGE_SIZE as int) ==> (#[trigger] final(self).slots_seq()[j]) == old(self).slots_seq()[j],
    {
        let lo = self.slot_index_free(start);
        let hi = self.slot_index_free(end);
        proof {
            assert(lo < hi) by (nonlinear_arith)
                requires
                    lo == start as int / PAGE_SIZE as int,
                    hi == end as int / PAGE_SIZE as int,
                    start % PAGE_SIZE == 0,
                    end % PAGE_SIZE == 0,
                    start < end,
                    PAGE_SIZE == 4096,
            ;
        }
        let mut k: usize = lo;
        while k < hi
            invariant
                self.wf(),
                self.num_frames() == old(self).num_frames(),
                lo <= k <= hi,
                hi <= self.num_frames(),
                forall|j: int|
                    lo <= j < hi ==> 1 <= (#[trigger] old(self).slots_seq()[j].refcount)
                        < u64::MAX,
                forall|j: int|
                    lo <= j < k ==> (#[trigger] self.slots_seq()[j]) == (MetaSlot {
                        state: old(self).slots_seq()[j].state,
                        refcount: (old(self).slots_seq()[j].refcount + 1) as u64,
                    }),
                forall|j: int|
                    0 <= j < self.num_frames() && !(lo <= j < k) ==> (#[trigger] self.slots_seq()[j])
                        == old(self).slots_seq()[j],
            decreases hi - k,
        {
            let slot = self.slots[k];
            self.slots.set(k, MetaSlot { state: slot.state, refcount: slot.refcount + 1 });
            k = k + 1;
        }
        Segment { start, end }
    }

    /// Gives the segment up: decrements each page's reference count by one,
    /// recycling to `Unused` each page whose count reaches zero.
    pub fn release_segment(&mut self, segment: Segment)
        requires
            old(self).wf(),
            segment.wf(),
            segment.end_spec() / PAGE_SIZE <= old(self).num_frames(),
            forall|j: int|
                segment.start_spec() as int / PAGE_SIZE as int <= j < segment.end_spec() as int
                    / PAGE_SIZE as int ==> 1 <= (#[trigger] old(self).slots_seq()[j].refcount),
        ensures
            final(self).wf(),
            final(self).num_frames() == old(self).num_frames(),
            forall|j: int|
                segment.start_spec() as int / PAGE_SIZE as int <= j < segment.end_spec() as int
                    / PAGE_SIZE as int ==> (#[trigger] final(self).slots_seq()[j]) == (if old(self).slots_seq()[j].refcount == 1 {
                    MetaSlot { state: PageState::Unused, refcount: 0 }
                } else {
                    MetaSlot {
                        state: old(self).slots_seq()[j].state,
                        refcount: (old(self).slots_seq()[j].refcount - 1) as u64,
                    }
                }),
            forall|j: int|
                0 <= j < old(self).num_frames() && !(segment.start_spec() as int / PAGE_SIZE as int
                    <= j < segment.end_spec() as int / PAGE_SIZE as int) ==> (#[trigger] final(self).slots_seq()[j]) == old(self).slots_seq()[j],
    {
        let lo = self.slot_index_free(segment.start);
        let hi = self.slot_index_free(segment.end);
        proof {
            assert(lo < hi) by (nonlinear_arith)
                requires
                    lo == segment.start as int / PAGE_SIZE as int,
                    hi == segment.end as int / PAGE_SIZE as int,
                    segment.start % PAGE_SIZE == 0,
                    segment.end % PAGE_SIZE == 0,
                    segment.start < segment.end,
                    PAGE_SIZE == 4096,
            ;
        }
        let mut k: usize = lo;
        while k < hi
            invariant
                self.wf(),
                self.num_frames() == old(self).num_frames(),
                lo <= k <= hi,
                hi <= self.num_frames(),
                forall|j: int| lo <= j < hi ==> 1 <= (#[trigger] old(self).slots_seq()[j].refcount),
                forall|j: int|
                    lo <= j < k ==> (#[trigger] self.slots_seq()[j]) == (if old(self).slots_seq()[j].refcount == 1 {
                        MetaSlot { state: PageState::Unused, refcount: 0 }
                    } else {
                        MetaSlot {
                            state: old(self).slots_seq()[j].state,
                            refcount: (old(self).slots_seq()[j].refcount - 1) as u64,
                        }
                    }),
                forall|j: int|
                    0 <= j < self.num_frames() && !(lo <= j < k) ==> (#[trigger] self.slots_seq()[j])
                        == old(self).slots_seq()[j],
            decreases hi - k,
        {
            let slot = self.slots[k];
            if slot.refcount == 1 {
                self.slots.set(k, MetaSlot { state: PageState::Unused, refcount: 0 });
            } else {
                self.slots.set(k, MetaSlot { state: slot.state, refcount: slot.refcount - 1 });
            }
            k = k + 1;
        }
    }
}

impl Segment {
    /// A sub-view over `[offset_lo, offset_hi)` bytes of the run, sharing
    /// ownership with the parent: each page of the sub-range gains one
    /// reference-count unit for the new segment.
    pub fn slice(&self, reg: &mut FrameRegistry, offset_lo: u64, offset_hi: u64) -> (r: Segment)
        requires
            old(reg).wf(),
            self.wf(),
            offset_lo % PAGE_SIZE == 0,
            offset_hi % PAGE_SIZE == 0,
            offset_lo < offset_hi,
            offset_hi <= self.end_spec() - self.start_spec(),
            self.end_spec() / PAGE_SIZE <= old(reg).num_frames(),
            forall|j: int|
                (self.start_spec() + offset_lo) as int / PAGE_SIZE as int <= j < (self.start_spec()
                    + offset_hi) as int / PAGE_SIZE as int ==> 1 <= (#[trigger] old(reg).slots_seq()[j].refcount) < u64::MAX,
        ensures
            final(reg).wf(),
            final(reg).num_frames() == old(reg).num_frames(),
            r.start_spec() == self.start_spec() + offset_lo,
            r.end_spec() == self.start_spec() + offset_hi,
            r.wf(),
            forall|j: int|
                r.start_spec() as int / PAGE_SIZE as int <= j < r.end_spec() as int
                    / PAGE_SIZE as int ==> (#[trigger] final(reg).slots_seq()[j]) == (MetaSlot {
                    state: old(reg).slots_seq()[j].state,
                    refcount: (old(reg).slots_seq()[j].refcount + 1) as u64,
                }),
            forall|j: int|
                0 <= j < old(reg).num_frames() && !(r.start_spec() as int / PAGE_SIZE as int <= j
                    < r.end_spec() as int / PAGE_SIZE as int) ==> (#[trigger] final(reg).slots_seq()[j]) == old(reg).slots_seq()[j],
    {
        let start = self.start + offset_lo;
        let end = self.start + offset_hi;
        proof {
            assert(start % PAGE_SIZE == 0 && end % PAGE_SIZE == 0 && end as int / PAGE_SIZE as int
                <= self.end as int / PAGE_SIZE as int) by (nonlinear_arith)
                requires
                    start == self.start + offset_lo,
                    end == self.start + offset_hi,
                    self.start % PAGE_SIZE == 0,
                    self.end % PAGE_SIZE == 0,
                    offset_lo % PAGE_SIZE == 0,
                    offset_hi % PAGE_SIZE == 0,
                    offset_hi <= self.end - self.start,
                    PAGE_SIZE == 4096,
            ;
        }
        reg.clone_segment_range(start, end)
    }
}

} // verus!
