//! The page table: a partial mapping from virtual addresses to physical
//! frames, mutated through an exclusive, positioned cursor.
//!
//! The mapping is held as an ordered sequence of disjoint extents. An extent
//! records one installed mapping: a run of virtual addresses, the physical
//! address it translates to, the mapping's property, and — for a tracked
//! mapping — the owning handle of the backing frame. A mapping installed by
//! `map` covers exactly one page of the level that the cursor chose for it;
//! an untracked mapping installed into a kernel table may cover any
//! page-aligned run.

use vstd::prelude::*;

use crate::frame::{Frame, FrameRegistry, MetaSlot};
use crate::page_prop::{PageProperty, PropertyOp};
use crate::{Error, PagingLevel, Vaddr, Paddr, KERNEL_BASE_VADDR, KERNEL_END_VADDR,
    MAX_USERSPACE_VADDR, NR_LEVELS, PAGE_SIZE, page_size, page_size_spec};

verus! {

/// Which half of the virtual address space a page table serves, and so
/// which ranges its cursors accept.
#[derive(Clone, Copy, Debug, PartialEq, Eq, Structural)]
pub enum PtMode {
    /// The user half: `[0, MAX_USERSPACE_VADDR)`.
    User,
    /// The kernel half: `[KERNEL_BASE_VADDR, KERNEL_END_VADDR)`.
    Kernel,
}

/// The lowest virtual address a cursor of the given mode may cover.
pub open spec fn mode_start(mode: PtMode) -> int {
    match mode {
        PtMode::User => 0,
        PtMode::Kernel => KERNEL_BASE_VADDR as int,
    }
}

/// The virtual address at which the given mode's range ends (exclusive).
pub open spec fn mode_end(mode: PtMode) -> int {
    match mode {
        PtMode::User => MAX_USERSPACE_VADDR as int,
        PtMode::Kernel => KERNEL_END_VADDR as int,
    }
}

/// One installed mapping: a run of virtual addresses translated to a run of
/// physical addresses under one property.
#[derive(Debug)]
pub struct MapExtent {
    /// The virtual address the run starts at.
    pub va: Vaddr,
    /// The length of the run in bytes.
    pub len: u64,
    /// The level whose page size the run covers; meaningful for tracked
    /// mappings, where `len == page_size(level)`.
    pub level: PagingLevel,
    /// The physical address the run's start translates to.
    pub pa: Paddr,
    /// The property of the mapping.
    pub prop: PageProperty,
    /// For a tracked mapping, the owning handle of the backing frame; an
    /// untracked mapping (device or identity-mapped memory) has none and is
    /// never released by the table.
    pub frame: Option<Frame>,
}

impl MapExtent {
    /// Whether the extent maps the virtual address `v`.
    pub open spec fn contains(&self, v: int) -> bool {
        self.va <= v < self.va + self.len
    }

    /// The virtual address one past the run.
    pub open spec fn end(&self) -> int {
        self.va + self.len
    }

    /// Whether the extent overlaps the virtual range `[lo, hi)`.
    pub open spec fn overlaps(&self, lo: int, hi: int) -> bool {
        self.va < hi && lo < self.end()
    }

    /// Whether the extent is tracked: backed by an owned frame.
    pub open spec fn is_tracked(&self) -> bool {
        self.frame is Some
    }

    /// The extent's own well-formedness: page-aligned, non-empty, without
    /// address overflow; a tracked extent covers exactly one page of its
    /// level, starts aligned to that page size, and translates to the very
    /// frame it owns.
    pub open spec fn wf(&self) -> bool {
        &&& self.va % PAGE_SIZE == 0
        &&& self.len % PAGE_SIZE == 0
        &&& self.len > 0
        &&& self.va + self.len <= u64::MAX
        &&& self.pa % PAGE_SIZE == 0
        &&& self.pa + self.len <= u64::MAX
        &&& 1 <= self.level <= NR_LEVELS
        &&& match self.frame {
            Some(f) => {
                &&& self.len == page_size_spec(self.level)
                &&& self.va % page_size_spec(self.level) == 0
                &&& self.pa == f.paddr_spec()
            },
            None => true,
        }
    }
}

/// Whether a sequence of extents is a well-formed mapping: every extent well
/// formed, and the extents sorted by virtual address and pairwise disjoint.
pub open spec fn extents_wf(s: Seq<MapExtent>) -> bool {
    &&& forall|i: int| 0 <= i < s.len() ==> (#[trigger] s[i]).wf()
    &&& forall|i: int| 0 <= i && i + 1 < s.len() ==> s[i].end() <= (#[trigger] s[i + 1]).va
}

/// The extent that maps `v`, if any: the first extent of `s` containing `v`.
/// Under `extents_wf` it is the only one.
pub open spec fn find_extent(s: Seq<MapExtent>, v: int) -> Option<MapExtent>
    decreases s.len(),
{
    if s.len() == 0 {
        None
    } else if s[0].contains(v) {
        Some(s[0])
    } else {
        find_extent(s.drop_first(), v)
    }
}

/// Sortedness carries over adjacent extents to any pair.
pub proof fn lemma_extents_ordered(s: Seq<MapExtent>, i: int, j: int)
    requires
        extents_wf(s),
        0 <= i < j < s.len(),
    ensures
        s[i].end() <= s[j].va,
    decreases j - i,
{
    let k = j - 1;
    assert(s[k].end() <= s[k + 1].va);
    if i + 1 < j {
        lemma_extents_ordered(s, i, k);
        assert(s[i].end() <= s[k].va);
    }
}

proof fn lemma_wf_drop_first(s: Seq<MapExtent>)
    requires
        extents_wf(s),
        s.len() > 0,
    ensures
        extents_wf(s.drop_first()),
{
    let t = s.drop_first();
    assert forall|i: int| 0 <= i < t.len() implies (#[trigger] t[i]).wf() by {
        assert(t[i] == s[i + 1]);
    }
    assert forall|i: int| 0 <= i && i + 1 < t.len() implies t[i].end() <= (#[trigger] t[i + 1]).va by {
        assert(t[i] == s[i + 1] && t[i + 1] == s[i + 2]);
    }
}

/// When no extent of `s` contains `v`, the lookup comes back empty.
pub proof fn lemma_find_none(s: Seq<MapExtent>, v: int)
    requires
        forall|i: int| 0 <= i < s.len() ==> !(#[trigger] s[i]).contains(v),
    ensures
        find_extent(s, v) is None,
    decreases s.len(),
{
    if s.len() > 0 {
        let t = s.drop_first();
        assert forall|i: int| 0 <= i < t.len() implies !(#[trigger] t[i]).contains(v) by {
            assert(t[i] == s[i + 1]);
        }
        lemma_find_none(t, v);
    }
}

/// When the extent at index `i` contains `v`, the lookup finds exactly it.
pub proof fn lemma_find_at(s: Seq<MapExtent>, i: int, v: int)
    requires
        extents_wf(s),
        0 <= i < s.len(),
        s[i].contains(v),
    ensures
        find_extent(s, v) == Some(s[i]),
    decreases i,
{
    if i == 0 {
    } else {
        lemma_extents_ordered(s, 0, i);
        assert(!s[0].contains(v));
        let t = s.drop_first();
        lemma_wf_drop_first(s);
        assert(t[i - 1] == s[i]);
        lemma_find_at(t, i - 1, v);
    }
}

/// Whether the two half-open ranges share an address.
pub open spec fn range_overlaps(a0: int, a1: int, b0: int, b1: int) -> bool {
    a0 < b1 && b0 < a1
}

/// Whether `[start, end)` is a range that a cursor of the given mode
/// accepts: page-aligned, non-empty, and within the mode's half of the
/// address space.
pub open spec fn range_valid(mode: PtMode, start: int, end: int) -> bool {
    &&& start % PAGE_SIZE as int == 0
    &&& end % PAGE_SIZE as int == 0
    &&& start < end
    &&& mode_start(mode) <= start
    &&& end <= mode_end(mode)
}

/// Whether `[start, end)` overlaps the range of a live cursor.
pub open spec fn locks_conflict(locks: Seq<(Vaddr, Vaddr)>, start: int, end: int) -> bool {
    exists|i: int|
        0 <= i < locks.len() && range_overlaps(
            (#[trigger] locks[i]).0 as int,
            locks[i].1 as int,
            start,
            end,
        )
}

/// A successful lookup names an extent of the sequence that contains `v`.
pub proof fn lemma_find_some(s: Seq<MapExtent>, v: int)
    requires
        find_extent(s, v) is Some,
    ensures
        exists|i: int|
            0 <= i < s.len() && s[i] == find_extent(s, v)->Some_0 && (#[trigger] s[i]).contains(v),
    decreases s.len(),
{
    if s[0].contains(v) {
        assert(s[0] == find_extent(s, v)->Some_0 && s[0].contains(v));
    } else {
        let t = s.drop_first();
        lemma_find_some(t, v);
        let i = choose|i: int| 0 <= i < t.len() && t[i] == find_extent(t, v)->Some_0 && (#[trigger] t[i]).contains(v);
        assert(s[i + 1] == t[i]);
    }
}

/// In a well-formed mapping, at most one extent contains any given address.
pub proof fn lemma_contains_unique(s: Seq<MapExtent>, i: int, j: int, v: int)
    requires
        extents_wf(s),
        0 <= i < s.len(),
        0 <= j < s.len(),
        s[i].contains(v),
        s[j].contains(v),
    ensures
        i == j,
{
    if i < j {
        lemma_extents_ordered(s, i, j);
    } else if j < i {
        lemma_extents_ordered(s, j, i);
    }
}

/// An empty lookup means no extent contains the address.
pub proof fn lemma_find_none_inv(s: Seq<MapExtent>, v: int)
    requires
        find_extent(s, v) is None,
    ensures
        forall|i: int| 0 <= i < s.len() ==> !(#[trigger] s[i]).contains(v),
    decreases s.len(),
{
    if s.len() > 0 {
        let t = s.drop_first();
        lemma_find_none_inv(t, v);
        assert forall|i: int| 0 <= i < s.len() implies !(#[trigger] s[i]).contains(v) by {
            if i > 0 {
                assert(t[i - 1] == s[i]);
            }
        }
    }
}

/// The lookup in `s` with every extent overlapping `[lo, hi)` blotted out.
pub open spec fn masked_find(s: Seq<MapExtent>, lo: int, hi: int, v: int) -> Option<MapExtent> {
    match find_extent(s, v) {
        Some(e) => if e.overlaps(lo, hi) {
            None
        } else {
            Some(e)
        },
        None => None,
    }
}

/// Removing a contiguous block of extents — exactly those overlapping
/// `[lo, hi)` — keeps the mapping well formed and turns every lookup into
/// the masked lookup.
pub proof fn lemma_block_removal(orig: Seq<MapExtent>, i0: int, k: int, lo: int, hi: int)
    requires
        extents_wf(orig),
        0 <= i0,
        0 <= k,
        i0 + k <= orig.len(),
        forall|j: int| i0 <= j < i0 + k ==> (#[trigger] orig[j]).overlaps(lo, hi),
        forall|j: int| 0 <= j < i0 ==> !(#[trigger] orig[j]).overlaps(lo, hi),
        forall|j: int| i0 + k <= j < orig.len() ==> !(#[trigger] orig[j]).overlaps(lo, hi),
    ensures
        extents_wf(orig.subrange(0, i0) + orig.subrange(i0 + k, orig.len() as int)),
        forall|v: int|
            find_extent(orig.subrange(0, i0) + orig.subrange(i0 + k, orig.len() as int), v)
                == masked_find(orig, lo, hi, v),
{
    let n = orig.len() as int;
    let new = orig.subrange(0, i0) + orig.subrange(i0 + k, n);
    assert forall|j: int| 0 <= j < new.len() implies (#[trigger] new[j]) == orig[
        (if j < i0 {
            j
        } else {
            j + k
        })
    ] by {}
    assert forall|j: int| 0 <= j && j + 1 < new.len() implies new[j].end() <= (
    #[trigger] new[j + 1]).va by {
        if j + 1 < i0 || j >= i0 {
            let m = if j < i0 { j } else { j + k };
            assert(orig[m].end() <= orig[m + 1].va);
        } else {
            // Across the seam: j == i0 - 1, j + 1 == i0.
            if k > 0 {
                lemma_extents_ordered(orig, i0 - 1, i0 + k);
            }
        }
    }
    assert(extents_wf(new));
    assert forall|v: int| find_extent(new, v) == masked_find(orig, lo, hi, v) by {
        match find_extent(orig, v) {
            Some(e) => {
                lemma_find_some(orig, v);
                let io = choose|io: int|
                    0 <= io < orig.len() && orig[io] == e && (#[trigger] orig[io]).contains(v);
                if i0 <= io < i0 + k {
                    // The containing extent was removed; nothing else contains `v`.
                    assert forall|j: int| 0 <= j < new.len() implies !(#[trigger] new[j]).contains(
                        v,
                    ) by {
                        let m = if j < i0 { j } else { j + k };
                        if new[j].contains(v) {
                            lemma_contains_unique(orig, m, io, v);
                        }
                    }
                    lemma_find_none(new, v);
                } else {
                    let jo = if io < i0 { io } else { io - k };
                    assert(new[jo] == orig[io]);
                    lemma_find_at(new, jo, v);
                }
            },
            None => {
                lemma_find_none_inv(orig, v);
                assert forall|j: int| 0 <= j < new.len() implies !(#[trigger] new[j]).contains(
                    v,
                ) by {
                    let m = if j < i0 { j } else { j + k };
                    assert(new[j] == orig[m]);
                }
                lemma_find_none(new, v);
            },
        }
    }
}

/// Inserting an extent at its ordered position — after everything ending at
/// or below it, before everything starting at or above its end — keeps the
/// mapping well formed; the new extent answers lookups inside it, and every
/// other lookup is unchanged.
pub proof fn lemma_insert(s: Seq<MapExtent>, p: int, e: MapExtent)
    requires
        extents_wf(s),
        e.wf(),
        0 <= p <= s.len(),
        forall|j: int| 0 <= j < p ==> (#[trigger] s[j]).end() <= e.va,
        forall|j: int| p <= j < s.len() ==> e.end() <= (#[trigger] s[j]).va,
    ensures
        extents_wf(s.insert(p, e)),
        forall|v: int|
            find_extent(s.insert(p, e), v) == if e.contains(v) {
                Some(e)
            } else {
                find_extent(s, v)
            },
{
    let new = s.insert(p, e);
    assert forall|j: int| 0 <= j < new.len() implies (#[trigger] new[j]) == (if j < p {
        s[j]
    } else if j == p {
        e
    } else {
        s[j - 1]
    }) by {}
    assert forall|j: int| 0 <= j && j + 1 < new.len() implies new[j].end() <= (
    #[trigger] new[j + 1]).va by {
        if j + 1 < p {
            assert(s[j].end() <= s[j + 1].va);
        } else if j + 1 == p {
        } else if j == p {
        } else {
            let m = j - 1;
            assert(s[m].end() <= s[m + 1].va);
        }
    }
    assert(extents_wf(new));
    assert forall|v: int|
        find_extent(new, v) == (if e.contains(v) {
            Some(e)
        } else {
            find_extent(s, v)
        }) by {
        if e.contains(v) {
            lemma_find_at(new, p, v);
        } else {
            match find_extent(s, v) {
                Some(eo) => {
                    lemma_find_some(s, v);
                    let io = choose|io: int|
                        0 <= io < s.len() && s[io] == eo && (#[trigger] s[io]).contains(v);
                    let jo = if io < p { io } else { io + 1 };
                    assert(new[jo] == s[io]);
                    lemma_find_at(new, jo, v);
                },
                None => {
                    lemma_find_none_inv(s, v);
                    assert forall|j: int| 0 <= j < new.len() implies !(#[trigger] new[j]).contains(
                        v,
                    ) by {}
                    lemma_find_none(new, v);
                },
            }
        }
    }
}


/// The reference-count unit an extent holds on the page with slot index
/// `j`: one for a tracked extent backed by that page, none otherwise.
pub open spec fn extent_backing(e: MapExtent, j: int) -> nat {
    if e.is_tracked() && e.pa as int / PAGE_SIZE as int == j {
        1nat
    } else {
        0nat
    }
}

/// How many reference-count units the extents of `s` hold on the page with
/// slot index `j`.
pub open spec fn backing_count(s: Seq<MapExtent>, j: int) -> nat
    decreases s.len(),
{
    if s.len() == 0 {
        0
    } else {
        backing_count(s.drop_last(), j) + extent_backing(s.last(), j)
    }
}

/// Backing counts add up over concatenation.
pub proof fn lemma_backing_concat(a: Seq<MapExtent>, b: Seq<MapExtent>, j: int)
    ensures
        backing_count(a + b, j) == backing_count(a, j) + backing_count(b, j),
    decreases b.len(),
{
    if b.len() == 0 {
        assert(a + b =~= a);
    } else {
        assert((a + b).drop_last() =~= a + b.drop_last());
        assert((a + b).last() == b.last());
        lemma_backing_concat(a, b.drop_last(), j);
    }
}

/// Removing one extent takes away exactly its backing.
pub proof fn lemma_backing_remove(s: Seq<MapExtent>, i: int, j: int)
    requires
        0 <= i < s.len(),
    ensures
        backing_count(s.remove(i), j) == backing_count(s, j) - extent_backing(s[i], j),
{
    let n = s.len() as int;
    let a = s.subrange(0, i);
    let m = s.subrange(i, i + 1);
    let b = s.subrange(i + 1, n);
    assert(s =~= (a + m) + b);
    lemma_backing_concat(a + m, b, j);
    lemma_backing_concat(a, m, j);
    assert(m.drop_last() =~= Seq::<MapExtent>::empty());
    assert(m.last() == s[i]);
    assert(backing_count(Seq::<MapExtent>::empty(), j) == 0);
    assert(backing_count(m, j) == extent_backing(s[i], j));
    assert(s.remove(i) =~= a + b);
    lemma_backing_concat(a, b, j);
}

/// Inserting one extent adds exactly its backing.
pub proof fn lemma_backing_insert(s: Seq<MapExtent>, i: int, e: MapExtent, j: int)
    requires
        0 <= i <= s.len(),
    ensures
        backing_count(s.insert(i, e), j) == backing_count(s, j) + extent_backing(e, j),
{
    let n = s.len() as int;
    let t = s.insert(i, e);
    assert(t.remove(i) =~= s);
    lemma_backing_remove(t, i, j);
    assert(t[i] == e);
}

/// An extent of a mapping never holds more backing on a page than the whole
/// mapping does.
pub proof fn lemma_backing_member(s: Seq<MapExtent>, i: int, j: int)
    requires
        0 <= i < s.len(),
    ensures
        extent_backing(s[i], j) <= backing_count(s, j),
{
    lemma_backing_remove(s, i, j);
}

/// A multi-level page table over one half of the virtual address space.
///
/// Its mapping state is the ordered, disjoint sequence of installed extents.
/// Mutation goes through an exclusive cursor: creating a cursor locks its
/// virtual range against every other cursor, and the table keeps the set of
/// locked ranges.
#[derive(Debug)]
pub struct PageTable {
    mode: PtMode,
    highest_level: PagingLevel,
    extents: Vec<MapExtent>,
    locks: Vec<(Vaddr, Vaddr)>,
}

impl PageTable {
    /// Which half of the address space the table serves.
    pub closed spec fn mode_spec(&self) -> PtMode {
        self.mode
    }

    /// The highest level at which this table installs a leaf mapping (a
    /// large page).
    pub closed spec fn highest_spec(&self) -> PagingLevel {
        self.highest_level
    }

    /// The installed extents, ordered by virtual address.
    pub closed spec fn extents_seq(&self) -> Seq<MapExtent> {
        self.extents@
    }

    /// The ranges of the live cursors.
    pub closed spec fn locks_seq(&self) -> Seq<(Vaddr, Vaddr)> {
        self.locks@
    }

    /// The extent mapping `v`, if any.
    pub open spec fn query_spec(&self, v: int) -> Option<MapExtent> {
        find_extent(self.extents_seq(), v)
    }

    /// The table's invariant: the extents form a well-formed mapping inside
    /// the mode's range, a user table holds only tracked mappings, and the
    /// live cursor ranges are non-empty and pairwise disjoint.
    pub open spec fn wf(&self) -> bool {
        &&& extents_wf(self.extents_seq())
        &&& 1 <= self.highest_spec() <= NR_LEVELS
        &&& forall|i: int|
            0 <= i < self.extents_seq().len() ==> mode_start(self.mode_spec()) <= (
            #[trigger] self.extents_seq()[i]).va && self.extents_seq()[i].end() <= mode_end(
                self.mode_spec(),
            )
        &&& self.mode_spec() is User ==> forall|i: int|
            0 <= i < self.extents_seq().len() ==> (#[trigger] self.extents_seq()[i]).is_tracked()
        &&& forall|i: int|
            0 <= i < self.locks_seq().len() ==> (#[trigger] self.locks_seq()[i]).0 < self.locks_seq()[i].1
        &&& forall|i: int, j: int|
            0 <= i < self.locks_seq().len() && 0 <= j < self.locks_seq().len() && i != j
                ==> !range_overlaps(
                (#[trigger] self.locks_seq()[i]).0 as int,
                self.locks_seq()[i].1 as int,
                (#[trigger] self.locks_seq()[j]).0 as int,
                self.locks_seq()[j].1 as int,
            )
    }

    /// An empty page table of the given mode, installing leaf mappings up to
    /// the given level.
    pub fn empty(mode: PtMode, highest_translation_level: PagingLevel) -> (r: PageTable)
        requires
            1 <= highest_translation_level <= NR_LEVELS,
        ensures
            r.wf(),
            r.mode_spec() == mode,
            r.highest_spec() == highest_translation_level,
            r.extents_seq() == Seq::<MapExtent>::empty(),
            r.locks_seq() == Seq::<(Vaddr, Vaddr)>::empty(),
    {
        let r = PageTable {
            mode,
            highest_level: highest_translation_level,
            extents: Vec::new(),
            locks: Vec::new(),
        };
        proof {
            assert(r.extents@ =~= Seq::<MapExtent>::empty());
            assert(r.locks@ =~= Seq::<(Vaddr, Vaddr)>::empty());
        }
        r
    }

    /// What the table maps `va` to: the physical address `va` translates to
    /// and the mapping's property, or nothing when `va` is unmapped.
    pub fn query(&self, va: Vaddr) -> (r: Option<(Paddr, PageProperty)>)
        requires
            self.wf(),
        ensures
            match self.query_spec(va as int) {
                Some(e) => r == Some(((e.pa + (va - e.va)) as Paddr, e.prop)),
                None => r is None,
            },
    {
        let n = self.extents.len();
        let mut i: usize = 0;
        while i < n
            invariant
                self.wf(),
                n == self.extents_seq().len(),
                i <= n,
                forall|j: int| 0 <= j < i ==> !(#[trigger] self.extents_seq()[j]).contains(va as int),
            decreases n - i,
        {
            let e = &self.extents[i];
            if e.va <= va && va < e.va + e.len {
                proof {
                    lemma_find_at(self.extents_seq(), i as int, va as int);
                }
                return Some((e.pa + (va - e.va), e.prop));
            }
            i = i + 1;
        }
        proof {
            lemma_find_none(self.extents_seq(), va as int);
        }
        None
    }

    /// Whether `[start, end)` overlaps the range of a live cursor.
    fn conflicts(&self, start: Vaddr, end: Vaddr) -> (r: bool)
        ensures
            r == locks_conflict(self.locks_seq(), start as int, end as int),
    {
        let n = self.locks.len();
        let mut i: usize = 0;
        while i < n
            invariant
                n == self.locks_seq().len(),
                i <= n,
                forall|j: int|
                    0 <= j < i ==> !range_overlaps(
                        (#[trigger] self.locks_seq()[j]).0 as int,
                        self.locks_seq()[j].1 as int,
                        start as int,
                        end as int,
                    ),
            decreases n - i,
        {
            let (s, e) = self.locks[i];
            if s < end && start < e {
                return true;
            }
            i = i + 1;
        }
        false
    }

    /// Whether `[start, end)` is a range that this table's cursors accept.
    fn range_ok(&self, start: Vaddr, end: Vaddr) -> (r: bool)
        ensures
            r == range_valid(self.mode_spec(), start as int, end as int),
    {
        let (lo, hi): (Vaddr, Vaddr) = match self.mode {
            PtMode::User => (0, MAX_USERSPACE_VADDR),
            PtMode::Kernel => (KERNEL_BASE_VADDR, KERNEL_END_VADDR),
        };
        start % PAGE_SIZE == 0 && end % PAGE_SIZE == 0 && start < end && lo <= start && end <= hi
    }
}

impl PageTable {
    /// How many cursors are alive over this table.
    pub fn lock_count(&self) -> (r: usize)
        ensures
            r == self.locks_seq().len(),
    {
        self.locks.len()
    }
}

/// An empty page table in the given mode, ready for cursors; leaves may be
/// installed at any level the paging scheme supports.
pub fn setup_page_table(mode: PtMode) -> (r: PageTable)
    ensures
        r.wf(),
        r.mode_spec() == mode,
        r.highest_spec() == NR_LEVELS,
        r.extents_seq() == Seq::<MapExtent>::empty(),
        r.locks_seq() == Seq::<(Vaddr, Vaddr)>::empty(),
{
    PageTable::empty(mode, NR_LEVELS)
}

/// What a positioned cursor sees at its current virtual address.
#[derive(Clone, Copy, Debug, PartialEq, Eq, Structural)]
pub enum PtItem {
    /// No mapping at the cursor's address; none either in the `len` bytes
    /// that follow it within the cursor's range.
    NotMapped {
        /// The cursor's virtual address.
        va: Vaddr,
        /// How many bytes from `va` on are unmapped (at least one page).
        len: u64,
    },
    /// A tracked mapping: `va` translates to `pa` under `prop`, for `len`
    /// bytes, backed by the frame at `pa`.
    Mapped {
        /// The start of the mapped run.
        va: Vaddr,
        /// The length of the mapped run: the page size of its level.
        len: u64,
        /// The physical address of the backing frame.
        pa: Paddr,
        /// The property of the mapping.
        prop: PageProperty,
    },
    /// An untracked mapping: physical memory not owned through the frame
    /// registry (device or identity-mapped memory).
    MappedUntracked {
        /// The start of the mapped run.
        va: Vaddr,
        /// The physical address the run's start translates to.
        pa: Paddr,
        /// The length of the mapped run.
        len: u64,
        /// The property of the mapping.
        prop: PageProperty,
    },
}

/// What `PtItem` a table with extents `s` reports at `v`, for a cursor
/// whose range ends at `limit`.
pub open spec fn item_at_spec(s: Seq<MapExtent>, v: int, limit: int) -> PtItem {
    match find_extent(s, v) {
        Some(e) => if e.is_tracked() {
            PtItem::Mapped { va: e.va, len: e.len, pa: e.pa, prop: e.prop }
        } else {
            PtItem::MappedUntracked { va: e.va, pa: e.pa, len: e.len, prop: e.prop }
        },
        None => arbitrary(),
    }
}

impl PageTable {
    /// The index of the first extent that ends after `v`: every earlier
    /// extent lies entirely at or below `v`.
    fn first_index_from(&self, v: Vaddr) -> (r: usize)
        requires
            self.wf(),
        ensures
            r <= self.extents_seq().len(),
            forall|j: int| 0 <= j < r ==> (#[trigger] self.extents_seq()[j]).end() <= v,
            r < self.extents_seq().len() ==> self.extents_seq()[r as int].end() > v,
    {
        let n = self.extents.len();
        let mut i: usize = 0;
        while i < n
            invariant
                self.wf(),
                n == self.extents_seq().len(),
                i <= n,
                forall|j: int| 0 <= j < i ==> (#[trigger] self.extents_seq()[j]).end() <= v,
            decreases n - i,
        {
            let e = &self.extents[i];
            if e.va + e.len > v {
                return i;
            }
            i = i + 1;
        }
        n
    }

    /// What a cursor positioned at `va` with range end `limit` sees. For a
    /// mapped address: the whole extent. For an unmapped one: the distance
    /// to the next mapping or to `limit`, whichever is nearer.
    fn item_at(&self, va: Vaddr, limit: Vaddr) -> (r: PtItem)
        requires
            self.wf(),
            va % PAGE_SIZE == 0,
            va < limit,
            limit % PAGE_SIZE == 0,
            limit <= mode_end(self.mode_spec()),
        ensures
            self.query_spec(va as int) is Some ==> r == item_at_spec(
                self.extents_seq(),
                va as int,
                limit as int,
            ),
            self.query_spec(va as int) is None ==> (r matches PtItem::NotMapped { va: v2, len }
                && v2 == va && va + len <= limit && len > 0 && (forall|w: int|
                va <= w < va + len ==> find_extent(self.extents_seq(), w) is None) && (va + len
                < limit ==> exists|i: int|
                0 <= i < self.extents_seq().len() && (#[trigger] self.extents_seq()[i]).va == va
                    + len)),
    {
        let idx = self.first_index_from(va);
        let n = self.extents.len();
        if idx < n {
            let e = &self.extents[idx];
            if e.va <= va {
                proof {
                    lemma_find_at(self.extents_seq(), idx as int, va as int);
                }
                if e.frame.is_some() {
                    return PtItem::Mapped { va: e.va, len: e.len, pa: e.pa, prop: e.prop };
                } else {
                    return PtItem::MappedUntracked { va: e.va, pa: e.pa, len: e.len, prop: e.prop };
                }
            }
            // The next extent starts above `va`.
            let next = e.va;
            let len = if next < limit {
                next - va
            } else {
                limit - va
            };
            proof {
                assert forall|w: int| va <= w < va + len implies find_extent(
                    self.extents_seq(),
                    w,
                ) is None by {
                    assert forall|j: int|
                        0 <= j < self.extents_seq().len() implies !(#[trigger] self.extents_seq()[j]).contains(
                        w,
                    ) by {
                        if j < idx {
                        } else if j == idx {
                        } else {
                            lemma_extents_ordered(self.extents_seq(), idx as int, j);
                        }
                    }
                    lemma_find_none(self.extents_seq(), w);
                }
            }
            return PtItem::NotMapped { va, len };
        }
        let len = limit - va;
        proof {
            assert forall|w: int| va <= w < va + len implies find_extent(
                self.extents_seq(),
                w,
            ) is None by {
                assert forall|j: int|
                    0 <= j < self.extents_seq().len() implies !(#[trigger] self.extents_seq()[j]).contains(
                    w,
                ) by {}
                lemma_find_none(self.extents_seq(), w);
            }
        }
        PtItem::NotMapped { va, len }
    }
}

/// Whether a leaf at `level` can stand at `va`: `va` is aligned to the
/// level's page size and the page fits before `end`.
pub open spec fn level_fits(va: int, end: int, level: PagingLevel) -> bool {
    va % page_size_spec(level) as int == 0 && va + page_size_spec(level) <= end
}

/// The level `map` installs at: the largest level not above `highest` whose
/// page is aligned at `va` and fits in the remaining range below `end`.
pub open spec fn choose_level_spec(va: int, end: int, highest: PagingLevel) -> PagingLevel
    decreases highest,
{
    if highest <= 1 {
        1
    } else if level_fits(va, end, highest) {
        highest
    } else {
        choose_level_spec(va, end, (highest - 1) as PagingLevel)
    }
}

/// Picks the mapping level for a cursor at `va` with remaining range up to
/// `end`: the largest level not above `highest` that is aligned and fits.
fn choose_level(va: Vaddr, end: Vaddr, highest: PagingLevel) -> (r: PagingLevel)
    requires
        1 <= highest <= NR_LEVELS,
        va % PAGE_SIZE == 0,
        va + PAGE_SIZE <= end,
    ensures
        r == choose_level_spec(va as int, end as int, highest),
        1 <= r <= highest,
        level_fits(va as int, end as int, r),
        forall|l: PagingLevel| r < l <= highest ==> !level_fits(va as int, end as int, l),
{
    let mut l: PagingLevel = highest;
    while l > 1
        invariant
            1 <= l <= highest <= NR_LEVELS,
            va % PAGE_SIZE == 0,
            va + PAGE_SIZE <= end,
            choose_level_spec(va as int, end as int, highest) == choose_level_spec(
                va as int,
                end as int,
                l,
            ),
            forall|l2: PagingLevel| l < l2 <= highest ==> !level_fits(va as int, end as int, l2),
        decreases l,
    {
        let size = page_size(l);
        if va % size == 0 && end - va >= size {
            return l;
        }
        l = l - 1;
    }
    l
}

/// The read-only cursor: a positioned handle over an exclusively locked
/// virtual range of one page table, able to inspect but not to change it.
#[derive(Debug)]
pub struct Cursor {
    start: Vaddr,
    end: Vaddr,
    va: Vaddr,
}

/// The mutating cursor: a positioned handle over an exclusively locked
/// virtual range of one page table, through which all mutation of the range
/// goes.
#[derive(Debug)]
pub struct CursorMut {
    start: Vaddr,
    end: Vaddr,
    va: Vaddr,
}

impl Cursor {
    /// The start of the cursor's locked range.
    pub closed spec fn start_spec(&self) -> Vaddr {
        self.start
    }

    /// The end (exclusive) of the cursor's locked range.
    pub closed spec fn end_spec(&self) -> Vaddr {
        self.end
    }

    /// The cursor's current virtual address.
    pub closed spec fn va_spec(&self) -> Vaddr {
        self.va
    }

    /// Whether the cursor stands over `pt`: its range is locked in `pt`,
    /// valid for `pt`'s mode, and its position is page-aligned within the
    /// range.
    pub open spec fn active_in(&self, pt: &PageTable) -> bool {
        &&& pt.locks_seq().contains((self.start_spec(), self.end_spec()))
        &&& range_valid(pt.mode_spec(), self.start_spec() as int, self.end_spec() as int)
        &&& self.start_spec() <= self.va_spec() <= self.end_spec()
        &&& self.va_spec() % PAGE_SIZE == 0
    }

    /// The virtual address of the current slot.
    pub fn virt_addr(&self) -> (r: Vaddr)
        ensures
            r == self.va_spec(),
    {
        self.va
    }

    /// The start of the cursor's locked range.
    pub fn range_start(&self) -> (r: Vaddr)
        ensures
            r == self.start_spec(),
    {
        self.start
    }

    /// The end (exclusive) of the cursor's locked range.
    pub fn range_end(&self) -> (r: Vaddr)
        ensures
            r == self.end_spec(),
    {
        self.end
    }


    /// Moves the cursor to `va`. Fails with `InvalidArgs` exactly when `va`
    /// is misaligned or outside the cursor's range.
    pub fn jump(&mut self, va: Vaddr) -> (r: Result<(), Error>)
        ensures
            final(self).start_spec() == old(self).start_spec(),
            final(self).end_spec() == old(self).end_spec(),
            match r {
                Ok(()) => old(self).start_spec() <= va <= old(self).end_spec() && va % PAGE_SIZE
                    == 0 && final(self).va_spec() == va,
                Err(e) => e == Error::InvalidArgs && final(self).va_spec() == old(self).va_spec()
                    && !(old(self).start_spec() <= va <= old(self).end_spec() && va % PAGE_SIZE
                    == 0),
            },
    {
        if self.start <= va && va <= self.end && va % PAGE_SIZE == 0 {
            self.va = va;
            Ok(())
        } else {
            Err(Error::InvalidArgs)
        }
    }

    /// What stands at the cursor's position, without moving the cursor.
    pub fn query(&self, pt: &PageTable) -> (r: PtItem)
        requires
            pt.wf(),
            self.active_in(pt),
            self.va_spec() < self.end_spec(),
        ensures
            pt.query_spec(self.va_spec() as int) is Some ==> r == item_at_spec(
                pt.extents_seq(),
                self.va_spec() as int,
                self.end_spec() as int,
            ),
            pt.query_spec(self.va_spec() as int) is None ==> (r matches PtItem::NotMapped {
                va,
                len,
            } && va == self.va_spec() && len > 0 && va + len <= self.end_spec() && (forall|w: int|
                va <= w < va + len ==> find_extent(pt.extents_seq(), w) is None)),
    {
        pt.item_at(self.va, self.end)
    }

    /// What stands at the cursor's position; then the cursor moves past it.
    /// Gives nothing back once the cursor's range is exhausted.
    pub fn next(&mut self, pt: &PageTable) -> (r: Option<PtItem>)
        requires
            pt.wf(),
            old(self).active_in(pt),
        ensures
            final(self).start_spec() == old(self).start_spec(),
            final(self).end_spec() == old(self).end_spec(),
            final(self).active_in(pt),
            old(self).va_spec() == old(self).end_spec() ==> r is None && final(self).va_spec()
                == old(self).va_spec(),
            old(self).va_spec() < old(self).end_spec() ==> (r is Some && final(self).va_spec()
                > old(self).va_spec()),
            pt.query_spec(old(self).va_spec() as int) is Some && old(self).va_spec() < old(self).end_spec() ==> r == Some(
                item_at_spec(pt.extents_seq(), old(self).va_spec() as int, old(self).end_spec() as int),
            ),
            pt.query_spec(old(self).va_spec() as int) is None && old(self).va_spec() < old(self).end_spec() ==> (r matches Some(it) && it matches PtItem::NotMapped { va, len }
                && va == old(self).va_spec() && len > 0 && va + len <= old(self).end_spec() && (
            forall|w: int| va <= w < va + len ==> find_extent(pt.extents_seq(), w) is None)),
    {
        if self.va >= self.end {
            return None;
        }
        let item = pt.item_at(self.va, self.end);
        let (iva, ilen): (Vaddr, u64) = match &item {
            PtItem::NotMapped { va, len } => (*va, *len),
            PtItem::Mapped { va, len, .. } => (*va, *len),
            PtItem::MappedUntracked { va, len, .. } => (*va, *len),
        };
        proof {
            if pt.query_spec(self.va as int) is Some {
                lemma_find_some(pt.extents_seq(), self.va as int);
                let i = choose|i: int|
                    0 <= i < pt.extents_seq().len() && pt.extents_seq()[i] == pt.query_spec(
                        self.va as int,
                    )->Some_0 && (#[trigger] pt.extents_seq()[i]).contains(self.va as int);
                let e = pt.extents_seq()[i];
                assert(e.wf());
                assert(iva == e.va && ilen == e.len);
                assert((e.va + e.len) as int % PAGE_SIZE as int == 0) by (nonlinear_arith)
                    requires
                        e.va % PAGE_SIZE == 0,
                        e.len % PAGE_SIZE == 0,
                        e.va + e.len <= u64::MAX,
                        PAGE_SIZE == 4096,
                ;
            } else {
                // The not-mapped stretch ends at the cursor's limit or at
                // the start of the next extent, both page-aligned.
                let va0 = self.va as int;
                if va0 + ilen < self.end as int {
                    let i = choose|i: int|
                        0 <= i < pt.extents_seq().len() && (#[trigger] pt.extents_seq()[i]).va
                            == va0 + ilen;
                    assert(pt.extents_seq()[i].wf());
                }
            }
        }
        let next_va: Vaddr = iva + ilen;
        self.va = if next_va < self.end {
            next_va
        } else {
            self.end
        };
        Some(item)
    }
}

impl PageTable {
    /// Locks `[start, end)` for a new cursor. Fails with `InvalidArgs`
    /// exactly when the range is misaligned, empty or outside the mode's
    /// bounds, and with `AccessDenied` exactly when a live cursor's range
    /// overlaps it.
    fn lock_range(&mut self, start: Vaddr, end: Vaddr) -> (r: Result<(), Error>)
        requires
            old(self).wf(),
        ensures
            final(self).wf(),
            final(self).extents_seq() == old(self).extents_seq(),
            final(self).mode_spec() == old(self).mode_spec(),
            final(self).highest_spec() == old(self).highest_spec(),
            match r {
                Ok(()) => range_valid(old(self).mode_spec(), start as int, end as int)
                    && !locks_conflict(old(self).locks_seq(), start as int, end as int) && final(self).locks_seq() == old(self).locks_seq().push((start, end)),
                Err(e) => final(self).locks_seq() == old(self).locks_seq() && ((e
                    == Error::InvalidArgs && !range_valid(
                    old(self).mode_spec(),
                    start as int,
                    end as int,
                )) || (e == Error::AccessDenied && range_valid(
                    old(self).mode_spec(),
                    start as int,
                    end as int,
                ) && locks_conflict(old(self).locks_seq(), start as int, end as int))),
            },
    {
        if !self.range_ok(start, end) {
            return Err(Error::InvalidArgs);
        }
        if self.conflicts(start, end) {
            return Err(Error::AccessDenied);
        }
        self.locks.push((start, end));
        Ok(())
    }

    /// A read-only cursor over `[start, end)`, locking the range. Fails with
    /// `InvalidArgs` exactly when the range is misaligned, empty or outside
    /// the mode's bounds, and with `AccessDenied` exactly when it overlaps a
    /// live cursor's range.
    pub fn cursor(&mut self, start: Vaddr, end: Vaddr) -> (r: Result<Cursor, Error>)
        requires
            old(self).wf(),
        ensures
            final(self).wf(),
            final(self).extents_seq() == old(self).extents_seq(),
            final(self).mode_spec() == old(self).mode_spec(),
            final(self).highest_spec() == old(self).highest_spec(),
            match r {
                Ok(c) => {
                    &&& range_valid(old(self).mode_spec(), start as int, end as int)
                    &&& !locks_conflict(old(self).locks_seq(), start as int, end as int)
                    &&& final(self).locks_seq() == old(self).locks_seq().push((start, end))
                    &&& c.start_spec() == start
                    &&& c.end_spec() == end
                    &&& c.va_spec() == start
                    &&& c.active_in(final(self))
                },
                Err(e) => final(self).locks_seq() == old(self).locks_seq() && ((e
                    == Error::InvalidArgs && !range_valid(
                    old(self).mode_spec(),
                    start as int,
                    end as int,
                )) || (e == Error::AccessDenied && range_valid(
                    old(self).mode_spec(),
                    start as int,
                    end as int,
                ) && locks_conflict(old(self).locks_seq(), start as int, end as int))),
            },
    {
        match self.lock_range(start, end) {
            Ok(()) => {
                let c = Cursor { start, end, va: start };
                proof {
                    assert(self.locks_seq()[self.locks_seq().len() - 1] == (start, end));
                }
                Ok(c)
            },
            Err(e) => Err(e),
        }
    }

    /// A mutating cursor over `[start, end)`, locking the range; the same
    /// acceptance and refusal conditions as for a read-only cursor.
    pub fn cursor_mut(&mut self, start: Vaddr, end: Vaddr) -> (r: Result<CursorMut, Error>)
        requires
            old(self).wf(),
        ensures
            final(self).wf(),
            final(self).extents_seq() == old(self).extents_seq(),
            final(self).mode_spec() == old(self).mode_spec(),
            final(self).highest_spec() == old(self).highest_spec(),
            match r {
                Ok(c) => {
                    &&& range_valid(old(self).mode_spec(), start as int, end as int)
                    &&& !locks_conflict(old(self).locks_seq(), start as int, end as int)
                    &&& final(self).locks_seq() == old(self).locks_seq().push((start, end))
                    &&& c.start_spec() == start
                    &&& c.end_spec() == end
                    &&& c.va_spec() == start
                    &&& c.active_in(final(self))
                },
                Err(e) => final(self).locks_seq() == old(self).locks_seq() && ((e
                    == Error::InvalidArgs && !range_valid(
                    old(self).mode_spec(),
                    start as int,
                    end as int,
                )) || (e == Error::AccessDenied && range_valid(
                    old(self).mode_spec(),
                    start as int,
                    end as int,
                ) && locks_conflict(old(self).locks_seq(), start as int, end as int))),
            },
    {
        match self.lock_range(start, end) {
            Ok(()) => {
                let c = CursorMut { start, end, va: start };
                proof {
                    assert(self.locks_seq()[self.locks_seq().len() - 1] == (start, end));
                }
                Ok(c)
            },
            Err(e) => Err(e),
        }
    }

    /// Releases the lock of `[start, end)`.
    fn unlock_range(&mut self, start: Vaddr, end: Vaddr)
        requires
            old(self).wf(),
            old(self).locks_seq().contains((start, end)),
        ensures
            final(self).wf(),
            final(self).extents_seq() == old(self).extents_seq(),
            final(self).mode_spec() == old(self).mode_spec(),
            final(self).highest_spec() == old(self).highest_spec(),
            exists|i: int|
                0 <= i < old(self).locks_seq().len() && old(self).locks_seq()[i] == (start, end)
                    && final(self).locks_seq() == old(self).locks_seq().remove(i),
            final(self).locks_seq().len() == old(self).locks_seq().len() - 1,
    {
        let n = self.locks.len();
        let mut i: usize = 0;
        while i < n
            invariant
                old(self).wf(),
                self.locks_seq() == old(self).locks_seq(),
                self.extents_seq() == old(self).extents_seq(),
                self.mode_spec() == old(self).mode_spec(),
                self.highest_spec() == old(self).highest_spec(),
                self.wf(),
                self.locks_seq().contains((start, end)),
                n == self.locks_seq().len(),
                i <= n,
                forall|j: int| 0 <= j < i ==> (#[trigger] self.locks_seq()[j]) != (start, end),
            decreases n - i,
        {
            let (s, e) = self.locks[i];
            if s == start && e == end {
                self.locks.remove(i);
                proof {
                    let olds = old(self).locks_seq();
                    let news = self.locks_seq();
                    let ii = i as int;
                    assert forall|a: int|
                        0 <= a < news.len() implies (#[trigger] news[a]) == olds[
                        (if a < ii {
                            a
                        } else {
                            a + 1
                        })
                    ] by {}
                    assert forall|a: int|
                        0 <= a < news.len() implies (#[trigger] news[a]).0 < news[a].1 by {
                        let a2 = if a < ii { a } else { a + 1 };
                        assert(news[a] == olds[a2]);
                        assert(olds[a2].0 < olds[a2].1);
                    }
                    assert forall|a: int, b: int|
                        0 <= a < news.len() && 0 <= b < news.len() && a != b implies !range_overlaps(
                        (#[trigger] news[a]).0 as int,
                        news[a].1 as int,
                        (#[trigger] news[b]).0 as int,
                        news[b].1 as int,
                    ) by {
                        let a2 = if a < ii { a } else { a + 1 };
                        let b2 = if b < ii { b } else { b + 1 };
                        assert(news[a] == olds[a2] && news[b] == olds[b2]);
                        assert(a2 != b2);
                        assert(!range_overlaps(
                            olds[a2].0 as int,
                            olds[a2].1 as int,
                            olds[b2].0 as int,
                            olds[b2].1 as int,
                        ));
                    }
                }
                return ;
            }
            i = i + 1;
        }
        proof {
            let w = choose|j: int|
                0 <= j < self.locks_seq().len() && self.locks_seq()[j] == (start, end);
            assert(false);
        }
    }

    /// Drops a read-only cursor, releasing its range lock.
    pub fn close_cursor(&mut self, cursor: Cursor)
        requires
            old(self).wf(),
            cursor.active_in(old(self)),
        ensures
            final(self).wf(),
            final(self).extents_seq() == old(self).extents_seq(),
            final(self).mode_spec() == old(self).mode_spec(),
            final(self).highest_spec() == old(self).highest_spec(),
            exists|i: int|
                0 <= i < old(self).locks_seq().len() && old(self).locks_seq()[i] == (
                cursor.start_spec(),
                cursor.end_spec(),
                ) && final(self).locks_seq() == old(self).locks_seq().remove(i),
            final(self).locks_seq().len() == old(self).locks_seq().len() - 1,
    {
        self.unlock_range(cursor.start, cursor.end);
    }

    /// Drops a mutating cursor, releasing its range lock.
    pub fn close_cursor_mut(&mut self, cursor: CursorMut)
        requires
            old(self).wf(),
            cursor.active_in(old(self)),
        ensures
            final(self).wf(),
            final(self).extents_seq() == old(self).extents_seq(),
            final(self).mode_spec() == old(self).mode_spec(),
            final(self).highest_spec() == old(self).highest_spec(),
            exists|i: int|
                0 <= i < old(self).locks_seq().len() && old(self).locks_seq()[i] == (
                cursor.start_spec(),
                cursor.end_spec(),
                ) && final(self).locks_seq() == old(self).locks_seq().remove(i),
            final(self).locks_seq().len() == old(self).locks_seq().len() - 1,
    {
        self.unlock_range(cursor.start, cursor.end);
    }

    /// Removes every extent overlapping `[lo, hi)` and hands them back in
    /// order. Afterwards every lookup answers as the masked lookup over the
    /// old state: blotted out inside the window's extents, unchanged
    /// elsewhere.
    #[verifier::rlimit(50)]
    pub(crate) fn remove_window(&mut self, lo: Vaddr, hi: Vaddr) -> (removed: Vec<MapExtent>)
        requires
            old(self).wf(),
            lo < hi,
        ensures
            final(self).wf(),
            final(self).mode_spec() == old(self).mode_spec(),
            final(self).highest_spec() == old(self).highest_spec(),
            final(self).locks_seq() == old(self).locks_seq(),
            forall|v: int|
                find_extent(final(self).extents_seq(), v) == masked_find(
                    old(self).extents_seq(),
                    lo as int,
                    hi as int,
                    v,
                ),
            forall|k: int|
                0 <= k < removed@.len() ==> (#[trigger] removed@[k]).overlaps(lo as int, hi as int)
                    && old(self).extents_seq().contains(removed@[k]),
            forall|j: int|
                backing_count(#[trigger] final(self).extents_seq(), j) + backing_count(removed@, j)
                    == backing_count(old(self).extents_seq(), j),
            forall|i: int|
                0 <= i < old(self).extents_seq().len() && (#[trigger] old(self).extents_seq()[i]).overlaps(
                    lo as int,
                    hi as int,
                ) ==> removed@.contains(old(self).extents_seq()[i]),
            removed@.len() == 0 ==> final(self).extents_seq() == old(self).extents_seq(),
    {
        let ghost orig = self.extents@;
        let ghost n = orig.len() as int;
        let i0 = self.first_index_from(lo);
        let mut removed: Vec<MapExtent> = Vec::new();
        proof {
            assert(self.extents@ =~= orig.subrange(0, i0 as int) + orig.subrange(
                i0 as int + 0,
                n,
            ));
            assert(removed@ =~= orig.subrange(i0 as int, i0 as int + 0));
        }
        while i0 < self.extents.len() && self.extents[i0].va < hi
            invariant
                extents_wf(orig),
                n == orig.len(),
                i0 <= orig.len(),
                removed@.len() <= n - i0,
                self.extents@ =~= orig.subrange(0, i0 as int) + orig.subrange(
                    i0 as int + removed@.len() as int,
                    n,
                ),
                removed@ =~= orig.subrange(i0 as int, i0 as int + removed@.len() as int),
                forall|j: int|
                    i0 <= j < i0 + removed@.len() ==> (#[trigger] orig[j]).overlaps(
                        lo as int,
                        hi as int,
                    ),
                forall|j: int| 0 <= j < i0 ==> (#[trigger] orig[j]).end() <= lo,
                i0 < n ==> orig[i0 as int].end() > lo,
                self.mode == old(self).mode,
                self.highest_level == old(self).highest_level,
                self.locks@ == old(self).locks@,
            decreases n - i0 - removed@.len(),
        {
            let ghost k = removed@.len() as int;
            proof {
                assert(self.extents@[i0 as int] == orig[i0 as int + k]);
                if k > 0 {
                    lemma_extents_ordered(orig, i0 as int, i0 as int + k);
                }
            }
            let e = self.extents.remove(i0);
            removed.push(e);
            proof {
                assert(self.extents@ =~= orig.subrange(0, i0 as int) + orig.subrange(
                    i0 as int + removed@.len() as int,
                    n,
                ));
                assert(removed@ =~= orig.subrange(i0 as int, i0 as int + removed@.len() as int));
            }
        }
        proof {
            let k = removed@.len() as int;
            assert forall|j: int| 0 <= j < i0 implies !(#[trigger] orig[j]).overlaps(
                lo as int,
                hi as int,
            ) by {}
            assert forall|j: int| i0 + k <= j < n implies !(#[trigger] orig[j]).overlaps(
                lo as int,
                hi as int,
            ) by {
                // The loop stopped because the next extent starts at or
                // beyond the window, or because none is left.
                assert(self.extents@.len() == i0 + (n - (i0 + k)));
                assert(self.extents@.len() > i0);
                assert(self.extents@[i0 as int] == orig[i0 as int + k]);
                assert(orig[i0 as int + k].va >= hi);
                if j > i0 + k {
                    lemma_extents_ordered(orig, i0 as int + k, j);
                }
            }
            lemma_block_removal(orig, i0 as int, k, lo as int, hi as int);
            assert(self.extents@ =~= orig.subrange(0, i0 as int) + orig.subrange(i0 + k, n));
            assert(extents_wf(self.extents@));
            assert forall|j: int|
                backing_count(#[trigger] self.extents_seq(), j) + backing_count(removed@, j)
                    == backing_count(orig, j) by {
                lemma_backing_concat(orig.subrange(0, i0 as int), orig.subrange(i0 + k, n), j);
                lemma_backing_concat(orig.subrange(0, i0 as int), removed@, j);
                lemma_backing_concat(orig.subrange(0, i0 as int) + removed@, orig.subrange(i0 + k, n), j);
                assert((orig.subrange(0, i0 as int) + removed@) + orig.subrange(i0 + k, n) =~= orig);
            }
            assert(self.locks_seq() == old(self).locks_seq());
            assert(self.mode_spec() == old(self).mode_spec());
            assert(self.highest_spec() == old(self).highest_spec());
            assert forall|j: int| 0 <= j < self.extents@.len() implies mode_start(self.mode_spec())
                <= (#[trigger] self.extents@[j]).va && self.extents@[j].end() <= mode_end(
                self.mode_spec(),
            ) && ((self.mode_spec() is User) ==> self.extents@[j].is_tracked())
                && self.extents@[j].wf() by {
                let m = if j < i0 as int { j } else { j + k };
                assert(self.extents@[j] == orig[m]);
            }
            assert forall|kk: int| 0 <= kk < removed@.len() implies (#[trigger] removed@[kk]).overlaps(
                lo as int,
                hi as int,
            ) && old(self).extents_seq().contains(removed@[kk]) by {
                assert(removed@[kk] == orig[i0 as int + kk]);
                assert(orig.contains(orig[i0 as int + kk]));
            }
            assert forall|i: int|
                0 <= i < orig.len() && (#[trigger] orig[i]).overlaps(lo as int, hi as int) implies removed@.contains(
                orig[i],
            ) by {
                assert(i0 <= i < i0 + k);
                assert(removed@[i - i0] == orig[i]);
            }
            if removed@.len() == 0 {
                assert(self.extents@ =~= orig);
            }
        }
        removed
    }

    /// Installs one extent at its ordered position. The extent must not
    /// overlap any installed extent.
    fn insert_extent(&mut self, e: MapExtent)
        requires
            old(self).wf(),
            e.wf(),
            mode_start(old(self).mode_spec()) <= e.va,
            e.end() <= mode_end(old(self).mode_spec()),
            old(self).mode_spec() is User ==> e.is_tracked(),
            forall|i: int|
                0 <= i < old(self).extents_seq().len() ==> !(#[trigger] old(self).extents_seq()[i]).overlaps(
                    e.va as int,
                    e.end(),
                ),
        ensures
            final(self).wf(),
            final(self).mode_spec() == old(self).mode_spec(),
            final(self).highest_spec() == old(self).highest_spec(),
            final(self).locks_seq() == old(self).locks_seq(),
            forall|v: int|
                find_extent(final(self).extents_seq(), v) == (if e.contains(v) {
                    Some(e)
                } else {
                    find_extent(old(self).extents_seq(), v)
                }),
            forall|j: int|
                backing_count(#[trigger] final(self).extents_seq(), j) == backing_count(
                    old(self).extents_seq(),
                    j,
                ) + extent_backing(e, j),
    {
        let p = self.first_index_from(e.va);
        proof {
            assert forall|j: int| p <= j < self.extents@.len() implies e.end() <= (
            #[trigger] self.extents@[j]).va by {
                if j > p {
                    lemma_extents_ordered(self.extents@, p as int, j);
                    assert(self.extents@[j].va >= self.extents@[p as int].end()
                        > self.extents@[p as int].va);
                }
                assert(self.extents@[j].end() > e.va as int);
                assert(!self.extents@[j].overlaps(e.va as int, e.end()));
            }
            lemma_insert(self.extents@, p as int, e);
        }
        self.extents.insert(p, e);
        proof {
            assert(self.locks_seq() == old(self).locks_seq());
            assert(self.mode_spec() == old(self).mode_spec());
            assert(self.highest_spec() == old(self).highest_spec());
            assert(self.extents@ == old(self).extents_seq().insert(p as int, e));
            assert forall|j: int|
                backing_count(#[trigger] self.extents_seq(), j) == backing_count(
                    old(self).extents_seq(),
                    j,
                ) + extent_backing(e, j) by {
                lemma_backing_insert(old(self).extents_seq(), p as int, e, j);
            }
            assert forall|j: int| 0 <= j < self.extents@.len() implies mode_start(self.mode_spec())
                <= (#[trigger] self.extents@[j]).va && self.extents@[j].end() <= mode_end(
                self.mode_spec(),
            ) && ((self.mode_spec() is User) ==> self.extents@[j].is_tracked()) by {
                if j < p as int {
                    assert(self.extents@[j] == old(self).extents_seq()[j]);
                } else if j > p as int {
                    assert(self.extents@[j] == old(self).extents_seq()[j - 1]);
                }
            }
        }
    }
}

/// The next mapping a cursor at `lo` takes or protects within the window
/// `[lo, hi)`: the first extent whose start lies in the window, if any
/// stands before the first extent at or beyond `hi`.
pub open spec fn taken_extent(s: Seq<MapExtent>, lo: int, hi: int) -> Option<MapExtent>
    decreases s.len(),
{
    if s.len() == 0 {
        None
    } else if s[0].va >= hi {
        None
    } else if s[0].va >= lo {
        Some(s[0])
    } else {
        taken_extent(s.drop_first(), lo, hi)
    }
}

/// When the extent at `i` is the first one starting at or after `lo`, and it
/// starts below `hi`, it is the taken extent.
pub proof fn lemma_taken_at(s: Seq<MapExtent>, i: int, lo: int, hi: int)
    requires
        extents_wf(s),
        0 <= i < s.len(),
        lo <= s[i].va < hi,
        forall|j: int| 0 <= j < i ==> (#[trigger] s[j]).va < lo,
    ensures
        taken_extent(s, lo, hi) == Some(s[i]),
    decreases i,
{
    if i == 0 {
    } else {
        let t = s.drop_first();
        lemma_wf_drop_first(s);
        assert(t[i - 1] == s[i]);
        assert forall|j: int| 0 <= j < i - 1 implies (#[trigger] t[j]).va < lo by {
            assert(t[j] == s[j + 1]);
        }
        lemma_taken_at(t, i - 1, lo, hi);
    }
}


/// A taken extent starts inside the window.
pub proof fn lemma_taken_some(s: Seq<MapExtent>, lo: int, hi: int)
    requires
        taken_extent(s, lo, hi) is Some,
    ensures
        lo <= taken_extent(s, lo, hi)->Some_0.va < hi,
    decreases s.len(),
{
    if s.len() > 0 && !(s[0].va >= hi) && !(s[0].va >= lo) {
        lemma_taken_some(s.drop_first(), lo, hi);
    }
}


/// The taken extent is the first to start in the window: no extent starting
/// in the window starts before it.
pub proof fn lemma_taken_is_first(s: Seq<MapExtent>, lo: int, hi: int, j: int)
    requires
        extents_wf(s),
        0 <= j < s.len(),
        lo <= s[j].va < hi,
    ensures
        taken_extent(s, lo, hi) is Some,
        taken_extent(s, lo, hi)->Some_0.va <= s[j].va,
    decreases s.len(),
{
    if s[0].va >= hi {
        if j > 0 {
            lemma_extents_ordered(s, 0, j);
        }
        assert(false);
    } else if s[0].va >= lo {
        if j > 0 {
            lemma_extents_ordered(s, 0, j);
        }
    } else {
        let t = s.drop_first();
        lemma_wf_drop_first(s);
        assert(t[j - 1] == s[j]);
        lemma_taken_is_first(t, lo, hi, j - 1);
    }
}

/// When no extent starts in `[lo, hi)`, nothing is taken.
pub proof fn lemma_taken_none(s: Seq<MapExtent>, lo: int, hi: int)
    requires
        forall|j: int| 0 <= j < s.len() ==> !(lo <= (#[trigger] s[j]).va < hi),
    ensures
        taken_extent(s, lo, hi) is None,
    decreases s.len(),
{
    if s.len() > 0 {
        let t = s.drop_first();
        assert forall|j: int| 0 <= j < t.len() implies !(lo <= (#[trigger] t[j]).va < hi) by {
            assert(t[j] == s[j + 1]);
        }
        lemma_taken_none(t, lo, hi);
    }
}

impl PageTable {
    /// The index of the first extent whose start lies in `[lo, hi)`, the one
    /// `taken_extent` names; nothing when no extent starts in the window.
    fn next_start_in(&self, lo: Vaddr, hi: Vaddr) -> (r: Option<usize>)
        requires
            self.wf(),
            lo < hi,
        ensures
            match r {
                Some(idx) => idx < self.extents_seq().len() && taken_extent(
                    self.extents_seq(),
                    lo as int,
                    hi as int,
                ) == Some(self.extents_seq()[idx as int]),
                None => taken_extent(self.extents_seq(), lo as int, hi as int) is None,
            },
    {
        let n = self.extents.len();
        let mut i: usize = 0;
        while i < n
            invariant
                self.wf(),
                n == self.extents_seq().len(),
                i <= n,
                forall|j: int| 0 <= j < i ==> (#[trigger] self.extents_seq()[j]).va < lo,
            decreases n - i,
        {
            let eva = self.extents[i].va;
            if eva >= hi {
                proof {
                    assert forall|j: int|
                        0 <= j < self.extents_seq().len() implies !(lo <= (
                    #[trigger] self.extents_seq()[j]).va < hi as int) by {
                        if j >= i {
                            if j > i as int {
                                lemma_extents_ordered(self.extents_seq(), i as int, j);
                            }
                        }
                    }
                    lemma_taken_none(self.extents_seq(), lo as int, hi as int);
                }
                return None;
            }
            if eva >= lo {
                proof {
                    lemma_taken_at(self.extents_seq(), i as int, lo as int, hi as int);
                }
                return Some(i);
            }
            i = i + 1;
        }
        proof {
            lemma_taken_none(self.extents_seq(), lo as int, hi as int);
        }
        None
    }

    /// Removes the extent at index `i` and hands it back. Lookups inside it
    /// then come back empty; every other lookup is unchanged.
    fn remove_extent_at(&mut self, i: usize) -> (r: MapExtent)
        requires
            old(self).wf(),
            i < old(self).extents_seq().len(),
        ensures
            final(self).wf(),
            final(self).mode_spec() == old(self).mode_spec(),
            final(self).highest_spec() == old(self).highest_spec(),
            final(self).locks_seq() == old(self).locks_seq(),
            r == old(self).extents_seq()[i as int],
            final(self).extents_seq() == old(self).extents_seq().remove(i as int),
            forall|v: int|
                find_extent(final(self).extents_seq(), v) == (if r.contains(v) {
                    None
                } else {
                    find_extent(old(self).extents_seq(), v)
                }),
            forall|j: int|
                backing_count(#[trigger] final(self).extents_seq(), j) == backing_count(
                    old(self).extents_seq(),
                    j,
                ) - extent_backing(r, j),
    {
        let ghost orig = self.extents@;
        let e = self.extents.remove(i);
        proof {
            let ii = i as int;
            let n = orig.len() as int;
            assert forall|j: int| ii + 1 <= j < n implies !(#[trigger] orig[j]).overlaps(
                e.va as int,
                e.end(),
            ) by {
                lemma_extents_ordered(orig, ii, j);
            }
            assert forall|j: int| 0 <= j < ii implies !(#[trigger] orig[j]).overlaps(
                e.va as int,
                e.end(),
            ) by {
                lemma_extents_ordered(orig, j, ii);
            }
            lemma_block_removal(orig, ii, 1, e.va as int, e.end());
            assert(self.extents@ =~= orig.subrange(0, ii) + orig.subrange(ii + 1, n));
            assert(extents_wf(self.extents@));
            assert(self.locks_seq() == old(self).locks_seq());
            assert(self.mode_spec() == old(self).mode_spec());
            assert(self.highest_spec() == old(self).highest_spec());
            assert(self.extents@ =~= orig.remove(ii));
            assert forall|j: int|
                backing_count(#[trigger] self.extents_seq(), j) == backing_count(orig, j)
                    - extent_backing(e, j) by {
                lemma_backing_remove(orig, ii, j);
            }
            assert forall|j: int| 0 <= j < self.extents@.len() implies mode_start(self.mode_spec())
                <= (#[trigger] self.extents@[j]).va && self.extents@[j].end() <= mode_end(
                self.mode_spec(),
            ) && ((self.mode_spec() is User) ==> self.extents@[j].is_tracked()) by {
                let m = if j < ii { j } else { j + 1 };
                assert(self.extents@[j] == orig[m]);
            }
            assert forall|v: int|
                find_extent(self.extents@, v) == (if e.contains(v) {
                    None::<MapExtent>
                } else {
                    find_extent(orig, v)
                }) by {
                assert(find_extent(self.extents@, v) == masked_find(orig, e.va as int, e.end(), v));
                if e.contains(v) {
                    lemma_find_at(orig, ii, v);
                } else {
                    match find_extent(orig, v) {
                        Some(e2) => {
                            lemma_find_some(orig, v);
                            let io = choose|io: int|
                                0 <= io < orig.len() && orig[io] == e2 && (#[trigger] orig[io]).contains(
                                    v,
                                );
                            if e2.overlaps(e.va as int, e.end()) {
                                if io < ii {
                                    lemma_extents_ordered(orig, io, ii);
                                } else if io > ii {
                                    lemma_extents_ordered(orig, ii, io);
                                }
                            }
                        },
                        None => {},
                    }
                }
            }
        }
        e
    }
}

/// The extent that `CursorMut::map` installs for a cursor at `va` with
/// range end `end` over a table whose highest translation level is
/// `highest`.
pub open spec fn mapped_extent_spec(
    va: Vaddr,
    end: Vaddr,
    highest: PagingLevel,
    frame: Frame,
    prop: PageProperty,
) -> MapExtent {
    let level = choose_level_spec(va as int, end as int, highest);
    MapExtent {
        va,
        len: page_size_spec(level),
        level,
        pa: frame.paddr_spec(),
        prop,
        frame: Some(frame),
    }
}

impl CursorMut {
    /// The start of the cursor's locked range.
    pub closed spec fn start_spec(&self) -> Vaddr {
        self.start
    }

    /// The end (exclusive) of the cursor's locked range.
    pub closed spec fn end_spec(&self) -> Vaddr {
        self.end
    }

    /// The cursor's current virtual address.
    pub closed spec fn va_spec(&self) -> Vaddr {
        self.va
    }

    /// Whether the cursor stands over `pt`: its range is locked in `pt`,
    /// valid for `pt`'s mode, and its position is page-aligned within the
    /// range.
    pub open spec fn active_in(&self, pt: &PageTable) -> bool {
        &&& pt.locks_seq().contains((self.start_spec(), self.end_spec()))
        &&& range_valid(pt.mode_spec(), self.start_spec() as int, self.end_spec() as int)
        &&& self.start_spec() <= self.va_spec() <= self.end_spec()
        &&& self.va_spec() % PAGE_SIZE == 0
    }

    /// The virtual address of the current slot.
    pub fn virt_addr(&self) -> (r: Vaddr)
        ensures
            r == self.va_spec(),
    {
        self.va
    }

    /// The start of the cursor's locked range.
    pub fn range_start(&self) -> (r: Vaddr)
        ensures
            r == self.start_spec(),
    {
        self.start
    }

    /// The end (exclusive) of the cursor's locked range.
    pub fn range_end(&self) -> (r: Vaddr)
        ensures
            r == self.end_spec(),
    {
        self.end
    }


    /// Moves the cursor to `va`. Fails with `InvalidArgs` exactly when `va`
    /// is misaligned or outside the cursor's range.
    pub fn jump(&mut self, va: Vaddr) -> (r: Result<(), Error>)
        ensures
            final(self).start_spec() == old(self).start_spec(),
            final(self).end_spec() == old(self).end_spec(),
            match r {
                Ok(()) => old(self).start_spec() <= va <= old(self).end_spec() && va % PAGE_SIZE
                    == 0 && final(self).va_spec() == va,
                Err(e) => e == Error::InvalidArgs && final(self).va_spec() == old(self).va_spec()
                    && !(old(self).start_spec() <= va <= old(self).end_spec() && va % PAGE_SIZE
                    == 0),
            },
    {
        if self.start <= va && va <= self.end && va % PAGE_SIZE == 0 {
            self.va = va;
            Ok(())
        } else {
            Err(Error::InvalidArgs)
        }
    }

    /// What stands at the cursor's position, without moving the cursor.
    pub fn query(&self, pt: &PageTable) -> (r: PtItem)
        requires
            pt.wf(),
            self.active_in(pt),
            self.va_spec() < self.end_spec(),
        ensures
            pt.query_spec(self.va_spec() as int) is Some ==> r == item_at_spec(
                pt.extents_seq(),
                self.va_spec() as int,
                self.end_spec() as int,
            ),
            pt.query_spec(self.va_spec() as int) is None ==> (r matches PtItem::NotMapped {
                va,
                len,
            } && va == self.va_spec() && len > 0 && va + len <= self.end_spec() && (forall|w: int|
                va <= w < va + len ==> find_extent(pt.extents_seq(), w) is None)),
    {
        pt.item_at(self.va, self.end)
    }

    /// Installs a leaf mapping of `frame` under `prop` at the cursor's
    /// position and moves the cursor past it.
    ///
    /// The page size is chosen once, here: the largest level page that is
    /// aligned at the position, fits the cursor's remaining range, and does
    /// not exceed the table's highest translation level. Every previously
    /// installed extent overlapping the new page is removed whole and handed
    /// back, so the caller can flush the TLB before giving the old frames
    /// up; afterwards every address of the new page — and it alone — reports
    /// the new mapping.
    #[verifier::rlimit(80)]
    pub fn map(&mut self, pt: &mut PageTable, frame: Frame, prop: PageProperty) -> (replaced: Vec<
        MapExtent,
    >)
        requires
            old(pt).wf(),
            old(self).active_in(old(pt)),
            old(self).va_spec() < old(self).end_spec(),
            frame.paddr_spec() % PAGE_SIZE == 0,
            frame.paddr_spec() + page_size_spec(NR_LEVELS) <= u64::MAX,
        ensures
            final(pt).wf(),
            final(pt).mode_spec() == old(pt).mode_spec(),
            final(pt).highest_spec() == old(pt).highest_spec(),
            final(pt).locks_seq() == old(pt).locks_seq(),
            final(self).start_spec() == old(self).start_spec(),
            final(self).end_spec() == old(self).end_spec(),
            final(self).active_in(final(pt)),
            final(self).va_spec() == old(self).va_spec() + page_size_spec(
                choose_level_spec(
                    old(self).va_spec() as int,
                    old(self).end_spec() as int,
                    old(pt).highest_spec(),
                ),
            ),
            forall|v: int|
                find_extent(final(pt).extents_seq(), v) == (if mapped_extent_spec(
                    old(self).va_spec(),
                    old(self).end_spec(),
                    old(pt).highest_spec(),
                    frame,
                    prop,
                ).contains(v) {
                    Some(
                        mapped_extent_spec(
                            old(self).va_spec(),
                            old(self).end_spec(),
                            old(pt).highest_spec(),
                            frame,
                            prop,
                        ),
                    )
                } else {
                    masked_find(
                        old(pt).extents_seq(),
                        old(self).va_spec() as int,
                        old(self).va_spec() + page_size_spec(
                            choose_level_spec(
                                old(self).va_spec() as int,
                                old(self).end_spec() as int,
                                old(pt).highest_spec(),
                            ),
                        ),
                        v,
                    )
                }),
            forall|k: int|
                0 <= k < replaced@.len() ==> (#[trigger] replaced@[k]).overlaps(
                    old(self).va_spec() as int,
                    old(self).va_spec() + page_size_spec(
                        choose_level_spec(
                            old(self).va_spec() as int,
                            old(self).end_spec() as int,
                            old(pt).highest_spec(),
                        ),
                    ),
                ),
            forall|k: int|
                0 <= k < replaced@.len() ==> old(pt).extents_seq().contains(
                    #[trigger] replaced@[k],
                ),
            forall|j: int|
                backing_count(#[trigger] final(pt).extents_seq(), j) + backing_count(replaced@, j)
                    == backing_count(old(pt).extents_seq(), j) + extent_backing(
                    mapped_extent_spec(
                        old(self).va_spec(),
                        old(self).end_spec(),
                        old(pt).highest_spec(),
                        frame,
                        prop,
                    ),
                    j,
                ),
            forall|i: int|
                0 <= i < old(pt).extents_seq().len() && (#[trigger] old(pt).extents_seq()[i]).overlaps(
                    old(self).va_spec() as int,
                    old(self).va_spec() + page_size_spec(
                        choose_level_spec(
                            old(self).va_spec() as int,
                            old(self).end_spec() as int,
                            old(pt).highest_spec(),
                        ),
                    ),
                ) ==> replaced@.contains(old(pt).extents_seq()[i]),
    {
        let level = choose_level(self.va, self.end, pt.highest_level);
        let size = page_size(level);
        let lo = self.va;
        let hi = self.va + size;
        let replaced = pt.remove_window(lo, hi);
        proof {
            assert forall|i: int|
                0 <= i < pt.extents_seq().len() implies !(#[trigger] pt.extents_seq()[i]).overlaps(
                lo as int,
                hi as int,
            ) by {
                if pt.extents_seq()[i].overlaps(lo as int, hi as int) {
                    let e2 = pt.extents_seq()[i];
                    let w = if e2.va > lo { e2.va as int } else { lo as int };
                    assert(e2.contains(w));
                    lemma_find_at(pt.extents_seq(), i, w);
                    assert(masked_find(old(pt).extents_seq(), lo as int, hi as int, w) == Some(e2));
                    assert(false);
                }
            }
        }
        let e = MapExtent { va: lo, len: size, level, pa: frame.start_paddr(), prop, frame: Some(frame) };
        proof {
            assert(e.wf() && e.end() <= self.end && (lo + size) as int % PAGE_SIZE as int == 0)
                by (nonlinear_arith)
                requires
                    e.va == lo,
                    e.len == size,
                    e.level == level,
                    e.pa % PAGE_SIZE == 0,
                    e.pa + page_size_spec(NR_LEVELS) <= u64::MAX,
                    e.frame matches Some(f) && f.paddr_spec() == e.pa,
                    size == page_size_spec(level),
                    1 <= level <= NR_LEVELS,
                    level_fits(lo as int, self.end as int, level),
                    lo % PAGE_SIZE == 0,
                    self.end <= u64::MAX,
                    PAGE_SIZE == 4096,
                    NR_LEVELS == 4,
                    page_size_spec(1) == 0x1000 && page_size_spec(2) == 0x20_0000 && page_size_spec(
                        3,
                    ) == 0x4000_0000 && page_size_spec(4) == 0x80_0000_0000,
            ;
        }
        pt.insert_extent(e);
        self.va = hi;
        replaced
    }
}

/// What `CursorMut::take_next` removed: the owning result of one unmap step.
#[derive(Debug)]
pub enum PageTableItem {
    /// Nothing was mapped in the searched window.
    NotMapped {
        /// The start of the searched window.
        va: Vaddr,
        /// The length of the searched window.
        len: u64,
    },
    /// A tracked mapping was removed; `page` is the frame handle the mapping
    /// owned, now the caller's responsibility (flush, then release).
    Mapped {
        /// The start of the removed mapping.
        va: Vaddr,
        /// The owning handle of the frame the mapping held.
        page: Frame,
        /// The property the mapping had.
        prop: PageProperty,
    },
    /// An untracked mapping was removed; no frame is handed over, since the
    /// table never owned the physical memory.
    MappedUntracked {
        /// The start of the removed mapping.
        va: Vaddr,
        /// The physical address the mapping translated to.
        pa: Paddr,
        /// The length of the removed mapping.
        len: u64,
        /// The property the mapping had.
        prop: PageProperty,
    },
}

impl CursorMut {
    /// Removes the next mapping whose start lies within `max_len` bytes of
    /// the cursor and hands it back; a window with no such mapping is left
    /// exactly as it was — unmapping an absent range is a no-op, never an
    /// error. The cursor moves past the removed mapping, or past the whole
    /// window when nothing was found.
    pub fn take_next(&mut self, pt: &mut PageTable, max_len: u64) -> (r: PageTableItem)
        requires
            old(pt).wf(),
            old(self).active_in(old(pt)),
            max_len % PAGE_SIZE == 0,
            max_len > 0,
            old(self).va_spec() + max_len <= old(self).end_spec(),
        ensures
            final(pt).wf(),
            final(pt).mode_spec() == old(pt).mode_spec(),
            final(pt).highest_spec() == old(pt).highest_spec(),
            final(pt).locks_seq() == old(pt).locks_seq(),
            final(self).start_spec() == old(self).start_spec(),
            final(self).end_spec() == old(self).end_spec(),
            final(self).active_in(final(pt)),
            match taken_extent(
                old(pt).extents_seq(),
                old(self).va_spec() as int,
                old(self).va_spec() + max_len,
            ) {
                Some(e) => {
                    &&& forall|v: int|
                        find_extent(final(pt).extents_seq(), v) == (if e.contains(v) {
                            None::<MapExtent>
                        } else {
                            find_extent(old(pt).extents_seq(), v)
                        })
                    &&& final(self).va_spec() as int == (if e.end() < old(self).end_spec() as int {
                        e.end()
                    } else {
                        old(self).end_spec() as int
                    })
                    &&& e.is_tracked() ==> r == (PageTableItem::Mapped {
                        va: e.va,
                        page: e.frame->Some_0,
                        prop: e.prop,
                    })
                    &&& !e.is_tracked() ==> r == (PageTableItem::MappedUntracked {
                        va: e.va,
                        pa: e.pa,
                        len: e.len,
                        prop: e.prop,
                    })
                    &&& forall|j: int|
                        backing_count(#[trigger] final(pt).extents_seq(), j) + extent_backing(e, j)
                            == backing_count(old(pt).extents_seq(), j)
                },
                None => {
                    &&& final(pt).extents_seq() == old(pt).extents_seq()
                    &&& final(self).va_spec() == old(self).va_spec() + max_len
                    &&& r == (PageTableItem::NotMapped { va: old(self).va_spec(), len: max_len })
                },
            },
    {
        let lo = self.va;
        let hi = self.va + max_len;
        proof {
            assert((lo + max_len) as int % PAGE_SIZE as int == 0) by (nonlinear_arith)
                requires
                    lo % PAGE_SIZE == 0,
                    max_len % PAGE_SIZE == 0,
                    lo + max_len <= u64::MAX,
                    PAGE_SIZE == 4096,
            ;
        }
        match pt.next_start_in(lo, hi) {
            Some(idx) => {
                proof {
                    lemma_taken_some(old(pt).extents_seq(), lo as int, hi as int);
                }
                let e = pt.remove_extent_at(idx);
                let eend = e.va + e.len;
                self.va = if eend < self.end {
                    eend
                } else {
                    self.end
                };
                proof {
                    assert((e.va + e.len) as int % PAGE_SIZE as int == 0) by (nonlinear_arith)
                        requires
                            e.va % PAGE_SIZE == 0,
                            e.len % PAGE_SIZE == 0,
                            e.va + e.len <= u64::MAX,
                            PAGE_SIZE == 4096,
                    ;
                }
                match e.frame {
                    Some(page) => PageTableItem::Mapped { va: e.va, page, prop: e.prop },
                    None => PageTableItem::MappedUntracked {
                        va: e.va,
                        pa: e.pa,
                        len: e.len,
                        prop: e.prop,
                    },
                }
            },
            None => {
                self.va = hi;
                PageTableItem::NotMapped { va: lo, len: max_len }
            },
        }
    }

    /// Applies `op` to the property — in place, on the mapping itself — of
    /// the next mapping whose start lies within `len` bytes of the cursor,
    /// and hands back the exact virtual range touched; nothing and `None`
    /// when no such mapping exists. The cursor moves past the protected
    /// mapping, or past the whole window when nothing was found. The TLB is
    /// not flushed: that stays with the caller.
    pub fn protect_next(&mut self, pt: &mut PageTable, len: u64, op: &PropertyOp) -> (r: Option<
        (Vaddr, Vaddr),
    >)
        requires
            old(pt).wf(),
            old(self).active_in(old(pt)),
            len % PAGE_SIZE == 0,
            len > 0,
            old(self).va_spec() + len <= old(self).end_spec(),
        ensures
            final(pt).wf(),
            final(pt).mode_spec() == old(pt).mode_spec(),
            final(pt).highest_spec() == old(pt).highest_spec(),
            final(pt).locks_seq() == old(pt).locks_seq(),
            final(self).start_spec() == old(self).start_spec(),
            final(self).end_spec() == old(self).end_spec(),
            final(self).active_in(final(pt)),
            match taken_extent(
                old(pt).extents_seq(),
                old(self).va_spec() as int,
                old(self).va_spec() + len,
            ) {
                Some(e) => {
                    &&& r == Some((e.va, (e.va + e.len) as u64))
                    &&& forall|v: int|
                        find_extent(final(pt).extents_seq(), v) == (if e.contains(v) {
                            Some(MapExtent { prop: op.apply_spec(e.prop), ..e })
                        } else {
                            find_extent(old(pt).extents_seq(), v)
                        })
                    &&& final(self).va_spec() as int == (if e.end() < old(self).end_spec() as int {
                        e.end()
                    } else {
                        old(self).end_spec() as int
                    })
                    &&& forall|j: int|
                        backing_count(#[trigger] final(pt).extents_seq(), j) == backing_count(
                            old(pt).extents_seq(),
                            j,
                        )
                },
                None => {
                    &&& r is None
                    &&& final(pt).extents_seq() == old(pt).extents_seq()
                    &&& final(self).va_spec() == old(self).va_spec() + len
                },
            },
    {
        let lo = self.va;
        let hi = self.va + len;
        proof {
            assert((lo + len) as int % PAGE_SIZE as int == 0) by (nonlinear_arith)
                requires
                    lo % PAGE_SIZE == 0,
                    len % PAGE_SIZE == 0,
                    lo + len <= u64::MAX,
                    PAGE_SIZE == 4096,
            ;
        }
        match pt.next_start_in(lo, hi) {
            Some(idx) => {
                proof {
                    lemma_taken_some(old(pt).extents_seq(), lo as int, hi as int);
                }
                let e = pt.remove_extent_at(idx);
                let ghost eg = e;
                let start = e.va;
                let eend = e.va + e.len;
                let new_prop = op.apply(e.prop);
                let e2 = MapExtent { prop: new_prop, ..e };
                proof {
                    assert forall|i: int|
                        0 <= i < pt.extents_seq().len() implies !(#[trigger] pt.extents_seq()[i]).overlaps(
                        e2.va as int,
                        e2.end(),
                    ) by {
                        if pt.extents_seq()[i].overlaps(e2.va as int, e2.end()) {
                            let x = pt.extents_seq()[i];
                            let w = if x.va > e2.va { x.va as int } else { e2.va as int };
                            assert(x.contains(w) && eg.contains(w));
                            lemma_find_at(pt.extents_seq(), i, w);
                            assert(find_extent(pt.extents_seq(), w) is None);
                            assert(false);
                        }
                    }
                }
                pt.insert_extent(e2);
                self.va = if eend < self.end {
                    eend
                } else {
                    self.end
                };
                proof {
                    assert((eg.va + eg.len) as int % PAGE_SIZE as int == 0) by (nonlinear_arith)
                        requires
                            eg.va % PAGE_SIZE == 0,
                            eg.len % PAGE_SIZE == 0,
                            eg.va + eg.len <= u64::MAX,
                            PAGE_SIZE == 4096,
                    ;
                    assert forall|v: int|
                        find_extent(pt.extents_seq(), v) == (if eg.contains(v) {
                            Some(MapExtent { prop: op.apply_spec(eg.prop), ..eg })
                        } else {
                            find_extent(old(pt).extents_seq(), v)
                        }) by {}
                }
                Some((start, eend))
            },
            None => {
                self.va = hi;
                None
            },
        }
    }
}

/// In a well-formed mapping, an empty take means no extent starts in the
/// window at all.
pub proof fn lemma_taken_none_inv(s: Seq<MapExtent>, lo: int, hi: int)
    requires
        extents_wf(s),
        lo < hi,
        taken_extent(s, lo, hi) is None,
    ensures
        forall|i: int| 0 <= i < s.len() ==> !(lo <= (#[trigger] s[i]).va < hi),
    decreases s.len(),
{
    if s.len() > 0 {
        if s[0].va >= hi {
            assert forall|i: int| 0 <= i < s.len() implies !(lo <= (#[trigger] s[i]).va < hi) by {
                if i > 0 {
                    lemma_extents_ordered(s, 0, i);
                }
            }
        } else {
            let t = s.drop_first();
            lemma_wf_drop_first(s);
            lemma_taken_none_inv(t, lo, hi);
            assert forall|i: int| 0 <= i < s.len() implies !(lo <= (#[trigger] s[i]).va < hi) by {
                if i > 0 {
                    assert(t[i - 1] == s[i]);
                }
            }
        }
    }
}

/// Whether `d` is the copy that `copy_from` installs for the source extent
/// `e`, shifted by `shift` bytes and with `op` applied to a copy of the
/// property: the same physical page, length and level, under the mutated
/// property, owning a reference of its own.
pub open spec fn copied_mapping(e: MapExtent, shift: int, op: PropertyOp, d: MapExtent) -> bool {
    &&& d.va as int == e.va + shift
    &&& d.len == e.len
    &&& d.level == e.level
    &&& d.pa == e.pa
    &&& d.prop == op.apply_spec(e.prop)
    &&& d.is_tracked()
}

/// What `copy_from` guarantees at the destination address `v`: where the
/// source window `[slo, shi)` holds a mapping lying fully inside it, the
/// destination holds its copy; everywhere else in the destination window,
/// nothing.
pub open spec fn mirror_at(
    src_ext: Seq<MapExtent>,
    dst_ext: Seq<MapExtent>,
    slo: int,
    shi: int,
    dlo: int,
    op: PropertyOp,
    v: int,
) -> bool {
    match find_extent(src_ext, v - dlo + slo) {
        Some(e) => if slo <= e.va && e.end() <= shi {
            match find_extent(dst_ext, v) {
                Some(d) => copied_mapping(e, dlo - slo, op, d),
                None => false,
            }
        } else {
            find_extent(dst_ext, v) is None
        },
        None => find_extent(dst_ext, v) is None,
    }
}

impl CursorMut {
    /// Copies, from the source cursor's table into this cursor's table,
    /// every mapping lying fully inside the next `len` bytes of the source
    /// cursor, applying `op` to a copy of each mapping's property; the
    /// source table keeps its mappings and its properties untouched. Each
    /// copy shares the source mapping's frame, whose reference count is
    /// incremented. The destination window must be entirely unmapped
    /// beforehand: overwriting would silently leak a frame reference, so the
    /// precondition rules it out. Both cursors advance by `len`. The TLB is
    /// not flushed: that stays with the caller.
    #[verifier::rlimit(80)]
    pub fn copy_from(
        &mut self,
        dst_pt: &mut PageTable,
        src: &mut CursorMut,
        src_pt: &PageTable,
        len: u64,
        op: &PropertyOp,
        reg: &mut FrameRegistry,
    )
        requires
            old(dst_pt).wf(),
            src_pt.wf(),
            old(reg).wf(),
            old(self).active_in(old(dst_pt)),
            old(src).active_in(src_pt),
            src_pt.mode_spec() is User,
            len % PAGE_SIZE == 0,
            len > 0,
            old(self).va_spec() + len <= old(self).end_spec(),
            old(src).va_spec() + len <= old(src).end_spec(),
            // The destination window is entirely unmapped.
            forall|v: int|
                old(self).va_spec() <= v < old(self).va_spec() + len ==> find_extent(
                    old(dst_pt).extents_seq(),
                    v,
                ) is None,
            // Every source frame is live, with room to count the copies.
            forall|i: int|
                0 <= i < src_pt.extents_seq().len() ==> old(reg).in_range(
                    (#[trigger] src_pt.extents_seq()[i]).pa,
                ) && 1 <= old(reg).refcount_of(src_pt.extents_seq()[i].pa) && old(reg).refcount_of(
                    src_pt.extents_seq()[i].pa,
                ) + len / PAGE_SIZE <= u64::MAX,
            // Each copy lands aligned to its own page size.
            forall|i: int|
                0 <= i < src_pt.extents_seq().len() && old(src).va_spec() <= (
                #[trigger] src_pt.extents_seq()[i]).va < old(src).va_spec() + len ==> (
                src_pt.extents_seq()[i].va - old(src).va_spec() + old(self).va_spec()) % (
                page_size_spec(src_pt.extents_seq()[i].level) as int) == 0,
        ensures
            final(dst_pt).wf(),
            final(dst_pt).mode_spec() == old(dst_pt).mode_spec(),
            final(dst_pt).highest_spec() == old(dst_pt).highest_spec(),
            final(dst_pt).locks_seq() == old(dst_pt).locks_seq(),
            final(reg).wf(),
            final(reg).num_frames() == old(reg).num_frames(),
            final(self).start_spec() == old(self).start_spec(),
            final(self).end_spec() == old(self).end_spec(),
            final(self).va_spec() == old(self).va_spec() + len,
            final(self).active_in(final(dst_pt)),
            final(src).start_spec() == old(src).start_spec(),
            final(src).end_spec() == old(src).end_spec(),
            final(src).va_spec() == old(src).va_spec() + len,
            final(src).active_in(src_pt),
            // Inside the destination window: the mirror of the source.
            forall|v: int|
                old(self).va_spec() <= v < old(self).va_spec() + len ==> #[trigger] mirror_at(
                    src_pt.extents_seq(),
                    final(dst_pt).extents_seq(),
                    old(src).va_spec() as int,
                    old(src).va_spec() + len,
                    old(self).va_spec() as int,
                    *op,
                    v,
                ),
            // Outside it: untouched.
            forall|v: int|
                !(old(self).va_spec() <= v < old(self).va_spec() + len) ==> find_extent(
                    final(dst_pt).extents_seq(),
                    v,
                ) == find_extent(old(dst_pt).extents_seq(), v),
            // The registry: same pages, same states, and each page's count
            // grown by exactly the copies installed on it.
            forall|j: int|
                0 <= j < old(reg).num_frames() ==> (#[trigger] final(reg).slots_seq()[j]).state
                    == old(reg).slots_seq()[j].state && final(reg).slots_seq()[j].refcount
                    == old(reg).slots_seq()[j].refcount + backing_count(
                    final(dst_pt).extents_seq(),
                    j,
                ) - backing_count(old(dst_pt).extents_seq(), j),
            forall|j: int|
                0 <= j < old(reg).num_frames() ==> old(reg).slots_seq()[j].refcount <= (
                #[trigger] final(reg).slots_seq()[j]).refcount,
    {
        let slo = src.va;
        let shi = src.va + len;
        let dlo = self.va;
        let ghost dst_old = dst_pt.extents_seq();
        let ghost shift = dlo as int - slo as int;
        proof {
            assert((slo + len) as int % PAGE_SIZE as int == 0 && (dlo + len) as int
                % PAGE_SIZE as int == 0) by (nonlinear_arith)
                requires
                    slo % PAGE_SIZE == 0,
                    dlo % PAGE_SIZE == 0,
                    len % PAGE_SIZE == 0,
                    slo + len <= u64::MAX,
                    dlo + len <= u64::MAX,
                    PAGE_SIZE == 4096,
            ;
        }
        let mut done = false;
        while !done
            invariant
                src_pt.wf(),
                dst_pt.wf(),
                reg.wf(),
                reg.num_frames() == old(reg).num_frames(),
                dst_pt.mode_spec() == old(dst_pt).mode_spec(),
                dst_pt.highest_spec() == old(dst_pt).highest_spec(),
                dst_pt.locks_seq() == old(dst_pt).locks_seq(),
                self.start == old(self).start_spec(),
                self.end == old(self).end_spec(),
                src.start == old(src).start_spec(),
                src.end == old(src).end_spec(),
                slo == old(src).va_spec(),
                dlo == old(self).va_spec(),
                shi == slo + len,
                shift == dlo as int - slo as int,
                dst_old == old(dst_pt).extents_seq(),
                len % PAGE_SIZE == 0,
                len > 0,
                slo % PAGE_SIZE == 0,
                dlo % PAGE_SIZE == 0,
                slo + len <= src.end,
                dlo + len <= self.end,
                old(self).active_in(old(dst_pt)),
                old(src).active_in(src_pt),
                src_pt.mode_spec() is User,
                // Lock-step positions, page-aligned.
                slo <= src.va <= shi,
                src.va % PAGE_SIZE == 0,
                self.va as int == src.va as int + shift,
                // The preconditions carried along.
                forall|v: int|
                    dlo <= v < dlo + len ==> find_extent(dst_old, v) is None,
                forall|i: int|
                    0 <= i < src_pt.extents_seq().len() ==> old(reg).in_range(
                        (#[trigger] src_pt.extents_seq()[i]).pa,
                    ) && 1 <= old(reg).refcount_of(src_pt.extents_seq()[i].pa) && old(
                        reg,
                    ).refcount_of(src_pt.extents_seq()[i].pa) + len / PAGE_SIZE <= u64::MAX,
                forall|i: int|
                    0 <= i < src_pt.extents_seq().len() && slo <= (
                    #[trigger] src_pt.extents_seq()[i]).va < shi ==> (src_pt.extents_seq()[i].va
                        - slo + dlo) % (page_size_spec(src_pt.extents_seq()[i].level) as int) == 0,
                // Every source extent starting in the scanned part has been
                // consumed whole.
                !done ==> forall|i: int|
                    0 <= i < src_pt.extents_seq().len() && slo <= (
                    #[trigger] src_pt.extents_seq()[i]).va < src.va ==> src_pt.extents_seq()[i].end()
                        <= src.va,
                done ==> src.va == shi && self.va == dlo + len,
                // The mirror holds over the processed part of the window.
                forall|v: int|
                    dlo <= v < self.va ==> #[trigger] mirror_at(
                        src_pt.extents_seq(),
                        dst_pt.extents_seq(),
                        slo as int,
                        shi as int,
                        dlo as int,
                        *op,
                        v,
                    ),
                // Beyond the processed part, the destination is untouched.
                forall|v: int|
                    !(dlo <= v < self.va) ==> find_extent(dst_pt.extents_seq(), v) == find_extent(
                        dst_old,
                        v,
                    ),
                // The registry has only grown, by at most one per page copied,
                // and by exactly the copies installed on each page.
                forall|j: int|
                    0 <= j < old(reg).num_frames() ==> (#[trigger] reg.slots_seq()[j]).state == old(
                        reg,
                    ).slots_seq()[j].state && old(reg).slots_seq()[j].refcount
                        <= reg.slots_seq()[j].refcount <= old(reg).slots_seq()[j].refcount + (
                    src.va - slo) as int / PAGE_SIZE as int,
                forall|j: int|
                    0 <= j < old(reg).num_frames() ==> (#[trigger] reg.slots_seq()[j]).refcount
                        == old(reg).slots_seq()[j].refcount + backing_count(
                        dst_pt.extents_seq(),
                        j,
                    ) - backing_count(dst_old, j),
            decreases (shi - src.va) + (if done {
                0u64
            } else {
                1u64
            }),
        {
            if src.va >= shi {
                done = true;
                continue ;
            }
            let found = src_pt.next_start_in(src.va, shi);
            match found {
                None => {
                    // Nothing more starts in the window: the tail mirrors to
                    // nothing.
                    proof {
                        lemma_taken_none_inv(src_pt.extents_seq(), src.va as int, shi as int);
                        assert forall|v: int| self.va <= v < dlo + len implies mirror_at(
                            src_pt.extents_seq(),
                            dst_pt.extents_seq(),
                            slo as int,
                            shi as int,
                            dlo as int,
                            *op,
                            v,
                        ) by {
                            let w = v - shift;
                            assert(src.va <= w < shi);
                            match find_extent(src_pt.extents_seq(), w) {
                                Some(e) => {
                                    lemma_find_some(src_pt.extents_seq(), w);
                                    let io = choose|io: int|
                                        0 <= io < src_pt.extents_seq().len()
                                            && src_pt.extents_seq()[io] == e && (
                                        #[trigger] src_pt.extents_seq()[io]).contains(w);
                                    assert(e.va <= w < shi);
                                    assert(!(src.va as int <= e.va < shi as int));
                                    if slo <= e.va {
                                        // Consumed whole earlier: cannot reach w.
                                        assert(e.va < src.va);
                                        assert(e.end() <= src.va);
                                        assert(false);
                                    }
                                    assert(find_extent(dst_pt.extents_seq(), v) == find_extent(
                                        dst_old,
                                        v,
                                    ));
                                },
                                None => {
                                    assert(find_extent(dst_pt.extents_seq(), v) == find_extent(
                                        dst_old,
                                        v,
                                    ));
                                },
                            }
                        }
                    }
                    self.va = dlo + len;
                    src.va = shi;
                    done = true;
                },
                Some(idx) => {
                    let e_va = src_pt.extents[idx].va;
                    let e_len = src_pt.extents[idx].len;
                    proof {
                        lemma_taken_some(src_pt.extents_seq(), src.va as int, shi as int);
                    }
                    if e_va + e_len > shi {
                        // The last candidate crosses the window's end and is
                        // not copied; nothing else starts in the window.
                        proof {
                            let eg = src_pt.extents_seq()[idx as int];
                            assert forall|v: int| self.va <= v < dlo + len implies mirror_at(
                                src_pt.extents_seq(),
                                dst_pt.extents_seq(),
                                slo as int,
                                shi as int,
                                dlo as int,
                                *op,
                                v,
                            ) by {
                                let w = v - shift;
                                assert(src.va <= w < shi);
                                match find_extent(src_pt.extents_seq(), w) {
                                    Some(e) => {
                                        lemma_find_some(src_pt.extents_seq(), w);
                                        let io = choose|io: int|
                                            0 <= io < src_pt.extents_seq().len()
                                                && src_pt.extents_seq()[io] == e && (
                                            #[trigger] src_pt.extents_seq()[io]).contains(w);
                                        if slo <= e.va && e.end() <= shi {
                                            if e.va < src.va {
                                                assert(e.end() <= src.va);
                                                assert(false);
                                            } else {
                                                // `e` starts in the unscanned
                                                // window, so the crossing
                                                // extent — the first there —
                                                // is not past it.
                                                lemma_taken_is_first(
                                                    src_pt.extents_seq(),
                                                    src.va as int,
                                                    shi as int,
                                                    io,
                                                );
                                                assert(eg.va <= e.va);
                                                if io > idx as int {
                                                    lemma_extents_ordered(
                                                        src_pt.extents_seq(),
                                                        idx as int,
                                                        io,
                                                    );
                                                    assert(e.va >= eg.end());
                                                    assert(e.end() > shi);
                                                    assert(false);
                                                } else if io < idx as int {
                                                    lemma_extents_ordered(
                                                        src_pt.extents_seq(),
                                                        io,
                                                        idx as int,
                                                    );
                                                    assert(false);
                                                } else {
                                                    assert(e == eg);
                                                    assert(false);
                                                }
                                            }
                                        }
                                        assert(find_extent(dst_pt.extents_seq(), v) == find_extent(
                                            dst_old,
                                            v,
                                        ));
                                    },
                                    None => {
                                        assert(find_extent(dst_pt.extents_seq(), v) == find_extent(
                                            dst_old,
                                            v,
                                        ));
                                    },
                                }
                            }
                        }
                        self.va = dlo + len;
                        src.va = shi;
                        done = true;
                        continue ;
                    }
                    // Copy this extent.
                    let ghost eg = src_pt.extents_seq()[idx as int];
                    let ghost reg_before = reg.slots_seq();
                    let e_level = src_pt.extents[idx].level;
                    let e_pa = src_pt.extents[idx].pa;
                    let e_prop = src_pt.extents[idx].prop;
                    let target_va = dlo + (e_va - slo);
                    proof {
                        // Room for one more count: the copies so far are
                        // fewer than the window holds pages.
                        assert((src.va - slo) as int / PAGE_SIZE as int + 1 <= len as int
                            / PAGE_SIZE as int) by (nonlinear_arith)
                            requires
                                slo <= src.va,
                                src.va < shi,
                                shi == slo + len,
                                src.va % PAGE_SIZE == 0,
                                slo % PAGE_SIZE == 0,
                                len % PAGE_SIZE == 0,
                                PAGE_SIZE == 4096,
                        ;
                    }
                    let new_frame = match &src_pt.extents[idx].frame {
                        Some(f) => reg.clone_frame(f),
                        None => {
                            proof {
                                assert(false);
                            }
                            vstd::pervasive::unreached()
                        },
                    };
                    let new_prop = op.apply(e_prop);
                    let d = MapExtent {
                        va: target_va,
                        len: e_len,
                        level: e_level,
                        pa: e_pa,
                        prop: new_prop,
                        frame: Some(new_frame),
                    };
                    proof {
                        assert(eg.wf());
                        assert(d.va as int == eg.va + shift && d.end() == eg.end() + shift);
                        assert(d.va as int % (page_size_spec(d.level) as int) == 0);
                        assert(d.va % PAGE_SIZE == 0 && d.end() <= dlo + len) by (nonlinear_arith)
                            requires
                                d.va as int == eg.va + shift,
                                d.len == eg.len,
                                shift == dlo as int - slo as int,
                                eg.va % PAGE_SIZE == 0,
                                slo % PAGE_SIZE == 0,
                                dlo % PAGE_SIZE == 0,
                                eg.va + eg.len <= shi,
                                shi == slo + len,
                                slo <= eg.va,
                                PAGE_SIZE == 4096,
                        ;
                        assert(d.wf());
                        // The target range of the copy is still unmapped.
                        assert forall|i: int|
                            0 <= i < dst_pt.extents_seq().len() implies !(
                        #[trigger] dst_pt.extents_seq()[i]).overlaps(d.va as int, d.end()) by {
                            if dst_pt.extents_seq()[i].overlaps(d.va as int, d.end()) {
                                let x = dst_pt.extents_seq()[i];
                                let w = if x.va > d.va { x.va as int } else { d.va as int };
                                assert(x.contains(w));
                                lemma_find_at(dst_pt.extents_seq(), i, w);
                                assert(self.va <= w < dlo + len);
                                assert(find_extent(dst_pt.extents_seq(), w) == find_extent(
                                    dst_old,
                                    w,
                                ));
                                assert(false);
                            }
                        }
                    }
                    let ghost dst_mid = dst_pt.extents_seq();
                    dst_pt.insert_extent(d);
                    let ghost old_self_va = self.va;
                    let ghost old_src_va = src.va;
                    src.va = e_va + e_len;
                    self.va = target_va + e_len;
                    proof {
                        assert(src.va as int % PAGE_SIZE as int == 0 && (src.va - slo) as int
                            / PAGE_SIZE as int >= (old_src_va - slo) as int / PAGE_SIZE as int + 1)
                            by (nonlinear_arith)
                            requires
                                src.va == eg.va + eg.len,
                                eg.va % PAGE_SIZE == 0,
                                eg.len % PAGE_SIZE == 0,
                                eg.len > 0,
                                slo % PAGE_SIZE == 0,
                                slo <= old_src_va <= eg.va,
                                old_src_va % PAGE_SIZE == 0,
                                eg.va + eg.len <= u64::MAX,
                                PAGE_SIZE == 4096,
                        ;
                        // Mirror over the freshly copied stretch.
                        assert forall|v: int| old_self_va <= v < self.va implies mirror_at(
                            src_pt.extents_seq(),
                            dst_pt.extents_seq(),
                            slo as int,
                            shi as int,
                            dlo as int,
                            *op,
                            v,
                        ) by {
                            let w = v - shift;
                            if d.contains(v) {
                                assert(eg.contains(w));
                                lemma_find_at(src_pt.extents_seq(), idx as int, w);
                                assert(find_extent(dst_pt.extents_seq(), v) == Some(d));
                                assert(copied_mapping(eg, shift, *op, d));
                            } else {
                                // Between the old position and the copy:
                                // nothing is mapped on either side.
                                assert(old_src_va <= w < eg.va);
                                assert(find_extent(dst_pt.extents_seq(), v) == find_extent(
                                    dst_old,
                                    v,
                                ));
                                match find_extent(src_pt.extents_seq(), w) {
                                    Some(e2) => {
                                        lemma_find_some(src_pt.extents_seq(), w);
                                        let io = choose|io: int|
                                            0 <= io < src_pt.extents_seq().len()
                                                && src_pt.extents_seq()[io] == e2 && (
                                            #[trigger] src_pt.extents_seq()[io]).contains(w);
                                        if slo <= e2.va && e2.end() <= shi {
                                            if e2.va < old_src_va {
                                                assert(e2.end() <= old_src_va);
                                                assert(false);
                                            } else {
                                                // `e2` would start in the gap
                                                // before the taken extent,
                                                // which was the first there.
                                                lemma_taken_is_first(
                                                    src_pt.extents_seq(),
                                                    old_src_va as int,
                                                    shi as int,
                                                    io,
                                                );
                                                assert(eg.va <= e2.va);
                                                if io < idx as int {
                                                    lemma_extents_ordered(
                                                        src_pt.extents_seq(),
                                                        io,
                                                        idx as int,
                                                    );
                                                    assert(false);
                                                } else if io == idx as int {
                                                    assert(false);
                                                } else {
                                                    lemma_extents_ordered(
                                                        src_pt.extents_seq(),
                                                        idx as int,
                                                        io,
                                                    );
                                                    assert(false);
                                                }
                                            }
                                        }
                                    },
                                    None => {},
                                }
                            }
                        }
                        // Mirror preserved over the previously processed part.
                        assert forall|v: int| dlo <= v < old_self_va implies mirror_at(
                            src_pt.extents_seq(),
                            dst_pt.extents_seq(),
                            slo as int,
                            shi as int,
                            dlo as int,
                            *op,
                            v,
                        ) by {
                            assert(mirror_at(
                                src_pt.extents_seq(),
                                dst_mid,
                                slo as int,
                                shi as int,
                                dlo as int,
                                *op,
                                v,
                            ));
                            assert(!d.contains(v));
                            assert(find_extent(dst_pt.extents_seq(), v) == find_extent(dst_mid, v));
                        }
                        // And the rest of the table is untouched beyond the
                        // new position.
                        assert forall|v: int|
                            !(dlo <= v < self.va) implies find_extent(dst_pt.extents_seq(), v)
                            == find_extent(dst_old, v) by {
                            assert(!d.contains(v));
                            assert(find_extent(dst_pt.extents_seq(), v) == find_extent(dst_mid, v));
                        }
                        // Every extent starting in the scanned part is now
                        // consumed whole.
                        assert forall|i: int|
                            0 <= i < src_pt.extents_seq().len() && slo <= (
                        #[trigger] src_pt.extents_seq()[i]).va < src.va implies src_pt.extents_seq()[i].end()
                            <= src.va by {
                            let x = src_pt.extents_seq()[i];
                            if x.va < old_src_va {
                            } else if x.va < eg.va {
                                lemma_taken_is_first(
                                    src_pt.extents_seq(),
                                    old_src_va as int,
                                    shi as int,
                                    i,
                                );
                                assert(false);
                            } else if x.va == eg.va {
                                if i < idx as int {
                                    lemma_extents_ordered(src_pt.extents_seq(), i, idx as int);
                                    assert(false);
                                } else if i > idx as int {
                                    lemma_extents_ordered(src_pt.extents_seq(), idx as int, i);
                                    assert(false);
                                }
                            } else {
                                if i < idx as int {
                                    lemma_extents_ordered(src_pt.extents_seq(), i, idx as int);
                                } else if i > idx as int {
                                    lemma_extents_ordered(src_pt.extents_seq(), idx as int, i);
                                }
                                assert(false);
                            }
                        }
                        // Registry bound: one more count on one page.
                        assert forall|j: int|
                            0 <= j < old(reg).num_frames() implies (#[trigger] reg.slots_seq()[j]).state
                            == old(reg).slots_seq()[j].state && old(reg).slots_seq()[j].refcount
                            <= reg.slots_seq()[j].refcount <= old(reg).slots_seq()[j].refcount + (
                        src.va - slo) as int / PAGE_SIZE as int by {
                            assert(reg.slots_seq() == reg_before.update(
                                eg.pa as int / PAGE_SIZE as int,
                                MetaSlot {
                                    state: reg_before[eg.pa as int / PAGE_SIZE as int].state,
                                    refcount: (reg_before[eg.pa as int / PAGE_SIZE as int].refcount
                                        + 1) as u64,
                                },
                            ));
                        }
                    }
                },
            }
        }
        proof {
            assert((src.va - slo) as int / PAGE_SIZE as int <= len as int / PAGE_SIZE as int)
                by (nonlinear_arith)
                requires
                    src.va == slo + len,
                    PAGE_SIZE == 4096,
            ;
        }
    }
}

impl PageTable {
    /// Removes every installed mapping and hands the extents — their owned
    /// frames included — back to the caller, who must release each tracked
    /// frame after the due TLB flush. Only legal while no cursor is alive.
    pub fn clear(&mut self) -> (r: Vec<MapExtent>)
        requires
            old(self).wf(),
            old(self).locks_seq().len() == 0,
        ensures
            final(self).wf(),
            final(self).mode_spec() == old(self).mode_spec(),
            final(self).highest_spec() == old(self).highest_spec(),
            final(self).locks_seq() == old(self).locks_seq(),
            final(self).extents_seq() == Seq::<MapExtent>::empty(),
            r@ == old(self).extents_seq(),
            forall|v: int| find_extent(final(self).extents_seq(), v) is None,
    {
        let mut taken: Vec<MapExtent> = Vec::new();
        core::mem::swap(&mut taken, &mut self.extents);
        proof {
            assert(self.extents@ =~= Seq::<MapExtent>::empty());
        }
        taken
    }
}

impl CursorMut {
    /// Installs an untracked mapping — physical memory not owned through the
    /// frame registry, such as device or identity-mapped memory — of `len`
    /// bytes at the cursor's position of a kernel table, and moves the
    /// cursor past it. Every previously installed extent overlapping the run
    /// is removed whole and handed back; the table never releases untracked
    /// memory itself.
    pub fn map_untracked(
        &mut self,
        pt: &mut PageTable,
        pa: Paddr,
        len: u64,
        prop: PageProperty,
    ) -> (replaced: Vec<MapExtent>)
        requires
            old(pt).wf(),
            old(self).active_in(old(pt)),
            old(pt).mode_spec() is Kernel,
            pa % PAGE_SIZE == 0,
            len % PAGE_SIZE == 0,
            len > 0,
            pa + len <= u64::MAX,
            old(self).va_spec() + len <= old(self).end_spec(),
        ensures
            final(pt).wf(),
            final(pt).mode_spec() == old(pt).mode_spec(),
            final(pt).highest_spec() == old(pt).highest_spec(),
            final(pt).locks_seq() == old(pt).locks_seq(),
            final(self).start_spec() == old(self).start_spec(),
            final(self).end_spec() == old(self).end_spec(),
            final(self).active_in(final(pt)),
            final(self).va_spec() == old(self).va_spec() + len,
            forall|v: int|
                find_extent(final(pt).extents_seq(), v) == (if old(self).va_spec() <= v < old(self).va_spec()
                    + len {
                    Some(
                        MapExtent {
                            va: old(self).va_spec(),
                            len,
                            level: 1,
                            pa,
                            prop,
                            frame: None,
                        },
                    )
                } else {
                    masked_find(
                        old(pt).extents_seq(),
                        old(self).va_spec() as int,
                        old(self).va_spec() + len,
                        v,
                    )
                }),
            forall|k: int|
                0 <= k < replaced@.len() ==> (#[trigger] replaced@[k]).overlaps(
                    old(self).va_spec() as int,
                    old(self).va_spec() + len,
                ) && old(pt).extents_seq().contains(replaced@[k]),
            forall|j: int|
                backing_count(#[trigger] final(pt).extents_seq(), j) + backing_count(replaced@, j)
                    == backing_count(old(pt).extents_seq(), j),
    {
        let lo = self.va;
        let hi = self.va + len;
        let replaced = pt.remove_window(lo, hi);
        proof {
            assert forall|i: int|
                0 <= i < pt.extents_seq().len() implies !(#[trigger] pt.extents_seq()[i]).overlaps(
                lo as int,
                hi as int,
            ) by {
                if pt.extents_seq()[i].overlaps(lo as int, hi as int) {
                    let e2 = pt.extents_seq()[i];
                    let w = if e2.va > lo {
                        e2.va as int
                    } else {
                        lo as int
                    };
                    assert(e2.contains(w));
                    lemma_find_at(pt.extents_seq(), i, w);
                    assert(masked_find(old(pt).extents_seq(), lo as int, hi as int, w) == Some(e2));
                    assert(false);
                }
            }
        }
        let e = MapExtent { va: lo, len, level: 1, pa, prop, frame: None };
        proof {
            assert((lo + len) as int % PAGE_SIZE as int == 0) by (nonlinear_arith)
                requires
                    lo % PAGE_SIZE == 0,
                    len % PAGE_SIZE == 0,
                    lo + len <= u64::MAX,
                    PAGE_SIZE == 4096,
            ;
            assert(e.wf());
        }
        pt.insert_extent(e);
        self.va = hi;
        replaced
    }
}

} // verus!
