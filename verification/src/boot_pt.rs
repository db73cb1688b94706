//! The boot page-table walker: given the root physical address of a live
//! table and a word-level model of physical memory, it translates a virtual
//! address the way the hardware would — blindly following the entries, with
//! the leaf bit stopping the descent.

use vstd::prelude::*;

use crate::{Paddr, PagingLevel, Vaddr, NR_LEVELS, PAGE_SIZE};

verus! {

/// The mask selecting an entry's physical-address field during a walk.
pub const WALK_PTE_MASK: u64 = 0xF_FFFF_FFFF_F000;

/// The leaf bit: a set bit ends the walk at the current level.
pub const WALK_HUGE_MASK: u64 = 128;

/// Physical memory as the walker sees it: one 64-bit word per 8 bytes,
/// starting at physical address zero. A read beyond the end gives zero, as
/// unbacked memory does.
pub struct PhysMem {
    words: Vec<u64>,
}

impl PhysMem {
    /// The memory's words, in order of physical address.
    pub closed spec fn words_seq(&self) -> Seq<u64> {
        self.words@
    }

    /// The word at physical address `paddr`, zero when unbacked; the low
    /// three address bits are ignored, as the bus would.
    pub open spec fn word_at(&self, paddr: int) -> u64 {
        if 0 <= paddr / 8 < self.words_seq().len() {
            self.words_seq()[paddr / 8]
        } else {
            0
        }
    }

    /// A memory of `num_words` zeroed words.
    pub fn new(num_words: usize) -> (r: PhysMem)
        requires
            num_words <= 0x1000_0000,
        ensures
            r.words_seq().len() == num_words,
            forall|p: int| r.word_at(p) == 0,
    {
        let mut words: Vec<u64> = Vec::new();
        let mut i: usize = 0;
        while i < num_words
            invariant
                i <= num_words,
                words@.len() == i,
                forall|j: int| 0 <= j < i ==> (#[trigger] words@[j]) == 0,
            decreases num_words - i,
        {
            words.push(0);
            i = i + 1;
        }
        PhysMem { words }
    }

    /// Writes the word at physical address `paddr`.
    pub fn write_word(&mut self, paddr: Paddr, value: u64)
        requires
            paddr % 8 == 0,
            paddr / 8 < old(self).words_seq().len(),
        ensures
            final(self).words_seq() == old(self).words_seq().update(paddr as int / 8, value),
    {
        let n = self.words.len();
        let q = paddr / 8;
        proof {
            assert(q < n);
        }
        self.words.set(q as usize, value);
    }

    /// Reads the word at physical address `paddr`, zero when unbacked.
    pub fn read_word(&self, paddr: Paddr) -> (r: u64)
        requires
            paddr % 8 == 0,
        ensures
            r == self.word_at(paddr as int),
    {
        let n = self.words.len();
        let q = paddr / 8;
        if q < n as u64 {
            proof {
                assert(q < n);
            }
            self.words[q as usize]
        } else {
            0
        }
    }
}

/// The index of a virtual address's entry in a node at the given level.
pub open spec fn pte_index_spec(va: Vaddr, level: PagingLevel) -> u64 {
    (va >> ((12 + 9 * ((level - 1) as u64)) as u64)) & 511
}

/// Where the walk from the node at `paddr`, `level` levels above the leaves,
/// ends for `va`: the physical address of what the last followed entry
/// points at, and the level below the entry that ended the walk.
pub open spec fn walk_from(mem: &PhysMem, paddr: u64, level: PagingLevel, va: Vaddr) -> (u64, PagingLevel)
    decreases level,
{
    if level == 0 {
        (paddr, 0)
    } else {
        let pte = mem.word_at(paddr as int + 8 * pte_index_spec(va, level) as int);
        let next = pte & WALK_PTE_MASK;
        if pte & WALK_HUGE_MASK != 0 {
            (next, (level - 1) as PagingLevel)
        } else if level == 1 {
            (next, 0)
        } else {
            walk_from(mem, next, (level - 1) as PagingLevel, va)
        }
    }
}

/// The mask selecting the in-page offset kept after a walk that ended
/// `level` levels above the leaves.
pub open spec fn offset_mask(level: PagingLevel) -> u64 {
    ((PAGE_SIZE << ((9 * (level as u64)) as u64)) - 1) as u64
}

/// The boot-time page table: the root physical address of a live table,
/// together with the recorded virtual views of its typed pages.
#[derive(Debug)]
pub struct PageTable {
    root_paddr: Paddr,
    typed_page_paddr_to_vaddr: Vec<(Paddr, Vaddr)>,
}

impl PageTable {
    /// The root physical address.
    pub closed spec fn root_spec(&self) -> Paddr {
        self.root_paddr
    }

    /// The recorded physical-to-virtual pairs, in the order they were added.
    pub closed spec fn views_seq(&self) -> Seq<(Paddr, Vaddr)> {
        self.typed_page_paddr_to_vaddr@
    }

    /// Whether the table's root names a page: aligned and inside the
    /// physical-address field.
    pub open spec fn wf(&self) -> bool {
        self.root_spec() % PAGE_SIZE == 0 && self.root_spec() <= 0xF_FFFF_FFFF_F000
    }

    /// A table whose root node stands at `paddr`, with no views recorded.
    pub fn new(paddr: Paddr) -> (r: PageTable)
        requires
            paddr % PAGE_SIZE == 0,
            paddr <= 0xF_FFFF_FFFF_F000,
        ensures
            r.wf(),
            r.root_spec() == paddr,
            r.views_seq() == Seq::<(Paddr, Vaddr)>::empty(),
    {
        let r = PageTable { root_paddr: paddr, typed_page_paddr_to_vaddr: Vec::new() };
        proof {
            assert(r.typed_page_paddr_to_vaddr@ =~= Seq::<(Paddr, Vaddr)>::empty());
        }
        r
    }

    /// The root physical address of the table.
    pub fn root_paddr(&self) -> (r: Paddr)
        ensures
            r == self.root_spec(),
    {
        self.root_paddr
    }

    /// Records that the typed page at `paddr` is reachable at `vaddr`.
    pub fn record_view(&mut self, paddr: Paddr, vaddr: Vaddr)
        ensures
            final(self).root_spec() == old(self).root_spec(),
            final(self).views_seq() == old(self).views_seq().push((paddr, vaddr)),
    {
        self.typed_page_paddr_to_vaddr.push((paddr, vaddr));
    }

    /// The recorded virtual view of the typed page at `paddr`, if any: the
    /// first recorded pair for that physical address.
    pub fn paddr_to_vaddr(&self, paddr: Paddr) -> (r: Option<Vaddr>)
        ensures
            match r {
                Some(v) => exists|i: int|
                    0 <= i < self.views_seq().len() && (#[trigger] self.views_seq()[i]) == (
                    paddr,
                    v,
                ),
                None => forall|i: int|
                    0 <= i < self.views_seq().len() ==> (#[trigger] self.views_seq()[i]).0
                        != paddr,
            },
    {
        let n = self.typed_page_paddr_to_vaddr.len();
        let mut i: usize = 0;
        while i < n
            invariant
                n == self.views_seq().len(),
                i <= n,
                forall|j: int| 0 <= j < i ==> (#[trigger] self.views_seq()[j]).0 != paddr,
            decreases n - i,
        {
            let (p, v) = self.typed_page_paddr_to_vaddr[i];
            if p == paddr {
                return Some(v);
            }
            i = i + 1;
        }
        None
    }

    /// The index of `va`'s entry in a node at the given level.
    pub fn pte_index(va: Vaddr, level: PagingLevel) -> (r: u64)
        requires
            1 <= level <= NR_LEVELS,
        ensures
            r == pte_index_spec(va, level),
            r < 512,
    {
        let shift: u64 = 12 + 9 * ((level - 1) as u64);
        let r = (va >> shift) & 511;
        proof {
            assert((va >> shift) & 511 < 512) by (bit_vector);
        }
        r
    }

    /// Translates `va` by walking the live table in `mem` from the root,
    /// exactly as the hardware would: the entry's address bits are followed
    /// at each level, a set leaf bit ends the descent, and the in-page
    /// offset of the final level is kept.
    pub fn page_walk(&self, mem: &PhysMem, va: Vaddr) -> (r: Option<Paddr>)
        requires
            self.wf(),
        ensures
            ({
                let (pa, level) = walk_from(mem, self.root_spec(), NR_LEVELS, va);
                r == Some((pa + (va & offset_mask(level))) as u64)
            }),
    {
        let mut current_paddr: u64 = self.root_paddr;
        let mut current_level: PagingLevel = 4;
        let mut done = false;
        proof {
            assert(current_paddr % 8 == 0) by (nonlinear_arith)
                requires
                    current_paddr % 4096 == 0,
            ;
        }
        while !done && current_level >= 1
            invariant
                current_paddr <= 0xF_FFFF_FFFF_F000,
                current_paddr % 8 == 0,
                current_level <= NR_LEVELS,
                done ==> current_level <= NR_LEVELS - 1,
                walk_from(mem, self.root_spec(), NR_LEVELS, va) == (if done {
                    (current_paddr, current_level)
                } else {
                    walk_from(mem, current_paddr, current_level, va)
                }),
            decreases current_level + (if done {
                0u64
            } else {
                1u64
            }),
        {
            let idx = PageTable::pte_index(va, current_level);
            proof {
                assert((current_paddr + 8 * idx) % 8 == 0) by (nonlinear_arith)
                    requires
                        current_paddr % 8 == 0,
                        idx < 512,
                        current_paddr <= 0xF_FFFF_FFFF_F000u64,
                ;
            }
            let pte = mem.read_word(current_paddr + 8 * idx);
            current_paddr = pte & WALK_PTE_MASK;
            proof {
                let p = pte;
                assert(p & 0xF_FFFF_FFFF_F000u64 <= 0xF_FFFF_FFFF_F000u64 && (p
                    & 0xF_FFFF_FFFF_F000u64) % 8 == 0) by (bit_vector);
            }
            current_level = current_level - 1;
            if pte & WALK_HUGE_MASK != 0 {
                done = true;
            }
        }
        let shift: u64 = 9 * (current_level as u64);
        proof {
            assert((4096u64 << shift) >= 1 && (4096u64 << shift) <= 0x80_0000_0000u64)
                by (bit_vector)
                requires
                    shift <= 27,
            ;
        }
        let mask = (PAGE_SIZE << shift) - 1;
        let offset = va & mask;
        proof {
            assert(va & mask <= mask) by (bit_vector);
            assert(mask == offset_mask(current_level));
        }
        Some(current_paddr + offset)
    }
}

} // verus!
