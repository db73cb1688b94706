//! The architecture's page-table entry: how one 64-bit entry encodes a leaf
//! or a child-table pointer, the mapping's permissions and its cache policy,
//! together with the paging constants of the scheme.

use vstd::prelude::*;

use crate::page_prop::{CachePolicy, PageFlags, PageProperty, PrivilegedPageFlags};
use crate::{Paddr, PagingLevel, NR_LEVELS, PAGE_SIZE};

verus! {

/// The entry bit marking a valid child-table pointer.
pub const PTE_VALID: u64 = 1;

/// The entry bit for readable mappings.
pub const PTE_READABLE: u64 = 2;

/// The entry bit for writable mappings.
pub const PTE_WRITABLE: u64 = 4;

/// The entry bit for executable mappings.
pub const PTE_EXECUTABLE: u64 = 8;

/// The entry bit for user-accessible mappings.
pub const PTE_USER: u64 = 16;

/// The entry bit for global mappings.
pub const PTE_GLOBAL: u64 = 32;

/// The entry bit for uncacheable mappings.
pub const PTE_UNCACHEABLE: u64 = 64;

/// The entry bit marking a leaf: at any level, an entry with this bit maps
/// memory rather than pointing at a child table.
pub const PTE_HUGE: u64 = 128;

/// The entry bit for write-through mappings.
pub const PTE_WRITE_THROUGH: u64 = 256;

/// The mask of the entry's physical-address field, the leaf bit included so
/// that rewriting an entry's property keeps both.
pub const PTE_PHYS_ADDR_MASK: u64 = 0xF_FFFF_FFFF_F000 | 128;

/// The paging constants of the scheme: four levels of 512 entries over
/// 4-KiB base pages, 48 address bits, with leaves legal at every level.
#[derive(Clone, Copy, Debug, PartialEq, Eq, Structural)]
pub struct PagingConsts {}

impl PagingConsts {
    /// The size of one base page.
    pub fn base_page_size() -> (r: u64)
        ensures
            r == PAGE_SIZE,
    {
        4096
    }

    /// How many levels the page table has.
    pub fn nr_levels() -> (r: PagingLevel)
        ensures
            r == NR_LEVELS,
    {
        4
    }

    /// How many bits of an address take part in translation.
    pub fn address_width() -> (r: u32)
        ensures
            r == 48,
    {
        48
    }

    /// The highest level at which a leaf mapping is legal.
    pub fn highest_translation_level() -> (r: PagingLevel)
        ensures
            r == NR_LEVELS,
    {
        4
    }
}

/// An alternative set of paging constants that caps leaf mappings at the
/// third level, for exercising the level choice.
#[derive(Clone, Copy, Debug, PartialEq, Eq, Structural)]
pub struct VeryHugePagingConsts {}

impl VeryHugePagingConsts {
    /// The size of one base page.
    pub fn base_page_size() -> (r: u64)
        ensures
            r == PAGE_SIZE,
    {
        4096
    }

    /// How many levels the page table has.
    pub fn nr_levels() -> (r: PagingLevel)
        ensures
            r == NR_LEVELS,
    {
        4
    }

    /// How many bits of an address take part in translation.
    pub fn address_width() -> (r: u32)
        ensures
            r == 48,
    {
        48
    }

    /// The highest level at which a leaf mapping is legal.
    pub fn highest_translation_level() -> (r: PagingLevel)
        ensures
            r == 3,
    {
        3
    }
}

/// The access-flag bits a raw entry value decodes to.
pub open spec fn decoded_flags(v: u64) -> u8 {
    ((v >> 1) & 7) as u8
}

/// The privilege bits a raw entry value decodes to.
pub open spec fn decoded_priv(v: u64) -> u8 {
    ((v >> 4) & 3) as u8
}

/// The cache policy a raw entry value decodes to.
pub open spec fn decoded_cache(v: u64) -> CachePolicy {
    if v & PTE_UNCACHEABLE != 0 {
        CachePolicy::Uncacheable
    } else if v & PTE_WRITE_THROUGH != 0 {
        CachePolicy::Writethrough
    } else {
        CachePolicy::Writeback
    }
}

/// The property a raw entry value decodes to.
pub open spec fn decoded_prop(v: u64) -> PageProperty {
    PageProperty {
        flags: PageFlags { bits: decoded_flags(v) },
        cache: decoded_cache(v),
        priv_flags: PrivilegedPageFlags { bits: decoded_priv(v) },
    }
}

/// The raw bits that encode `prop` into an entry, the valid bit included.
pub open spec fn encoded_prop(prop: PageProperty) -> u64 {
    PTE_VALID | (((prop.flags.bits & 7) as u64) << 1) | (((prop.priv_flags.bits & 3) as u64) << 4)
        | (match prop.cache {
        CachePolicy::Uncacheable => PTE_UNCACHEABLE,
        CachePolicy::Writethrough => PTE_WRITE_THROUGH,
        _ => 0,
    })
}

/// One page-table entry: a 64-bit value holding a physical address, a
/// present/leaf marker and the mapping's property.
#[derive(Clone, Copy, Debug, PartialEq, Eq, Structural)]
pub struct PageTableEntry(pub u64);

impl PageTableEntry {
    /// An entry holding only the raw address bits `paddr`.
    pub fn new_paddr(paddr: Paddr) -> (r: PageTableEntry)
        ensures
            r.0 == paddr,
    {
        PageTableEntry(paddr)
    }

    /// Whether the entry is present: valid as a child pointer or marked as
    /// a leaf.
    pub fn is_present(&self) -> (r: bool)
        ensures
            r == (self.0 & PTE_VALID != 0 || self.0 & PTE_HUGE != 0),
    {
        self.0 & PTE_VALID != 0 || self.0 & PTE_HUGE != 0
    }

    /// A leaf entry mapping the page at `paddr` under `prop`. The level does
    /// not change the encoding in this scheme.
    pub fn new_page(paddr: Paddr, _level: PagingLevel, prop: PageProperty) -> (r: PageTableEntry)
        requires
            paddr % PAGE_SIZE == 0,
            paddr <= 0xF_FFFF_FFFF_F000,
            prop.cache == CachePolicy::Writeback || prop.cache == CachePolicy::Writethrough
                || prop.cache == CachePolicy::Uncacheable,
        ensures
            r.paddr_spec() == paddr,
            r.0 & PTE_HUGE != 0,
            decoded_prop(r.0) == (PageProperty {
                flags: PageFlags { bits: (prop.flags.bits & 7) as u8 },
                cache: prop.cache,
                priv_flags: PrivilegedPageFlags { bits: (prop.priv_flags.bits & 3) as u8 },
            }),
    {
        let mut pte = PageTableEntry(paddr | PTE_HUGE);
        pte.set_prop(prop);
        proof {
            let f = prop.flags.bits;
            let p = prop.priv_flags.bits;
            let cb: u64 = match prop.cache {
                CachePolicy::Uncacheable => 64,
                CachePolicy::Writethrough => 256,
                _ => 0,
            };
            let base = (paddr | 128u64) & (0xF_FFFF_FFFF_F000u64 | 128);
            let e = 1u64 | (((f & 7) as u64) << 1) | (((p & 3) as u64) << 4) | cb;
            assert(base & (0xF_FFFF_FFFF_F000u64 | 128) == base && (base | e)
                & 0xF_FFFF_FFFF_F000u64 == paddr && (base | e) & 128 != 0) by (bit_vector)
                requires
                    base == (paddr | 128u64) & (0xF_FFFF_FFFF_F000u64 | 128),
                    e == 1u64 | (((f & 7) as u64) << 1) | (((p & 3) as u64) << 4) | cb,
                    paddr % 4096 == 0,
                    paddr <= 0xF_FFFF_FFFF_F000u64,
                    cb == 0 || cb == 64 || cb == 256,
            ;
            assert(encoded_prop(prop) == e);
            lemma_prop_roundtrip(base, prop);
        }
        pte
    }

    /// A child-table pointer to the node at `paddr`.
    pub fn new_pt(paddr: Paddr) -> (r: PageTableEntry)
        requires
            paddr % PAGE_SIZE == 0,
            paddr <= 0xF_FFFF_FFFF_F000,
        ensures
            r.0 == paddr | PTE_VALID,
            r.paddr_spec() == paddr,
            r.0 & PTE_HUGE == 0,
    {
        proof {
            assert((paddr | 1u64) & 0xF_FFFF_FFFF_F000 == paddr && (paddr | 1u64) & 128 == 0)
                by (bit_vector)
                requires
                    paddr % 4096 == 0,
                    paddr <= 0xF_FFFF_FFFF_F000u64,
            ;
        }
        PageTableEntry(paddr | PTE_VALID)
    }

    /// The physical-address field of the entry.
    pub open spec fn paddr_spec(&self) -> Paddr {
        self.0 & 0xF_FFFF_FFFF_F000
    }

    /// The physical address the entry points at.
    pub fn paddr(&self) -> (r: Paddr)
        ensures
            r == self.paddr_spec(),
    {
        self.0 & 0xF_FFFF_FFFF_F000
    }

    /// The property the entry's bits decode to.
    pub fn prop(&self) -> (r: PageProperty)
        ensures
            r == decoded_prop(self.0),
    {
        let v = self.0;
        let flags = PageFlags { bits: ((v >> 1) & 7) as u8 };
        let priv_flags = PrivilegedPageFlags { bits: ((v >> 4) & 3) as u8 };
        let cache = if v & PTE_UNCACHEABLE != 0 {
            CachePolicy::Uncacheable
        } else if v & PTE_WRITE_THROUGH != 0 {
            CachePolicy::Writethrough
        } else {
            CachePolicy::Writeback
        };
        PageProperty { flags, cache, priv_flags }
    }

    /// Rewrites the entry's property bits, keeping its physical address and
    /// its leaf marker, and setting the valid bit.
    pub fn set_prop(&mut self, prop: PageProperty)
        requires
            prop.cache == CachePolicy::Writeback || prop.cache == CachePolicy::Writethrough
                || prop.cache == CachePolicy::Uncacheable,
        ensures
            final(self).0 == (old(self).0 & PTE_PHYS_ADDR_MASK) | encoded_prop(prop),
    {
        let flags: u64 = PTE_VALID | (((prop.flags.bits & 7) as u64) << 1) | (((prop.priv_flags.bits
            & 3) as u64) << 4) | (match prop.cache {
            CachePolicy::Uncacheable => PTE_UNCACHEABLE,
            CachePolicy::Writethrough => PTE_WRITE_THROUGH,
            _ => 0,
        });
        self.0 = (self.0 & PTE_PHYS_ADDR_MASK) | flags;
    }

    /// Whether the entry is a leaf at the given level: in this scheme, the
    /// leaf bit decides at every level.
    pub fn is_last(&self, _level: PagingLevel) -> (r: bool)
        ensures
            r == (self.0 & PTE_HUGE != 0),
    {
        self.0 & PTE_HUGE != 0
    }
}

/// Decoding an entry's property bits gives back what was encoded: the
/// well-formed part of the flags, the privilege bits and the (supported)
/// cache policy survive the round trip, whatever address bits stand next to
/// them.
pub proof fn lemma_prop_roundtrip(base: u64, prop: PageProperty)
    requires
        base & PTE_PHYS_ADDR_MASK == base,
        prop.cache == CachePolicy::Writeback || prop.cache == CachePolicy::Writethrough
            || prop.cache == CachePolicy::Uncacheable,
    ensures
        decoded_prop(base | encoded_prop(prop)) == (PageProperty {
            flags: PageFlags { bits: (prop.flags.bits & 7) as u8 },
            cache: prop.cache,
            priv_flags: PrivilegedPageFlags { bits: (prop.priv_flags.bits & 3) as u8 },
        }),
{
    let f = prop.flags.bits;
    let p = prop.priv_flags.bits;
    let cbits: u64 = match prop.cache {
        CachePolicy::Uncacheable => 64,
        CachePolicy::Writethrough => 256,
        _ => 0,
    };
    let enc = 1u64 | (((f & 7) as u64) << 1) | (((p & 3) as u64) << 4) | cbits;
    let v = base | enc;
    assert((((base | (1u64 | (((f & 7) as u64) << 1) | (((p & 3) as u64) << 4) | cbits)) >> 1) & 7)
        == (f & 7) as u64 && (((base | (1u64 | (((f & 7) as u64) << 1) | (((p & 3) as u64) << 4)
        | cbits)) >> 4) & 3) == (p & 3) as u64 && ((base | (1u64 | (((f & 7) as u64) << 1) | (((p
        & 3) as u64) << 4) | cbits)) & 64 == 0 <==> cbits & 64 == 0) && ((base | (1u64 | (((f
        & 7) as u64) << 1) | (((p & 3) as u64) << 4) | cbits)) & 256 == 0 <==> cbits & 256 == 0))
        by (bit_vector)
        requires
            base & (0xF_FFFF_FFFF_F000u64 | 128) == base,
            cbits == 0 || cbits == 64 || cbits == 256,
    ;
    assert(decoded_flags(v) == (f & 7) as u8);
    assert(decoded_priv(v) == (p & 3) as u8);
    match prop.cache {
        CachePolicy::Uncacheable => {
            assert(v & PTE_UNCACHEABLE != 0) by {
                assert(cbits & 64 != 0) by (bit_vector)
                    requires
                        cbits == 64u64,
                ;
            }
            assert(decoded_cache(v) == CachePolicy::Uncacheable);
        },
        CachePolicy::Writethrough => {
            assert(cbits & 64 == 0 && cbits & 256 != 0) by (bit_vector)
                requires
                    cbits == 256u64,
            ;
            assert(decoded_cache(v) == CachePolicy::Writethrough);
        },
        _ => {
            assert(cbits & 64 == 0 && cbits & 256 == 0) by (bit_vector)
                requires
                    cbits == 0u64,
            ;
            assert(decoded_cache(v) == CachePolicy::Writeback);
        },
    }
}

} // verus!
