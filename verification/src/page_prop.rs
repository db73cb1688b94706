//! The property of a mapping: access flags, privilege flags and the cache
//! policy that a page-table entry carries for the range it maps.

use vstd::prelude::*;

verus! {

/// The bit for readable mappings.
pub const PF_R: u8 = 1;

/// The bit for writable mappings.
pub const PF_W: u8 = 2;

/// The bit for executable mappings.
pub const PF_X: u8 = 4;

/// The bit recording that the mapping has been accessed.
pub const PF_ACCESSED: u8 = 8;

/// The bit recording that the mapping has been written.
pub const PF_DIRTY: u8 = 16;

/// The first software-available bit.
pub const PF_AVAIL1: u8 = 32;

/// The second software-available bit.
pub const PF_AVAIL2: u8 = 64;

/// The access and status flags of a mapping, a set of the `PF_*` bits.
#[derive(Clone, Copy, Debug, PartialEq, Eq, Structural)]
pub struct PageFlags {
    /// The raw bit set; only the `PF_*` bits may be set.
    pub bits: u8,
}

impl PageFlags {
    /// Whether `self` is a well-formed flag set: no bit outside the `PF_*`
    /// bits is set.
    pub open spec fn wf(self) -> bool {
        self.bits & 0x7f == self.bits
    }

    /// Whether every bit of `other` is also set in `self`.
    pub open spec fn contains_spec(self, other: PageFlags) -> bool {
        self.bits & other.bits == other.bits
    }

    /// The empty flag set.
    pub fn empty() -> (r: PageFlags)
        ensures
            r.bits == 0,
            r.wf(),
    {
        proof {
            assert(0u8 & 0x7f == 0u8) by (bit_vector);
        }
        PageFlags { bits: 0 }
    }

    /// The flag set with exactly the given bits.
    pub fn from_bits(bits: u8) -> (r: PageFlags)
        requires
            bits & 0x7f == bits,
        ensures
            r.bits == bits,
            r.wf(),
    {
        PageFlags { bits }
    }

    /// Readable.
    pub fn r() -> (r: PageFlags)
        ensures
            r.bits == PF_R,
            r.wf(),
    {
        proof {
            assert(1u8 & 0x7f == 1u8) by (bit_vector);
        }
        PageFlags { bits: PF_R }
    }

    /// Readable and writable.
    pub fn rw() -> (r: PageFlags)
        ensures
            r.bits == PF_R | PF_W,
            r.wf(),
    {
        proof {
            assert(3u8 & 0x7f == 3u8) by (bit_vector);
            assert(1u8 | 2u8 == 3u8) by (bit_vector);
        }
        PageFlags { bits: 3 }
    }

    /// Readable and executable.
    pub fn rx() -> (r: PageFlags)
        ensures
            r.bits == PF_R | PF_X,
            r.wf(),
    {
        proof {
            assert(5u8 & 0x7f == 5u8) by (bit_vector);
            assert(1u8 | 4u8 == 5u8) by (bit_vector);
        }
        PageFlags { bits: 5 }
    }

    /// Readable, writable and executable.
    pub fn rwx() -> (r: PageFlags)
        ensures
            r.bits == PF_R | PF_W | PF_X,
            r.wf(),
    {
        proof {
            assert(7u8 & 0x7f == 7u8) by (bit_vector);
            assert(1u8 | 2u8 | 4u8 == 7u8) by (bit_vector);
        }
        PageFlags { bits: 7 }
    }

    /// Whether every bit of `other` is also set in `self`.
    pub fn contains(&self, other: PageFlags) -> (r: bool)
        ensures
            r == self.contains_spec(other),
    {
        self.bits & other.bits == other.bits
    }

    /// The union of the two flag sets.
    pub fn union(&self, other: PageFlags) -> (r: PageFlags)
        ensures
            r.bits == self.bits | other.bits,
            self.wf() && other.wf() ==> r.wf(),
    {
        proof {
            let a = self.bits;
            let b = other.bits;
            assert(a & 0x7f == a && b & 0x7f == b ==> (a | b) & 0x7f == (a | b)) by (bit_vector);
        }
        PageFlags { bits: self.bits | other.bits }
    }

    /// The flag set with every bit of `other` cleared.
    pub fn difference(&self, other: PageFlags) -> (r: PageFlags)
        ensures
            r.bits == self.bits & !other.bits,
            self.wf() ==> r.wf(),
    {
        proof {
            let a = self.bits;
            let b = other.bits;
            assert(a & 0x7f == a ==> (a & !b) & 0x7f == (a & !b)) by (bit_vector);
        }
        PageFlags { bits: self.bits & !other.bits }
    }

    /// Sets every bit of `other` in place.
    pub fn insert(&mut self, other: PageFlags)
        ensures
            final(self).bits == old(self).bits | other.bits,
    {
        self.bits = self.bits | other.bits;
    }

    /// Clears every bit of `other` in place.
    pub fn remove(&mut self, other: PageFlags)
        ensures
            final(self).bits == old(self).bits & !other.bits,
    {
        self.bits = self.bits & !other.bits;
    }
}

/// The bit for mappings accessible from user mode.
pub const PRIV_USER: u8 = 1;

/// The bit for mappings kept in the TLB across address-space switches.
pub const PRIV_GLOBAL: u8 = 2;

/// The privilege flags of a mapping, a set of the `PRIV_*` bits.
#[derive(Clone, Copy, Debug, PartialEq, Eq, Structural)]
pub struct PrivilegedPageFlags {
    /// The raw bit set; only the `PRIV_*` bits may be set.
    pub bits: u8,
}

impl PrivilegedPageFlags {
    /// Whether `self` is a well-formed privilege set: no bit outside the
    /// `PRIV_*` bits is set.
    pub open spec fn wf(self) -> bool {
        self.bits & 0x3 == self.bits
    }

    /// Whether every bit of `other` is also set in `self`.
    pub open spec fn contains_spec(self, other: PrivilegedPageFlags) -> bool {
        self.bits & other.bits == other.bits
    }

    /// The empty privilege set.
    pub fn empty() -> (r: PrivilegedPageFlags)
        ensures
            r.bits == 0,
            r.wf(),
    {
        proof {
            assert(0u8 & 0x3 == 0u8) by (bit_vector);
        }
        PrivilegedPageFlags { bits: 0 }
    }

    /// User-accessible.
    pub fn user() -> (r: PrivilegedPageFlags)
        ensures
            r.bits == PRIV_USER,
            r.wf(),
    {
        proof {
            assert(1u8 & 0x3 == 1u8) by (bit_vector);
        }
        PrivilegedPageFlags { bits: PRIV_USER }
    }

    /// Global (kept across address-space switches).
    pub fn global() -> (r: PrivilegedPageFlags)
        ensures
            r.bits == PRIV_GLOBAL,
            r.wf(),
    {
        proof {
            assert(2u8 & 0x3 == 2u8) by (bit_vector);
        }
        PrivilegedPageFlags { bits: PRIV_GLOBAL }
    }

    /// Whether every bit of `other` is also set in `self`.
    pub fn contains(&self, other: PrivilegedPageFlags) -> (r: bool)
        ensures
            r == self.contains_spec(other),
    {
        self.bits & other.bits == other.bits
    }

    /// The union of the two privilege sets.
    pub fn union(&self, other: PrivilegedPageFlags) -> (r: PrivilegedPageFlags)
        ensures
            r.bits == self.bits | other.bits,
            self.wf() && other.wf() ==> r.wf(),
    {
        proof {
            let a = self.bits;
            let b = other.bits;
            assert(a & 0x3 == a && b & 0x3 == b ==> (a | b) & 0x3 == (a | b)) by (bit_vector);
        }
        PrivilegedPageFlags { bits: self.bits | other.bits }
    }

    /// Sets every bit of `other` in place.
    pub fn insert(&mut self, other: PrivilegedPageFlags)
        ensures
            final(self).bits == old(self).bits | other.bits,
    {
        self.bits = self.bits | other.bits;
    }

    /// Clears every bit of `other` in place.
    pub fn remove(&mut self, other: PrivilegedPageFlags)
        ensures
            final(self).bits == old(self).bits & !other.bits,
    {
        self.bits = self.bits & !other.bits;
    }
}

/// The cache policy of a mapping, from the fully cached to the fully
/// uncached, in decreasing strength of caching.
#[derive(Clone, Copy, Debug, PartialEq, Eq, Structural)]
pub enum CachePolicy {
    /// Writes hit the cache and reach memory lazily.
    Writeback,
    /// Writes hit the cache and memory together.
    Writethrough,
    /// Writes bypass the cache but may combine in a write buffer.
    WriteCombining,
    /// Reads are cached, writes are not.
    WriteProtected,
    /// Neither reads nor writes are cached.
    Uncacheable,
}

/// The full property of one mapping: access flags, cache policy and
/// privilege flags.
#[derive(Clone, Copy, Debug, PartialEq, Eq, Structural)]
pub struct PageProperty {
    /// The access and status flags.
    pub flags: PageFlags,
    /// The cache policy.
    pub cache: CachePolicy,
    /// The privilege flags.
    pub priv_flags: PrivilegedPageFlags,
}

impl PageProperty {
    /// Whether both flag sets of the property are well formed.
    pub open spec fn wf(self) -> bool {
        self.flags.wf() && self.priv_flags.wf()
    }

    /// A property for a user-accessible mapping with the given flags and
    /// cache policy.
    pub fn new(flags: PageFlags, cache: CachePolicy) -> (r: PageProperty)
        ensures
            r.flags == flags,
            r.cache == cache,
            r.priv_flags.bits == PRIV_USER,
            flags.wf() ==> r.wf(),
    {
        PageProperty { flags, cache, priv_flags: PrivilegedPageFlags::user() }
    }

    /// The property that an absent slot reports: no access, no privilege,
    /// and the write-back policy.
    pub fn new_absent() -> (r: PageProperty)
        ensures
            r.flags.bits == 0,
            r.cache == CachePolicy::Writeback,
            r.priv_flags.bits == 0,
            r.wf(),
    {
        PageProperty {
            flags: PageFlags::empty(),
            cache: CachePolicy::Writeback,
            priv_flags: PrivilegedPageFlags::empty(),
        }
    }
}

/// One in-place change to a mapping's property, the form in which callers
/// hand a property transformation to `protect_next` and `copy_from`.
#[derive(Clone, Copy, Debug, PartialEq, Eq, Structural)]
pub enum PropertyOp {
    /// Replace the access flags.
    SetFlags(PageFlags),
    /// Set the given access-flag bits, keeping the others.
    AddFlags(PageFlags),
    /// Clear the given access-flag bits, keeping the others.
    RemoveFlags(PageFlags),
    /// Replace the cache policy.
    SetCache(CachePolicy),
}

impl PropertyOp {
    /// The property that applying this change to `prop` yields.
    pub open spec fn apply_spec(self, prop: PageProperty) -> PageProperty {
        match self {
            PropertyOp::SetFlags(f) => PageProperty { flags: f, ..prop },
            PropertyOp::AddFlags(f) => PageProperty {
                flags: PageFlags { bits: prop.flags.bits | f.bits },
                ..prop
            },
            PropertyOp::RemoveFlags(f) => PageProperty {
                flags: PageFlags { bits: prop.flags.bits & !f.bits },
                ..prop
            },
            PropertyOp::SetCache(c) => PageProperty { cache: c, ..prop },
        }
    }

    /// Applies this change to a copy of `prop` and returns the copy.
    pub fn apply(&self, prop: PageProperty) -> (r: PageProperty)
        ensures
            r == self.apply_spec(prop),
    {
        match self {
            PropertyOp::SetFlags(f) => PageProperty { flags: *f, ..prop },
            PropertyOp::AddFlags(f) => PageProperty {
                flags: PageFlags { bits: prop.flags.bits | f.bits },
                ..prop
            },
            PropertyOp::RemoveFlags(f) => PageProperty {
                flags: PageFlags { bits: prop.flags.bits & !f.bits },
                ..prop
            },
            PropertyOp::SetCache(c) => PageProperty { cache: *c, ..prop },
        }
    }
}

} // verus!
