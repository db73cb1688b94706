//! CPUs as the address-space layer sees them: an identifier, a set of
//! identifiers, and the information a page fault hands to its handler.

use vstd::prelude::*;

use crate::Vaddr;

verus! {

/// The identifier of one CPU; the machine model holds up to 64 CPUs.
pub type CpuId = u64;

/// A set of CPUs, one bit per identifier.
#[derive(Clone, Copy, Debug, PartialEq, Eq, Structural)]
pub struct CpuSet {
    /// The raw bit set: bit `c` stands for CPU `c`.
    pub bits: u64,
}

impl CpuSet {
    /// Whether CPU `c` is in the set.
    pub open spec fn contains_spec(self, c: CpuId) -> bool {
        c < 64 && (self.bits >> c) & 1 == 1
    }

    /// Whether the set holds no CPU but possibly `c`.
    pub open spec fn only_on(self, c: CpuId) -> bool {
        c < 64 && self.bits & !(1u64 << c) == 0
    }

    /// The empty set.
    pub fn new_empty() -> (r: CpuSet)
        ensures
            r.bits == 0,
            forall|c: CpuId| !r.contains_spec(c),
    {
        proof {
            assert forall|c: CpuId| !(CpuSet { bits: 0u64 }).contains_spec(c) by {
                if c < 64 {
                    let cv = c;
                    assert((0u64 >> cv) & 1 == 0) by (bit_vector);
                }
            }
        }
        CpuSet { bits: 0 }
    }

    /// Adds CPU `c` to the set.
    pub fn add(&mut self, c: CpuId)
        requires
            c < 64,
        ensures
            final(self).bits == old(self).bits | (1u64 << c),
            final(self).contains_spec(c),
            forall|c2: CpuId| old(self).contains_spec(c2) ==> final(self).contains_spec(c2),
            forall|c2: CpuId|
                final(self).contains_spec(c2) ==> old(self).contains_spec(c2) || c2 == c,
    {
        let ghost oldbits = self.bits;
        self.bits = self.bits | (1u64 << c);
        proof {
            let nb = self.bits;
            assert(((oldbits | (1u64 << c)) >> c) & 1 == 1) by (bit_vector)
                requires
                    c < 64,
            ;
            assert forall|c2: CpuId|
                old(self).contains_spec(c2) implies final(self).contains_spec(c2) by {
                if c2 < 64 {
                    assert((oldbits >> c2) & 1 == 1 ==> ((oldbits | (1u64 << c)) >> c2) & 1 == 1)
                        by (bit_vector);
                }
            }
            assert forall|c2: CpuId|
                final(self).contains_spec(c2) implies old(self).contains_spec(c2) || c2 == c by {
                if c2 < 64 {
                    assert(((oldbits | (1u64 << c)) >> c2) & 1 == 1 && c2 != c ==> (oldbits >> c2)
                        & 1 == 1) by (bit_vector)
                        requires
                            c < 64,
                    ;
                }
            }
        }
    }

    /// Removes CPU `c` from the set.
    pub fn remove(&mut self, c: CpuId)
        requires
            c < 64,
        ensures
            final(self).bits == old(self).bits & !(1u64 << c),
            !final(self).contains_spec(c),
            forall|c2: CpuId|
                final(self).contains_spec(c2) <==> old(self).contains_spec(c2) && c2 != c,
    {
        let ghost oldbits = self.bits;
        self.bits = self.bits & !(1u64 << c);
        proof {
            assert(((oldbits & !(1u64 << c)) >> c) & 1 == 0) by (bit_vector)
                requires
                    c < 64,
            ;
            assert forall|c2: CpuId|
                final(self).contains_spec(c2) <==> old(self).contains_spec(c2) && c2 != c by {
                if c2 < 64 {
                    assert(((oldbits & !(1u64 << c)) >> c2) & 1 == (if c2 == c {
                        0u64
                    } else {
                        (oldbits >> c2) & 1
                    })) by (bit_vector)
                        requires
                            c < 64,
                            c2 < 64,
                    ;
                }
            }
        }
    }

    /// Whether CPU `c` is in the set.
    pub fn contains(&self, c: CpuId) -> (r: bool)
        ensures
            r == self.contains_spec(c),
    {
        c < 64 && (self.bits >> c) & 1 == 1
    }

    /// Whether the set holds no CPU at all.
    pub fn is_empty(&self) -> (r: bool)
        ensures
            r == (self.bits == 0),
            r ==> forall|c: CpuId| !self.contains_spec(c),
    {
        proof {
            if self.bits == 0 {
                assert forall|c: CpuId| !self.contains_spec(c) by {
                    if c < 64 {
                        let cv = c;
                        assert((0u64 >> cv) & 1 == 0) by (bit_vector);
                    }
                }
            }
        }
        self.bits == 0
    }

    /// Whether the set holds no CPU other than (possibly) `c`.
    pub fn is_subset_of_single(&self, c: CpuId) -> (r: bool)
        requires
            c < 64,
        ensures
            r == self.only_on(c),
            r ==> forall|c2: CpuId| self.contains_spec(c2) ==> c2 == c,
    {
        let r = self.bits & !(1u64 << c) == 0;
        proof {
            let bits = self.bits;
            if r {
                assert forall|c2: CpuId| self.contains_spec(c2) implies c2 == c by {
                    if c2 < 64 {
                        assert(bits & !(1u64 << c) == 0 && (bits >> c2) & 1 == 1 && c < 64 && c2
                            < 64 ==> c2 == c) by (bit_vector);
                    }
                }
            }
        }
        r
    }
}

/// What the hardware reports with a CPU exception that the address-space
/// layer may be asked to handle as a page fault.
#[derive(Clone, Copy, Debug, PartialEq, Eq, Structural)]
pub struct CpuExceptionInfo {
    /// The faulting virtual address.
    pub page_fault_addr: Vaddr,
    /// The architecture's error code for the fault.
    pub error_code: u64,
}

impl CpuExceptionInfo {
    /// An exception record for a fault at `addr` with the given error code.
    pub fn new(page_fault_addr: Vaddr, error_code: u64) -> (r: CpuExceptionInfo)
        ensures
            r.page_fault_addr == page_fault_addr,
            r.error_code == error_code,
    {
        CpuExceptionInfo { page_fault_addr, error_code }
    }
}

} // verus!
