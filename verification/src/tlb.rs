//! The TLB flusher: batches the invalidations that a mutating cursor's
//! changes make necessary, keeps the frames replaced by those changes alive,
//! and on dispatch performs the invalidations — escalating to a full flush
//! past a threshold — before it lets the replaced frames go.

use vstd::prelude::*;

use crate::cpu::{CpuId, CpuSet};
use crate::frame::{Frame, FrameRegistry};
use crate::{Vaddr, PAGE_SIZE};

verus! {

/// One pending or performed TLB invalidation.
#[derive(Clone, Copy, Debug, PartialEq, Eq, Structural)]
pub enum TlbFlushOp {
    /// Invalidate the translation of one virtual address.
    Address(Vaddr),
    /// Invalidate the translations of a virtual range, given as start and
    /// length.
    Range(Vaddr, u64),
    /// Invalidate the whole TLB, global entries aside.
    All,
}

/// Past this many bytes, a range unmap prefers one full flush over
/// per-address invalidations.
pub const FLUSH_ALL_RANGE_THRESHOLD: u64 = 32 * PAGE_SIZE;

/// Past this many batched operations, a dispatch escalates to one full
/// flush instead of performing them one by one.
pub const FLUSH_ALL_OPS_THRESHOLD: usize = 32;

/// How many of the frames in `s` lie on the page with slot index `j`: the
/// reference-count units a dispatch returns to that page.
pub open spec fn released_count(s: Seq<Frame>, j: int) -> nat
    decreases s.len(),
{
    if s.len() == 0 {
        0
    } else {
        released_count(s.drop_last(), j) + if s.last().paddr_spec() as int / PAGE_SIZE as int
            == j {
            1nat
        } else {
            0nat
        }
    }
}

/// The per-mutating-cursor TLB flusher.
///
/// `issue_tlb_flush` batches an invalidation; `issue_tlb_flush_with` batches
/// one together with the frame whose mapping it invalidates, which the
/// flusher keeps alive: a replaced frame must never be released before its
/// invalidation is dispatched, and the flusher's shape makes that
/// structurally impossible. `dispatch_tlb_flush` performs the batch — as a
/// single full flush when the batch is large — and only then releases the
/// kept frames.
#[derive(Debug)]
pub struct TlbFlusher {
    target_cpus: CpuSet,
    current_cpu: CpuId,
    pending_ops: Vec<TlbFlushOp>,
    deferred: Vec<Frame>,
    dispatched: Vec<TlbFlushOp>,
}

impl TlbFlusher {
    /// The CPUs on which the address space may be active: every dispatch
    /// covers them all.
    pub closed spec fn target_cpus_spec(&self) -> CpuSet {
        self.target_cpus
    }

    /// The CPU the cursor runs on.
    pub closed spec fn current_cpu_spec(&self) -> CpuId {
        self.current_cpu
    }

    /// The batched, not yet performed invalidations.
    pub closed spec fn pending_seq(&self) -> Seq<TlbFlushOp> {
        self.pending_ops@
    }

    /// The frames kept alive until the next dispatch.
    pub closed spec fn deferred_seq(&self) -> Seq<Frame> {
        self.deferred@
    }

    /// Every invalidation performed so far, in order.
    pub closed spec fn dispatched_seq(&self) -> Seq<TlbFlushOp> {
        self.dispatched@
    }

    /// A flusher for a cursor on `current_cpu` over a space that may be
    /// active on `target_cpus`; nothing batched, nothing kept.
    pub fn new(target_cpus: CpuSet, current_cpu: CpuId) -> (r: TlbFlusher)
        ensures
            r.target_cpus_spec() == target_cpus,
            r.current_cpu_spec() == current_cpu,
            r.pending_seq() == Seq::<TlbFlushOp>::empty(),
            r.deferred_seq() == Seq::<Frame>::empty(),
            r.dispatched_seq() == Seq::<TlbFlushOp>::empty(),
    {
        let r = TlbFlusher {
            target_cpus,
            current_cpu,
            pending_ops: Vec::new(),
            deferred: Vec::new(),
            dispatched: Vec::new(),
        };
        proof {
            assert(r.pending_ops@ =~= Seq::<TlbFlushOp>::empty());
            assert(r.deferred@ =~= Seq::<Frame>::empty());
            assert(r.dispatched@ =~= Seq::<TlbFlushOp>::empty());
        }
        r
    }

    /// How many invalidations are batched and not yet performed.
    pub fn pending_len(&self) -> (r: usize)
        ensures
            r == self.pending_seq().len(),
    {
        self.pending_ops.len()
    }

    /// How many frames are kept alive until the next dispatch.
    pub fn deferred_len(&self) -> (r: usize)
        ensures
            r == self.deferred_seq().len(),
    {
        self.deferred.len()
    }

    /// How many invalidations have been performed so far.
    pub fn dispatched_len(&self) -> (r: usize)
        ensures
            r == self.dispatched_seq().len(),
    {
        self.dispatched.len()
    }

    /// The `i`-th performed invalidation.
    pub fn dispatched_at(&self, i: usize) -> (r: TlbFlushOp)
        requires
            i < self.dispatched_seq().len(),
        ensures
            r == self.dispatched_seq()[i as int],
    {
        self.dispatched[i]
    }

    /// Whether a dispatch must signal any CPU beyond the current one.
    pub fn need_remote_flush(&self) -> (r: bool)
        requires
            self.current_cpu_spec() < 64,
        ensures
            r == !self.target_cpus_spec().only_on(self.current_cpu_spec()),
    {
        !self.target_cpus.is_subset_of_single(self.current_cpu)
    }

    /// Batches one invalidation.
    pub fn issue_tlb_flush(&mut self, op: TlbFlushOp)
        ensures
            final(self).pending_seq() == old(self).pending_seq().push(op),
            final(self).deferred_seq() == old(self).deferred_seq(),
            final(self).dispatched_seq() == old(self).dispatched_seq(),
            final(self).target_cpus_spec() == old(self).target_cpus_spec(),
            final(self).current_cpu_spec() == old(self).current_cpu_spec(),
    {
        self.pending_ops.push(op);
    }

    /// Batches one invalidation together with the frame whose mapping it
    /// invalidates; the frame is kept alive until the batch is dispatched.
    pub fn issue_tlb_flush_with(&mut self, op: TlbFlushOp, frame: Frame)
        ensures
            final(self).pending_seq() == old(self).pending_seq().push(op),
            final(self).deferred_seq() == old(self).deferred_seq().push(frame),
            final(self).dispatched_seq() == old(self).dispatched_seq(),
            final(self).target_cpus_spec() == old(self).target_cpus_spec(),
            final(self).current_cpu_spec() == old(self).current_cpu_spec(),
    {
        self.pending_ops.push(op);
        self.deferred.push(frame);
    }

    /// Performs the batched invalidations — as one full flush when more than
    /// `FLUSH_ALL_OPS_THRESHOLD` are batched — and only afterwards releases
    /// the kept frames: each page loses exactly one reference-count unit per
    /// kept frame on it, and pages reaching zero become reusable.
    pub fn dispatch_tlb_flush(&mut self, reg: &mut FrameRegistry)
        requires
            old(reg).wf(),
            forall|k: int|
                0 <= k < old(self).deferred_seq().len() ==> old(reg).in_range(
                    (#[trigger] old(self).deferred_seq()[k]).paddr_spec(),
                ),
            forall|j: int|
                0 <= j < old(reg).num_frames() ==> released_count(old(self).deferred_seq(), j) <= (
                #[trigger] old(reg).slots_seq()[j]).refcount,
        ensures
            final(reg).wf(),
            final(reg).num_frames() == old(reg).num_frames(),
            final(self).target_cpus_spec() == old(self).target_cpus_spec(),
            final(self).current_cpu_spec() == old(self).current_cpu_spec(),
            final(self).pending_seq() == Seq::<TlbFlushOp>::empty(),
            final(self).deferred_seq() == Seq::<Frame>::empty(),
            final(self).dispatched_seq() == (if old(self).pending_seq().len()
                > FLUSH_ALL_OPS_THRESHOLD {
                old(self).dispatched_seq().push(TlbFlushOp::All)
            } else {
                old(self).dispatched_seq() + old(self).pending_seq()
            }),
            forall|j: int|
                0 <= j < old(reg).num_frames() ==> (#[trigger] final(reg).slots_seq()[j]).refcount
                    == old(reg).slots_seq()[j].refcount - released_count(
                    old(self).deferred_seq(),
                    j,
                ),
            forall|j: int|
                0 <= j < old(reg).num_frames() && final(reg).slots_seq()[j].refcount > 0 ==> (
                #[trigger] final(reg).slots_seq()[j]).state == old(reg).slots_seq()[j].state,
    {
        // Record the invalidations first.
        let mut ops: Vec<TlbFlushOp> = Vec::new();
        core::mem::swap(&mut ops, &mut self.pending_ops);
        if ops.len() > FLUSH_ALL_OPS_THRESHOLD {
            self.dispatched.push(TlbFlushOp::All);
        } else {
            self.dispatched.append(&mut ops);
        }
        proof {
            assert(self.pending_ops@ =~= Seq::<TlbFlushOp>::empty());
        }
        // Only now may the kept frames go.
        let ghost orig = self.deferred@;
        let ghost reg0 = reg.slots_seq();
        proof {
            assert(self.deferred@ =~= orig.subrange(0, self.deferred@.len() as int));
            assert(orig == old(self).deferred_seq());
            assert forall|k: int| 0 <= k < orig.len() implies old(reg).in_range(
                (#[trigger] orig[k]).paddr_spec(),
            ) by {
                assert(old(reg).in_range(old(self).deferred_seq()[k].paddr_spec()));
            }
        }
        while self.deferred.len() > 0
            invariant
                reg.wf(),
                reg.num_frames() == old(reg).num_frames(),
                reg0 == old(reg).slots_seq(),
                orig == old(self).deferred_seq(),
                self.deferred@ == orig.subrange(0, self.deferred@.len() as int),
                self.deferred@.len() <= orig.len(),
                forall|k: int|
                    0 <= k < orig.len() ==> old(reg).in_range(
                        (#[trigger] orig[k]).paddr_spec(),
                    ),
                forall|j: int|
                    0 <= j < reg.num_frames() ==> (#[trigger] reg.slots_seq()[j]).refcount == reg0[j].refcount
                        - released_count(orig, j) + released_count(self.deferred@, j),
                forall|j: int|
                    0 <= j < reg.num_frames() && reg.slots_seq()[j].refcount > 0 ==> (
                    #[trigger] reg.slots_seq()[j]).state == reg0[j].state,
                forall|j: int|
                    0 <= j < reg.num_frames() ==> released_count(self.deferred@, j) <= (
                    #[trigger] reg.slots_seq()[j]).refcount,
                self.pending_ops@ == Seq::<TlbFlushOp>::empty(),
                self.dispatched@ == (if old(self).pending_seq().len() > FLUSH_ALL_OPS_THRESHOLD {
                    old(self).dispatched_seq().push(TlbFlushOp::All)
                } else {
                    old(self).dispatched_seq() + old(self).pending_seq()
                }),
                self.target_cpus == old(self).target_cpus_spec(),
                self.current_cpu == old(self).current_cpu_spec(),
            decreases self.deferred@.len(),
        {
            let ghost before = self.deferred@;
            let frame = match self.deferred.pop() {
                Some(f) => f,
                None => {
                    proof {
                        assert(false);
                    }
                    vstd::pervasive::unreached()
                },
            };
            proof {
                assert(before.drop_last() =~= self.deferred@);
                assert(frame == before.last());
                assert(before == orig.subrange(0, before.len() as int));
                assert(self.deferred@ =~= orig.subrange(0, self.deferred@.len() as int));
                let jf = frame.paddr_spec() as int / PAGE_SIZE as int;
                assert(released_count(before, jf) == released_count(self.deferred@, jf) + 1);
                assert(reg.slots_seq()[jf].refcount >= 1);
            }
            reg.release_frame(frame);
        }
        proof {
            assert(self.deferred@ =~= Seq::<Frame>::empty());
            assert(released_count(Seq::<Frame>::empty(), 0) == 0);
            assert forall|j: int|
                0 <= j < reg.num_frames() implies (#[trigger] reg.slots_seq()[j]).refcount == reg0[j].refcount
                - released_count(orig, j) by {
                assert(released_count(self.deferred@, j) == 0);
            }
        }
    }
}

} // verus!
