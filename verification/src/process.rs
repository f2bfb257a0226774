//! Process control blocks and the bump allocator for process stacks.

use vstd::prelude::*;
use crate::frame::FRAME_BYTES;
use crate::layout::MemoryRegion;

verus! {

/// Capacity of the process table, and of the ready and sleep queues: the
/// fixed number of execution contexts known at build time.
pub const MAX_PROCS: usize = 8;

/// Why a blocked process is not runnable. The payload of `Sleeping` is the
/// absolute monotonic microsecond time at which the process becomes due.
#[derive(Clone, Copy, Debug, PartialEq, Eq, Structural)]
pub enum BlockReason {
    Sleeping(u64),
}

/// What a process is doing right now. Exactly one process is `Running` once
/// the kernel has started; `Ready` processes wait in the ready queue;
/// `Blocked` processes wait for their reason to pass.
#[derive(Clone, Copy, Debug, PartialEq, Eq, Structural)]
pub enum ProcessState {
    Ready,
    Running,
    Blocked(BlockReason),
}

/// One process control block: identity, state, where the saved register
/// frame lives, and the stack region the process owns for its lifetime.
/// `sp` is meaningful only while the process is not `Running`; while it
/// runs, the live value is in the CPU, not in memory.
#[derive(Clone, Copy, Debug, PartialEq, Eq, Structural)]
pub struct Pcb {
    pub pid: u8,
    pub state: ProcessState,
    pub sp: usize,
    pub stack_base: usize,
    pub stack_size: usize,
}

impl Pcb {
    /// The stack region fits in the address space and the saved stack
    /// pointer addresses a full frame inside the process's own stack.
    pub open spec fn wf(self) -> bool {
        &&& self.stack_base + self.stack_size <= usize::MAX
        &&& self.stack_base <= self.sp
        &&& self.sp + FRAME_BYTES <= self.stack_base + self.stack_size
    }
}

/// Failures of process creation: the stack request was too small to hold
/// even one saved frame, or the process memory region (or the process
/// table) is exhausted.
#[derive(Clone, Copy, Debug, PartialEq, Eq, Structural)]
pub enum ProcessError {
    NoMemory,
    InvalidSize,
}

/// Bump allocator over the process stack region: hands out consecutive,
/// non-overlapping stack regions and never reclaims them.
pub struct StackAllocator {
    region: MemoryRegion,
    next_free: usize,
}

impl StackAllocator {
    /// The region the allocator carves stacks out of.
    pub closed spec fn region_spec(self) -> MemoryRegion {
        self.region
    }

    /// Offset of the first byte not yet handed out.
    pub closed spec fn next_free_spec(self) -> int {
        self.next_free as int
    }

    /// The region is well formed and the bump offset stays inside it.
    pub open spec fn wf(self) -> bool {
        &&& self.region_spec().wf()
        &&& 0 <= self.next_free_spec() <= self.region_spec().size
    }

    /// Whether a request of `size` bytes fits in what is left.
    pub open spec fn can_allocate(self, size: usize) -> bool {
        0 < size <= self.region_spec().size - self.next_free_spec()
    }

    /// A fresh allocator over `region`, with nothing handed out yet.
    pub fn new(region: MemoryRegion) -> (a: StackAllocator)
        requires
            region.wf(),
        ensures
            a.wf(),
            a.region_spec() == region,
            a.next_free_spec() == 0,
    {
        StackAllocator { region, next_free: 0 }
    }

    /// Hands out the next `size` bytes of the region. Fails with
    /// `InvalidSize` on a zero-length request and with `NoMemory` when the
    /// region is exhausted; on failure nothing changes.
    pub fn allocate(&mut self, size: usize) -> (r: Result<usize, ProcessError>)
        requires
            old(self).wf(),
        ensures
            final(self).wf(),
            final(self).region_spec() == old(self).region_spec(),
            size == 0 ==> r == Err::<usize, ProcessError>(ProcessError::InvalidSize)
                && *final(self) == *old(self),
            size > 0 && !old(self).can_allocate(size) ==> r == Err::<usize, ProcessError>(
                ProcessError::NoMemory,
            ) && *final(self) == *old(self),
            old(self).can_allocate(size) ==> r == Ok::<usize, ProcessError>(
                (old(self).region_spec().start + old(self).next_free_spec()) as usize,
            ) && final(self).next_free_spec() == old(self).next_free_spec() + size,
    {
        if size == 0 {
            return Err(ProcessError::InvalidSize);
        }
        if size > self.region.size - self.next_free {
            return Err(ProcessError::NoMemory);
        }
        let base: usize = self.region.start + self.next_free;
        self.next_free = self.next_free + size;
        Ok(base)
    }
}

} // verus!
