//! Named address regions of the platform's memory map.

use vstd::prelude::*;

verus! {

/// A contiguous address region, given as a start address and a size in bytes.
#[derive(Clone, Copy)]
pub struct MemoryRegion {
    pub start: usize,
    pub size: usize,
}

impl MemoryRegion {
    /// A region is well formed when its end does not overflow the address
    /// space.
    pub open spec fn wf(self) -> bool {
        self.start + self.size <= usize::MAX
    }

    /// The end address of the region (one past its last byte).
    pub fn end(&self) -> (r: usize)
        requires
            self.wf(),
        ensures
            r == self.start + self.size,
    {
        self.start + self.size
    }

    /// Whether `addr` lies within the region.
    pub fn contains(&self, addr: usize) -> (r: bool)
        requires
            self.wf(),
        ensures
            r == (self.start <= addr < self.start + self.size),
    {
        addr >= self.start && addr < self.end()
    }
}

/// The named regions the kernel cares about: its own data, a reserved
/// region, and the region that process stacks are carved out of. On real
/// hardware the three pairs come from the platform's memory map; the kernel
/// only ever reads them as plain start/size values.
#[derive(Clone, Copy)]
pub struct MemoryLayout {
    pub kernel_data: MemoryRegion,
    pub wifi: MemoryRegion,
    pub processes: MemoryRegion,
}

impl MemoryLayout {
    /// All three regions are well formed.
    pub open spec fn wf(self) -> bool {
        self.kernel_data.wf() && self.wifi.wf() && self.processes.wf()
    }

    /// Packages the three regions of the platform's memory map.
    pub fn new(kernel_data: MemoryRegion, wifi: MemoryRegion, processes: MemoryRegion) -> (r:
        MemoryLayout)
        ensures
            r.kernel_data == kernel_data,
            r.wifi == wifi,
            r.processes == processes,
    {
        MemoryLayout { kernel_data, wifi, processes }
    }
}

} // verus!
