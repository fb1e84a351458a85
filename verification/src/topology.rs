//! The processors of the guest and their interrupt controller.

use vstd::prelude::*;

verus! {

/// The version of the interrupt controller.
#[derive(Clone, Copy, Debug, PartialEq, Eq, Structural)]
pub enum GicVersion {
    /// GICv2.
    V2,
    /// GICv3, with the address of its first redistributor.
    V3 { redistributors_base: u64 },
}

/// How much address space the parts of a GICv3 take up.
#[derive(Clone, Copy, Debug, PartialEq, Eq, Structural)]
pub struct GicSizes {
    /// The size of the distributor.
    pub distributor: u64,
    /// The size of the redistributor of one processor.
    pub redistributor: u64,
}

/// The processors of a 64-bit Arm guest and their interrupt controller.
#[derive(Debug)]
pub struct ProcessorTopology {
    /// The address of the distributor.
    pub gic_distributor_base: u64,
    /// The version of the interrupt controller.
    pub gic_version: GicVersion,
    /// The interrupt of the virtual timer.
    pub virt_timer_ppi: u32,
    /// How many interrupts there are.
    pub gic_nr_irqs: u32,
    /// The affinities of the processors, in the order of their indexes.
    pub mpidrs: Vec<u64>,
}

impl ProcessorTopology {
    /// The processors have 32-bit indexes.
    pub open spec fn wf(&self) -> bool {
        self.mpidrs@.len() <= u32::MAX
    }

    /// Returns the number of processors.
    pub fn vp_count(&self) -> (n: u32)
        requires
            self.wf(),
        ensures
            n == self.mpidrs@.len(),
    {
        self.mpidrs.len() as u32
    }
}

} // verus!
