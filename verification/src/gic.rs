//! The interrupt controller of a 64-bit Arm guest.

use crate::memory::MemoryRange;
use crate::topology::{GicSizes, GicVersion, ProcessorTopology};
use vstd::prelude::*;

verus! {

/// Why there is no interrupt controller.
#[derive(Clone, Copy, Debug, PartialEq, Eq, Structural)]
pub enum GicError {
    /// The interrupt controller is not a GICv3.
    Version,
    /// The end of the redistributors does not fit 64 bits.
    RedistributorOverflow,
    /// The end of the distributor does not fit 64 bits.
    DistributorOverflow,
}

impl GicError {
    /// The error as a text.
    pub open spec fn text(self) -> Seq<char> {
        match self {
            GicError::Version => "CCA Linux prototype requires GICv3"@,
            GicError::RedistributorOverflow => "GIC redistributor range overflowed"@,
            GicError::DistributorOverflow => "GIC distributor range overflowed"@,
        }
    }

    /// Returns the error as a text.
    pub fn message(self) -> (s: &'static str)
        ensures
            s@ == self.text(),
    {
        match self {
            GicError::Version => "CCA Linux prototype requires GICv3",
            GicError::RedistributorOverflow => "GIC redistributor range overflowed",
            GicError::DistributorOverflow => "GIC distributor range overflowed",
        }
    }
}

/// A redistributor to add to the interrupt controller.
#[derive(Clone, Copy, Debug, PartialEq, Eq, Structural)]
pub struct Redistributor {
    /// The affinity of its processor.
    pub mpidr: u64,
    /// Whether it is the last one.
    pub last: bool,
}

/// The error that the parts of an interrupt controller give, the first one of several.
pub open spec fn gic_error(topology: ProcessorTopology, sizes: GicSizes) -> Option<GicError> {
    match topology.gic_version {
        GicVersion::V2 => Some(GicError::Version),
        GicVersion::V3 { redistributors_base } => {
            if redistributors_base + sizes.redistributor * topology.mpidrs@.len() > u64::MAX {
                Some(GicError::RedistributorOverflow)
            } else if topology.gic_distributor_base + sizes.distributor > u64::MAX {
                Some(GicError::DistributorOverflow)
            } else {
                None
            }
        },
    }
}

/// The redistributors of the processors, in the order of their indexes.
pub open spec fn redistributors_of(mpidrs: Seq<u64>) -> Seq<Redistributor> {
    Seq::new(
        mpidrs.len(),
        |i: int| Redistributor { mpidr: mpidrs[i], last: i + 1 == mpidrs.len() },
    )
}

/// Where the interrupt controller is and what it is made of.
#[derive(Debug)]
pub struct PlatformGic {
    /// The addresses of the distributor.
    pub distributor_range: MemoryRange,
    /// The addresses of the redistributors.
    pub redistributor_range: MemoryRange,
    /// How many interrupts there are.
    pub nr_irqs: u32,
    /// The redistributors.
    pub redistributors: Vec<Redistributor>,
}

impl PlatformGic {
    /// An address belongs to the interrupt controller.
    pub open spec fn holds(&self, address: u64) -> bool {
        self.distributor_range.holds(address) || self.redistributor_range.holds(address)
    }

    /// The interrupt controller is that of some processors.
    pub open spec fn laid_out(&self, topology: ProcessorTopology, sizes: GicSizes) -> bool {
        let base = topology.gic_version->redistributors_base;
        &&& self.distributor_range.wf()
        &&& self.distributor_range.start() == topology.gic_distributor_base
        &&& self.distributor_range.end() == topology.gic_distributor_base + sizes.distributor
        &&& self.redistributor_range.wf()
        &&& self.redistributor_range.start() == base
        &&& self.redistributor_range.end() == base + sizes.redistributor * topology.mpidrs@.len()
        &&& self.nr_irqs == topology.gic_nr_irqs
        &&& self.redistributors@ == redistributors_of(topology.mpidrs@)
    }

    /// Lays out the interrupt controller of some processors.
    pub fn new(topology: &ProcessorTopology, sizes: GicSizes) -> (r: Result<Self, GicError>)
        requires
            topology.wf(),
        ensures
            match r {
                Err(e) => gic_error(*topology, sizes) == Some(e),
                Ok(gic) => gic_error(*topology, sizes) is None && gic.laid_out(*topology, sizes),
            },
    {
        let redistributors_base: u64 = match topology.gic_version {
            GicVersion::V3 { redistributors_base } => redistributors_base,
            GicVersion::V2 => {
                return Err(GicError::Version);
            },
        };
        let vp_count: u32 = topology.vp_count();
        assert(sizes.redistributor * vp_count >= 0) by (nonlinear_arith);
        let redistributors_size: u64 = match sizes.redistributor.checked_mul(vp_count as u64) {
            Some(size) => size,
            None => {
                return Err(GicError::RedistributorOverflow);
            },
        };
        let redistributors_end: u64 = match redistributors_base.checked_add(redistributors_size) {
            Some(end) => end,
            None => {
                return Err(GicError::RedistributorOverflow);
            },
        };
        let redistributor_range = MemoryRange::new(redistributors_base, redistributors_end);
        let distributor_base: u64 = topology.gic_distributor_base;
        let distributor_end: u64 = match distributor_base.checked_add(sizes.distributor) {
            Some(end) => end,
            None => {
                return Err(GicError::DistributorOverflow);
            },
        };
        let distributor_range = MemoryRange::new(distributor_base, distributor_end);
        let mut redistributors: Vec<Redistributor> = Vec::new();
        let count: usize = topology.mpidrs.len();
        let mut i: usize = 0;
        while i < count
            invariant
                i <= count,
                count == topology.mpidrs@.len(),
                redistributors@ == redistributors_of(topology.mpidrs@).take(i as int),
            decreases count - i,
        {
            redistributors.push(
                Redistributor { mpidr: topology.mpidrs[i], last: i + 1 == count },
            );
            i = i + 1;
            assert(redistributors@ =~= redistributors_of(topology.mpidrs@).take(i as int));
        }
        assert(redistributors@ =~= redistributors_of(topology.mpidrs@));
        Ok(
            PlatformGic {
                distributor_range,
                redistributor_range,
                nr_irqs: topology.gic_nr_irqs,
                redistributors,
            },
        )
    }

    /// Tells whether an address belongs to the interrupt controller.
    pub fn contains(&self, address: u64) -> (b: bool)
        ensures
            b == self.holds(address),
    {
        self.distributor_range.contains_addr(address) || self.redistributor_range.contains_addr(
            address,
        )
    }
}

/// Of the redistributors exactly the one of the last processor is marked as the last.
pub proof fn lemma_one_redistributor_is_last(mpidrs: Seq<u64>, i: int)
    requires
        0 <= i < mpidrs.len(),
    ensures
        redistributors_of(mpidrs)[i].last <==> i == mpidrs.len() - 1,
{
}

/// The interrupt controller of some processors takes up exactly the size of its distributor from
/// the address of the distributor on, and the size of one redistributor for each processor from the
/// address of the redistributors on.
pub proof fn lemma_interrupt_controller_has_its_addresses(
    gic: PlatformGic,
    topology: ProcessorTopology,
    sizes: GicSizes,
    address: u64,
)
    requires
        topology.gic_version is V3,
        gic.laid_out(topology, sizes),
    ensures
        gic.holds(address) <==> {
            let distributor = topology.gic_distributor_base as int;
            let redistributors = topology.gic_version->redistributors_base as int;
            ||| distributor <= address < distributor + sizes.distributor
            ||| redistributors <= address < redistributors + sizes.redistributor
                * topology.mpidrs@.len()
        },
        gic.nr_irqs == topology.gic_nr_irqs,
        gic.redistributors@.len() == topology.mpidrs@.len(),
        forall|i: int|
            0 <= i < topology.mpidrs@.len() ==> (#[trigger] gic.redistributors@[i]).mpidr
                == topology.mpidrs@[i] && gic.redistributors@[i].last == (i
                == topology.mpidrs@.len() - 1),
{
}

/// An interrupt controller can be had exactly if it is a GICv3 and neither part of it reaches
/// beyond the addresses that there are; what is wrong with the redistributors is said first.
pub proof fn lemma_interrupt_controller_must_fit(topology: ProcessorTopology, sizes: GicSizes)
    ensures
        gic_error(topology, sizes) is None <==> topology.gic_version is V3 && {
            &&& topology.gic_version->redistributors_base + sizes.redistributor
                * topology.mpidrs@.len() < 0x1_0000_0000_0000_0000
            &&& topology.gic_distributor_base + sizes.distributor < 0x1_0000_0000_0000_0000
        },
        gic_error(topology, sizes) == Some(GicError::Version) <==> topology.gic_version is V2,
        gic_error(topology, sizes) == Some(GicError::RedistributorOverflow) <==> (
        topology.gic_version is V3 && topology.gic_version->redistributors_base
            + sizes.redistributor * topology.mpidrs@.len() >= 0x1_0000_0000_0000_0000),
{
}

} // verus!
