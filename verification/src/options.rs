//! What a run is asked to do.

use vstd::prelude::*;

verus! {

/// The instruction set of the guest.
#[derive(Clone, Copy, Debug, PartialEq, Eq, Structural)]
pub enum GuestArch {
    /// 64-bit x86.
    X86_64,
    /// 64-bit Arm.
    Aarch64,
}

/// The hypervisor that runs the guest.
#[derive(Clone, Copy, Debug, PartialEq, Eq, Structural)]
pub enum HypervisorOpt {
    /// A realm of the Arm confidential compute architecture.
    Cca,
    /// Any other backend.
    Other,
}

/// The options of a run.
#[derive(Debug)]
pub struct Options {
    /// The hypervisor, once it is settled.
    pub hv: Option<HypervisorOpt>,
    /// The path of the test microkernel.
    pub tmk: Option<String>,
    /// The names of the tests to run; all of them when there is none.
    pub tests: Vec<String>,
    /// The path of a Linux image to boot in place of a test microkernel.
    pub linux_kernel: Option<String>,
    /// The path of the initial RAM file system of that image.
    pub linux_initrd: Option<String>,
    /// The command line of that image.
    pub linux_cmdline: String,
    /// The text on the console by which that image passes.
    pub linux_success_marker: Option<String>,
    /// Whether console output is passed through byte by byte.
    pub linux_serial_raw: bool,
    /// The size of guest memory in MiB.
    pub memory_mb: Option<u64>,
}

impl Options {
    /// There is something to run: a Linux image with its file system, or a test microkernel.
    pub open spec fn valid(self) -> bool {
        if self.linux_kernel is Some {
            self.linux_initrd is Some
        } else {
            self.tmk is Some
        }
    }
}

} // verus!
