//! What is built, and for what.

use vstd::prelude::*;

verus! {

/// An instruction set to build for.
#[derive(Clone, Copy, Debug, PartialEq, Eq, Structural)]
pub enum CommonArch {
    /// 64-bit x86.
    X86_64,
    /// 64-bit Arm.
    Aarch64,
}

/// A platform to build for.
#[derive(Clone, Copy, Debug, PartialEq, Eq, Structural)]
pub enum CommonPlatform {
    /// Linux with the GNU C library.
    LinuxGnu,
}

/// A target to build for.
#[derive(Clone, Copy, Debug, PartialEq, Eq, Structural)]
pub struct CommonTriple {
    /// The instruction set.
    pub arch: CommonArch,
    /// The platform.
    pub platform: CommonPlatform,
}

/// How a target is optimized.
#[derive(Clone, Copy, Debug, PartialEq, Eq, Structural)]
pub enum BuildProfile {
    /// For debugging.
    Debug,
    /// For quick builds.
    Light,
}

/// A feature of the monitor.
#[derive(Clone, Copy, Debug, PartialEq, Eq, Structural)]
pub enum OpenvmmFeature {
    /// Cryptography is built from source.
    VendoredCrypto,
}

/// What a build has put out: the path of the program.
#[derive(Debug)]
pub enum BuildOutput {
    /// A program for Linux.
    LinuxBin { bin: String },
    /// A program for Windows.
    WindowsBin { exe: String },
}

} // verus!
