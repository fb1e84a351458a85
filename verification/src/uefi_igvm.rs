//! The build of a firmware image for 64-bit Arm.

use crate::targets::{BuildOutput, BuildProfile, CommonArch, CommonPlatform, CommonTriple};
use crate::text::{join_path, joined, PathRules};
use vstd::prelude::*;

verus! {

/// A node that the build needs.
#[derive(Clone, Copy, Debug, PartialEq, Eq, Structural)]
pub enum Import {
    BuildIgvmfilegen,
    DownloadUefiMuMsvm,
    GitCheckoutOpenvmmRepo,
    RunIgvmfilegen,
}

/// What goes into a firmware image.
#[derive(Clone, Copy, Debug, PartialEq, Eq, Structural)]
pub enum ResourceType {
    /// The firmware.
    Uefi,
}

/// What the build asks for before it runs the image generator.
#[derive(Clone, Copy, Debug, PartialEq, Eq, Structural)]
pub struct Requirements {
    /// The instruction set of the firmware.
    pub firmware: CommonArch,
    /// The target of the image generator.
    pub generator: CommonTriple,
    /// How the image generator is optimized.
    pub profile: BuildProfile,
}

/// How the image generator is run.
#[derive(Debug)]
pub struct Request {
    /// The path of the image generator.
    pub igvmfilegen: String,
    /// The path of the manifest.
    pub manifest: String,
    /// What goes into the image.
    pub resources: Vec<(ResourceType, String)>,
    /// Whether the secure interrupt controller is left out.
    pub disable_secure_avic: bool,
}

/// The nodes that the build needs.
pub open spec fn needed() -> Seq<Import> {
    seq![
        Import::BuildIgvmfilegen,
        Import::DownloadUefiMuMsvm,
        Import::GitCheckoutOpenvmmRepo,
        Import::RunIgvmfilegen,
    ]
}

/// The path of the program that a build has put out.
pub open spec fn program(output: BuildOutput) -> Seq<char> {
    match output {
        BuildOutput::LinuxBin { bin } => bin@,
        BuildOutput::WindowsBin { exe } => exe@,
    }
}

/// The build.
#[derive(Clone, Copy, Debug, PartialEq, Eq, Structural)]
pub struct Node;

impl Node {
    /// Returns the nodes that the build needs.
    pub fn imports() -> (nodes: Vec<Import>)
        ensures
            nodes@ == needed(),
    {
        let nodes = vec![
            Import::BuildIgvmfilegen,
            Import::DownloadUefiMuMsvm,
            Import::GitCheckoutOpenvmmRepo,
            Import::RunIgvmfilegen,
        ];
        assert(nodes@ =~= needed());
        nodes
    }

    /// Returns what the build asks for on a host: firmware for 64-bit Arm, and an image generator
    /// that runs on the host.
    pub fn requirements(host: CommonArch) -> (r: Requirements)
        ensures
            r == (Requirements {
                firmware: CommonArch::Aarch64,
                generator: CommonTriple { arch: host, platform: CommonPlatform::LinuxGnu },
                profile: BuildProfile::Light,
            }),
    {
        Requirements {
            firmware: CommonArch::Aarch64,
            generator: CommonTriple { arch: host, platform: CommonPlatform::LinuxGnu },
            profile: BuildProfile::Light,
        }
    }

    /// Puts together how the image generator is run, from the directory of the repository, the path
    /// of the firmware and the image generator that was built. The manifest is looked up from the
    /// repository by the rules of the host.
    pub fn process_request(
        repo: &str,
        rules: PathRules,
        uefi: String,
        igvmfilegen: BuildOutput,
    ) -> (r: Request)
        ensures
            r.igvmfilegen@ == program(igvmfilegen),
            rules == PathRules::Unix ==> r.manifest@ == joined(
                repo@,
                "vm/loader/manifests/uefi-aarch64.json"@,
            ),
            r.resources@ == seq![(ResourceType::Uefi, uefi)],
            !r.disable_secure_avic,
    {
        let manifest = join_path(repo, "vm/loader/manifests/uefi-aarch64.json", rules);
        Self::request(manifest, uefi, igvmfilegen)
    }

    /// Puts together how the image generator is run with some manifest.
    pub fn request(manifest: String, uefi: String, igvmfilegen: BuildOutput) -> (r: Request)
        ensures
            r.igvmfilegen@ == program(igvmfilegen),
            r.manifest == manifest,
            r.resources@ == seq![(ResourceType::Uefi, uefi)],
            !r.disable_secure_avic,
    {
        let resources = vec![(ResourceType::Uefi, uefi)];
        assert(resources@ =~= seq![(ResourceType::Uefi, uefi)]);
        let igvmfilegen = match igvmfilegen {
            BuildOutput::LinuxBin { bin } => bin,
            BuildOutput::WindowsBin { exe } => exe,
        };
        Request { igvmfilegen, manifest, resources, disable_secure_avic: false }
    }
}

/// The image generator that is run is the program that was built, whatever it was built for.
pub proof fn lemma_program_is_the_one_built(path: String)
    ensures
        program(BuildOutput::LinuxBin { bin: path }) == path@,
        program(BuildOutput::WindowsBin { exe: path }) == path@,
{
}

} // verus!
