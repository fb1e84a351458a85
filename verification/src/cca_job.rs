//! The job that runs the tests in a realm.

use crate::targets::{
    BuildOutput, BuildProfile, CommonArch, CommonPlatform, CommonTriple, OpenvmmFeature,
};
use vstd::prelude::*;
use vstd::string::*;

verus! {

/// What the job is asked to do.
#[derive(Debug)]
pub struct Params {
    /// The directory of everything that the tests need.
    pub test_root: String,
    /// Whether the tests are only built.
    pub build_only: bool,
    /// Whether to pause before the tests start.
    pub pause_before_start_tmk: bool,
    /// Whether to pause in the shell of the guest.
    pub interactive_vtl0_shell: bool,
}

/// A node that the job needs.
#[derive(Clone, Copy, Debug, PartialEq, Eq, Structural)]
pub enum Import {
    BuildOpenvmm,
    BuildTmkVmm,
    BuildUefiIgvm,
}

/// A build that the job asks for.
#[derive(Clone, Copy, Debug, PartialEq, Eq, Structural)]
pub enum BuildRequest {
    /// The monitor, with a feature, and with no version of its own.
    Openvmm { target: CommonTriple, profile: BuildProfile, feature: OpenvmmFeature },
    /// The monitor for test microkernels.
    TmkVmm { target: CommonTriple, profile: BuildProfile },
    /// The firmware image.
    UefiIgvm,
}

/// The nodes that the job needs.
pub open spec fn needed() -> Seq<Import> {
    seq![Import::BuildOpenvmm, Import::BuildTmkVmm, Import::BuildUefiIgvm]
}

/// The builds that the job asks for, all for a realm.
pub open spec fn requested() -> Seq<BuildRequest> {
    let target = CommonTriple { arch: CommonArch::Aarch64, platform: CommonPlatform::LinuxGnu };
    seq![
        BuildRequest::Openvmm {
            target,
            profile: BuildProfile::Debug,
            feature: OpenvmmFeature::VendoredCrypto,
        },
        BuildRequest::TmkVmm { target, profile: BuildProfile::Debug },
        BuildRequest::UefiIgvm,
    ]
}

/// An environment variable of the tests.
#[derive(Clone, Copy, Debug, PartialEq, Eq, Structural)]
pub enum EnvVar {
    TestRoot,
    Openvmm,
    UefiIgvm,
    TmkVmm,
    PauseBeforeStartTmk,
    InteractiveVtl0Shell,
}

impl EnvVar {
    /// The name of the variable.
    pub open spec fn text(self) -> Seq<char> {
        match self {
            EnvVar::TestRoot => "OPENVMM_CCA_TEST_ROOT"@,
            EnvVar::Openvmm => "OPENVMM_CCA_OPENVMM"@,
            EnvVar::UefiIgvm => "OPENVMM_CCA_UEFI_IGVM"@,
            EnvVar::TmkVmm => "OPENVMM_CCA_TMK_VMM"@,
            EnvVar::PauseBeforeStartTmk => "OPENVMM_CCA_PAUSE_BEFORE_START_TMK"@,
            EnvVar::InteractiveVtl0Shell => "OPENVMM_CCA_INTERACTIVE_VTL0_SHELL"@,
        }
    }

    /// Returns the name of the variable.
    pub fn name(self) -> (s: &'static str)
        ensures
            s@ == self.text(),
    {
        match self {
            EnvVar::TestRoot => "OPENVMM_CCA_TEST_ROOT",
            EnvVar::Openvmm => "OPENVMM_CCA_OPENVMM",
            EnvVar::UefiIgvm => "OPENVMM_CCA_UEFI_IGVM",
            EnvVar::TmkVmm => "OPENVMM_CCA_TMK_VMM",
            EnvVar::PauseBeforeStartTmk => "OPENVMM_CCA_PAUSE_BEFORE_START_TMK",
            EnvVar::InteractiveVtl0Shell => "OPENVMM_CCA_INTERACTIVE_VTL0_SHELL",
        }
    }
}

/// Why the job fails.
#[derive(Clone, Copy, Debug, PartialEq, Eq, Structural)]
pub enum JobError {
    /// The monitor is not a program for Linux.
    OpenvmmNotLinux,
    /// The monitor for test microkernels is not a program for Linux.
    TmkVmmNotLinux,
    /// The tests have failed.
    TestFailed,
}

impl JobError {
    /// The error as a text.
    pub open spec fn text(self) -> Seq<char> {
        match self {
            JobError::OpenvmmNotLinux => "expect Linux openvmm only"@,
            JobError::TmkVmmNotLinux => "expect Linux tmk_vmm only"@,
            JobError::TestFailed => "failed to run CCA runtime Petri test"@,
        }
    }

    /// Returns the error as a text.
    pub fn message(self) -> (s: &'static str)
        ensures
            s@ == self.text(),
    {
        match self {
            JobError::OpenvmmNotLinux => "expect Linux openvmm only",
            JobError::TmkVmmNotLinux => "expect Linux tmk_vmm only",
            JobError::TestFailed => "failed to run CCA runtime Petri test",
        }
    }
}

/// What the job does once everything is built.
#[derive(Debug)]
pub enum JobStep {
    /// Says what was built, line by line.
    Report(Vec<String>),
    /// Runs a command with some variables in its environment.
    Run { command: &'static str, env: Vec<(EnvVar, String)> },
}

/// What the job does once everything is built.
pub ghost enum JobStepView {
    Report(Seq<Seq<char>>),
    Run { command: Seq<char>, env: Seq<(EnvVar, Seq<char>)> },
}

/// Lines as values.
pub open spec fn lines_view(lines: Seq<String>) -> Seq<Seq<char>> {
    lines.map_values(|l: String| l@)
}

/// Variables as values.
pub open spec fn env_view(env: Seq<(EnvVar, String)>) -> Seq<(EnvVar, Seq<char>)> {
    env.map_values(|v: (EnvVar, String)| (v.0, v.1@))
}

impl View for JobStep {
    type V = JobStepView;

    open spec fn view(&self) -> JobStepView {
        match self {
            JobStep::Report(lines) => JobStepView::Report(lines_view(lines@)),
            JobStep::Run { command, env } => JobStepView::Run {
                command: command@,
                env: env_view(env@),
            },
        }
    }
}

/// The report on what was built.
pub open spec fn report(openvmm: Seq<char>, tmk_vmm: Seq<char>, uefi_igvm: Seq<char>) -> Seq<
    Seq<char>,
> {
    seq![
        "CCA test artifacts built; skipping Petri test because --build-only was specified"@,
        "openvmm: "@ + openvmm,
        "tmk_vmm: "@ + tmk_vmm,
        "AArch64 UEFI IGVM: "@ + uefi_igvm,
    ]
}

/// The variable for a switch, where it is on.
pub open spec fn switch(on: bool, variable: EnvVar) -> Seq<(EnvVar, Seq<char>)> {
    if on {
        seq![(variable, "1"@)]
    } else {
        Seq::empty()
    }
}

/// The environment of the tests.
pub open spec fn environment(
    params: Params,
    openvmm: Seq<char>,
    tmk_vmm: Seq<char>,
    uefi_igvm: Seq<char>,
) -> Seq<(EnvVar, Seq<char>)> {
    seq![
        (EnvVar::TestRoot, params.test_root@),
        (EnvVar::Openvmm, openvmm),
        (EnvVar::UefiIgvm, uefi_igvm),
        (EnvVar::TmkVmm, tmk_vmm),
    ] + switch(params.pause_before_start_tmk, EnvVar::PauseBeforeStartTmk) + switch(
        params.interactive_vtl0_shell,
        EnvVar::InteractiveVtl0Shell,
    )
}

/// What the job does with what was built.
pub open spec fn job_step(
    params: Params,
    openvmm: BuildOutput,
    tmk_vmm: BuildOutput,
    uefi_igvm: Seq<char>,
) -> Result<JobStepView, JobError> {
    match (openvmm, tmk_vmm) {
        (BuildOutput::WindowsBin { .. }, _) => Err(JobError::OpenvmmNotLinux),
        (_, BuildOutput::WindowsBin { .. }) => Err(JobError::TmkVmmNotLinux),
        (BuildOutput::LinuxBin { bin: first }, BuildOutput::LinuxBin { bin: second }) => Ok(
            if params.build_only {
                JobStepView::Report(report(first@, second@, uefi_igvm))
            } else {
                JobStepView::Run {
                    command: "cargo test -p vmm_tests --test cca"@,
                    env: environment(params, first@, second@, uefi_igvm),
                }
            },
        ),
    }
}

fn labelled(label: &str, value: &String) -> (s: String)
    ensures
        s@ == label@ + value@,
{
    let mut s = label.to_owned();
    s.append(value.as_str());
    s
}

fn set(env: &mut Vec<(EnvVar, String)>, variable: EnvVar, value: String)
    ensures
        env_view(final(env)@) == env_view(old(env)@).push((variable, value@)),
{
    let ghost before = env@;
    env.push((variable, value));
    assert(env_view(env@) =~= env_view(before).push((variable, value@)));
}

/// The job.
#[derive(Clone, Copy, Debug, PartialEq, Eq, Structural)]
pub struct Node;

impl Node {
    /// Returns the nodes that the job needs.
    pub fn imports() -> (nodes: Vec<Import>)
        ensures
            nodes@ == needed(),
    {
        let nodes = vec![Import::BuildOpenvmm, Import::BuildTmkVmm, Import::BuildUefiIgvm];
        assert(nodes@ =~= needed());
        nodes
    }

    /// Returns the builds that the job asks for.
    pub fn build_requests() -> (requests: Vec<BuildRequest>)
        ensures
            requests@ == requested(),
    {
        let target = CommonTriple { arch: CommonArch::Aarch64, platform: CommonPlatform::LinuxGnu };
        let requests = vec![
            BuildRequest::Openvmm {
                target,
                profile: BuildProfile::Debug,
                feature: OpenvmmFeature::VendoredCrypto,
            },
            BuildRequest::TmkVmm { target, profile: BuildProfile::Debug },
            BuildRequest::UefiIgvm,
        ];
        assert(requests@ =~= requested());
        requests
    }

    /// Decides what the job does with what was built.
    pub fn process_request(
        params: Params,
        openvmm: BuildOutput,
        tmk_vmm: BuildOutput,
        uefi_igvm: String,
    ) -> (r: Result<JobStep, JobError>)
        ensures
            match r {
                Ok(step) => job_step(params, openvmm, tmk_vmm, uefi_igvm@) == Ok::<
                    JobStepView,
                    JobError,
                >(step@),
                Err(e) => job_step(params, openvmm, tmk_vmm, uefi_igvm@) == Err::<
                    JobStepView,
                    JobError,
                >(e),
            },
    {
        let openvmm_bin = match openvmm {
            BuildOutput::LinuxBin { bin } => bin,
            BuildOutput::WindowsBin { .. } => {
                return Err(JobError::OpenvmmNotLinux);
            },
        };
        let tmk_vmm_bin = match tmk_vmm {
            BuildOutput::LinuxBin { bin } => bin,
            BuildOutput::WindowsBin { .. } => {
                return Err(JobError::TmkVmmNotLinux);
            },
        };
        if params.build_only {
            let lines = vec![
                "CCA test artifacts built; skipping Petri test because --build-only was specified"
                    .to_owned(),
                labelled("openvmm: ", &openvmm_bin),
                labelled("tmk_vmm: ", &tmk_vmm_bin),
                labelled("AArch64 UEFI IGVM: ", &uefi_igvm),
            ];
            assert(lines_view(lines@) =~= report(openvmm_bin@, tmk_vmm_bin@, uefi_igvm@));
            return Ok(JobStep::Report(lines));
        }
        let ghost expected = environment(params, openvmm_bin@, tmk_vmm_bin@, uefi_igvm@);
        let mut env: Vec<(EnvVar, String)> = Vec::new();
        set(&mut env, EnvVar::TestRoot, params.test_root);
        set(&mut env, EnvVar::Openvmm, openvmm_bin);
        set(&mut env, EnvVar::UefiIgvm, uefi_igvm);
        set(&mut env, EnvVar::TmkVmm, tmk_vmm_bin);
        if params.pause_before_start_tmk {
            set(&mut env, EnvVar::PauseBeforeStartTmk, "1".to_owned());
        }
        if params.interactive_vtl0_shell {
            set(&mut env, EnvVar::InteractiveVtl0Shell, "1".to_owned());
        }
        assert(env_view(env@) =~= expected);
        Ok(JobStep::Run { command: "cargo test -p vmm_tests --test cca", env })
    }
}

/// No variable is set twice.
pub proof fn lemma_variables_are_distinct(
    params: Params,
    openvmm: Seq<char>,
    tmk_vmm: Seq<char>,
    uefi_igvm: Seq<char>,
    i: int,
    j: int,
)
    requires
        0 <= i < j < environment(params, openvmm, tmk_vmm, uefi_igvm).len(),
    ensures
        environment(params, openvmm, tmk_vmm, uefi_igvm)[i].0 != environment(
            params,
            openvmm,
            tmk_vmm,
            uefi_igvm,
        )[j].0,
{
}

/// The value that a variable has in an environment, that of its first place.
pub open spec fn value_of(env: Seq<(EnvVar, Seq<char>)>, variable: EnvVar) -> Option<Seq<char>>
    decreases env.len(),
{
    if env.len() == 0 {
        None
    } else if env[0].0 == variable {
        Some(env[0].1)
    } else {
        value_of(env.drop_first(), variable)
    }
}

/// The tests get every path that they need under its own name, and each switch exactly if it is on.
pub proof fn lemma_tests_get_what_they_need(
    params: Params,
    openvmm: Seq<char>,
    tmk_vmm: Seq<char>,
    uefi_igvm: Seq<char>,
)
    ensures
        ({
            let env = environment(params, openvmm, tmk_vmm, uefi_igvm);
            &&& value_of(env, EnvVar::TestRoot) == Some(params.test_root@)
            &&& value_of(env, EnvVar::Openvmm) == Some(openvmm)
            &&& value_of(env, EnvVar::UefiIgvm) == Some(uefi_igvm)
            &&& value_of(env, EnvVar::TmkVmm) == Some(tmk_vmm)
            &&& value_of(env, EnvVar::PauseBeforeStartTmk) == if params.pause_before_start_tmk {
                Some("1"@)
            } else {
                None
            }
            &&& value_of(env, EnvVar::InteractiveVtl0Shell) == if params.interactive_vtl0_shell {
                Some("1"@)
            } else {
                None
            }
        }),
{
    let env = environment(params, openvmm, tmk_vmm, uefi_igvm);
    reveal_with_fuel(value_of, 7);
    let rest = env.drop_first().drop_first().drop_first().drop_first();
    assert(rest =~= switch(params.pause_before_start_tmk, EnvVar::PauseBeforeStartTmk) + switch(
        params.interactive_vtl0_shell,
        EnvVar::InteractiveVtl0Shell,
    ));
}

/// The job goes on exactly with two programs for Linux, and the monitor is looked at first. It runs
/// the tests unless they are only to be built; then it reports where each program and the image is.
pub proof fn lemma_job_wants_linux_programs(
    params: Params,
    openvmm: BuildOutput,
    tmk_vmm: BuildOutput,
    uefi_igvm: Seq<char>,
)
    ensures
        ({
            let r = job_step(params, openvmm, tmk_vmm, uefi_igvm);
            &&& r is Ok <==> openvmm is LinuxBin && tmk_vmm is LinuxBin
            &&& openvmm is WindowsBin ==> r == Err::<JobStepView, JobError>(
                JobError::OpenvmmNotLinux,
            )
            &&& openvmm is LinuxBin && tmk_vmm is WindowsBin ==> r == Err::<JobStepView, JobError>(
                JobError::TmkVmmNotLinux,
            )
            &&& (openvmm is LinuxBin && tmk_vmm is LinuxBin && !params.build_only) ==> {
                &&& r->Ok_0 matches JobStepView::Run { command, env }
                &&& command == "cargo test -p vmm_tests --test cca"@
                &&& value_of(env, EnvVar::Openvmm) == Some(openvmm->bin@)
                &&& value_of(env, EnvVar::TmkVmm) == Some(tmk_vmm->bin@)
                &&& value_of(env, EnvVar::UefiIgvm) == Some(uefi_igvm)
                &&& value_of(env, EnvVar::TestRoot) == Some(params.test_root@)
            }
            &&& (openvmm is LinuxBin && tmk_vmm is LinuxBin && params.build_only) ==> {
                &&& r->Ok_0 matches JobStepView::Report(lines)
                &&& lines.len() == 4
                &&& lines[1] == "openvmm: "@ + openvmm->bin@
                &&& lines[2] == "tmk_vmm: "@ + tmk_vmm->bin@
                &&& lines[3] == "AArch64 UEFI IGVM: "@ + uefi_igvm
            }
        }),
{
    if openvmm is LinuxBin && tmk_vmm is LinuxBin {
        lemma_tests_get_what_they_need(params, openvmm->bin@, tmk_vmm->bin@, uefi_igvm);
    }
}

} // verus!
