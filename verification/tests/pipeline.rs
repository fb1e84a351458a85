use tmk_vmm::cca_job;
use tmk_vmm::cca_job::{BuildRequest, JobError, JobStep, Params};
use tmk_vmm::pipeline::{CcaTestsCli, CcaTestsUpdateEmuSubCmds, Pipeline};
use tmk_vmm::targets::{
    BuildOutput, BuildProfile, CommonArch, CommonPlatform, CommonTriple, OpenvmmFeature,
};
use tmk_vmm::text::PathRules;
use tmk_vmm::uefi_igvm;

fn cli() -> CcaTestsCli {
    CcaTestsCli {
        test_root: "target/cca-test".to_string(),
        install_emu: false,
        update_emu: false,
        build_only: false,
        custom_uefi: None,
        pause_before_start_tmk: false,
        interactive_vtl0_shell: false,
        verbose: false,
        update_emu_subcmds: CcaTestsUpdateEmuSubCmds {
            rebuild_plane0_linux: true,
            rebuild_rootfs: false,
            tfa_rev: Some("v1".to_string()),
            tfrmm_rev: None,
            plane0_linux_rev: Some("v2".to_string()),
        },
    }
}

fn labels(p: &Pipeline) -> Vec<&str> {
    p.jobs.iter().map(|j| j.label).collect()
}

#[test]
fn an_installation_checks_first_and_runs_no_tests() {
    let mut c = cli();
    c.install_emu = true;
    c.update_emu = true;
    let p = c.into_pipeline("/repo", PathRules::Unix);
    assert_eq!(
        labels(&p),
        [
            "cca-tests: check existence of emulation environment needed tools",
            "cca-tests: install emulation environment",
        ]
    );
    assert_eq!(p.waits, [(1, 0)]);
    assert_eq!(
        format!("{:?}", p.jobs[0].parts),
        "[InstallDistPkg { interactive: true, skip_update: false }, CheckPrereq]"
    );
    assert_eq!(
        format!("{:?}", p.jobs[1].parts),
        "[GitCheckout { require_local_clones: false }, InstallGit { auto_install: true }, \
         InstallDistPkg { interactive: true, skip_update: false }, \
         InstallEmu { test_root: \"/repo/target/cca-test\", openvmm_root: \"/repo\" }]"
    );
}

#[test]
fn tests_wait_for_an_update() {
    let mut c = cli();
    c.update_emu = true;
    let p = c.into_pipeline("/repo", PathRules::Unix);
    assert_eq!(
        labels(&p),
        ["cca-tests: update emulation environment", "cca-tests: run cca tests"]
    );
    assert_eq!(p.waits, [(1, 0)]);
    assert_eq!(
        format!("{:?}", p.jobs[0].parts),
        "[UpdateEmu { test_root: \"/repo/target/cca-test\", openvmm_root: \"/repo\", \
         sub_cmds: CcaTestsUpdateEmuSubCmds { rebuild_plane0_linux: true, \
         rebuild_rootfs: false, tfa_rev: Some(\"v1\"), tfrmm_rev: None, \
         plane0_linux_rev: Some(\"v2\") } }]"
    );
}

#[test]
fn tests_run_alone() {
    let mut c = cli();
    c.test_root = "/data".to_string();
    c.build_only = true;
    c.verbose = true;
    let p = c.into_pipeline("/repo", PathRules::Unix);
    assert_eq!(labels(&p), ["cca-tests: run cca tests"]);
    assert_eq!(p.waits, []);
    assert_eq!(
        format!("{:?}", p.jobs[0].parts),
        "[InitVersions, RepoSource { existing_clone: \"/repo\" }, \
         Common { interactive: true, auto_install: true, ignore_rust_version: true, \
         verbose: true, locked: false, deny_warnings: false, no_incremental: false }, \
         RunTest(Params { test_root: \"/data\", build_only: true, \
         pause_before_start_tmk: false, interactive_vtl0_shell: false })]"
    );
}

#[test]
fn a_firmware_of_ones_own_is_taken() {
    let mut c = cli();
    c.custom_uefi = Some("MSVM.fd".to_string());
    c.pause_before_start_tmk = true;
    let p = c.into_pipeline("/repo", PathRules::Unix);
    let parts = format!("{:?}", p.jobs[0].parts);
    assert!(parts.starts_with(
        "[InitVersions, LocalUefi { arch: Aarch64, path: \"MSVM.fd\" }, RepoSource"
    ));
    assert!(parts.contains("pause_before_start_tmk: true"));
}

fn params(build_only: bool, pause: bool, interactive: bool) -> Params {
    Params {
        test_root: "/data".to_string(),
        build_only,
        pause_before_start_tmk: pause,
        interactive_vtl0_shell: interactive,
    }
}

fn linux(path: &str) -> BuildOutput {
    BuildOutput::LinuxBin { bin: path.to_string() }
}

fn windows() -> BuildOutput {
    BuildOutput::WindowsBin { exe: "x.exe".to_string() }
}

fn step(p: Params) -> JobStep {
    cca_job::Node::process_request(p, linux("/o"), linux("/t"), "/u".to_string()).unwrap()
}

#[test]
fn the_job_builds_for_a_realm() {
    let target = CommonTriple { arch: CommonArch::Aarch64, platform: CommonPlatform::LinuxGnu };
    assert_eq!(
        cca_job::Node::build_requests(),
        [
            BuildRequest::Openvmm {
                target,
                profile: BuildProfile::Debug,
                feature: OpenvmmFeature::VendoredCrypto,
            },
            BuildRequest::TmkVmm { target, profile: BuildProfile::Debug },
            BuildRequest::UefiIgvm,
        ]
    );
    assert_eq!(
        format!("{:?}", cca_job::Node::imports()),
        "[BuildOpenvmm, BuildTmkVmm, BuildUefiIgvm]"
    );
}

#[test]
fn a_build_alone_is_reported() {
    let JobStep::Report(lines) = step(params(true, true, true)) else {
        panic!("a report");
    };
    assert_eq!(
        lines,
        [
            "CCA test artifacts built; skipping Petri test because --build-only was specified",
            "openvmm: /o",
            "tmk_vmm: /t",
            "AArch64 UEFI IGVM: /u",
        ]
    );
}

fn environment(p: Params) -> Vec<(&'static str, String)> {
    let JobStep::Run { command, env } = step(p) else {
        panic!("a run");
    };
    assert_eq!(command, "cargo test -p vmm_tests --test cca");
    env.into_iter().map(|(name, value)| (name.name(), value)).collect()
}

#[test]
fn tests_get_their_environment() {
    let base = [
        ("OPENVMM_CCA_TEST_ROOT", "/data".to_string()),
        ("OPENVMM_CCA_OPENVMM", "/o".to_string()),
        ("OPENVMM_CCA_UEFI_IGVM", "/u".to_string()),
        ("OPENVMM_CCA_TMK_VMM", "/t".to_string()),
    ];
    assert_eq!(environment(params(false, false, false)), base);
    let mut both = base.to_vec();
    both.push(("OPENVMM_CCA_PAUSE_BEFORE_START_TMK", "1".to_string()));
    both.push(("OPENVMM_CCA_INTERACTIVE_VTL0_SHELL", "1".to_string()));
    assert_eq!(environment(params(false, true, true)), both);
    let env = environment(params(false, false, true));
    assert_eq!(env.len(), 5);
    assert_eq!(env[4].0, "OPENVMM_CCA_INTERACTIVE_VTL0_SHELL");
}

#[test]
fn the_job_wants_linux_programs() {
    let run = |openvmm, tmk_vmm| {
        cca_job::Node::process_request(
            params(true, false, false),
            openvmm,
            tmk_vmm,
            "/u".to_string(),
        )
        .map(|_| ())
    };
    assert_eq!(run(windows(), windows()), Err(JobError::OpenvmmNotLinux));
    assert_eq!(run(linux("/o"), windows()), Err(JobError::TmkVmmNotLinux));
    assert_eq!(run(linux("/o"), linux("/t")), Ok(()));
    assert_eq!(JobError::OpenvmmNotLinux.message(), "expect Linux openvmm only");
    assert_eq!(JobError::TmkVmmNotLinux.message(), "expect Linux tmk_vmm only");
    assert_eq!(JobError::TestFailed.message(), "failed to run CCA runtime Petri test");
}

#[test]
fn the_firmware_image_is_put_together() {
    assert_eq!(
        format!("{:?}", uefi_igvm::Node::imports()),
        "[BuildIgvmfilegen, DownloadUefiMuMsvm, GitCheckoutOpenvmmRepo, RunIgvmfilegen]"
    );
    let needs = uefi_igvm::Node::requirements(CommonArch::X86_64);
    assert_eq!(needs.firmware, CommonArch::Aarch64);
    assert_eq!(needs.generator.arch, CommonArch::X86_64);
    assert_eq!(needs.profile, BuildProfile::Light);
    let request =
        uefi_igvm::Node::process_request(
            "/repo",
            PathRules::Unix,
            "/fw/MSVM.fd".to_string(),
            linux("/gen"),
        );
    assert_eq!(request.igvmfilegen, "/gen");
    assert_eq!(request.manifest, "/repo/vm/loader/manifests/uefi-aarch64.json");
    assert_eq!(request.resources.len(), 1);
    assert_eq!(request.resources[0].1, "/fw/MSVM.fd");
    assert!(!request.disable_secure_avic);
    let request = uefi_igvm::Node::request("m.json".to_string(), String::new(), windows());
    assert_eq!(request.igvmfilegen, "x.exe");
    assert_eq!(request.manifest, "m.json");
}

#[test]
fn another_host_looks_paths_up_by_its_own_rules() {
    let p = cli().into_pipeline("repo", PathRules::Other);
    let root = std::path::Path::new("repo").join("target/cca-test");
    let expected = cli().plan("repo", root.to_str().unwrap().to_string());
    assert_eq!(format!("{p:?}"), format!("{expected:?}"));
    let request = uefi_igvm::Node::process_request(
        "repo",
        PathRules::Other,
        String::new(),
        linux("/gen"),
    );
    let manifest = std::path::Path::new("repo").join("vm/loader/manifests/uefi-aarch64.json");
    assert_eq!(Some(request.manifest.as_str()), manifest.to_str());
}
