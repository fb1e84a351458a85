//! The pipeline around the tests in a realm: it installs or updates the emulator, and runs the
//! tests.

use crate::cca_job::Params;
use crate::targets::CommonArch;
use crate::text::{is_absolute, join_path, joined, path_is_absolute, text_of, PathRules};
use vstd::prelude::*;

verus! {

/// What the pipeline is asked to do.
#[derive(Debug)]
pub struct CcaTestsCli {
    /// The directory of everything that the tests need.
    pub test_root: String,
    /// Whether the emulator is installed.
    pub install_emu: bool,
    /// Whether the emulator is updated.
    pub update_emu: bool,
    /// Whether the tests are only built.
    pub build_only: bool,
    /// A firmware to use in place of the published one.
    pub custom_uefi: Option<String>,
    /// Whether to pause before the tests start.
    pub pause_before_start_tmk: bool,
    /// Whether to pause in the shell of the guest.
    pub interactive_vtl0_shell: bool,
    /// Whether the pipeline tells much.
    pub verbose: bool,
    /// How the emulator is updated.
    pub update_emu_subcmds: CcaTestsUpdateEmuSubCmds,
}

/// How the emulator is updated.
#[derive(Debug)]
pub struct CcaTestsUpdateEmuSubCmds {
    /// Whether the Linux of the first plane is built again.
    pub rebuild_plane0_linux: bool,
    /// Whether the root file system is built again.
    pub rebuild_rootfs: bool,
    /// The revision of TF-A to build.
    pub tfa_rev: Option<String>,
    /// The revision of TF-RMM to build.
    pub tfrmm_rev: Option<String>,
    /// The revision of the Linux of the first plane to build.
    pub plane0_linux_rev: Option<String>,
}

/// One part of a job.
#[derive(Debug)]
pub enum JobPart {
    /// Configures how packages of the distribution are installed.
    InstallDistPkg { interactive: bool, skip_update: bool },
    /// Configures how repositories are checked out.
    GitCheckout { require_local_clones: bool },
    /// Configures how git is installed.
    InstallGit { auto_install: bool },
    /// Checks what the emulator needs.
    CheckPrereq,
    /// Installs the emulator.
    InstallEmu { test_root: String, openvmm_root: String },
    /// Updates the emulator.
    UpdateEmu { test_root: String, openvmm_root: String, sub_cmds: CcaTestsUpdateEmuSubCmds },
    /// Settles the versions of what is downloaded.
    InitVersions,
    /// Takes a firmware from a path.
    LocalUefi { arch: CommonArch, path: String },
    /// Takes the sources from a directory.
    RepoSource { existing_clone: String },
    /// Configures what all builds share.
    Common {
        interactive: bool,
        auto_install: bool,
        ignore_rust_version: bool,
        verbose: bool,
        locked: bool,
        deny_warnings: bool,
        no_incremental: bool,
    },
    /// Runs the tests.
    RunTest(Params),
}

/// How the emulator is updated.
pub ghost struct SubCmdsView {
    pub rebuild_plane0_linux: bool,
    pub rebuild_rootfs: bool,
    pub tfa_rev: Option<Seq<char>>,
    pub tfrmm_rev: Option<Seq<char>>,
    pub plane0_linux_rev: Option<Seq<char>>,
}

/// One part of a job.
pub ghost enum JobPartView {
    InstallDistPkg { interactive: bool, skip_update: bool },
    GitCheckout { require_local_clones: bool },
    InstallGit { auto_install: bool },
    CheckPrereq,
    InstallEmu { test_root: Seq<char>, openvmm_root: Seq<char> },
    UpdateEmu { test_root: Seq<char>, openvmm_root: Seq<char>, sub_cmds: SubCmdsView },
    InitVersions,
    LocalUefi { arch: CommonArch, path: Seq<char> },
    RepoSource { existing_clone: Seq<char> },
    Common {
        interactive: bool,
        auto_install: bool,
        ignore_rust_version: bool,
        verbose: bool,
        locked: bool,
        deny_warnings: bool,
        no_incremental: bool,
    },
    RunTest {
        test_root: Seq<char>,
        build_only: bool,
        pause_before_start_tmk: bool,
        interactive_vtl0_shell: bool,
    },
}

impl View for CcaTestsUpdateEmuSubCmds {
    type V = SubCmdsView;

    open spec fn view(&self) -> SubCmdsView {
        SubCmdsView {
            rebuild_plane0_linux: self.rebuild_plane0_linux,
            rebuild_rootfs: self.rebuild_rootfs,
            tfa_rev: text_of(self.tfa_rev),
            tfrmm_rev: text_of(self.tfrmm_rev),
            plane0_linux_rev: text_of(self.plane0_linux_rev),
        }
    }
}

impl View for JobPart {
    type V = JobPartView;

    open spec fn view(&self) -> JobPartView {
        match self {
            JobPart::InstallDistPkg { interactive, skip_update } => JobPartView::InstallDistPkg {
                interactive: *interactive,
                skip_update: *skip_update,
            },
            JobPart::GitCheckout { require_local_clones } => JobPartView::GitCheckout {
                require_local_clones: *require_local_clones,
            },
            JobPart::InstallGit { auto_install } => JobPartView::InstallGit {
                auto_install: *auto_install,
            },
            JobPart::CheckPrereq => JobPartView::CheckPrereq,
            JobPart::InstallEmu { test_root, openvmm_root } => JobPartView::InstallEmu {
                test_root: test_root@,
                openvmm_root: openvmm_root@,
            },
            JobPart::UpdateEmu { test_root, openvmm_root, sub_cmds } => JobPartView::UpdateEmu {
                test_root: test_root@,
                openvmm_root: openvmm_root@,
                sub_cmds: sub_cmds@,
            },
            JobPart::InitVersions => JobPartView::InitVersions,
            JobPart::LocalUefi { arch, path } => JobPartView::LocalUefi {
                arch: *arch,
                path: path@,
            },
            JobPart::RepoSource { existing_clone } => JobPartView::RepoSource {
                existing_clone: existing_clone@,
            },
            JobPart::Common {
                interactive,
                auto_install,
                ignore_rust_version,
                verbose,
                locked,
                deny_warnings,
                no_incremental,
            } => JobPartView::Common {
                interactive: *interactive,
                auto_install: *auto_install,
                ignore_rust_version: *ignore_rust_version,
                verbose: *verbose,
                locked: *locked,
                deny_warnings: *deny_warnings,
                no_incremental: *no_incremental,
            },
            JobPart::RunTest(params) => JobPartView::RunTest {
                test_root: params.test_root@,
                build_only: params.build_only,
                pause_before_start_tmk: params.pause_before_start_tmk,
                interactive_vtl0_shell: params.interactive_vtl0_shell,
            },
        }
    }
}

/// A job, which runs on the host.
#[derive(Debug)]
pub struct Job {
    /// What it says of itself.
    pub label: &'static str,
    /// Its parts.
    pub parts: Vec<JobPart>,
}

/// A job.
pub ghost struct JobView {
    pub label: Seq<char>,
    pub parts: Seq<JobPartView>,
}

/// Parts as values.
pub open spec fn parts_view(parts: Seq<JobPart>) -> Seq<JobPartView> {
    parts.map_values(|p: JobPart| p@)
}

impl View for Job {
    type V = JobView;

    open spec fn view(&self) -> JobView {
        JobView { label: self.label@, parts: parts_view(self.parts@) }
    }
}

/// A pipeline.
#[derive(Debug)]
pub struct Pipeline {
    /// The jobs, in the order in which they are made.
    pub jobs: Vec<Job>,
    /// For each pair the first job waits for the second.
    pub waits: Vec<(usize, usize)>,
}

/// A pipeline.
pub ghost struct PipelineView {
    pub jobs: Seq<JobView>,
    pub waits: Seq<(usize, usize)>,
}

/// Jobs as values.
pub open spec fn jobs_view(jobs: Seq<Job>) -> Seq<JobView> {
    jobs.map_values(|j: Job| j@)
}

impl View for Pipeline {
    type V = PipelineView;

    open spec fn view(&self) -> PipelineView {
        PipelineView { jobs: jobs_view(self.jobs@), waits: self.waits@ }
    }
}

/// The directory of the tests on Unix: a relative one is looked up from the repository.
pub open spec fn resolved(repo_root: Seq<char>, test_root: Seq<char>) -> Seq<char> {
    if is_absolute(test_root) {
        test_root
    } else {
        joined(repo_root, test_root)
    }
}

/// The job that checks what the emulator needs.
pub open spec fn check_job() -> JobView {
    JobView {
        label: "cca-tests: check existence of emulation environment needed tools"@,
        parts: seq![
            JobPartView::InstallDistPkg { interactive: true, skip_update: false },
            JobPartView::CheckPrereq,
        ],
    }
}

/// The job that installs the emulator.
pub open spec fn install_job(repo_root: Seq<char>, test_root: Seq<char>) -> JobView {
    JobView {
        label: "cca-tests: install emulation environment"@,
        parts: seq![
            JobPartView::GitCheckout { require_local_clones: false },
            JobPartView::InstallGit { auto_install: true },
            JobPartView::InstallDistPkg { interactive: true, skip_update: false },
            JobPartView::InstallEmu { test_root, openvmm_root: repo_root },
        ],
    }
}

/// The job that updates the emulator.
pub open spec fn update_job(
    repo_root: Seq<char>,
    test_root: Seq<char>,
    sub_cmds: SubCmdsView,
) -> JobView {
    JobView {
        label: "cca-tests: update emulation environment"@,
        parts: seq![JobPartView::UpdateEmu { test_root, openvmm_root: repo_root, sub_cmds }],
    }
}

/// The part that takes a firmware from a path, where there is one.
pub open spec fn local_uefi(path: Option<Seq<char>>) -> Seq<JobPartView> {
    match path {
        Some(path) => seq![JobPartView::LocalUefi { arch: CommonArch::Aarch64, path }],
        None => Seq::empty(),
    }
}

/// The job that runs the tests.
pub open spec fn test_job(cli: CcaTestsCli, repo_root: Seq<char>, test_root: Seq<char>) -> JobView {
    JobView {
        label: "cca-tests: run cca tests"@,
        parts: seq![JobPartView::InitVersions] + local_uefi(text_of(cli.custom_uefi)) + seq![
            JobPartView::RepoSource { existing_clone: repo_root },
            JobPartView::Common {
                interactive: true,
                auto_install: true,
                ignore_rust_version: true,
                verbose: cli.verbose,
                locked: false,
                deny_warnings: false,
                no_incremental: false,
            },
            JobPartView::RunTest {
                test_root,
                build_only: cli.build_only,
                pause_before_start_tmk: cli.pause_before_start_tmk,
                interactive_vtl0_shell: cli.interactive_vtl0_shell,
            },
        ],
    }
}

/// The pipeline for tests in some directory. An installation checks what it needs first, and does
/// nothing else; anything else runs the tests, after an update where there is one.
pub open spec fn planned(
    cli: CcaTestsCli,
    repo_root: Seq<char>,
    test_root: Seq<char>,
) -> PipelineView {
    if cli.install_emu {
        PipelineView {
            jobs: seq![check_job(), install_job(repo_root, test_root)],
            waits: seq![(1, 0)],
        }
    } else if cli.update_emu {
        PipelineView {
            jobs: seq![
                update_job(repo_root, test_root, cli.update_emu_subcmds@),
                test_job(cli, repo_root, test_root),
            ],
            waits: seq![(1, 0)],
        }
    } else {
        PipelineView { jobs: seq![test_job(cli, repo_root, test_root)], waits: Seq::empty() }
    }
}

fn make_check_job() -> (job: Job)
    ensures
        job@ == check_job(),
{
    let parts = vec![
        JobPart::InstallDistPkg { interactive: true, skip_update: false },
        JobPart::CheckPrereq,
    ];
    assert(parts_view(parts@) =~= check_job().parts);
    Job { label: "cca-tests: check existence of emulation environment needed tools", parts }
}

fn make_install_job(repo_root: &str, test_root: String) -> (job: Job)
    ensures
        job@ == install_job(repo_root@, test_root@),
{
    let openvmm_root = repo_root.to_owned();
    let parts = vec![
        JobPart::GitCheckout { require_local_clones: false },
        JobPart::InstallGit { auto_install: true },
        JobPart::InstallDistPkg { interactive: true, skip_update: false },
        JobPart::InstallEmu { test_root, openvmm_root },
    ];
    assert(parts_view(parts@) =~= install_job(repo_root@, test_root@).parts);
    Job { label: "cca-tests: install emulation environment", parts }
}

fn make_update_job(
    repo_root: &str,
    test_root: String,
    sub_cmds: CcaTestsUpdateEmuSubCmds,
) -> (job: Job)
    ensures
        job@ == update_job(repo_root@, test_root@, sub_cmds@),
{
    let openvmm_root = repo_root.to_owned();
    let parts = vec![JobPart::UpdateEmu { test_root, openvmm_root, sub_cmds }];
    assert(parts_view(parts@) =~= update_job(repo_root@, test_root@, sub_cmds@).parts);
    Job { label: "cca-tests: update emulation environment", parts }
}

fn add_part(parts: &mut Vec<JobPart>, part: JobPart)
    ensures
        parts_view(final(parts)@) == parts_view(old(parts)@).push(part@),
{
    let ghost before = parts@;
    parts.push(part);
    assert(parts_view(parts@) =~= parts_view(before).push(part@));
}

impl CcaTestsCli {
    /// Plans the pipeline, for a repository in a directory. A relative directory of the tests is
    /// looked up from the repository by the rules of the host.
    pub fn into_pipeline(self, repo_root: &str, rules: PathRules) -> (pipeline: Pipeline)
        ensures
            rules == PathRules::Unix ==> pipeline@ == planned(
                self,
                repo_root@,
                resolved(repo_root@, self.test_root@),
            ),
            exists|test_root: Seq<char>| pipeline@ == planned(self, repo_root@, test_root),
    {
        let test_root = if path_is_absolute(self.test_root.as_str(), rules) {
            self.test_root.clone()
        } else {
            join_path(repo_root, self.test_root.as_str(), rules)
        };
        self.plan(repo_root, test_root)
    }

    /// Plans the pipeline for tests in some directory, for a repository in another.
    pub fn plan(self, repo_root: &str, test_root: String) -> (pipeline: Pipeline)
        ensures
            pipeline@ == planned(self, repo_root@, test_root@),
    {
        let ghost cli = self;
        let ghost root = test_root@;
        let mut jobs: Vec<Job> = Vec::new();
        let mut waits: Vec<(usize, usize)> = Vec::new();
        if self.install_emu {
            jobs.push(make_check_job());
            jobs.push(make_install_job(repo_root, test_root));
            waits.push((1, 0));
            assert(jobs_view(jobs@) =~= planned(cli, repo_root@, root).jobs);
            assert(waits@ =~= planned(cli, repo_root@, root).waits);
            return Pipeline { jobs, waits };
        }
        if self.update_emu {
            jobs.push(make_update_job(repo_root, test_root.clone(), self.update_emu_subcmds));
        }
        let mut parts: Vec<JobPart> = Vec::new();
        add_part(&mut parts, JobPart::InitVersions);
        if let Some(path) = self.custom_uefi {
            add_part(&mut parts, JobPart::LocalUefi { arch: CommonArch::Aarch64, path });
        }
        add_part(&mut parts, JobPart::RepoSource { existing_clone: repo_root.to_owned() });
        add_part(
            &mut parts,
            JobPart::Common {
                interactive: true,
                auto_install: true,
                ignore_rust_version: true,
                verbose: self.verbose,
                locked: false,
                deny_warnings: false,
                no_incremental: false,
            },
        );
        add_part(
            &mut parts,
            JobPart::RunTest(
                Params {
                    test_root,
                    build_only: self.build_only,
                    pause_before_start_tmk: self.pause_before_start_tmk,
                    interactive_vtl0_shell: self.interactive_vtl0_shell,
                },
            ),
        );
        assert(parts_view(parts@) =~= test_job(cli, repo_root@, root).parts);
        jobs.push(Job { label: "cca-tests: run cca tests", parts });
        if self.update_emu {
            waits.push((1, 0));
        }
        assert(jobs_view(jobs@) =~= planned(cli, repo_root@, root).jobs);
        assert(waits@ =~= planned(cli, repo_root@, root).waits);
        Pipeline { jobs, waits }
    }
}

/// On Unix, in a repository with an absolute path, the directory of the tests is absolute.
pub proof fn lemma_test_root_is_absolute(repo_root: Seq<char>, test_root: Seq<char>)
    requires
        is_absolute(repo_root),
    ensures
        is_absolute(resolved(repo_root, test_root)),
{
}

/// Jobs wait only for jobs that were made before, so that there is always one that can run.
pub proof fn lemma_jobs_wait_for_earlier_ones(
    cli: CcaTestsCli,
    repo_root: Seq<char>,
    test_root: Seq<char>,
    i: int,
)
    requires
        0 <= i < planned(cli, repo_root, test_root).waits.len(),
    ensures
        ({
            let (job, before) = planned(cli, repo_root, test_root).waits[i];
            before < job < planned(cli, repo_root, test_root).jobs.len()
        }),
{
}

/// The tests are run by the last job of every pipeline that does not install, with every job before
/// it done; a pipeline that installs does not run them.
pub proof fn lemma_tests_run_last(
    cli: CcaTestsCli,
    repo_root: Seq<char>,
    test_root: Seq<char>,
)
    ensures
        ({
            let p = planned(cli, repo_root, test_root);
            let test = test_job(cli, repo_root, test_root);
            let last = p.jobs.len() - 1;
            &&& !cli.install_emu ==> p.jobs[last] == test && forall|k: int|
                0 <= k < last ==> #[trigger] p.waits.contains((last as usize, k as usize))
            &&& cli.install_emu ==> !p.jobs.contains(test)
        }),
{
    reveal_strlit("cca-tests: run cca tests");
    reveal_strlit("cca-tests: check existence of emulation environment needed tools");
    reveal_strlit("cca-tests: install emulation environment");
    let p = planned(cli, repo_root, test_root);
    let test = test_job(cli, repo_root, test_root);
    if cli.install_emu {
        assert(test.label.len() == 24);
        assert(p.jobs[0].label.len() != 24);
        assert(p.jobs[1].label.len() != 24);
    } else if cli.update_emu {
        assert(p.waits[0] == (1usize, 0usize));
    }
}

/// In every pipeline that does not install, the last part of the last job runs the tests, in the
/// directory of the tests, with every switch as it is on the command line; before it the builds are
/// configured, as verbose as asked for, and the sources are those of the repository. There is a
/// part that takes a firmware from a path exactly if the command line names one, and it takes that
/// one.
pub proof fn lemma_tests_run_as_asked(
    cli: CcaTestsCli,
    repo_root: Seq<char>,
    test_root: Seq<char>,
    pipeline: Pipeline,
)
    requires
        pipeline@ == planned(cli, repo_root, test_root),
        !cli.install_emu,
    ensures
        pipeline.jobs@.len() == if cli.update_emu {
            2nat
        } else {
            1nat
        },
        ({
            let parts = pipeline.jobs@[pipeline.jobs@.len() - 1].parts@;
            let n = parts.len() as int;
            &&& n == if cli.custom_uefi is Some {
                5int
            } else {
                4int
            }
            &&& parts[0] is InitVersions
            &&& cli.custom_uefi matches Some(own) ==> (parts[1] matches JobPart::LocalUefi {
                arch,
                path,
            } && arch == CommonArch::Aarch64 && path@ == own@)
            &&& parts[n - 3] matches JobPart::RepoSource { existing_clone }
            &&& existing_clone@ == repo_root
            &&& parts[n - 2] matches JobPart::Common {
                interactive,
                auto_install,
                ignore_rust_version,
                verbose,
                locked,
                deny_warnings,
                no_incremental,
            }
            &&& interactive && auto_install && ignore_rust_version
            &&& verbose == cli.verbose
            &&& !locked && !deny_warnings && !no_incremental
            &&& parts[n - 1] matches JobPart::RunTest(params)
            &&& params.test_root@ == test_root
            &&& params.build_only == cli.build_only
            &&& params.pause_before_start_tmk == cli.pause_before_start_tmk
            &&& params.interactive_vtl0_shell == cli.interactive_vtl0_shell
        }),
{
    let p = planned(cli, repo_root, test_root);
    let last = pipeline.jobs@.len() - 1;
    assert(pipeline@.jobs.len() == pipeline.jobs@.len());
    assert(pipeline@.jobs[last] == pipeline.jobs@[last]@);
    let parts = pipeline.jobs@[last].parts@;
    let views = parts_view(parts);
    let n = parts.len() as int;
    assert(views == test_job(cli, repo_root, test_root).parts);
    assert(views.len() == parts.len());
    assert(views[0] == parts[0]@);
    assert(views[1] == parts[1]@);
    assert(views[n - 3] == parts[n - 3]@);
    assert(views[n - 2] == parts[n - 2]@);
    assert(views[n - 1] == parts[n - 1]@);
}

/// Two command lines that differ in a switch of the tests never give the same pipeline, unless both
/// install.
pub proof fn lemma_switches_make_a_difference(
    one: CcaTestsCli,
    other: CcaTestsCli,
    repo_root: Seq<char>,
    test_root: Seq<char>,
)
    requires
        !one.install_emu,
        !other.install_emu,
        planned(one, repo_root, test_root) == planned(other, repo_root, test_root),
    ensures
        one.build_only == other.build_only,
        one.pause_before_start_tmk == other.pause_before_start_tmk,
        one.interactive_vtl0_shell == other.interactive_vtl0_shell,
        one.verbose == other.verbose,
        one.update_emu == other.update_emu,
        one.custom_uefi is Some == other.custom_uefi is Some,
        one.update_emu ==> {
            let (a, b) = (one.update_emu_subcmds, other.update_emu_subcmds);
            &&& a.rebuild_plane0_linux == b.rebuild_plane0_linux
            &&& a.rebuild_rootfs == b.rebuild_rootfs
            &&& a.tfa_rev is Some == b.tfa_rev is Some
            &&& a.tfrmm_rev is Some == b.tfrmm_rev is Some
            &&& a.plane0_linux_rev is Some == b.plane0_linux_rev is Some
        },
{
    let p = planned(one, repo_root, test_root);
    let q = planned(other, repo_root, test_root);
    let a = p.jobs[p.jobs.len() - 1].parts;
    let b = q.jobs[q.jobs.len() - 1].parts;
    assert(a == b);
    assert(a[a.len() - 1] == b[b.len() - 1]);
    assert(a[a.len() - 2] == b[b.len() - 2]);
    if one.update_emu {
        assert(p.jobs[0].parts[0] == q.jobs[0].parts[0]);
    }
}

/// A pipeline that updates does so first, for the directory of the tests and the repository, and as
/// the command line says; the tests wait for it.
pub proof fn lemma_update_is_as_asked(
    cli: CcaTestsCli,
    repo_root: Seq<char>,
    test_root: Seq<char>,
    pipeline: Pipeline,
)
    requires
        pipeline@ == planned(cli, repo_root, test_root),
        !cli.install_emu,
    ensures
        !cli.update_emu ==> pipeline.waits@.len() == 0,
        cli.update_emu ==> {
            &&& pipeline.waits@ == seq![(1usize, 0usize)]
            &&& pipeline.jobs@[0].parts@.len() == 1
            &&& pipeline.jobs@[0].parts@[0] matches JobPart::UpdateEmu {
                test_root: directory,
                openvmm_root,
                sub_cmds,
            }
            &&& directory@ == test_root
            &&& openvmm_root@ == repo_root
            &&& sub_cmds.rebuild_plane0_linux == cli.update_emu_subcmds.rebuild_plane0_linux
            &&& sub_cmds.rebuild_rootfs == cli.update_emu_subcmds.rebuild_rootfs
            &&& same_text(sub_cmds.tfa_rev, cli.update_emu_subcmds.tfa_rev)
            &&& same_text(sub_cmds.tfrmm_rev, cli.update_emu_subcmds.tfrmm_rev)
            &&& same_text(sub_cmds.plane0_linux_rev, cli.update_emu_subcmds.plane0_linux_rev)
        },
{
    if cli.update_emu {
        assert(pipeline@.jobs.len() == pipeline.jobs@.len());
        assert(pipeline@.jobs[0] == pipeline.jobs@[0]@);
        let parts = pipeline.jobs@[0].parts@;
        assert(parts_view(parts).len() == parts.len());
        assert(parts_view(parts)[0] == parts[0]@);
    }
}

/// Two texts are there or not alike, and are the same where they are.
pub open spec fn same_text(a: Option<String>, b: Option<String>) -> bool {
    match (a, b) {
        (Some(x), Some(y)) => x@ == y@,
        (None, None) => true,
        _ => false,
    }
}

/// A pipeline that installs has two jobs: the second installs the emulator, for the directory of
/// the tests and the repository, and waits for the first, which checks what that needs.
pub proof fn lemma_installation_is_checked_first(
    cli: CcaTestsCli,
    repo_root: Seq<char>,
    test_root: Seq<char>,
    pipeline: Pipeline,
)
    requires
        pipeline@ == planned(cli, repo_root, test_root),
        cli.install_emu,
    ensures
        pipeline.waits@ == seq![(1usize, 0usize)],
        pipeline.jobs@.len() == 2,
        ({
            let check = pipeline.jobs@[0].parts@;
            let install = pipeline.jobs@[1].parts@;
            &&& check.len() == 2
            &&& check[0] matches JobPart::InstallDistPkg { interactive, skip_update }
            &&& interactive && !skip_update
            &&& check[1] is CheckPrereq
            &&& install.len() == 4
            &&& install[0] matches JobPart::GitCheckout { require_local_clones }
            &&& !require_local_clones
            &&& install[1] matches JobPart::InstallGit { auto_install }
            &&& auto_install
            &&& install[2] matches JobPart::InstallDistPkg { interactive: asks, skip_update: skips }
            &&& asks && !skips
            &&& install[3] matches JobPart::InstallEmu { test_root: directory, openvmm_root }
            &&& directory@ == test_root
            &&& openvmm_root@ == repo_root
        }),
{
    assert(pipeline@.jobs.len() == pipeline.jobs@.len());
    assert(pipeline@.jobs[0] == pipeline.jobs@[0]@);
    assert(pipeline@.jobs[1] == pipeline.jobs@[1]@);
    let check = pipeline.jobs@[0].parts@;
    let install = pipeline.jobs@[1].parts@;
    assert(parts_view(check).len() == check.len());
    assert(parts_view(install).len() == install.len());
    assert(parts_view(check)[0] == check[0]@);
    assert(parts_view(check)[1] == check[1]@);
    assert(parts_view(install)[0] == install[0]@);
    assert(parts_view(install)[1] == install[1]@);
    assert(parts_view(install)[2] == install[2]@);
    assert(parts_view(install)[3] == install[3]@);
}

/// On Unix, the directory of the tests is the one on the command line where that starts at the
/// root, and else the path of the repository, a separator, and all of the one on the command line.
pub proof fn lemma_test_root_keeps_what_was_asked(repo_root: Seq<char>, test_root: Seq<char>)
    requires
        repo_root.len() > 0,
        repo_root[repo_root.len() - 1] != '/',
    ensures
        test_root.len() > 0 && test_root[0] == '/' ==> resolved(repo_root, test_root) == test_root,
        !(test_root.len() > 0 && test_root[0] == '/') ==> resolved(repo_root, test_root)
            == repo_root + seq!['/'] + test_root,
{
    assert(repo_root.push('/') =~= repo_root + seq!['/']);
}

} // verus!
