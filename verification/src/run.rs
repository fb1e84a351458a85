//! A run: the guest that is set up, the tests that are selected, and what becomes of them.

use crate::bytes::ByteOrder;
use crate::cca_ram::PrivateRamError;
use crate::device_tree::describable;
use crate::gic::{gic_error, GicError, PlatformGic};
use crate::image::{
    elf_dynamic_relocations, elf_section, elf_segments, enumerate_tests, file_tests, from_file,
    test_views, DescriptorLayout, EnumerateError, TestInfo, TestView,
};
use crate::io::{Devices, IoHandler, COMMAND_ADDRESS};
use crate::memory::MemoryRange;
use crate::options::{GuestArch, Options};
use crate::serial::{in_uart, SerialDevice, SerialView};
use crate::text::text_of;
use crate::topology::{GicSizes, GicVersion, ProcessorTopology};
use vstd::prelude::*;
use vstd::string::*;

verus! {

/// One MiB.
pub const MEBIBYTE: u64 = 0x10_0000;

/// The memory of a Linux guest in MiB, unless another size is asked for.
pub const LINUX_MEMORY_MB: u64 = 192;

/// The memory of a test microkernel in MiB, unless another size is asked for.
pub const TMK_MEMORY_MB: u64 = 4;

/// The address of the distributor.
pub const GIC_DISTRIBUTOR_BASE: u64 = 0xff00_0000;

/// The address of the redistributors.
pub const GIC_REDISTRIBUTORS_BASE: u64 = 0xff02_0000;

/// The interrupt of the virtual timer.
pub const DEFAULT_VIRT_TIMER_PPI: u32 = 20;

/// How many interrupts there are.
pub const GIC_NR_IRQS: u32 = 256;

/// How many processors a guest has.
pub const VP_COUNT: u32 = 1;

/// The index of the processor that boots.
pub const BSP: u32 = 0;

/// The processors that are asked for.
#[derive(Clone, Copy, Debug, PartialEq, Eq, Structural)]
pub enum TopologyConfig {
    /// The processors of an x86 guest.
    X86 {
        /// Whether their interrupt controllers support the extended mode.
        x2apic: bool,
        /// How many there are.
        vp_count: u32,
    },
    /// The processors of a 64-bit Arm guest.
    Aarch64 {
        /// The address of the distributor.
        gic_distributor_base: u64,
        /// The version of the interrupt controller.
        gic_version: GicVersion,
        /// Whether interrupts can be sent as messages.
        gic_msi: bool,
        /// The interrupt of the performance monitor.
        pmu_gsiv: Option<u32>,
        /// The interrupt of the virtual timer.
        virt_timer_ppi: u32,
        /// How many interrupts there are.
        gic_nr_irqs: u32,
        /// How many processors there are.
        vp_count: u32,
    },
}

/// The processors that a guest is to have.
pub open spec fn config_of(arch: GuestArch) -> TopologyConfig {
    match arch {
        GuestArch::X86_64 => TopologyConfig::X86 { x2apic: true, vp_count: 1 },
        GuestArch::Aarch64 => TopologyConfig::Aarch64 {
            gic_distributor_base: 0xff00_0000,
            gic_version: GicVersion::V3 { redistributors_base: 0xff02_0000 },
            gic_msi: false,
            pmu_gsiv: None,
            virt_timer_ppi: 20,
            gic_nr_irqs: 256,
            vp_count: 1,
        },
    }
}

/// Returns the processors that a guest is to have.
pub fn topology_config(arch: GuestArch) -> (config: TopologyConfig)
    ensures
        config == config_of(arch),
{
    match arch {
        GuestArch::X86_64 => TopologyConfig::X86 { x2apic: true, vp_count: VP_COUNT },
        GuestArch::Aarch64 => TopologyConfig::Aarch64 {
            gic_distributor_base: GIC_DISTRIBUTOR_BASE,
            gic_version: GicVersion::V3 { redistributors_base: GIC_REDISTRIBUTORS_BASE },
            gic_msi: false,
            pmu_gsiv: None,
            virt_timer_ppi: DEFAULT_VIRT_TIMER_PPI,
            gic_nr_irqs: GIC_NR_IRQS,
            vp_count: VP_COUNT,
        },
    }
}

/// The processors of a guest.
#[derive(Debug)]
pub enum Processors {
    /// Those of an x86 guest.
    X86,
    /// Those of a 64-bit Arm guest.
    Aarch64(ProcessorTopology),
}

impl Processors {
    /// The instruction set of the processors.
    pub open spec fn arch(self) -> GuestArch {
        match self {
            Processors::X86 => GuestArch::X86_64,
            Processors::Aarch64(_) => GuestArch::Aarch64,
        }
    }
}

/// Why a guest is not set up.
#[derive(Clone, Copy, Debug, PartialEq, Eq, Structural)]
pub enum StateError {
    /// The processors cannot be had.
    ProcessorTopology,
    /// The size of memory does not fit 64 bits.
    RamSizeOverflow,
    /// The memory cannot be laid out.
    MemoryLayout,
    /// The private memory cannot be had.
    PrivateRam(PrivateRamError),
}

impl StateError {
    /// The error of a guest with memory of `ram_size` bytes as a text.
    pub open spec fn text(self, ram_size: u64) -> Seq<char> {
        match self {
            StateError::ProcessorTopology => "failed to build processor topology"@,
            StateError::RamSizeOverflow => "guest RAM size overflowed"@,
            StateError::MemoryLayout => "bad memory layout"@,
            StateError::PrivateRam(e) => e.text(ram_size),
        }
    }

    /// Returns the error of a guest with memory of `ram_size` bytes as a text.
    pub fn message(self, ram_size: u64) -> (s: String)
        ensures
            s@ == self.text(ram_size),
    {
        match self {
            StateError::ProcessorTopology => "failed to build processor topology".to_owned(),
            StateError::RamSizeOverflow => "guest RAM size overflowed".to_owned(),
            StateError::MemoryLayout => "bad memory layout".to_owned(),
            StateError::PrivateRam(e) => e.message(ram_size),
        }
    }
}

/// The size of guest memory that is asked for.
pub open spec fn asked_ram_size(opts: Options) -> int {
    (match opts.memory_mb {
        Some(mb) => mb,
        None => if opts.linux_kernel is Some {
            LINUX_MEMORY_MB
        } else {
            TMK_MEMORY_MB
        },
    }) * MEBIBYTE
}

/// Returns the size of guest memory, unless it does not fit 64 bits.
pub fn guest_ram_size(opts: &Options) -> (r: Result<u64, StateError>)
    ensures
        match r {
            Ok(size) => size == asked_ram_size(*opts),
            Err(e) => e == StateError::RamSizeOverflow && asked_ram_size(*opts) > u64::MAX,
        },
{
    let default_memory_mb: u64 = if opts.linux_kernel.is_some() {
        LINUX_MEMORY_MB
    } else {
        TMK_MEMORY_MB
    };
    let memory_mb: u64 = match opts.memory_mb {
        Some(mb) => mb,
        None => default_memory_mb,
    };
    match memory_mb.checked_mul(MEBIBYTE) {
        Some(size) => Ok(size),
        None => Err(StateError::RamSizeOverflow),
    }
}

/// What came of the search for private memory.
#[derive(Debug)]
pub struct PrivateRam<D> {
    /// The allocator that the memory came from.
    pub client: D,
    /// The RAM, unless the memory cannot be laid out.
    pub layout: Option<Vec<MemoryRange>>,
}

/// What a realm keeps of its private memory.
#[derive(Debug)]
pub struct CcaState<D> {
    /// The allocator that the memory came from.
    pub private_dma_client: D,
}

/// A guest that is set up; `D` is the allocator of private memory.
#[derive(Debug)]
pub struct CommonState<D> {
    /// What is asked for.
    pub opts: Options,
    /// The processors.
    pub processor_topology: Processors,
    /// The RAM.
    pub memory_layout: Vec<MemoryRange>,
    /// The private memory, where there is any.
    pub cca: Option<CcaState<D>>,
}

/// The error that setting up a guest gives, the first one of several.
pub open spec fn state_error<D>(
    opts: Options,
    topology: Option<Processors>,
    layout: Option<Vec<MemoryRange>>,
    private: Result<Option<PrivateRam<D>>, PrivateRamError>,
) -> Option<StateError> {
    if topology is None {
        Some(StateError::ProcessorTopology)
    } else if asked_ram_size(opts) > u64::MAX {
        Some(StateError::RamSizeOverflow)
    } else if layout is None {
        Some(StateError::MemoryLayout)
    } else {
        match private {
            Err(e) => Some(StateError::PrivateRam(e)),
            Ok(Some(ram)) if ram.layout is None => Some(StateError::MemoryLayout),
            Ok(_) => None,
        }
    }
}

impl<D> CommonState<D> {
    /// Sets up a guest. The processors are those that came of the configuration, the layout is what
    /// came of laying out memory of the size that is asked for, and the private memory is what came
    /// of the search for it; its own layout takes the place of the other.
    pub fn new(
        opts: Options,
        topology: Option<Processors>,
        layout: Option<Vec<MemoryRange>>,
        private: Result<Option<PrivateRam<D>>, PrivateRamError>,
    ) -> (r: Result<Self, StateError>)
        ensures
            match r {
                Err(e) => state_error(opts, topology, layout, private) == Some(e),
                Ok(state) => {
                    &&& state_error(opts, topology, layout, private) is None
                    &&& state.opts == opts
                    &&& Some(state.processor_topology) == topology
                    &&& match private->Ok_0 {
                        Some(ram) => {
                            &&& state.memory_layout == ram.layout->0
                            &&& state.cca == Some(CcaState { private_dma_client: ram.client })
                        },
                        None => state.memory_layout == layout->0 && state.cca is None,
                    }
                },
            },
    {
        let processor_topology = match topology {
            Some(t) => t,
            None => {
                return Err(StateError::ProcessorTopology);
            },
        };
        match guest_ram_size(&opts) {
            Ok(_) => {},
            Err(e) => {
                return Err(e);
            },
        }
        let memory_layout = match layout {
            Some(l) => l,
            None => {
                return Err(StateError::MemoryLayout);
            },
        };
        match private {
            Err(e) => Err(StateError::PrivateRam(e)),
            Ok(None) => Ok(CommonState { opts, processor_topology, memory_layout, cca: None }),
            Ok(Some(ram)) => match ram.layout {
                None => Err(StateError::MemoryLayout),
                Some(memory_layout) => {
                    let cca = Some(CcaState { private_dma_client: ram.client });
                    Ok(CommonState { opts, processor_topology, memory_layout, cca })
                },
            },
        }
    }

    /// Returns the allocator that the private memory of the guest came from.
    pub fn cca_private_dma_client(&self) -> (client: &D)
        requires
            self.cca is Some,
        ensures
            *client == self.cca->0.private_dma_client,
    {
        &self.cca.as_ref().unwrap().private_dma_client
    }

    /// Starts a run of the tests of the test microkernel in a file. Without a test microkernel
    /// there is one test, of Linux, and the file is not looked at.
    pub fn for_each_test(&self, tmk: &[u8], layout: &DescriptorLayout) -> (r: Result<
        TestRun,
        RunError,
    >)
        requires
            layout.wf(),
        ensures
            ({
                let tests = file_tests(
                    elf_dynamic_relocations(tmk@),
                    elf_section(tmk@, "tmk_tests"@),
                    elf_segments(tmk@),
                    *layout,
                );
                match tests {
                    Err(kind) if self.opts.tmk is Some => r matches Err(RunError::Enumerate(e))
                        && e.kind == kind && e.keeps_source() && from_file(e, tmk@),
                    Err(_) => selected(r, chosen(self.opts, Seq::empty())),
                    Ok(available) => selected(r, chosen(self.opts, available)),
                }
            }),
    {
        if self.opts.tmk.is_none() {
            return self.select_tests(Vec::new());
        }
        match enumerate_tests(tmk, layout) {
            Err(e) => Err(RunError::Enumerate(e)),
            Ok(available) => self.select_tests(available),
        }
    }

    /// Starts a run of the tests that are asked for, from those that there are.
    pub fn select_tests(&self, available: Vec<TestInfo>) -> (r: Result<TestRun, RunError>)
        ensures
            selected(r, chosen(self.opts, test_views(available@))),
    {
        if self.opts.tmk.is_none() {
            let tests = vec![
                TestInfo { name: "cca_linux_virtual_timer_irq".to_owned(), index: 0 },
            ];
            assert(test_views(tests@) =~= seq![("cca_linux_virtual_timer_irq"@, 0u64)]);
            return Ok(TestRun::new(tests));
        }
        if self.opts.tests.len() == 0 {
            return Ok(TestRun::new(available));
        }
        let names = &self.opts.tests;
        let mut tests: Vec<TestInfo> = Vec::new();
        let mut i: usize = 0;
        assert(test_views(tests@) =~= Seq::empty());
        proof {
            assert(names@.take(0) =~= Seq::empty());
            assert(name_views(names@.take(0)) =~= Seq::empty());
        }
        while i < names.len()
            invariant
                i <= names@.len(),
                *names == self.opts.tests,
                self.opts.tmk is Some,
                names@.len() > 0,
                picked(test_views(available@), name_views(names@.take(i as int))) == Ok::<
                    Seq<TestView>,
                    Seq<char>,
                >(test_views(tests@)),
            decreases names@.len() - i,
        {
            let ghost before = name_views(names@.take(i as int));
            let ghost after = name_views(names@.take(i + 1));
            assert(after.drop_last() =~= before);
            assert(after.last() == names@[i as int]@);
            match find_test(&available, &names[i]) {
                Some(test) => {
                    let ghost so_far = tests@;
                    tests.push(test);
                    assert(test_views(tests@) =~= test_views(so_far).push(test@));
                },
                None => {
                    proof {
                        assert(name_views(names@).take(i + 1) =~= after);
                        lemma_missing_stays(
                            test_views(available@),
                            name_views(names@),
                            i + 1,
                            names@[i as int]@,
                        );
                    }
                    return Err(RunError::NotFound(names[i].clone()));
                },
            }
            i = i + 1;
        }
        assert(names@.take(i as int) =~= names@);
        Ok(TestRun::new(tests))
    }
}

/// Names as values.
pub open spec fn name_views(names: Seq<String>) -> Seq<Seq<char>> {
    names.map_values(|n: String| n@)
}

/// The first test of a name.
pub open spec fn first_named(tests: Seq<TestView>, name: Seq<char>) -> Option<TestView>
    decreases tests.len(),
{
    if tests.len() == 0 {
        None
    } else if tests[0].0 == name {
        Some(tests[0])
    } else {
        first_named(tests.drop_first(), name)
    }
}

/// The tests of some names, in the order of the names, or the first name that no test has.
pub open spec fn picked(tests: Seq<TestView>, names: Seq<Seq<char>>) -> Result<
    Seq<TestView>,
    Seq<char>,
>
    decreases names.len(),
{
    if names.len() == 0 {
        Ok(Seq::empty())
    } else {
        match picked(tests, names.drop_last()) {
            Err(e) => Err(e),
            Ok(front) => match first_named(tests, names.last()) {
                None => Err(names.last()),
                Some(test) => Ok(front.push(test)),
            },
        }
    }
}

/// The tests that are run, or the first name that no test has.
pub open spec fn chosen(opts: Options, available: Seq<TestView>) -> Result<
    Seq<TestView>,
    Seq<char>,
> {
    if opts.tmk is None {
        Ok(seq![("cca_linux_virtual_timer_irq"@, 0u64)])
    } else if opts.tests@.len() == 0 {
        Ok(available)
    } else {
        picked(available, name_views(opts.tests@))
    }
}

/// A run starts with the expected tests, or it does not, for want of the expected name.
pub open spec fn selected(
    r: Result<TestRun, RunError>,
    expected: Result<Seq<TestView>, Seq<char>>,
) -> bool {
    match r {
        Ok(run) => {
            &&& run.wf()
            &&& run@.next == 0
            &&& run@.success
            &&& expected == Ok::<Seq<TestView>, Seq<char>>(run@.tests)
        },
        Err(RunError::NotFound(name)) => expected == Err::<Seq<TestView>, Seq<char>>(name@),
        Err(_) => false,
    }
}

fn find_test(tests: &Vec<TestInfo>, name: &String) -> (r: Option<TestInfo>)
    ensures
        match r {
            Some(test) => first_named(test_views(tests@), name@) == Some(test@),
            None => first_named(test_views(tests@), name@) is None,
        },
{
    let ghost views = test_views(tests@);
    let mut i: usize = 0;
    assert(views.skip(0) =~= views);
    while i < tests.len()
        invariant
            i <= tests@.len(),
            views == test_views(tests@),
            first_named(views, name@) == first_named(views.skip(i as int), name@),
        decreases tests@.len() - i,
    {
        assert(views.skip(i as int)[0] == tests@[i as int]@);
        if tests[i].name == *name {
            return Some(tests[i].clone());
        }
        assert(views.skip(i as int).drop_first() =~= views.skip(i + 1));
        i = i + 1;
    }
    None
}

proof fn lemma_missing_stays(
    tests: Seq<TestView>,
    names: Seq<Seq<char>>,
    n: int,
    missing: Seq<char>,
)
    requires
        0 <= n <= names.len(),
        picked(tests, names.take(n)) == Err::<Seq<TestView>, Seq<char>>(missing),
    ensures
        picked(tests, names) == Err::<Seq<TestView>, Seq<char>>(missing),
    decreases names.len() - n,
{
    if n == names.len() {
        assert(names.take(n) =~= names);
    } else {
        assert(names.take(n + 1).drop_last() =~= names.take(n));
        lemma_missing_stays(tests, names, n + 1, missing);
    }
}

/// Why a run fails.
#[derive(Debug)]
pub enum RunError {
    /// The tests of the test microkernel cannot be listed.
    Enumerate(EnumerateError),
    /// A test that was asked for does not exist.
    NotFound(String),
    /// A test could not be run.
    NotRun(String),
    /// A test was run and did not pass.
    SomeFailed,
}

impl RunError {
    /// The error as a text; one that says nothing of its own leaves it to its source.
    pub open spec fn text(self) -> Option<Seq<char>> {
        match self {
            RunError::Enumerate(e) => e.kind.text(),
            RunError::NotFound(name) => Some("test "@ + name@ + " not found"@),
            RunError::NotRun(name) => Some("failed to run test "@ + name@),
            RunError::SomeFailed => Some("some tests failed"@),
        }
    }

    /// Returns the error as a text, where it says something of its own.
    pub fn message(&self) -> (s: Option<String>)
        ensures
            match s {
                Some(t) => self.text() == Some(t@),
                None => self.text() is None,
            },
    {
        match self {
            RunError::Enumerate(e) => match e.kind.message() {
                Some(t) => Some(t.to_owned()),
                None => None,
            },
            RunError::NotFound(name) => {
                let mut s = "test ".to_owned();
                s.append(name.as_str());
                s.append(" not found");
                Some(s)
            },
            RunError::NotRun(name) => {
                let mut s = "failed to run test ".to_owned();
                s.append(name.as_str());
                Some(s)
            },
            RunError::SomeFailed => Some("some tests failed".to_owned()),
        }
    }
}

/// The result of a test, with registers of some kind.
#[derive(Clone, Debug)]
pub enum TestResult<R> {
    /// It has passed.
    Passed,
    /// It has failed.
    Failed,
    /// A processor has stopped.
    Faulted { vp_index: u32, reason: String, regs: Option<Box<R>> },
}

/// What happened to a processor.
#[derive(Debug)]
pub enum VpEvent<R> {
    /// The test is over.
    TestComplete { success: bool },
    /// The processor has stopped.
    Halt { vp_index: u32, reason: String, regs: Option<Box<R>> },
}

/// The tests of a run, and how they have gone so far.
pub ghost struct TestRunView {
    /// The tests.
    pub tests: Seq<TestView>,
    /// How many have been run.
    pub next: nat,
    /// Whether all of those have passed.
    pub success: bool,
}

/// The tests of a run, and how they have gone so far.
#[derive(Debug)]
pub struct TestRun {
    tests: Vec<TestInfo>,
    next: usize,
    success: bool,
}

impl View for TestRun {
    type V = TestRunView;

    closed spec fn view(&self) -> TestRunView {
        TestRunView {
            tests: test_views(self.tests@),
            next: self.next as nat,
            success: self.success,
        }
    }
}

impl TestRunView {
    /// The state once the next test has been run.
    pub open spec fn recorded(self, passed: bool) -> TestRunView {
        TestRunView { next: self.next + 1, success: self.success && passed, ..self }
    }
}

impl TestRun {
    /// No more tests have been run than there are.
    pub open spec fn wf(&self) -> bool {
        self@.next <= self@.tests.len()
    }

    /// Starts a run.
    pub fn new(tests: Vec<TestInfo>) -> (run: Self)
        ensures
            run.wf(),
            run@ == (TestRunView { tests: test_views(tests@), next: 0, success: true }),
    {
        TestRun { tests, next: 0, success: true }
    }

    /// Returns the test to run next.
    pub fn current(&self) -> (test: Option<&TestInfo>)
        requires
            self.wf(),
        ensures
            match test {
                Some(t) => self@.next < self@.tests.len() && t@ == self@.tests[self@.next as int],
                None => self@.next == self@.tests.len(),
            },
    {
        if self.next < self.tests.len() {
            Some(&self.tests[self.next])
        } else {
            None
        }
    }

    /// Takes the result of the test that was run.
    pub fn record<R>(&mut self, result: &TestResult<R>)
        requires
            old(self).wf(),
            old(self)@.next < old(self)@.tests.len(),
        ensures
            final(self).wf(),
            final(self)@ == old(self)@.recorded(result is Passed),
    {
        assert(self@.tests.len() == self.tests.len());
        match result {
            TestResult::Passed => {},
            TestResult::Failed => {
                self.success = false;
            },
            TestResult::Faulted { .. } => {
                self.success = false;
            },
        }
        self.next = self.next + 1;
    }

    /// Ends the run early, because a test could not be run.
    pub fn abort(&self) -> (e: RunError)
        requires
            self.wf(),
            self@.next < self@.tests.len(),
        ensures
            e matches RunError::NotRun(name) && name@ == self@.tests[self@.next as int].0,
    {
        RunError::NotRun(self.tests[self.next].name.clone())
    }

    /// Ends the run, once every test has been run.
    pub fn finish(&self) -> (r: Result<(), RunError>)
        requires
            self@.next == self@.tests.len(),
        ensures
            match r {
                Ok(_) => self@.success,
                Err(e) => e is SomeFailed && !self@.success,
            },
    {
        if !self.success {
            return Err(RunError::SomeFailed);
        }
        Ok(())
    }
}

/// What is booted.
#[derive(Clone, Copy, Debug)]
pub enum BootImage<'a> {
    /// A Linux image with its initial RAM file system and its command line.
    Linux { kernel: &'a String, initrd: &'a String, cmdline: &'a String },
    /// A test microkernel.
    Tmk { path: &'a String },
}

/// What is there when a processor starts.
#[derive(Debug)]
pub struct RunPlan<'a> {
    /// What takes the accesses of the guest.
    pub handler: IoHandler,
    /// Whether input is read for the guest.
    pub reads_input: bool,
    /// What is booted.
    pub image: BootImage<'a>,
    /// The processor that boots.
    pub builder: RunnerBuilder,
}

/// The devices of a guest that starts: on Arm the interrupt controller and a console on which
/// nothing has happened.
pub open spec fn starts_with<D>(
    handler: IoHandler,
    state: CommonState<D>,
    sizes: GicSizes,
    order: ByteOrder,
) -> bool {
    &&& handler.order == order
    &&& match state.processor_topology {
        Processors::X86 => handler.devices is None,
        Processors::Aarch64(topology) => {
            &&& handler.devices matches Some(devices)
            &&& gic_error(topology, sizes) is None
            &&& devices.gic.laid_out(topology, sizes)
            &&& devices.serial@ == SerialView::fresh(
                text_of(state.opts.linux_success_marker),
                state.opts.linux_serial_raw,
                order,
            )
        },
    }
}

/// What is booted is what the options name: on Arm a Linux image, where there is one, and else the
/// test microkernel.
pub open spec fn boots<D>(image: BootImage, state: CommonState<D>) -> bool {
    match image {
        BootImage::Linux { kernel, initrd, cmdline } => {
            &&& state.processor_topology is Aarch64
            &&& state.opts.linux_kernel == Some(*kernel)
            &&& state.opts.linux_initrd == Some(*initrd)
            &&& state.opts.linux_cmdline == *cmdline
        },
        BootImage::Tmk { path } => {
            &&& state.processor_topology is X86 || state.opts.linux_kernel is None
            &&& state.opts.tmk == Some(*path)
        },
    }
}

/// One test of a guest that is set up.
#[derive(Debug)]
pub struct RunContext<'a, D> {
    /// The guest.
    pub state: &'a CommonState<D>,
}

/// What a guest can boot is there.
pub open spec fn bootable<D>(state: CommonState<D>) -> bool {
    match state.processor_topology.arch() {
        GuestArch::X86_64 => state.opts.tmk is Some,
        GuestArch::Aarch64 => state.opts.valid(),
    }
}

impl<'a, D> RunContext<'a, D> {
    /// Prepares the devices of the guest, and settles what is booted.
    pub fn prepare(&self, sizes: GicSizes, order: ByteOrder) -> (r: Result<RunPlan<'a>, GicError>)
        requires
            bootable(*self.state),
            self.state.processor_topology matches Processors::Aarch64(topology) ==> topology.wf(),
        ensures
            match r {
                Err(e) => (self.state.processor_topology matches Processors::Aarch64(topology)
                    && gic_error(topology, sizes) == Some(e)),
                Ok(plan) => {
                    &&& plan.handler.wf()
                    &&& starts_with(plan.handler, *self.state, sizes, order)
                    &&& plan.reads_input == (self.state.processor_topology is Aarch64
                        && self.state.opts.linux_kernel is Some)
                    &&& boots(plan.image, *self.state)
                    &&& plan.builder.vp_index == 0
                },
            },
    {
        let devices = match &self.state.processor_topology {
            Processors::X86 => None,
            Processors::Aarch64(topology) => {
                let gic = match PlatformGic::new(topology, sizes) {
                    Ok(gic) => gic,
                    Err(e) => {
                        return Err(e);
                    },
                };
                let marker = match &self.state.opts.linux_success_marker {
                    Some(marker) => Some(marker.clone()),
                    None => None,
                };
                let raw_output = self.state.opts.linux_serial_raw;
                let serial = SerialDevice::new(marker, raw_output, order);
                Some(Devices { gic, serial })
            },
        };
        Ok(
            RunPlan {
                handler: IoHandler { order, devices },
                reads_input: self.reads_input(),
                image: self.image(),
                builder: RunnerBuilder::new(BSP),
            },
        )
    }

    /// Returns what is booted.
    fn image(&self) -> (image: BootImage<'a>)
        requires
            bootable(*self.state),
        ensures
            boots(image, *self.state),
    {
        let opts = &self.state.opts;
        match &self.state.processor_topology {
            Processors::Aarch64(_) => {
                if let Some(kernel) = &opts.linux_kernel {
                    if let Some(initrd) = &opts.linux_initrd {
                        return BootImage::Linux { kernel, initrd, cmdline: &opts.linux_cmdline };
                    }
                }
            },
            Processors::X86 => {},
        }
        BootImage::Tmk { path: opts.tmk.as_ref().unwrap() }
    }

    /// Tells whether input is read for the guest: on Arm, where a Linux image is booted.
    fn reads_input(&self) -> (b: bool)
        ensures
            b == (self.state.processor_topology is Aarch64 && self.state.opts.linux_kernel is Some),
    {
        match &self.state.processor_topology {
            Processors::Aarch64(_) => self.state.opts.linux_kernel.is_some(),
            Processors::X86 => false,
        }
    }

    /// Returns the result of the test from the first thing that happened to its processor.
    pub fn run<R>(&self, event: VpEvent<R>) -> (result: TestResult<R>)
        ensures
            result == result_of(event),
    {
        match event {
            VpEvent::TestComplete { success } => {
                if success {
                    TestResult::Passed
                } else {
                    TestResult::Failed
                }
            },
            VpEvent::Halt { vp_index, reason, regs } => {
                TestResult::Faulted { vp_index, reason, regs }
            },
        }
    }
}

/// The result of a test that ends with an event.
pub open spec fn result_of<R>(event: VpEvent<R>) -> TestResult<R> {
    match event {
        VpEvent::TestComplete { success } => if success {
            TestResult::Passed
        } else {
            TestResult::Failed
        },
        VpEvent::Halt { vp_index, reason, regs } => TestResult::Faulted { vp_index, reason, regs },
    }
}

/// One step that prepares a processor.
#[derive(Clone, Copy, Debug, PartialEq, Eq, Structural)]
pub enum VpStateStep {
    /// Sets the registers.
    Registers,
    /// Sets the memory type ranges.
    Mtrrs,
    /// Sets the page attribute table.
    Pat,
    /// Sets the system registers.
    SystemRegisters,
    /// Makes what was set take effect.
    Commit,
}

/// The steps that prepare a processor.
pub open spec fn vp_state_steps(arch: GuestArch) -> Seq<VpStateStep> {
    match arch {
        GuestArch::X86_64 => seq![
            VpStateStep::Registers,
            VpStateStep::Mtrrs,
            VpStateStep::Pat,
            VpStateStep::Commit,
        ],
        GuestArch::Aarch64 => seq![
            VpStateStep::Registers,
            VpStateStep::SystemRegisters,
            VpStateStep::Commit,
        ],
    }
}

/// A processor that is not prepared yet.
#[derive(Clone, Copy, Debug, PartialEq, Eq, Structural)]
pub struct RunnerBuilder {
    /// The index of the processor.
    pub vp_index: u32,
}

impl RunnerBuilder {
    /// The processor of an index.
    pub fn new(vp_index: u32) -> (b: Self)
        ensures
            b.vp_index == vp_index,
    {
        RunnerBuilder { vp_index }
    }

    /// Returns the steps that prepare the processor, of which each must succeed, and what runs it
    /// then.
    pub fn build(&self, arch: GuestArch) -> (r: (Vec<VpStateStep>, Runner))
        ensures
            r.0@ == vp_state_steps(arch),
            r.1.vp_index == self.vp_index,
    {
        let steps = match arch {
            GuestArch::X86_64 => vec![
                VpStateStep::Registers,
                VpStateStep::Mtrrs,
                VpStateStep::Pat,
                VpStateStep::Commit,
            ],
            GuestArch::Aarch64 => vec![
                VpStateStep::Registers,
                VpStateStep::SystemRegisters,
                VpStateStep::Commit,
            ],
        };
        assert(steps@ =~= vp_state_steps(arch));
        (steps, Runner { vp_index: self.vp_index })
    }
}

/// A processor that is prepared.
#[derive(Clone, Copy, Debug, PartialEq, Eq, Structural)]
pub struct Runner {
    /// The index of the processor.
    pub vp_index: u32,
}

impl Runner {
    /// Returns the event for a processor that has stopped, with its registers where they can be
    /// read.
    pub fn run_vp<R>(&self, reason: String, regs: Option<Box<R>>) -> (event: VpEvent<R>)
        ensures
            event == (VpEvent::Halt { vp_index: self.vp_index, reason, regs }),
    {
        VpEvent::Halt { vp_index: self.vp_index, reason, regs }
    }
}

/// The state of a run once some tests have been run.
pub open spec fn after_tests(run: TestRunView, passed: Seq<bool>) -> TestRunView
    decreases passed.len(),
{
    if passed.len() == 0 {
        run
    } else {
        after_tests(run, passed.drop_last()).recorded(passed.last())
    }
}

/// A run succeeds exactly if every one of its tests has passed.
pub proof fn lemma_run_succeeds_if_all_pass(run: TestRunView, passed: Seq<bool>)
    requires
        run.next == 0,
        run.success,
    ensures
        after_tests(run, passed).next == passed.len(),
        after_tests(run, passed).tests == run.tests,
        after_tests(run, passed).success <==> (forall|i: int| 0 <= i < passed.len() ==> passed[i]),
    decreases passed.len(),
{
    if passed.len() > 0 {
        let front = passed.drop_last();
        lemma_run_succeeds_if_all_pass(run, front);
        if forall|i: int| 0 <= i < passed.len() ==> passed[i] {
            assert forall|i: int| 0 <= i < front.len() implies front[i] by {
                assert(front[i] == passed[i]);
            }
            assert(passed[passed.len() - 1]);
        }
        if after_tests(run, passed).success {
            assert forall|i: int| 0 <= i < passed.len() implies passed[i] by {
                if i < front.len() {
                    assert(front[i] == passed[i]);
                }
            }
        }
    }
}

/// The selected tests are as many as the names, each has its name, and each is one of those that
/// there are.
pub proof fn lemma_selected_tests_have_their_names(
    tests: Seq<TestView>,
    names: Seq<Seq<char>>,
    i: int,
)
    requires
        picked(tests, names) is Ok,
        0 <= i < names.len(),
    ensures
        picked(tests, names)->Ok_0.len() == names.len(),
        picked(tests, names)->Ok_0[i].0 == names[i],
        tests.contains(picked(tests, names)->Ok_0[i]),
    decreases names.len(),
{
    lemma_picked_len(tests, names);
    lemma_picked_len(tests, names.drop_last());
    if i == names.len() - 1 {
        lemma_first_named(tests, names.last());
    } else {
        lemma_selected_tests_have_their_names(tests, names.drop_last(), i);
    }
}

proof fn lemma_picked_len(tests: Seq<TestView>, names: Seq<Seq<char>>)
    ensures
        picked(tests, names) matches Ok(s) ==> s.len() == names.len(),
    decreases names.len(),
{
    if names.len() > 0 {
        lemma_picked_len(tests, names.drop_last());
    }
}

proof fn lemma_first_named(tests: Seq<TestView>, name: Seq<char>)
    ensures
        first_named(tests, name) matches Some(t) ==> t.0 == name && tests.contains(t),
    decreases tests.len(),
{
    if tests.len() > 0 {
        if tests[0].0 == name {
            assert(tests.contains(tests[0]));
        } else {
            lemma_first_named(tests.drop_first(), name);
            if let Some(t) = first_named(tests.drop_first(), name) {
                let k = tests.drop_first().index_of(t);
                assert(tests[k + 1] == t);
            }
        }
    }
}

/// Processors came of a configuration.
pub open spec fn configured(topology: ProcessorTopology, config: TopologyConfig) -> bool {
    match config {
        TopologyConfig::X86 { .. } => false,
        TopologyConfig::Aarch64 {
            gic_distributor_base,
            gic_version,
            virt_timer_ppi,
            gic_nr_irqs,
            vp_count,
            ..
        } => {
            &&& topology.gic_distributor_base == gic_distributor_base
            &&& topology.gic_version == gic_version
            &&& topology.virt_timer_ppi == virt_timer_ppi
            &&& topology.gic_nr_irqs == gic_nr_irqs
            &&& topology.mpidrs@.len() == vp_count
        },
    }
}

/// The processors that a 64-bit Arm guest is to have get their interrupt controller, and can be
/// described to Linux.
pub proof fn lemma_configured_guest_can_start(topology: ProcessorTopology, sizes: GicSizes)
    requires
        configured(topology, config_of(GuestArch::Aarch64)),
        sizes.distributor <= u64::MAX - GIC_DISTRIBUTOR_BASE,
        sizes.redistributor <= u64::MAX - GIC_REDISTRIBUTORS_BASE,
    ensures
        topology.wf(),
        describable(topology, sizes),
        gic_error(topology, sizes) is None,
{
    assert(sizes.redistributor * 1 == sizes.redistributor);
}

/// The devices of a guest do not overlap: the distributor ends before the redistributors, and the
/// address of commands and the console are none of theirs.
pub proof fn lemma_devices_are_apart(sizes: GicSizes, address: u64)
    requires
        sizes.distributor <= 0x2_0000,
        sizes.redistributor <= 0xfd_0000,
    ensures
        ({
            let distributor = GIC_DISTRIBUTOR_BASE <= address < GIC_DISTRIBUTOR_BASE
                + sizes.distributor;
            let redistributors = GIC_REDISTRIBUTORS_BASE <= address < GIC_REDISTRIBUTORS_BASE
                + sizes.redistributor * VP_COUNT;
            let command = address == COMMAND_ADDRESS;
            &&& !(distributor && redistributors)
            &&& command ==> !distributor && !redistributors && !in_uart(address)
            &&& in_uart(address) ==> !distributor && !redistributors
        }),
{
}

/// Guest memory has the size in MiB that is asked for, and else 192 MiB for Linux and 4 MiB for a
/// test microkernel.
pub proof fn lemma_guest_has_the_memory_asked_for(opts: Options)
    ensures
        opts.memory_mb matches Some(mb) ==> asked_ram_size(opts) == mb * 0x10_0000,
        opts.memory_mb is None && opts.linux_kernel is Some ==> asked_ram_size(opts) == 0xc00_0000,
        opts.memory_mb is None && opts.linux_kernel is None ==> asked_ram_size(opts) == 0x40_0000,
{
}

/// A guest is set up exactly if everything that it needs came about; what is missing first is the
/// error.
pub proof fn lemma_guest_needs_everything<D>(
    opts: Options,
    topology: Option<Processors>,
    layout: Option<Vec<MemoryRange>>,
    private: Result<Option<PrivateRam<D>>, PrivateRamError>,
)
    ensures
        ({
            let e = state_error(opts, topology, layout, private);
            let fits = asked_ram_size(opts) < 0x1_0000_0000_0000_0000;
            &&& e == Some(StateError::ProcessorTopology) <==> topology is None
            &&& e == Some(StateError::RamSizeOverflow) <==> topology is Some && !fits
            &&& (topology is Some && fits && layout is None) ==> e == Some(StateError::MemoryLayout)
            &&& (topology is Some && fits && layout is Some) ==> match private {
                Err(reason) => e == Some(StateError::PrivateRam(reason)),
                Ok(None) => e is None,
                Ok(Some(ram)) => e == if ram.layout is None {
                    Some(StateError::MemoryLayout)
                } else {
                    None
                },
            }
        }),
{
}

/// Tests are found by their names: the one that is found is the first that has the name, and none
/// is found exactly if none has it.
pub proof fn lemma_first_test_of_a_name_is_found(tests: Seq<TestView>, name: Seq<char>)
    ensures
        match first_named(tests, name) {
            Some(t) => exists|i: int|
                {
                    &&& 0 <= i < tests.len()
                    &&& #[trigger] tests[i] == t
                    &&& t.0 == name
                    &&& forall|j: int| 0 <= j < i ==> (#[trigger] tests[j]).0 != name
                },
            None => forall|i: int| 0 <= i < tests.len() ==> (#[trigger] tests[i]).0 != name,
        },
    decreases tests.len(),
{
    if tests.len() > 0 {
        let rest = tests.drop_first();
        lemma_first_test_of_a_name_is_found(rest, name);
        assert forall|j: int| 0 <= j < rest.len() implies rest[j] == tests[j + 1] by {}
        if tests[0].0 == name {
            assert(tests[0] == first_named(tests, name)->0);
        } else {
            match first_named(rest, name) {
                Some(t) => {
                    let i = choose|i: int|
                        {
                            &&& 0 <= i < rest.len()
                            &&& #[trigger] rest[i] == t
                            &&& t.0 == name
                            &&& forall|j: int| 0 <= j < i ==> (#[trigger] rest[j]).0 != name
                        };
                    assert(tests[i + 1] == t);
                    assert forall|j: int| 0 <= j < i + 1 implies (#[trigger] tests[j]).0 != name by {
                        if j > 0 {
                            assert(rest[j - 1] == tests[j]);
                        }
                    }
                },
                None => {
                    assert forall|i: int| 0 <= i < tests.len() implies (#[trigger] tests[i]).0
                        != name by {
                        if i > 0 {
                            assert(rest[i - 1] == tests[i]);
                        }
                    }
                },
            }
        }
    }
}

/// Without names every test there is is run, in order; with names exactly those, one for each name
/// and in the order of the names, where every name has a test; and else none, and the first name
/// without a test is said. Without a test microkernel there is one test.
pub proof fn lemma_tests_are_run_as_asked(opts: Options, available: Seq<TestView>)
    ensures
        opts.tmk is None ==> (chosen(opts, available) matches Ok(tests) && tests.len() == 1
            && tests[0].0 == "cca_linux_virtual_timer_irq"@ && tests[0].1 == 0),
        opts.tmk is Some && opts.tests@.len() == 0 ==> chosen(opts, available) == Ok::<
            Seq<TestView>,
            Seq<char>,
        >(available),
        opts.tmk is Some && opts.tests@.len() > 0 ==> match chosen(opts, available) {
            Ok(tests) => tests.len() == opts.tests@.len() && forall|k: int|
                0 <= k < tests.len() ==> Some(#[trigger] tests[k]) == first_named(
                    available,
                    opts.tests@[k]@,
                ),
            Err(missing) => exists|k: int|
                {
                    &&& 0 <= k < opts.tests@.len()
                    &&& (#[trigger] opts.tests@[k])@ == missing
                    &&& first_named(available, missing) is None
                    &&& forall|j: int|
                        0 <= j < k ==> first_named(
                            available,
                            (#[trigger] opts.tests@[j])@,
                        ) is Some
                },
        },
{
    let names = name_views(opts.tests@);
    lemma_picked_one_by_one(available, names);
    if opts.tmk is Some && opts.tests@.len() > 0 {
        assert forall|j: int| 0 <= j < names.len() implies names[j] == opts.tests@[j]@ by {}
        match picked(available, names) {
            Ok(tests) => {
                assert forall|k: int| 0 <= k < tests.len() implies Some(#[trigger] tests[k])
                    == first_named(available, opts.tests@[k]@) by {
                    assert(names[k] == opts.tests@[k]@);
                }
            },
            Err(missing) => {
                let k = choose|k: int|
                    {
                        &&& 0 <= k < names.len()
                        &&& #[trigger] names[k] == missing
                        &&& first_named(available, missing) is None
                        &&& forall|j: int|
                            0 <= j < k ==> first_named(available, #[trigger] names[j]) is Some
                    };
                assert(opts.tests@[k]@ == missing);
                assert forall|j: int| 0 <= j < k implies first_named(
                    available,
                    (#[trigger] opts.tests@[j])@,
                ) is Some by {
                    assert(names[j] == opts.tests@[j]@);
                }
            },
        }
    }
}

proof fn lemma_picked_one_by_one(tests: Seq<TestView>, names: Seq<Seq<char>>)
    ensures
        match picked(tests, names) {
            Ok(found) => found.len() == names.len() && forall|k: int|
                0 <= k < found.len() ==> Some(#[trigger] found[k]) == first_named(tests, names[k]),
            Err(missing) => exists|k: int|
                {
                    &&& 0 <= k < names.len()
                    &&& #[trigger] names[k] == missing
                    &&& first_named(tests, missing) is None
                    &&& forall|j: int|
                        0 <= j < k ==> first_named(tests, #[trigger] names[j]) is Some
                },
        },
    decreases names.len(),
{
    if names.len() > 0 {
        let front = names.drop_last();
        lemma_picked_one_by_one(tests, front);
        assert forall|j: int| 0 <= j < front.len() implies front[j] == names[j] by {}
        match picked(tests, front) {
            Ok(found) => {
                assert forall|j: int| 0 <= j < front.len() implies first_named(
                    tests,
                    #[trigger] names[j],
                ) is Some by {
                    assert(Some(found[j]) == first_named(tests, front[j]));
                }
                if first_named(tests, names.last()) is Some {
                    let all = picked(tests, names)->Ok_0;
                    assert forall|k: int| 0 <= k < all.len() implies Some(#[trigger] all[k])
                        == first_named(tests, names[k]) by {
                        if k < found.len() {
                            assert(all[k] == found[k]);
                            assert(front[k] == names[k]);
                        }
                    }
                } else {
                    assert(names[names.len() - 1] == names.last());
                }
            },
            Err(missing) => {
                let k = choose|k: int|
                    {
                        &&& 0 <= k < front.len()
                        &&& #[trigger] front[k] == missing
                        &&& first_named(tests, missing) is None
                        &&& forall|j: int|
                            0 <= j < k ==> first_named(tests, #[trigger] front[j]) is Some
                    };
                assert(names[k] == missing);
                assert forall|j: int| 0 <= j < k implies first_named(
                    tests,
                    #[trigger] names[j],
                ) is Some by {
                    assert(front[j] == names[j]);
                }
            },
        }
    }
}

/// A guest boots what it was told to: an Arm guest with a Linux image boots that image, with its
/// file system and its command line; any other guest boots its test microkernel.
pub proof fn lemma_guest_boots_what_it_was_told_to<D>(image: BootImage, state: CommonState<D>)
    requires
        bootable(state),
        boots(image, state),
    ensures
        image is Linux <==> state.processor_topology is Aarch64 && state.opts.linux_kernel is Some,
        image matches BootImage::Linux { kernel, initrd, cmdline } ==> {
            &&& state.opts.linux_kernel->0@ == kernel@
            &&& state.opts.linux_initrd->0@ == initrd@
            &&& state.opts.linux_cmdline@ == cmdline@
        },
        image matches BootImage::Tmk { path } ==> state.opts.tmk->0@ == path@,
{
}

/// The console of an Arm guest that starts has the marker and the raw output that the options ask
/// for, and nothing on it; an x86 guest has no devices.
pub proof fn lemma_guest_starts_with_fresh_devices<D>(
    handler: IoHandler,
    state: CommonState<D>,
    sizes: GicSizes,
    order: ByteOrder,
)
    requires
        starts_with(handler, state, sizes, order),
    ensures
        handler.order == order,
        handler.devices is Some <==> state.processor_topology is Aarch64,
        handler.devices matches Some(devices) ==> {
            &&& match (devices.serial@.success_marker, state.opts.linux_success_marker) {
                (Some(marker), Some(asked)) => marker == asked@,
                (None, None) => true,
                _ => false,
            }
            &&& devices.serial@.raw_output == state.opts.linux_serial_raw
            &&& devices.serial@.line.len() == 0 && devices.serial@.input.len() == 0
            &&& devices.serial@.interrupt_mask == 0 && !devices.serial@.interrupt_asserted
            &&& !devices.serial@.completed && devices.serial@.order == order
            &&& state.processor_topology matches Processors::Aarch64(topology)
            &&& devices.gic.distributor_range.start() == topology.gic_distributor_base
            &&& devices.gic.distributor_range.end() == topology.gic_distributor_base
                + sizes.distributor
        },
{
}

/// A test passes exactly if it is complete with success, fails exactly if it is complete without,
/// and is faulted exactly if its processor stops, with what is known of that.
pub proof fn lemma_events_decide_the_test<R>(event: VpEvent<R>)
    ensures
        result_of(event) is Passed <==> (event matches VpEvent::TestComplete { success }
            && success),
        result_of(event) is Failed <==> (event matches VpEvent::TestComplete { success }
            && !success),
        match (event, result_of(event)) {
            (
                VpEvent::Halt { vp_index: v, reason: r, regs: g },
                TestResult::Faulted { vp_index, reason, regs },
            ) => v == vp_index && r == reason && g == regs,
            (VpEvent::Halt { .. }, _) => false,
            (_, TestResult::Faulted { .. }) => false,
            _ => true,
        },
{
}

/// A processor is prepared step by step, registers first; what was set takes effect once, in the
/// last step, and no step is made twice. The steps in between are those of its instruction set.
pub proof fn lemma_processor_is_committed_last(arch: GuestArch, i: int, j: int)
    requires
        0 <= i < j < vp_state_steps(arch).len(),
    ensures
        vp_state_steps(arch)[0] == VpStateStep::Registers,
        vp_state_steps(arch)[vp_state_steps(arch).len() - 1] == VpStateStep::Commit,
        vp_state_steps(arch)[i] != vp_state_steps(arch)[j],
        vp_state_steps(arch)[i] != VpStateStep::Commit,
        vp_state_steps(arch).contains(VpStateStep::Mtrrs) <==> arch == GuestArch::X86_64,
        vp_state_steps(arch).contains(VpStateStep::Pat) <==> arch == GuestArch::X86_64,
        vp_state_steps(arch).contains(VpStateStep::SystemRegisters) <==> arch == GuestArch::Aarch64,
{
    let steps = vp_state_steps(arch);
    match arch {
        GuestArch::X86_64 => {
            assert(steps[1] == VpStateStep::Mtrrs);
            assert(steps[2] == VpStateStep::Pat);
        },
        GuestArch::Aarch64 => {
            assert(steps[1] == VpStateStep::SystemRegisters);
        },
    }
}

/// A run that starts has the tests that were chosen, none of them run yet; one that does not start
/// says the name that no test has.
pub proof fn lemma_run_starts_with_the_chosen_tests(
    r: Result<TestRun, RunError>,
    expected: Result<Seq<TestView>, Seq<char>>,
)
    requires
        selected(r, expected),
    ensures
        r is Ok <==> expected is Ok,
        r matches Ok(run) ==> run@.tests == expected->Ok_0 && run@.next == 0 && run@.success,
        r matches Err(e) ==> (e matches RunError::NotFound(name) && name@ == expected->Err_0),
{
}

/// An error names the test that it is about, with its whole name.
pub proof fn lemma_error_names_the_test(name: String)
    ensures
        RunError::NotFound(name).text() == Some("test "@ + name@ + " not found"@),
        RunError::NotRun(name).text() == Some("failed to run test "@ + name@),
{
}

} // verus!
