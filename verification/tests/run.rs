use tmk_vmm::bytes::ByteOrder;
use tmk_vmm::cca_ram::PrivateRamError;
use tmk_vmm::gic::GicError;
use tmk_vmm::image::{DescriptorLayout, EnumerateErrorKind, TestInfo};
use tmk_vmm::memory::MemoryRange;
use tmk_vmm::options::{GuestArch, HypervisorOpt, Options};
use tmk_vmm::run::{
    guest_ram_size, topology_config, BootImage, CommonState, PrivateRam, Processors, RunContext,
    RunError, RunnerBuilder, StateError, TestResult, TestRun, TopologyConfig, VpEvent,
    VpStateStep,
};
use tmk_vmm::serial::UART_BASE;
use tmk_vmm::topology::{GicSizes, GicVersion, ProcessorTopology};

const SIZES: GicSizes = GicSizes { distributor: 0x1_0000, redistributor: 0x2_0000 };

fn options(tests: &[&str]) -> Options {
    Options {
        hv: Some(HypervisorOpt::Other),
        tmk: Some("tmk".to_string()),
        tests: tests.iter().map(|t| t.to_string()).collect(),
        linux_kernel: None,
        linux_initrd: None,
        linux_cmdline: "quiet".to_string(),
        linux_success_marker: None,
        linux_serial_raw: false,
        memory_mb: None,
    }
}

fn linux_options() -> Options {
    let mut opts = options(&[]);
    opts.tmk = None;
    opts.linux_kernel = Some("Image".to_string());
    opts.linux_initrd = Some("initrd".to_string());
    opts.linux_success_marker = Some("OK".to_string());
    opts
}

fn arm() -> Processors {
    Processors::Aarch64(ProcessorTopology {
        gic_distributor_base: 0xff00_0000,
        gic_version: GicVersion::V3 { redistributors_base: 0xff02_0000 },
        virt_timer_ppi: 20,
        gic_nr_irqs: 256,
        mpidrs: vec![0],
    })
}

fn layout() -> Option<Vec<MemoryRange>> {
    Some(vec![MemoryRange::new(0, 0x40_0000)])
}

fn state(opts: Options, processors: Processors) -> CommonState<()> {
    CommonState::new(opts, Some(processors), layout(), Ok(None)).unwrap()
}

fn test(name: &str, index: u64) -> TestInfo {
    TestInfo { name: name.to_string(), index }
}

fn names(run: &mut TestRun) -> Vec<(String, u64)> {
    let mut all = Vec::new();
    while let Some(t) = run.current() {
        all.push((t.name.clone(), t.index));
        run.record::<()>(&TestResult::Passed);
    }
    all
}

#[test]
fn memory_has_a_default_size() {
    assert_eq!(guest_ram_size(&options(&[])), Ok(4 << 20));
    assert_eq!(guest_ram_size(&linux_options()), Ok(192 << 20));
    let mut opts = linux_options();
    opts.memory_mb = Some(7);
    assert_eq!(guest_ram_size(&opts), Ok(7 << 20));
    opts.memory_mb = Some(1 << 44);
    assert_eq!(guest_ram_size(&opts), Err(StateError::RamSizeOverflow));
    opts.memory_mb = Some((1 << 44) - 1);
    assert_eq!(guest_ram_size(&opts), Ok(u64::MAX - 0xf_ffff));
}

#[test]
fn guests_have_one_processor() {
    assert_eq!(
        topology_config(GuestArch::X86_64),
        TopologyConfig::X86 { x2apic: true, vp_count: 1 }
    );
    assert_eq!(
        topology_config(GuestArch::Aarch64),
        TopologyConfig::Aarch64 {
            gic_distributor_base: 0xff00_0000,
            gic_version: GicVersion::V3 { redistributors_base: 0xff02_0000 },
            gic_msi: false,
            pmu_gsiv: None,
            virt_timer_ppi: 20,
            gic_nr_irqs: 256,
            vp_count: 1,
        }
    );
}

#[test]
fn setting_up_fails_in_order() {
    let new = |mb, topology: Option<Processors>, layout| {
        let mut opts = options(&[]);
        opts.memory_mb = mb;
        let private = Err(PrivateRamError::Exhausted);
        CommonState::<()>::new(opts, topology, layout, private).map(|_| ()).unwrap_err()
    };
    assert_eq!(new(Some(u64::MAX), None, None), StateError::ProcessorTopology);
    assert_eq!(
        new(Some(u64::MAX), Some(Processors::X86), None),
        StateError::RamSizeOverflow
    );
    assert_eq!(new(None, Some(Processors::X86), None), StateError::MemoryLayout);
    assert_eq!(
        new(None, Some(Processors::X86), layout()),
        StateError::PrivateRam(PrivateRamError::Exhausted)
    );
}

#[test]
fn state_errors_have_messages() {
    assert_eq!(
        StateError::ProcessorTopology.message(0),
        "failed to build processor topology"
    );
    assert_eq!(StateError::RamSizeOverflow.message(0), "guest RAM size overflowed");
    assert_eq!(StateError::MemoryLayout.message(0), "bad memory layout");
    assert_eq!(
        StateError::PrivateRam(PrivateRamError::RangeOverflow).message(0),
        "private CCA RAM range overflowed"
    );
}

#[test]
fn private_memory_takes_the_place_of_the_layout() {
    let range = MemoryRange::new(0x8000_0000, 0x8040_0000);
    let ram = PrivateRam { client: (), layout: Some(vec![range]) };
    let s = CommonState::new(options(&[]), Some(arm()), layout(), Ok(Some(ram))).unwrap();
    assert_eq!(s.memory_layout, [range]);
    let s = state(options(&[]), arm());
    assert_eq!(s.memory_layout, [MemoryRange::new(0, 0x40_0000)]);
    assert!(s.cca.is_none());
}

#[test]
fn private_memory_must_be_laid_out() {
    let ram = PrivateRam { client: (), layout: None };
    let r = CommonState::new(options(&[]), Some(arm()), layout(), Ok(Some(ram)));
    assert_eq!(r.map(|_| ()).unwrap_err(), StateError::MemoryLayout);
}

#[test]
fn the_allocator_of_private_memory_is_handed_out() {
    for client in ["locked", "pooled"] {
        let ram = PrivateRam { client: client.to_string(), layout: layout() };
        let s = CommonState::new(options(&[]), Some(arm()), layout(), Ok(Some(ram))).unwrap();
        assert_eq!(s.cca_private_dma_client(), client);
    }
}

#[test]
fn all_tests_are_run_unless_some_are_named() {
    let available = || vec![test("boot", 0), test("trap", 1), test("boot", 2)];
    let mut run = state(options(&[]), arm()).select_tests(available()).unwrap();
    assert_eq!(
        names(&mut run),
        [("boot".to_string(), 0), ("trap".to_string(), 1), ("boot".to_string(), 2)]
    );
    let mut run = state(options(&["trap", "boot"]), arm()).select_tests(available()).unwrap();
    assert_eq!(names(&mut run), [("trap".to_string(), 1), ("boot".to_string(), 0)]);
    let mut run = state(options(&["boot", "boot"]), arm()).select_tests(available()).unwrap();
    assert_eq!(names(&mut run), [("boot".to_string(), 0), ("boot".to_string(), 0)]);
}

#[test]
fn the_first_name_without_a_test_is_reported() {
    let s = state(options(&["boot", "x", "y"]), arm());
    let e = s.select_tests(vec![test("boot", 0)]).unwrap_err();
    assert!(matches!(&e, RunError::NotFound(name) if name == "x"));
    assert_eq!(e.message().unwrap(), "test x not found");
}

#[test]
fn linux_is_one_test() {
    let s = state(linux_options(), arm());
    let layout = DescriptorLayout { size: 16, name: 0, name_len: 8, order: ByteOrder::Little };
    let mut run = s.for_each_test(b"not looked at", &layout).unwrap();
    assert_eq!(names(&mut run), [("cca_linux_virtual_timer_irq".to_string(), 0)]);
}

#[test]
fn a_file_that_is_no_microkernel_has_no_tests() {
    let s = state(options(&[]), arm());
    let layout = DescriptorLayout { size: 16, name: 0, name_len: 8, order: ByteOrder::Little };
    let e = s.for_each_test(b"not an image", &layout).unwrap_err();
    assert!(matches!(
        &e,
        RunError::Enumerate(e) if e.kind == EnumerateErrorKind::Parse && e.source.is_some()
    ));
    assert_eq!(e.message().unwrap(), "failed to parse TMK");
}

#[test]
fn a_run_succeeds_if_every_test_passes() {
    let fault = || TestResult::Faulted { vp_index: 0, reason: String::new(), regs: None::<Box<u8>> };
    let mut run = TestRun::new(vec![test("a", 0), test("b", 1)]);
    run.record::<u8>(&TestResult::Passed);
    run.record::<u8>(&TestResult::Passed);
    assert!(run.current().is_none());
    assert!(run.finish().is_ok());
    for bad in [TestResult::Failed, fault()] {
        let mut run = TestRun::new(vec![test("a", 0), test("b", 1)]);
        run.record(&bad);
        run.record::<u8>(&TestResult::Passed);
        let e = run.finish().unwrap_err();
        assert_eq!(e.message().unwrap(), "some tests failed");
    }
    assert!(TestRun::new(vec![]).finish().is_ok());
}

#[test]
fn a_test_that_cannot_be_run_ends_the_run() {
    let mut run = TestRun::new(vec![test("a", 0), test("b", 1)]);
    run.record::<u8>(&TestResult::Passed);
    assert_eq!(run.abort().message().unwrap(), "failed to run test b");
}

#[test]
fn events_become_results() {
    let s = state(options(&[]), arm());
    let context = RunContext { state: &s };
    assert!(matches!(
        context.run::<u8>(VpEvent::TestComplete { success: true }),
        TestResult::Passed
    ));
    assert!(matches!(
        context.run::<u8>(VpEvent::TestComplete { success: false }),
        TestResult::Failed
    ));
    let (_, runner) = RunnerBuilder::new(0).build(GuestArch::Aarch64);
    let halt = runner.run_vp("stuck".to_string(), Some(Box::new(5u8)));
    let TestResult::Faulted { vp_index, reason, regs } = context.run(halt) else {
        panic!("a fault");
    };
    assert_eq!((vp_index, reason.as_str(), regs), (0, "stuck", Some(Box::new(5))));
}

#[test]
fn a_processor_keeps_its_index() {
    let builder = RunnerBuilder::new(7);
    assert_eq!(builder.vp_index, 7);
    let (_, runner) = builder.build(GuestArch::X86_64);
    let event = runner.run_vp::<u8>(String::new(), None);
    assert!(matches!(event, VpEvent::Halt { vp_index: 7, .. }));
}

#[test]
fn processors_are_prepared_in_order() {
    assert_eq!(
        RunnerBuilder::new(0).build(GuestArch::X86_64).0,
        [VpStateStep::Registers, VpStateStep::Mtrrs, VpStateStep::Pat, VpStateStep::Commit]
    );
    assert_eq!(
        RunnerBuilder::new(0).build(GuestArch::Aarch64).0,
        [VpStateStep::Registers, VpStateStep::SystemRegisters, VpStateStep::Commit]
    );
}

#[test]
fn an_arm_guest_boots_linux_where_there_is_one() {
    let s = state(linux_options(), arm());
    let mut plan = RunContext { state: &s }.prepare(SIZES, ByteOrder::Little).unwrap();
    assert!(plan.reads_input);
    assert!(matches!(
        plan.image,
        BootImage::Linux { kernel, initrd, cmdline }
            if kernel == "Image" && initrd == "initrd" && cmdline == "quiet"
    ));
    assert!(plan.handler.is_mmio(0xff00_0000));
    let serial = &mut plan.handler.devices.as_mut().unwrap().serial;
    serial.write_uart(UART_BASE, b"O").unwrap();
    serial.write_uart(UART_BASE, b"K").unwrap();
    assert!(serial.write_uart(UART_BASE, b"\n").unwrap().complete);
}

#[test]
fn other_guests_boot_the_microkernel() {
    let s = state(options(&[]), arm());
    let plan = RunContext { state: &s }.prepare(SIZES, ByteOrder::Little).unwrap();
    assert!(!plan.reads_input);
    assert!(matches!(plan.image, BootImage::Tmk { path } if path == "tmk"));
    let mut opts = linux_options();
    opts.tmk = Some("x86".to_string());
    let s = state(opts, Processors::X86);
    let plan = RunContext { state: &s }.prepare(SIZES, ByteOrder::Little).unwrap();
    assert!(!plan.reads_input);
    assert!(plan.handler.devices.is_none());
    assert!(matches!(plan.image, BootImage::Tmk { path } if path == "x86"));
    assert_eq!(plan.builder.vp_index, 0);
}

#[test]
fn a_guest_without_its_interrupt_controller_does_not_start() {
    let huge = GicSizes { distributor: u64::MAX, redistributor: 1 };
    let s = state(options(&[]), arm());
    assert_eq!(
        RunContext { state: &s }.prepare(huge, ByteOrder::Little).unwrap_err(),
        GicError::DistributorOverflow
    );
}

#[test]
fn the_devices_are_apart() {
    let s = state(options(&[]), arm());
    let plan = RunContext { state: &s }.prepare(SIZES, ByteOrder::Little).unwrap();
    let gic = &plan.handler.devices.as_ref().unwrap().gic;
    assert!(!gic.contains(UART_BASE));
    assert!(!gic.contains(0xffff_0000));
}

#[test]
fn a_configured_guest_can_start() {
    let TopologyConfig::Aarch64 {
        gic_distributor_base,
        gic_version,
        virt_timer_ppi,
        gic_nr_irqs,
        vp_count,
        ..
    } = topology_config(GuestArch::Aarch64)
    else {
        panic!("an Arm guest");
    };
    let topology = ProcessorTopology {
        gic_distributor_base,
        gic_version,
        virt_timer_ppi,
        gic_nr_irqs,
        mpidrs: vec![0; vp_count as usize],
    };
    assert_eq!(topology.vp_count(), 1);
    let s = state(linux_options(), Processors::Aarch64(topology));
    assert!(RunContext { state: &s }.prepare(SIZES, ByteOrder::Little).is_ok());
}
