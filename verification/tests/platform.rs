use tmk_vmm::device_tree::{
    build_linux_dt, properties, DtEvent, DtProperty, DT_STRING_TABLE_CAP,
};
use tmk_vmm::gic::{GicError, PlatformGic, Redistributor};
use tmk_vmm::load::{
    load_aarch64, load_address, load_common, load_linux_aarch64, load_x86, place_linux,
    Aarch64Register, ElfLoadInfo, LinuxLoadError, LoadAction, LoadInfo, StartInput, X86Register,
};
use tmk_vmm::memory::MemoryRange;
use tmk_vmm::options::GuestArch;
use tmk_vmm::topology::{GicSizes, GicVersion, ProcessorTopology};

const SIZES: GicSizes = GicSizes { distributor: 0x1_0000, redistributor: 0x2_0000 };

fn topology() -> ProcessorTopology {
    ProcessorTopology {
        gic_distributor_base: 0xff00_0000,
        gic_version: GicVersion::V3 { redistributors_base: 0xff02_0000 },
        virt_timer_ppi: 20,
        gic_nr_irqs: 256,
        mpidrs: vec![0x8000_0000],
    }
}

fn ram() -> Vec<MemoryRange> {
    vec![MemoryRange::new(0, 0xc00_0000), MemoryRange::new(0x1_0000_0000, 0x1_4000_0000)]
}

#[test]
fn the_interrupt_controller_is_laid_out() {
    let mut t = topology();
    t.mpidrs = vec![7, 8, 9];
    let gic = PlatformGic::new(&t, SIZES).unwrap();
    assert_eq!(gic.distributor_range, MemoryRange::new(0xff00_0000, 0xff01_0000));
    assert_eq!(gic.redistributor_range, MemoryRange::new(0xff02_0000, 0xff08_0000));
    assert_eq!(gic.nr_irqs, 256);
    assert_eq!(
        gic.redistributors,
        [
            Redistributor { mpidr: 7, last: false },
            Redistributor { mpidr: 8, last: false },
            Redistributor { mpidr: 9, last: true },
        ]
    );
    assert!(gic.contains(0xff07_ffff));
    assert!(!gic.contains(0xff08_0000));
}

#[test]
fn an_interrupt_controller_must_fit() {
    let mut t = topology();
    t.gic_version = GicVersion::V2;
    assert_eq!(PlatformGic::new(&t, SIZES).unwrap_err(), GicError::Version);
    let huge = GicSizes { distributor: 1, redistributor: u64::MAX };
    t = topology();
    t.mpidrs = vec![0, 1];
    assert_eq!(PlatformGic::new(&t, huge).unwrap_err(), GicError::RedistributorOverflow);
    t = topology();
    t.gic_version = GicVersion::V3 { redistributors_base: u64::MAX };
    assert_eq!(PlatformGic::new(&t, SIZES).unwrap_err(), GicError::RedistributorOverflow);
    t = topology();
    t.gic_distributor_base = u64::MAX;
    assert_eq!(PlatformGic::new(&t, SIZES).unwrap_err(), GicError::DistributorOverflow);
    assert_eq!(GicError::Version.message(), "CCA Linux prototype requires GICv3");
    assert_eq!(
        GicError::RedistributorOverflow.message(),
        "GIC redistributor range overflowed"
    );
    assert_eq!(GicError::DistributorOverflow.message(), "GIC distributor range overflowed");
}

#[test]
fn the_device_tree_describes_the_guest() {
    let events = build_linux_dt(&ram(), &topology(), SIZES, "console=ttyAMA0", 0x100, 0x200);
    let text: Vec<String> = events.iter().map(|e| format!("{e:x?}")).collect();
    let expected = [
        "StartNode(\"\")",
        "U32(AddressCells, 2)",
        "U32(SizeCells, 2)",
        "U32(InterruptParent, 1)",
        "Str(Compatible, \"microsoft,openvmm-cca-prototype\")",
        "StartNode(\"cpus\")",
        "U32(AddressCells, 1)",
        "U32(SizeCells, 0)",
        "StartNode(\"cpu@0\")",
        "Str(DeviceType, \"cpu\")",
        "Str(Compatible, \"arm,armv8\")",
        "U32(Reg, 0)",
        "Str(Status, \"okay\")",
        "EndNode",
        "EndNode",
        "StartNode(\"memory@0\")",
        "Str(DeviceType, \"memory\")",
        "U64Array(Reg, [0, c000000])",
        "EndNode",
        "StartNode(\"memory@100000000\")",
        "Str(DeviceType, \"memory\")",
        "U64Array(Reg, [100000000, 40000000])",
        "EndNode",
        "StartNode(\"intc@ff000000\")",
        "Str(Compatible, \"arm,gic-v3\")",
        "U64Array(Reg, [ff000000, 10000, ff020000, 20000])",
        "U32(AddressCells, 2)",
        "U32(SizeCells, 2)",
        "U32(InterruptCells, 3)",
        "Null(InterruptController)",
        "U32(Phandle, 1)",
        "EndNode",
        "StartNode(\"timer\")",
        "Str(Compatible, \"arm,armv8-timer\")",
        "Str(InterruptNames, \"virt\")",
        "U32Array(Interrupts, [1, 4, 8])",
        "Null(AlwaysOn)",
        "EndNode",
        "StartNode(\"uart@effec000\")",
        "Str(Compatible, \"arm,sbsa-uart\")",
        "U64Array(Reg, [effec000, 1000])",
        "U32Array(Interrupts, [0, 1, 4])",
        "U32(CurrentSpeed, 1c200)",
        "Str(Status, \"okay\")",
        "EndNode",
        "StartNode(\"chosen\")",
        "Str(Bootargs, \"console=ttyAMA0\")",
        "Str(StdoutPath, \"/uart@effec000\")",
        "U64(InitrdStart, 100)",
        "U64(InitrdEnd, 200)",
        "EndNode",
        "EndNode",
    ];
    assert_eq!(text, expected);
}

#[test]
fn every_node_is_ended() {
    let events = build_linux_dt(&ram(), &topology(), SIZES, "", 0, 0);
    let mut depth = 0i32;
    for (i, e) in events.iter().enumerate() {
        match e {
            DtEvent::StartNode(_) => depth += 1,
            DtEvent::EndNode => depth -= 1,
            _ => {}
        }
        assert_eq!(depth == 0, i + 1 == events.len());
    }
}

#[test]
fn property_names_fit_their_table() {
    let names = properties();
    let size: usize = names.iter().map(|p| p.name().len() + 1).sum();
    assert!(size <= DT_STRING_TABLE_CAP);
    let text: Vec<&str> = names.iter().map(|p| p.name()).collect();
    assert_eq!(
        text,
        [
            "#address-cells",
            "#size-cells",
            "compatible",
            "device_type",
            "reg",
            "status",
            "#interrupt-cells",
            "interrupt-controller",
            "interrupt-parent",
            "interrupts",
            "interrupt-names",
            "always-on",
            "phandle",
            "bootargs",
            "stdout-path",
            "linux,initrd-start",
            "linux,initrd-end",
            "current-speed",
        ]
    );
    assert_eq!(DtProperty::Reg.name(), "reg");
}

#[test]
fn every_range_of_ram_has_a_node() {
    let nodes = |ram: &[MemoryRange]| {
        build_linux_dt(ram, &topology(), SIZES, "", 0, 0)
            .iter()
            .filter(|e| matches!(e, DtEvent::StartNode(n) if n.starts_with("memory@")))
            .count()
    };
    assert_eq!(nodes(&[]), 0);
    assert_eq!(nodes(&ram()), 2);
}

#[test]
fn a_microkernel_is_loaded_at_its_address() {
    assert_eq!(load_address(GuestArch::X86_64, &[]), 0x20_0000);
    let ram = [MemoryRange::new(0x8000_0000, 0x9000_0000)];
    assert_eq!(load_address(GuestArch::Aarch64, &ram), 0x8000_0000);
}

#[test]
fn the_start_input_follows_the_microkernel() {
    let elf = ElfLoadInfo { entrypoint: 0x20_0040, next_available_address: 0x21_0000 };
    let (action, info) = load_common(elf, 3);
    assert_eq!(
        action,
        LoadAction::ImportStartInput {
            page: 0x210,
            count: 1,
            input: StartInput { command: 0xffff_0000, test_index: 3 },
        }
    );
    assert_eq!(
        info,
        LoadInfo {
            entrypoint: 0x20_0040,
            param: 0x21_0000,
            next_available_address: 0x21_1000,
        }
    );
}

#[test]
fn an_x86_processor_starts_in_long_mode() {
    let info =
        LoadInfo { entrypoint: 0x20_0040, param: 0x21_0000, next_available_address: 0x21_1000 };
    assert_eq!(
        load_x86(&info, 0x6000),
        [
            LoadAction::ImportPageTables { page: 0x211, count: 6 },
            LoadAction::ImportGdt { page: 0x217 },
            LoadAction::SetX86(X86Register::Cr0(0x8000_0001)),
            LoadAction::SetX86(X86Register::Cr3(0x21_1000)),
            LoadAction::SetX86(X86Register::Cr4(0x20)),
            LoadAction::SetX86(X86Register::Efer(0xd01)),
            LoadAction::SetX86(X86Register::Rip(0x20_0040)),
            LoadAction::SetX86(X86Register::Rsi(0x21_0000)),
        ]
    );
}

#[test]
fn an_arm_processor_starts_with_its_parameter() {
    let info =
        LoadInfo { entrypoint: 0x40, param: 0x21_0000, next_available_address: 0x21_1000 };
    assert_eq!(
        load_aarch64(&info),
        [
            LoadAction::SetAarch64(Aarch64Register::Pc(0x40)),
            LoadAction::SetAarch64(Aarch64Register::X0(0x21_0000)),
        ]
    );
}

#[test]
fn load_failures_say_what_failed() {
    let input = StartInput { command: 0, test_index: 0 };
    let start = LoadAction::ImportStartInput { page: 0, count: 1, input };
    assert_eq!(start.failure(), None);
    let tables = LoadAction::ImportPageTables { page: 0, count: 1 };
    assert_eq!(tables.failure(), Some("failed to import page tables"));
    assert_eq!(LoadAction::ImportGdt { page: 0 }.failure(), Some("failed to import gdt"));
    let register = LoadAction::SetX86(X86Register::Rip(0));
    assert_eq!(register.failure(), Some("failed to set register"));
    let register = LoadAction::SetAarch64(Aarch64Register::Pc(0));
    assert_eq!(register.failure(), Some("failed to set register"));
}

#[test]
fn linux_goes_behind_its_file_system() {
    let ram = [MemoryRange::new(0x4000_0000, 0x5000_0000)];
    for (size, kernel) in
        [(0, 0x4100_0000), (1, 0x4120_0000), (0x20_0000, 0x4120_0000), (0x20_0001, 0x4140_0000)]
    {
        let plan = load_linux_aarch64(&ram, &topology(), SIZES, Some(size), "quiet").unwrap();
        assert_eq!(plan.initrd_start, 0x4100_0000);
        assert_eq!(plan.initrd_size, size);
        assert_eq!(plan.kernel_minimum_start_address, kernel);
        assert!(plan
            .device_tree
            .iter()
            .any(|e| matches!(e, DtEvent::U64(DtProperty::InitrdEnd, v) if *v == 0x4100_0000 + size)));
    }
}

#[test]
fn linux_is_placed_before_it_is_described() {
    let ram = [MemoryRange::new(0x4000_0000, 0x5000_0000)];
    let place = place_linux(&ram, Some(5)).unwrap();
    assert_eq!(place.initrd_start, 0x4100_0000);
    assert_eq!(place.initrd_end, 0x4100_0005);
    assert_eq!(place.kernel_minimum_start_address, 0x4120_0000);
    assert_eq!(place_linux(&ram, None), Err(LinuxLoadError::InspectInitrd));
}

#[test]
fn linux_must_fit() {
    let load = |start: u64, size: Option<u64>| {
        let ram = [MemoryRange::new(start, u64::MAX)];
        load_linux_aarch64(&ram, &topology(), SIZES, size, "").map(|p| p.initrd_start)
    };
    let none = load_linux_aarch64(&[], &topology(), SIZES, None, "");
    assert_eq!(none.map(|p| p.initrd_start), Err(LinuxLoadError::NoRam));
    assert_eq!(load(0, None), Err(LinuxLoadError::InspectInitrd));
    assert_eq!(load(u64::MAX, Some(0)), Err(LinuxLoadError::InitrdAddressOverflow));
    assert_eq!(load(0, Some(u64::MAX)), Err(LinuxLoadError::InitrdRangeOverflow));
    let size = u64::MAX - 0x100_0000;
    assert_eq!(load(0, Some(size)), Err(LinuxLoadError::KernelAddressOverflow));
    assert_eq!(load(0, Some(size - 0x1f_ffff)), Ok(0x100_0000));
}

#[test]
fn linux_errors_have_messages() {
    assert_eq!(LinuxLoadError::NoRam.message(), "direct Linux boot requires RAM");
    assert_eq!(LinuxLoadError::InspectInitrd.message(), "failed to inspect Linux initramfs");
    assert_eq!(
        LinuxLoadError::InitrdAddressOverflow.message(),
        "Linux initramfs address overflowed"
    );
    assert_eq!(
        LinuxLoadError::InitrdRangeOverflow.message(),
        "Linux initramfs range overflowed"
    );
    assert_eq!(
        LinuxLoadError::KernelAddressOverflow.message(),
        "Linux kernel address overflowed"
    );
}

#[test]
fn the_device_tree_names_the_interrupt_controller() {
    let mut t = topology();
    t.mpidrs = vec![0, 1];
    let gic = PlatformGic::new(&t, SIZES).unwrap();
    let reg = vec![
        gic.distributor_range.get_start(),
        gic.distributor_range.len(),
        gic.redistributor_range.get_start(),
        gic.redistributor_range.len(),
    ];
    assert_eq!(reg, [0xff00_0000, 0x1_0000, 0xff02_0000, 0x4_0000]);
    let events = build_linux_dt(&ram(), &t, SIZES, "", 0, 0);
    assert!(events
        .iter()
        .any(|e| matches!(e, DtEvent::U64Array(DtProperty::Reg, v) if *v == reg)));
}
