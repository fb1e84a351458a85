use tmk_vmm::bytes::ByteOrder;
use tmk_vmm::gic::PlatformGic;
use tmk_vmm::io::{
    Devices, IoHandler, ReadOutcome, ReadStep, VpHaltReason, WriteOutcome, WriteStep,
    COMMAND_ADDRESS,
};
use tmk_vmm::serial::{SerialDevice, UART_BASE};
use tmk_vmm::topology::{GicSizes, GicVersion, ProcessorTopology};

const SIZES: GicSizes = GicSizes { distributor: 0x1_0000, redistributor: 0x2_0000 };

fn arm() -> IoHandler {
    let topology = ProcessorTopology {
        gic_distributor_base: 0xff00_0000,
        gic_version: GicVersion::V3 { redistributors_base: 0xff02_0000 },
        virt_timer_ppi: 20,
        gic_nr_irqs: 256,
        mpidrs: vec![0],
    };
    IoHandler {
        order: ByteOrder::Little,
        devices: Some(Devices {
            gic: PlatformGic::new(&topology, SIZES).unwrap(),
            serial: SerialDevice::new(None, false, ByteOrder::Little),
        }),
    }
}

fn x86() -> IoHandler {
    IoHandler { order: ByteOrder::Little, devices: None }
}

#[test]
fn what_is_not_memory() {
    for (address, expected) in [
        (COMMAND_ADDRESS, true),
        (COMMAND_ADDRESS + 1, false),
        (UART_BASE - 1, false),
        (UART_BASE, true),
        (UART_BASE + 0xfff, true),
        (UART_BASE + 0x1000, false),
        (0xff00_0000, true),
        (0xff00_ffff, true),
        (0xff01_0000, false),
        (0xff02_0000, true),
        (0xff03_ffff, true),
        (0xff04_0000, false),
        (0, false),
    ] {
        assert_eq!(arm().is_mmio(address), expected, "{address:#x}");
        assert_eq!(x86().is_mmio(address), address == COMMAND_ADDRESS);
    }
}

#[test]
fn an_x86_guest_reads_ones() {
    let mut d = [0; 4];
    assert_eq!(x86().read_mmio(&mut d), ReadStep::Unclaimed);
    assert_eq!(d, [0xff; 4]);
}

#[test]
fn an_arm_guest_asks_the_interrupt_controller_first() {
    let mut d = [7; 4];
    let mut h = arm();
    assert_eq!(h.read_mmio(&mut d), ReadStep::AskGic);
    assert_eq!(h.read_mmio_after_gic(true, UART_BASE, &mut d), ReadOutcome::Gic);
    assert_eq!(d, [7; 4]);
    assert_eq!(
        h.read_mmio_after_gic(false, UART_BASE + 0x18, &mut d),
        ReadOutcome::Uart { interrupt: None }
    );
    assert_eq!(d, [0x90, 0, 0, 0]);
    assert_eq!(h.read_mmio_after_gic(false, 0x1234, &mut d), ReadOutcome::Unclaimed);
    assert_eq!(d, [0xff; 4]);
}

#[test]
fn commands_are_taken_before_devices() {
    let data = [0x00, 0x10, 0x20, 0, 0, 0, 0, 0];
    let command = WriteStep::Command { gpa: 0x20_1000 };
    assert_eq!(arm().write_mmio(COMMAND_ADDRESS, &data), command);
    assert_eq!(x86().write_mmio(COMMAND_ADDRESS, &data), command);
    assert_eq!(arm().write_mmio(0x1000, &data), WriteStep::AskGic);
    assert_eq!(x86().write_mmio(0x1000, &[1, 2]), WriteStep::Unclaimed { value: 0x201 });
}

#[test]
fn writes_reach_the_console_or_nothing() {
    let mut h = arm();
    assert!(matches!(h.write_mmio_after_gic(true, 0xff00_0000, &[0; 16]), WriteOutcome::Gic));
    assert!(matches!(
        h.write_mmio_after_gic(false, 0x10, &[1, 2]),
        WriteOutcome::Unclaimed { value: 0x201 }
    ));
    assert!(matches!(h.write_mmio_after_gic(false, UART_BASE, b"q"), WriteOutcome::Uart(_)));
    let WriteOutcome::Uart(w) = h.write_mmio_after_gic(false, UART_BASE, b"\n") else {
        panic!("the console takes the write");
    };
    assert_eq!(w.log.as_deref(), Some("q"));
}

#[test]
fn ports_are_unclaimed() {
    let mut d = [0; 2];
    x86().read_io(&mut d);
    assert_eq!(d, [0xff, 0xff]);
    assert_eq!(x86().write_io(&[0xcd, 0xab]), 0xabcd);
}

#[test]
fn there_is_no_legacy_interrupt_and_errors_are_fatal() {
    assert_eq!(x86().acknowledge_pic_interrupt(), None);
    assert_eq!(arm().fatal_error(), VpHaltReason::TripleFault { vtl: 0 });
}

#[test]
fn a_big_endian_host_widens_in_its_order() {
    let h = IoHandler { order: ByteOrder::Big, devices: None };
    assert_eq!(h.write_io(&[0xab, 0xcd]), 0xabcd_0000_0000_0000);
    assert_eq!(
        h.write_mmio(COMMAND_ADDRESS, &[0, 0, 0, 0, 0, 0x20, 0x10, 0]),
        WriteStep::Command { gpa: 0x20_1000 }
    );
}
