use tmk_vmm::bytes::ByteOrder;
use tmk_vmm::serial::{spi_update, SerialDevice, UART_BASE, UART_SIZE};

fn read(s: &mut SerialDevice, offset: u64) -> u32 {
    let mut d = [0xaa; 4];
    assert!(s.read_uart(UART_BASE + offset, &mut d).is_some());
    u32::from_le_bytes(d)
}

fn print(s: &mut SerialDevice, text: &[u8]) -> (Vec<String>, u32, Vec<(u8, bool)>) {
    let mut logged = Vec::new();
    let mut completed = 0;
    let mut echoed = Vec::new();
    for byte in text {
        let w = s.write_uart(UART_BASE, &[*byte]).unwrap();
        assert_eq!(w.interrupt, None);
        logged.extend(w.log);
        completed += u32::from(w.complete);
        echoed.extend(w.echo);
    }
    (logged, completed, echoed)
}

#[test]
fn a_fresh_console_is_quiet() {
    let mut s = SerialDevice::new(None, false, ByteOrder::Little);
    assert_eq!(read(&mut s, 0x00), 0);
    assert_eq!(read(&mut s, 0x18), 0x90);
    assert_eq!(read(&mut s, 0x38), 0);
    assert_eq!(read(&mut s, 0x3c), 0);
    assert_eq!(read(&mut s, 0x40), 0);
    assert_eq!(read(&mut s, 0xfe0), 0);
}

#[test]
fn input_is_read_in_order() {
    let mut s = SerialDevice::new(None, false, ByteOrder::Little);
    assert_eq!(s.queue_input(b"ab"), None);
    assert_eq!(s.queue_input(b"c"), None);
    assert_eq!(read(&mut s, 0x18), 0x80);
    assert_eq!(read(&mut s, 0x3c), 0x50);
    assert_eq!(read(&mut s, 0x40), 0);
    assert_eq!(read(&mut s, 0x00), u32::from(b'a'));
    assert_eq!(read(&mut s, 0x00), u32::from(b'b'));
    assert_eq!(read(&mut s, 0x00), u32::from(b'c'));
    assert_eq!(read(&mut s, 0x00), 0);
    assert_eq!(read(&mut s, 0x18), 0x90);
}

#[test]
fn the_interrupt_follows_input_and_mask() {
    let mut s = SerialDevice::new(None, false, ByteOrder::Little);
    let w = s.write_uart(UART_BASE + 0x38, &[0x40, 0, 0, 0]).unwrap();
    assert_eq!(w.interrupt, None);
    assert_eq!(s.queue_input(b"xy"), Some(true));
    assert_eq!(s.queue_input(b"z"), None);
    assert_eq!(read(&mut s, 0x40), 0x40);
    let w = s.write_uart(UART_BASE + 0x38, &[0, 0, 0, 0]).unwrap();
    assert_eq!(w.interrupt, Some(false));
    let w = s.write_uart(UART_BASE + 0x38, &[0x10, 0, 0, 0]).unwrap();
    assert_eq!(w.interrupt, Some(true));
    assert_eq!(s.write_uart(UART_BASE + 0x44, &[0xff]).unwrap().interrupt, None);
    let mut d = [0; 1];
    assert_eq!(s.read_uart(UART_BASE, &mut d), Some(None));
    assert_eq!(s.read_uart(UART_BASE, &mut d), Some(None));
    assert_eq!(s.read_uart(UART_BASE, &mut d), Some(Some(false)));
    assert_eq!(d, [b'z']);
}

#[test]
fn input_without_a_wanted_interrupt_raises_none() {
    let mut s = SerialDevice::new(None, false, ByteOrder::Little);
    s.write_uart(UART_BASE + 0x38, &[0x20, 0, 0, 0]).unwrap();
    assert_eq!(s.queue_input(b"x"), None);
}

#[test]
fn the_mask_reads_back() {
    let mut s = SerialDevice::new(None, false, ByteOrder::Little);
    s.write_uart(UART_BASE + 0x38, &[0x78, 0x56, 0x34, 0x12]).unwrap();
    assert_eq!(read(&mut s, 0x38), 0x1234_5678);
    s.write_uart(UART_BASE + 0x38, &[1, 0, 0, 0, 1, 0, 0, 0]).unwrap();
    assert_eq!(read(&mut s, 0x38), 1);
}

#[test]
fn other_addresses_are_not_the_consoles() {
    let mut s = SerialDevice::new(None, false, ByteOrder::Little);
    let mut d = [7; 4];
    assert_eq!(s.read_uart(UART_BASE - 1, &mut d), None);
    assert_eq!(s.read_uart(UART_BASE + UART_SIZE, &mut d), None);
    assert_eq!(d, [7; 4]);
    assert!(s.write_uart(UART_BASE - 1, &[0; 9]).is_none());
    assert!(s.write_uart(UART_BASE + UART_SIZE, &[0; 9]).is_none());
    assert!(s.write_uart(UART_BASE + UART_SIZE - 1, &[0; 9]).is_some());
}

#[test]
fn lines_are_logged_at_their_end() {
    let mut s = SerialDevice::new(None, false, ByteOrder::Little);
    let (logged, completed, echoed) = print(&mut s, b"hello\r\n\nworld\n");
    assert_eq!(logged, ["hello", "world"]);
    assert_eq!(completed, 0);
    assert_eq!(echoed, []);
}

#[test]
fn bytes_beyond_ascii_are_latin() {
    let mut s = SerialDevice::new(None, false, ByteOrder::Little);
    assert_eq!(print(&mut s, b"\xe9\xff\n").0, ["\u{e9}\u{ff}"]);
}

#[test]
fn an_empty_write_prints_nothing() {
    let mut s = SerialDevice::new(None, true, ByteOrder::Little);
    let w = s.write_uart(UART_BASE, &[]).unwrap();
    assert_eq!(w.echo, None);
    assert!(w.log.is_none());
    let w = s.write_uart(UART_BASE + 0x30, b"x").unwrap();
    assert_eq!(w.echo, None);
}

#[test]
fn only_the_first_byte_is_printed() {
    let mut s = SerialDevice::new(None, false, ByteOrder::Little);
    s.write_uart(UART_BASE, b"abc").unwrap();
    assert_eq!(print(&mut s, b"\n").0, ["a"]);
}

#[test]
fn a_long_line_is_broken_and_loses_a_byte() {
    let mut s = SerialDevice::new(None, false, ByteOrder::Little);
    let (logged, _, _) = print(&mut s, &[b'a'; 4096]);
    assert!(logged.is_empty());
    let (logged, _, _) = print(&mut s, b"bc\n");
    assert_eq!(logged, ["a".repeat(4096), "c".to_string()]);
}

#[test]
fn a_line_is_measured_in_encoded_bytes() {
    let mut s = SerialDevice::new(None, false, ByteOrder::Little);
    let (logged, _, _) = print(&mut s, &[0xe9; 2048]);
    assert!(logged.is_empty());
    assert_eq!(print(&mut s, b"x").0, ["\u{e9}".repeat(2048)]);
}

#[test]
fn the_guest_passes_once() {
    let mut s = SerialDevice::new(Some("PASS".to_string()), false, ByteOrder::Little);
    assert_eq!(print(&mut s, b"PAS S\n").1, 0);
    assert_eq!(print(&mut s, b"all PASSED").1, 0);
    assert_eq!(print(&mut s, b"\n").1, 1);
    assert_eq!(print(&mut s, b"PASS\nPASS\n").1, 0);
}

#[test]
fn the_marker_is_not_found_across_lines() {
    let mut s = SerialDevice::new(Some("PASS".to_string()), false, ByteOrder::Little);
    assert_eq!(print(&mut s, b"PA\nSS\n").1, 0);
}

#[test]
fn an_empty_marker_is_on_every_line() {
    let mut s = SerialDevice::new(Some(String::new()), false, ByteOrder::Little);
    let (logged, completed, _) = print(&mut s, b"\n");
    assert!(logged.is_empty());
    assert_eq!(completed, 1);
}

#[test]
fn raw_output_is_passed_through() {
    let mut s = SerialDevice::new(Some("ok".to_string()), true, ByteOrder::Little);
    let (logged, completed, echoed) = print(&mut s, b"ok\r\n");
    assert!(logged.is_empty());
    assert_eq!(completed, 1);
    assert_eq!(echoed, [(b'o', false), (b'k', false), (b'\n', true)]);
    s.queue_input(b"x");
    assert_eq!(print(&mut s, b"y").2, [(b'y', true)]);
}

#[test]
fn input_does_not_make_logged_output_raw() {
    let mut s = SerialDevice::new(None, false, ByteOrder::Little);
    s.queue_input(b"x");
    let (logged, _, echoed) = print(&mut s, b"y\n");
    assert_eq!(logged, ["y"]);
    assert_eq!(echoed, []);
}

#[test]
fn the_consoles_interrupt_is_a_shared_one() {
    assert_eq!(spi_update(None), None);
    assert_eq!(spi_update(Some(true)), Some((33, true)));
    assert_eq!(spi_update(Some(false)), Some((33, false)));
}

#[test]
fn a_big_endian_host_takes_the_mask_from_the_last_bytes() {
    let mut s = SerialDevice::new(None, false, ByteOrder::Big);
    s.write_uart(UART_BASE + 0x38, &[0x12, 0x34, 0x56, 0x78]).unwrap();
    let mut d = [0xaa; 4];
    assert_eq!(s.read_uart(UART_BASE + 0x38, &mut d), Some(None));
    assert_eq!(d, [0; 4]);
    s.write_uart(UART_BASE + 0x38, &[0, 0, 0, 0, 0x12, 0x34, 0x56, 0x78]).unwrap();
    assert_eq!(s.read_uart(UART_BASE + 0x38, &mut d), Some(None));
    assert_eq!(d, [0x12, 0x34, 0x56, 0x78]);
}
