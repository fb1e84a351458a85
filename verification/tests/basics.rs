use tmk_vmm::bytes::{fill_ones, fill_u32, read_u64, widen, ByteOrder};
use tmk_vmm::guest_tests::{boot, instruction_abort_outside_par};
use tmk_vmm::memory::MemoryRange;
use tmk_vmm::sort::merge_sort;
use tmk_vmm::text::{join_path, path_is_absolute, push_decimal, push_hex, PathRules};

const LITTLE: ByteOrder = ByteOrder::Little;
const BIG: ByteOrder = ByteOrder::Big;
const UNIX: PathRules = PathRules::Unix;

#[test]
fn widen_takes_low_bytes_first() {
    assert_eq!(widen(&[], LITTLE), 0);
    assert_eq!(widen(&[0x12], LITTLE), 0x12);
    assert_eq!(widen(&[0x34, 0x12], LITTLE), 0x1234);
    assert_eq!(widen(&[1, 2, 3, 4, 5, 6, 7, 8], LITTLE), 0x0807_0605_0403_0201);
    assert_eq!(widen(&[0xff; 8], LITTLE), u64::MAX);
}

#[test]
fn widen_takes_high_bytes_first() {
    assert_eq!(widen(&[], BIG), 0);
    assert_eq!(widen(&[0x12], BIG), 0x1200_0000_0000_0000);
    assert_eq!(widen(&[0x12, 0x34], BIG), 0x1234_0000_0000_0000);
    assert_eq!(widen(&[1, 2, 3, 4, 5, 6, 7, 8], BIG), 0x0102_0304_0506_0708);
    assert_eq!(widen(&[0xff; 8], BIG), u64::MAX);
}

#[test]
fn widen_agrees_with_the_host() {
    let order = if 1u16.to_ne_bytes()[0] == 1 { LITTLE } else { BIG };
    for n in 0..=8usize {
        let d: Vec<u8> = (0..n).map(|i| 0x81 + i as u8).collect();
        let mut v = [0; 8];
        v[..n].copy_from_slice(&d);
        assert_eq!(widen(&d, order), u64::from_ne_bytes(v));
    }
    let mut d = [0xaa; 4];
    fill_u32(&mut d, 0x8765_4321, order);
    assert_eq!(d, 0x8765_4321u32.to_ne_bytes());
}

#[test]
fn read_u64_reads_at_an_offset() {
    let d = [9, 1, 0, 0, 0, 0, 0, 0, 0x80, 9];
    assert_eq!(read_u64(&d, 1, LITTLE), 0x8000_0000_0000_0001);
    assert_eq!(read_u64(&d, 1, BIG), 0x0100_0000_0000_0080);
}

#[test]
fn a_filled_value_widens_to_itself() {
    for n in 4..=8usize {
        let mut d = vec![0xaa; n];
        fill_u32(&mut d, 0x8765_4321, LITTLE);
        assert_eq!(widen(&d, LITTLE), 0x8765_4321);
    }
}

#[test]
fn a_short_read_gets_the_first_bytes() {
    let mut d = [0xaa; 2];
    fill_u32(&mut d, 0x8765_4321, LITTLE);
    assert_eq!(d, [0x21, 0x43]);
    fill_u32(&mut d, 0x8765_4321, BIG);
    assert_eq!(d, [0x87, 0x65]);
    let mut e = [0xaa; 9];
    fill_u32(&mut e, 0x8765_4321, LITTLE);
    assert_eq!(e, [0x21, 0x43, 0x65, 0x87, 0, 0, 0, 0, 0]);
    fill_u32(&mut e, 0x8765_4321, BIG);
    assert_eq!(e, [0x87, 0x65, 0x43, 0x21, 0, 0, 0, 0, 0]);
}

#[test]
fn ones_fill_everything() {
    let mut d = [0; 5];
    fill_ones(&mut d);
    assert_eq!(d, [0xff; 5]);
}

#[test]
fn bytes_of_a_widened_value_are_its_bytes() {
    let d = [0x11, 0x22, 0x33, 0x44];
    let mut e = [0; 4];
    fill_u32(&mut e, widen(&d, LITTLE) as u32, LITTLE);
    assert_eq!(d, e);
}

#[test]
fn numbers_are_written_without_leading_zeros() {
    let mut s = String::from("n=");
    push_hex(&mut s, 0);
    push_hex(&mut s, 0xeffe_c000);
    push_hex(&mut s, u64::MAX);
    assert_eq!(s, "n=0effec000ffffffffffffffff");
    let mut t = String::new();
    push_decimal(&mut t, 0);
    push_decimal(&mut t, 1090);
    push_decimal(&mut t, u64::MAX);
    assert_eq!(t, "0109018446744073709551615");
}

#[test]
fn paths_are_joined_by_one_separator() {
    assert_eq!(join_path("/repo", "a/b", UNIX), "/repo/a/b");
    assert_eq!(join_path("/repo/", "a", UNIX), "/repo/a");
    assert_eq!(join_path("/repo", "/a", UNIX), "/a");
    assert_eq!(join_path("", "a", UNIX), "a");
    assert_eq!(join_path("/repo", "", UNIX), "/repo/");
    assert_eq!(join_path("/", "a", UNIX), "/a");
}

#[test]
fn paths_join_as_those_of_the_platform() {
    for base in ["", "/", "/repo", "repo", "repo/"] {
        for path in ["", "a", "/a", "a/b/"] {
            let expected = std::path::Path::new(base).join(path);
            let other = join_path(base, path, PathRules::Other);
            assert_eq!(Some(other.as_str()), expected.to_str());
            let absolute = std::path::Path::new(path).is_absolute();
            assert_eq!(path_is_absolute(path, PathRules::Other), absolute);
            if std::path::Path::new("/").is_absolute() {
                assert_eq!(join_path(base, path, UNIX), other);
                assert_eq!(path_is_absolute(path, UNIX), absolute);
            }
        }
    }
}

#[test]
fn absolute_paths_start_at_the_root() {
    assert!(path_is_absolute("/", UNIX));
    assert!(path_is_absolute("/a", UNIX));
    assert!(!path_is_absolute("a/b", UNIX));
    assert!(!path_is_absolute("", UNIX));
}

#[test]
fn sorting_orders_and_keeps_everything() {
    let sorted = merge_sort(&[5u64, 1, 4, 1, 3]);
    assert_eq!(sorted, [1, 1, 3, 4, 5]);
    assert_eq!(merge_sort::<u64>(&[]), []);
}

#[test]
fn sorting_is_stable() {
    let sorted = merge_sort(&[(2u64, 1i64), (1, 2), (2, 3), (1, 4)]);
    assert_eq!(sorted, [(1, 2), (1, 4), (2, 1), (2, 3)]);
}

#[test]
fn a_range_holds_what_lies_in_it() {
    let r = MemoryRange::new(0x1000, 0x3000);
    assert_eq!((r.get_start(), r.get_end(), r.len()), (0x1000, 0x3000, 0x2000));
    assert!(r.contains_addr(0x1000));
    assert!(r.contains_addr(0x2fff));
    assert!(!r.contains_addr(0x3000));
    assert!(!r.contains_addr(0xfff));
}

#[test]
fn the_guest_greets() {
    assert_eq!(format!("{:?}", boot()), "[Log(\"hello world\")]");
}

#[test]
fn the_guest_leaves_its_range() {
    assert_eq!(
        format!("{:x?}", instruction_abort_outside_par()),
        "[Log(\"instruction_abort_outside_par\"), Call(ffff00000000), \
         Panic(\"branch to outside PAR unexpectedly returned\")]"
    );
}
