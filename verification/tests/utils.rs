use kernel::ints::pic::PortWrite;
use kernel::utils::bootloader::BootInfo;
use kernel::utils::cpu::{
    compare_bytes, in_hypervisor, is_kvm, is_mmio_width, join_halves, kvm_base, moves_forward,
    signature, split_halves, CpuidResult,
};
use kernel::utils::heapless::HeaplessVec;
use kernel::utils::serial::color::rgb;
use kernel::utils::serial::{serial_read, serial_write, SerialWriter};
use kernel::utils::text::{push_bytes, push_decimal};

fn leaf(ebx: u32, ecx: u32, edx: u32) -> CpuidResult {
    CpuidResult { eax: 0, ebx, ecx, edx }
}

fn kvm_leaf() -> CpuidResult {
    leaf(0x4b4d_564b, 0x564b_4d56, 0x0000_004d)
}

#[test]
fn bounded_vector_takes_items_up_to_its_capacity() {
    let mut v: HeaplessVec<u32, 2> = HeaplessVec::new();
    assert!(v.is_empty());
    assert!(!v.is_full());
    assert_eq!(v.capacity(), 2);
    assert_eq!(v.push(10), Ok(()));
    assert_eq!(v.len(), 1);
    assert_eq!(v.push(20), Ok(()));
    assert!(v.is_full());
    assert_eq!(v.push(30), Err(30));
    assert_eq!(v.as_slice(), &[10, 20]);
    assert_eq!(v.get(1), Some(&20));
    assert_eq!(v.get(2), None);
    *v.get_mut(0).unwrap() = 11;
    assert!(v.get_mut(2).is_none());
    assert_eq!(v.pop(), Some(20));
    assert_eq!(v.pop(), Some(11));
    assert_eq!(v.pop(), None);
    assert!(v.is_empty());
}

#[test]
fn bounded_vector_inserts_in_place() {
    let mut v: HeaplessVec<u8, 3> = HeaplessVec::default();
    assert_eq!(v.insert(1, 5), Err(5));
    assert_eq!(v.insert(0, 5), Ok(()));
    assert_eq!(v.insert(0, 4), Ok(()));
    assert_eq!(v.insert(2, 6), Ok(()));
    assert_eq!(v.insert(1, 9), Err(9));
    assert_eq!(v.as_slice(), &[4, 5, 6]);
    let none: HeaplessVec<u8, 0> = HeaplessVec::new();
    assert!(none.is_full() && none.is_empty());
}

#[test]
fn numbers_are_written_in_decimal() {
    let mut out = vec![b'>'];
    push_decimal(&mut out, 0, 0);
    push_decimal(&mut out, 7, 3);
    push_decimal(&mut out, 1234, 2);
    push_decimal(&mut out, u64::MAX, 0);
    push_bytes(&mut out, b"<");
    assert_eq!(out, b">000712341844674407370955161" .iter().copied().chain(b"5<".iter().copied()).collect::<Vec<u8>>());
}

#[test]
fn colour_is_an_escape_sequence() {
    assert_eq!(rgb(1, 2, 3, false), "\x1b[38;2;1;2;3m");
    assert_eq!(rgb(255, 0, 16, true), "\x1b[48;2;255;0;16m");
    assert_eq!(rgb(0, 0, 0, false), "\x1b[38;2;0;0;0m");
}

#[test]
fn serial_port_is_set_up_in_seven_writes() {
    let w = |port: u16, value: u8| PortWrite { port, value };
    assert_eq!(
        kernel::utils::serial::init(),
        vec![
            w(0x3F9, 0x00),
            w(0x3FB, 0x80),
            w(0x3F8, 0x03),
            w(0x3F9, 0x00),
            w(0x3FB, 0x03),
            w(0x3FA, 0xC7),
            w(0x3FC, 0x0B),
        ]
    );
}

#[test]
fn serial_port_waits_for_the_line() {
    assert_eq!(serial_write(0x20, b'x'), Some(PortWrite { port: 0x3F8, value: b'x' }));
    assert_eq!(serial_write(0x61, b'x'), Some(PortWrite { port: 0x3F8, value: b'x' }));
    assert_eq!(serial_write(0x41, b'x'), None);
    assert_eq!(serial_read(0x01), Some(0x3F8));
    assert_eq!(serial_read(0x21), Some(0x3F8));
    assert_eq!(serial_read(0x20), None);
}

#[test]
fn serial_writer_drops_the_cursor_request() {
    let w = SerialWriter;
    assert_eq!(w.write_str("hi\n"), b"hi\n".to_vec());
    assert_eq!(w.write_str("\x1b[6n"), Vec::<u8>::new());
    assert_eq!(w.write_str("\x1b[6n "), b"\x1b[6n ".to_vec());
    assert_eq!(w.write_str(""), Vec::<u8>::new());
    assert_eq!(w.write_str("é"), vec![0xc3, 0xa9]);
}

#[test]
fn hypervisor_is_bit_31_of_leaf_one() {
    assert!(in_hypervisor(&leaf(0, 0x8000_0000, 0)));
    assert!(!in_hypervisor(&leaf(0xffff_ffff, 0x7fff_ffff, 0xffff_ffff)));
}

#[test]
fn kvm_is_known_by_its_signature() {
    assert_eq!(signature(&kvm_leaf()), b"KVMKVMKVM\0\0\0".to_vec());
    assert_eq!(signature(&leaf(0x0403_0201, 0x0807_0605, 0x0c0b_0a09)), (1..=12).collect::<Vec<u8>>());
    assert!(is_kvm(&kvm_leaf()));
    assert!(!is_kvm(&leaf(0x4b4d_564b, 0x564b_4d56, 0x0100_004d)));
    let other = leaf(0x7263_694d, 0x666f_736f, 0x7648_2074);
    assert_eq!(kvm_base(true, &vec![other, kvm_leaf(), kvm_leaf()]), 0x4000_0100);
    assert_eq!(kvm_base(true, &vec![kvm_leaf()]), 0x4000_0000);
    assert_eq!(kvm_base(true, &vec![other, other]), 0);
    assert_eq!(kvm_base(false, &vec![kvm_leaf()]), 0);
    assert_eq!(kvm_base(true, &Vec::new()), 0);
}

#[test]
fn registers_are_joined_and_split() {
    assert_eq!(join_halves(0x1234_5678, 0x9abc_def0), 0x1234_5678_9abc_def0);
    assert_eq!(join_halves(0, 1), 1);
    assert_eq!(split_halves(0x1234_5678_9abc_def0), (0x1234_5678, 0x9abc_def0));
    assert_eq!(split_halves(u64::MAX), (u32::MAX, u32::MAX));
}

#[test]
fn bytes_are_compared_up_to_the_first_difference() {
    assert_eq!(compare_bytes(&[1, 2, 3], &[1, 5, 3], 3), -3);
    assert_eq!(compare_bytes(&[1, 9, 3], &[1, 5, 0], 3), 4);
    assert_eq!(compare_bytes(&[1, 2, 3], &[1, 2, 4], 2), 0);
    assert_eq!(compare_bytes(&[], &[], 0), 0);
    assert_eq!(compare_bytes(&[0], &[255], 1), -255);
}

#[test]
fn moves_go_forward_unless_the_ranges_overlap_that_way() {
    assert!(moves_forward(0, 10, 5));
    assert!(moves_forward(15, 10, 5));
    assert!(!moves_forward(12, 10, 5));
    assert!(!moves_forward(10, 10, 5));
    assert!(moves_forward(10, 10, 0));
}

#[test]
fn registers_are_one_two_four_or_eight_bytes_wide() {
    let ok: Vec<usize> = (0..10).filter(|w| is_mmio_width(*w)).collect();
    assert_eq!(ok, vec![1, 2, 4, 8]);
}

#[test]
fn firmware_table_is_taken_out_of_the_window() {
    let mut b = BootInfo {
        hhdm_offset: 0xffff_8000_0000_0000,
        rsdp: 0xffff_8000_000e_0000,
        executable_phys: 0,
        executable_virt: 0,
        executable_size: 0,
        device_tree: None,
    };
    assert_eq!(b.get_hhdm_offset(), 0xffff_8000_0000_0000);
    assert_eq!(b.get_rsdp_address(), 0xe_0000);
    b.rsdp = 0xe_0000;
    assert_eq!(b.get_rsdp_address(), 0xe_0000);
    assert_eq!(b.get_device_tree(), None);
    b.device_tree = Some(0x4000);
    assert_eq!(b.get_device_tree(), Some(0x4000));
}
