use kernel::arch::gdt::{
    init, GdtEntry, GdtPtr, GlobalDescriptorTable, SegmentSelector, Selectors, TaskStateSegment,
    TssEntry,
};

#[test]
fn selector_packs_index_table_and_ring() {
    assert_eq!(SegmentSelector::new(1, 0, 0).0, 0x08);
    assert_eq!(SegmentSelector::new(2, 0, 0).0, 0x10);
    assert_eq!(SegmentSelector::new(4, 0, 3).0, 0x23);
    assert_eq!(SegmentSelector::new(5, 0, 3).0, 0x2B);
    assert_eq!(SegmentSelector::new(6, 1, 2).0, 0x36);
    assert_eq!(SegmentSelector::new(0, 0, 0).0, 0);
}

#[test]
fn selectors_match_the_table() {
    let s = Selectors::new();
    assert_eq!(s.kernel_code.0, 0x08);
    assert_eq!(s.kernel_data.0, 0x10);
    assert_eq!(s.user_code_32bit.0, 0x1B);
    assert_eq!(s.user_code.0, 0x23);
    assert_eq!(s.user_data.0, 0x2B);
    assert_eq!(s.tss.0, 0x30);
}

#[test]
fn descriptors_are_flat_with_the_right_access() {
    assert_eq!(GdtEntry::null().to_u64(), 0);
    let kc = GdtEntry::kernel_code();
    assert_eq!((kc.access, kc.granularity), (0x9A, 0x20));
    let kd = GdtEntry::kernel_data();
    assert_eq!((kd.access, kd.granularity), (0x92, 0x20));
    let u32c = GdtEntry::user_code_32bit();
    assert_eq!((u32c.access, u32c.granularity), (0xFA, 0x40));
    let uc = GdtEntry::user_code();
    assert_eq!((uc.access, uc.granularity), (0xFA, 0x20));
    let ud = GdtEntry::user_data();
    assert_eq!((ud.access, ud.granularity), (0xF2, 0x20));
    for e in [kc, kd, u32c, uc, ud] {
        assert_eq!((e.limit_low, e.base_low, e.base_middle, e.base_high), (0, 0, 0, 0));
    }
}

#[test]
fn descriptor_packs_into_one_number() {
    assert_eq!(GdtEntry::kernel_code().to_u64(), 0x9A_2000);
    assert_eq!(u64::from(GdtEntry::user_data()), 0xF2_2000);
    let e = GdtEntry {
        limit_low: 0x1234,
        base_low: 0x5678,
        base_middle: 0x9a,
        access: 0xbc,
        granularity: 0xde,
        base_high: 0xf0,
    };
    assert_eq!(e.to_u64(), 0x1234_5678_9abc_def0);
}

#[test]
fn task_state_descriptor_splits_the_address() {
    let e = TssEntry::tss_segment(0xffff_8000_1234_5678);
    assert_eq!(e.limit_low, 103);
    assert_eq!(e.base_low, 0x5678);
    assert_eq!(e.base_middle_low, 0x34);
    assert_eq!(e.base_middle_high, 0x12);
    assert_eq!(e.base_high, 0xffff_8000);
    assert_eq!(e.access, 0x89);
    assert_eq!(e.granularity, 0);
    assert_eq!(e.reserved, 0);
    assert_eq!(TssEntry::null().base_high, 0);
}

#[test]
fn table_starts_without_a_task_state_segment() {
    let t = GlobalDescriptorTable::new();
    assert_eq!(t.null, GdtEntry::null());
    assert_eq!(t.kernel_code, GdtEntry::kernel_code());
    assert_eq!(t.kernel_data, GdtEntry::kernel_data());
    assert_eq!(t.user_code_32bit, GdtEntry::user_code_32bit());
    assert_eq!(t.user_code, GdtEntry::user_code());
    assert_eq!(t.user_data, GdtEntry::user_data());
    assert_eq!(t.tss, TssEntry::null());
    assert_eq!(GlobalDescriptorTable::default(), t);
}

#[test]
fn boot_table_carries_the_task_state_segment() {
    let g = init(0x1_0000_2000);
    assert_eq!(g.table.tss, TssEntry::tss_segment(0x1_0000_2000));
    assert_eq!(g.table.kernel_code, GdtEntry::kernel_code());
    assert_eq!(g.selectors, Selectors::new());
    let p = GdtPtr::new(0x4000);
    assert_eq!((p.limit, p.base), (63, 0x4000));
}

#[test]
fn task_state_segment_holds_the_end_of_the_stack() {
    let t = TaskStateSegment::new(0x10_0000, 0x1_0000);
    assert_eq!(t.rsp0, 0x11_0000);
    assert_eq!(t.rsp1, 0);
    assert_eq!(t.ist1, 0);
    assert_eq!(t.io_map_base_address, 0);
}

#[test]
fn descriptors_lie_in_memory_low_byte_first() {
    let e = GdtEntry {
        limit_low: 0x1234,
        base_low: 0x5678,
        base_middle: 0x9a,
        access: 0xbc,
        granularity: 0xde,
        base_high: 0xf0,
    };
    let mut out = vec![0xee];
    e.push_to(&mut out);
    assert_eq!(out, vec![0xee, 0x34, 0x12, 0x78, 0x56, 0x9a, 0xbc, 0xde, 0xf0]);
    let t = TssEntry::tss_segment(0x1122_3344_5566_7788);
    let mut out = Vec::new();
    t.push_to(&mut out);
    assert_eq!(
        out,
        vec![103, 0, 0x88, 0x77, 0x66, 0x89, 0x00, 0x55, 0x44, 0x33, 0x22, 0x11, 0, 0, 0, 0]
    );
}

#[test]
fn table_lies_in_memory_descriptor_by_descriptor() {
    let g = init(0x1000);
    let bytes = g.table.to_bytes();
    assert_eq!(bytes.len(), 64);
    assert_eq!(&bytes[0..8], &[0u8; 8]);
    assert_eq!(&bytes[8..16], &[0, 0, 0, 0, 0, 0x9A, 0x20, 0]);
    assert_eq!(&bytes[16..24], &[0, 0, 0, 0, 0, 0x92, 0x20, 0]);
    assert_eq!(&bytes[24..32], &[0, 0, 0, 0, 0, 0xFA, 0x40, 0]);
    assert_eq!(&bytes[32..40], &[0, 0, 0, 0, 0, 0xFA, 0x20, 0]);
    assert_eq!(&bytes[40..48], &[0, 0, 0, 0, 0, 0xF2, 0x20, 0]);
    assert_eq!(&bytes[48..64], &[103, 0, 0x00, 0x10, 0, 0x89, 0, 0, 0, 0, 0, 0, 0, 0, 0, 0]);
    assert_eq!(GdtPtr::new(0x0102_0304_0506_0708).to_bytes(), vec![63, 0, 8, 7, 6, 5, 4, 3, 2, 1]);
}

#[test]
fn task_state_segment_lies_in_memory_in_104_bytes() {
    let t = TaskStateSegment::new(0x1000, 0x234);
    let bytes = t.to_bytes();
    assert_eq!(bytes.len(), 104);
    assert_eq!(&bytes[0..4], &[0u8; 4]);
    assert_eq!(&bytes[4..12], &0x1234u64.to_le_bytes());
    assert!(bytes[12..].iter().all(|b| *b == 0));
}
