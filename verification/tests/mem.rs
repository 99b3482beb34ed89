use kernel::mem::{
    align_down, align_up, get_next_level, index_at, init, select_page_size, walk_to, MemoryRegion,
    Pagemap, PhysMemory, RegionKind, LARGE, LPAGES, MEDIUM, NO_EXEC, PRESENT, RW, SMALL, USER,
};

const HHDM: u64 = 0xffff_8000_0000_0000;

fn arena(capacity: usize) -> PhysMemory {
    PhysMemory::new(0x10_0000, HHDM, capacity)
}

#[test]
fn align_up_rounds_to_the_next_multiple() {
    assert_eq!(align_up(0x1001, 0x1000), 0x2000);
    assert_eq!(align_up(0x1000, 0x1000), 0x1000);
    assert_eq!(align_up(0, 0x20_0000), 0);
    assert_eq!(align_up(1, 0x20_0000), 0x20_0000);
}

#[test]
fn align_down_rounds_to_the_multiple_below() {
    assert_eq!(align_down(0x1fff, 0x1000), 0x1000);
    assert_eq!(align_down(0x1000, 0x1000), 0x1000);
    assert_eq!(align_down(0x3fff_ffff, 0x4000_0000), 0);
}

#[test]
fn index_at_takes_nine_bits_a_level() {
    let v: u64 = (3 << 39) | (5 << 30) | (7 << 21) | (9 << 12) | 0x123;
    assert_eq!(index_at(v, 4), 3);
    assert_eq!(index_at(v, 3), 5);
    assert_eq!(index_at(v, 2), 7);
    assert_eq!(index_at(v, 1), 9);
    assert_eq!(index_at(u64::MAX, 4), 511);
}

#[test]
fn fresh_address_space_resolves_nothing() {
    let mut mem = arena(8);
    let pm = Pagemap::new(&mut mem).unwrap();
    assert_eq!(pm.top_level, 0x10_0000);
    assert_eq!(pm.used_pages, 0);
    assert_eq!(mem.frame_count(), 1);
    assert_eq!(pm.translate(&mem, 0), None);
    assert_eq!(pm.translate(&mem, 0x40_0000), None);
    assert_eq!(pm.translate(&mem, HHDM), None);
}

#[test]
fn small_page_resolves_every_address_in_it() {
    let mut mem = arena(8);
    let mut pm = Pagemap::new(&mut mem).unwrap();
    assert!(pm.map(&mut mem, 0x40_0000, 0x20_0000, RW, SMALL));
    assert_eq!(pm.used_pages, 1);
    assert_eq!(mem.frame_count(), 4);
    assert_eq!(pm.translate(&mem, 0x40_0000), Some(0x20_0000));
    assert_eq!(pm.translate(&mem, 0x40_0123), Some(0x20_0123));
    assert_eq!(pm.translate(&mem, 0x40_0fff), Some(0x20_0fff));
    assert_eq!(pm.translate(&mem, 0x40_1000), None);
    assert_eq!(pm.translate(&mem, 0x3f_ffff), None);
}

#[test]
fn medium_page_resolves_every_address_in_it() {
    let mut mem = arena(8);
    let mut pm = Pagemap::new(&mut mem).unwrap();
    assert!(pm.map(&mut mem, 0x4000_0000, 0x60_0000, RW, MEDIUM));
    assert_eq!(pm.used_pages, 0);
    assert_eq!(mem.frame_count(), 3);
    assert_eq!(pm.translate(&mem, 0x4000_0000), Some(0x60_0000));
    assert_eq!(pm.translate(&mem, 0x4012_3456), Some(0x72_3456));
    assert_eq!(pm.translate(&mem, 0x401f_ffff), Some(0x7f_ffff));
    assert_eq!(pm.translate(&mem, 0x4020_0000), None);
}

#[test]
fn large_page_resolves_every_address_in_it() {
    let mut mem = arena(8);
    let mut pm = Pagemap::new(&mut mem).unwrap();
    assert!(pm.map(&mut mem, 0x80_0000_0000, 0x40_0000_0000, RW, LARGE));
    assert_eq!(mem.frame_count(), 2);
    assert_eq!(pm.translate(&mem, 0x80_0000_0000), Some(0x40_0000_0000));
    assert_eq!(pm.translate(&mem, 0x80_3fff_ffff), Some(0x40_3fff_ffff));
    assert_eq!(pm.translate(&mem, 0x80_1234_5678), Some(0x40_1234_5678));
    assert_eq!(pm.translate(&mem, 0x80_4000_0000), None);
}

#[test]
fn map_writes_the_flags_into_the_entry() {
    let mut mem = arena(8);
    let mut pm = Pagemap::new(&mut mem).unwrap();
    assert!(pm.map(&mut mem, 0x1000, 0x5000, RW | USER | NO_EXEC, SMALL));
    let t = walk_to(&mut mem, pm.top_level, 0x1000, 1, false).unwrap();
    assert_eq!(mem.read(t, 1), 0x5000 | 0x7 | 0x8000_0000_0000_0000);
    assert!(pm.map(&mut mem, 0x4000_0000, 0x20_0000, RW, MEDIUM));
    let t = walk_to(&mut mem, pm.top_level, 0x4000_0000, 2, false).unwrap();
    assert_eq!(mem.read(t, 0), 0x20_0000 | RW | LPAGES);
}

#[test]
fn map_without_present_flag_resolves_nothing() {
    let mut mem = arena(8);
    let mut pm = Pagemap::new(&mut mem).unwrap();
    assert!(pm.map(&mut mem, 0x1000, 0x5000, 0x2, SMALL));
    assert_eq!(pm.translate(&mem, 0x1000), None);
}

#[test]
fn map_refuses_a_physical_address_outside_the_window() {
    let mut mem = arena(8);
    let mut pm = Pagemap::new(&mut mem).unwrap();
    assert!(!pm.map(&mut mem, 0x1000, 0x8000_0000_0000, RW, SMALL));
    assert!(!pm.map(&mut mem, 0x1000, HHDM - 0x1000, RW, SMALL));
    assert_eq!(mem.frame_count(), 1);
    assert_eq!(pm.used_pages, 0);
    assert!(pm.map(&mut mem, 0x1000, 0x7fff_ffff_f000, RW, SMALL));
}

#[test]
fn map_refuses_a_size_that_is_no_page_size() {
    let mut mem = arena(8);
    let mut pm = Pagemap::new(&mut mem).unwrap();
    assert!(!pm.map(&mut mem, 0x2000, 0x2000, RW, 0x2000));
    assert!(!pm.map(&mut mem, 0, 0, RW, 0));
    assert_eq!(mem.frame_count(), 1);
}

#[test]
fn unaligned_medium_mapping_fails_cleanly() {
    let mut mem = arena(16);
    let mut pm = Pagemap::new(&mut mem).unwrap();
    assert!(pm.map(&mut mem, 0x4000_0000, 0x80_0000, RW, SMALL));
    let frames = mem.frame_count();
    assert!(!pm.map(&mut mem, 0x4000_1000, 0x20_0000, RW, MEDIUM));
    assert!(!pm.map(&mut mem, 0x4020_0000, 0x20_1000, RW, MEDIUM));
    assert_eq!(mem.frame_count(), frames);
    assert_eq!(pm.used_pages, 1);
    assert_eq!(pm.translate(&mem, 0x4000_0000), Some(0x80_0000));
    assert_eq!(pm.translate(&mem, 0x4000_0042), Some(0x80_0042));
    assert_eq!(pm.translate(&mem, 0x4000_1000), None);
    assert_eq!(pm.translate(&mem, 0x4020_0000), None);
}

#[test]
fn map_fails_where_the_arena_is_full() {
    let mut mem = arena(3);
    let mut pm = Pagemap::new(&mut mem).unwrap();
    assert!(!pm.map(&mut mem, 0x1000, 0x5000, RW, SMALL));
    assert_eq!(mem.frame_count(), 3);
    assert_eq!(pm.translate(&mem, 0x1000), None);
    assert!(pm.map(&mut mem, 0, 0x4000_0000, RW, MEDIUM));
    assert_eq!(pm.translate(&mem, 0x1000), Some(0x4000_1000));
}

#[test]
fn map_does_not_go_below_a_large_page() {
    let mut mem = arena(8);
    let mut pm = Pagemap::new(&mut mem).unwrap();
    assert!(pm.map(&mut mem, 0, 0x4000_0000, RW, LARGE));
    assert!(!pm.map(&mut mem, 0x1000, 0x9000, RW, SMALL));
    assert_eq!(pm.translate(&mem, 0x1000), Some(0x4000_1000));
}

#[test]
fn map_leaves_other_pages_alone() {
    let mut mem = arena(16);
    let mut pm = Pagemap::new(&mut mem).unwrap();
    assert!(pm.map(&mut mem, 0x1000, 0xa000, RW, SMALL));
    assert!(pm.map(&mut mem, 0x2000, 0xb000, RW, SMALL));
    assert!(pm.map(&mut mem, 0x20_0000, 0x40_0000, RW, MEDIUM));
    assert_eq!(pm.translate(&mem, 0x1008), Some(0xa008));
    assert_eq!(pm.translate(&mem, 0x2008), Some(0xb008));
    assert_eq!(pm.translate(&mem, 0x20_0008), Some(0x40_0008));
    assert!(pm.map(&mut mem, 0x1000, 0xc000, RW, SMALL));
    assert_eq!(pm.translate(&mem, 0x1008), Some(0xc008));
    assert_eq!(pm.translate(&mem, 0x2008), Some(0xb008));
    assert_eq!(pm.used_pages, 3);
}

#[test]
fn unmap_takes_the_page_away() {
    let mut mem = arena(16);
    let mut pm = Pagemap::new(&mut mem).unwrap();
    assert!(pm.map(&mut mem, 0x1000, 0xa000, RW, SMALL));
    assert!(pm.map(&mut mem, 0x2000, 0xb000, RW, SMALL));
    assert!(pm.unmap(&mut mem, 0x1000, SMALL));
    assert_eq!(pm.used_pages, 1);
    assert_eq!(pm.translate(&mem, 0x1000), None);
    assert_eq!(pm.translate(&mem, 0x1fff), None);
    assert_eq!(pm.translate(&mem, 0x2000), Some(0xb000));
}

#[test]
fn unmap_works_for_every_page_size() {
    let mut mem = arena(16);
    let mut pm = Pagemap::new(&mut mem).unwrap();
    assert!(pm.map(&mut mem, 0x4000_0000, 0x60_0000, RW, MEDIUM));
    assert!(pm.map(&mut mem, 0x80_0000_0000, 0x4000_0000, RW, LARGE));
    assert!(pm.unmap(&mut mem, 0x4000_0000, MEDIUM));
    assert_eq!(pm.translate(&mem, 0x4000_0000), None);
    assert_eq!(pm.translate(&mem, 0x401f_ffff), None);
    assert_eq!(pm.translate(&mem, 0x80_0000_0001), Some(0x4000_0001));
    assert!(pm.unmap(&mut mem, 0x80_0000_0000, LARGE));
    assert_eq!(pm.translate(&mem, 0x80_0000_0000), None);
    assert_eq!(pm.translate(&mem, 0x80_3fff_ffff), None);
    assert_eq!(pm.used_pages, 0);
}

#[test]
fn unmap_fails_where_a_table_is_missing() {
    let mut mem = arena(16);
    let mut pm = Pagemap::new(&mut mem).unwrap();
    assert!(!pm.unmap(&mut mem, 0x1000, SMALL));
    assert!(!pm.unmap(&mut mem, 0x1000, MEDIUM));
    assert!(!pm.unmap(&mut mem, 0x1000, LARGE));
    assert!(!pm.unmap(&mut mem, 0x1000, 0x2000));
    assert_eq!(mem.frame_count(), 1);
    assert_eq!(pm.used_pages, 0);
}

#[test]
fn unmap_fails_where_nothing_is_mapped() {
    let mut mem = arena(16);
    let mut pm = Pagemap::new(&mut mem).unwrap();
    assert!(pm.map(&mut mem, 0x1000, 0xa000, RW, SMALL));
    assert!(!pm.unmap(&mut mem, 0x2000, SMALL));
    assert!(!pm.unmap(&mut mem, 0x5000, SMALL));
    assert_eq!(pm.used_pages, 1);
    assert_eq!(pm.translate(&mem, 0x1000), Some(0xa000));
    assert!(pm.unmap(&mut mem, 0x1000, SMALL));
    assert_eq!(pm.used_pages, 0);
    assert!(!pm.unmap(&mut mem, 0x1000, SMALL));
    assert_eq!(pm.used_pages, 0);
    assert_eq!(pm.translate(&mem, 0x1000), None);
    assert!(pm.map(&mut mem, 0x3000, 0xb000, 0x2, SMALL));
    assert!(!pm.unmap(&mut mem, 0x3000, SMALL));
    assert_eq!(pm.used_pages, 1);
    assert_eq!(mem.frame_count(), 4);
}

#[test]
fn unmap_of_a_large_page_leaves_smaller_pages_alone() {
    let mut mem = arena(16);
    let mut pm = Pagemap::new(&mut mem).unwrap();
    assert!(pm.map(&mut mem, 0x1000, 0xa000, RW, SMALL));
    assert!(!pm.unmap(&mut mem, 0, MEDIUM));
    assert!(!pm.unmap(&mut mem, 0, LARGE));
    assert_eq!(pm.translate(&mem, 0x1000), Some(0xa000));
    assert_eq!(pm.used_pages, 1);
    assert!(pm.map(&mut mem, 0x20_0000, 0x40_0000, RW, MEDIUM));
    assert!(!pm.unmap(&mut mem, 0x20_0000, SMALL));
    assert!(!pm.unmap(&mut mem, 0x20_0000, LARGE));
    assert_eq!(pm.translate(&mem, 0x20_0008), Some(0x40_0008));
    assert!(pm.unmap(&mut mem, 0x20_1000, MEDIUM));
    assert_eq!(pm.translate(&mem, 0x20_0008), None);
    assert!(!pm.unmap(&mut mem, 0x20_0000, MEDIUM));
    assert_eq!(pm.translate(&mem, 0x1000), Some(0xa000));
}

#[test]
fn kernel_half_is_the_same_in_every_address_space() {
    let mut mem = arena(64);
    let mut kernel = Pagemap::new(&mut mem).unwrap();
    assert!(kernel.map(&mut mem, HHDM + 0x1000, 0x1000, RW, SMALL));
    assert!(kernel.map(&mut mem, 0xffff_ffff_8000_0000, 0x20_0000, RW, MEDIUM));
    assert!(kernel.map(&mut mem, 0x5000, 0x9000, RW, SMALL));
    let a = Pagemap::new(&mut mem).unwrap().copy_kernel_map(&mut mem, &kernel);
    let b = Pagemap::new(&mut mem).unwrap().copy_kernel_map(&mut mem, &kernel);
    assert_ne!(a.top_level, b.top_level);
    let fa = mem.frame_index(a.top_level).unwrap();
    let fb = mem.frame_index(b.top_level).unwrap();
    let fk = mem.frame_index(kernel.top_level).unwrap();
    for i in 256..512 {
        assert_eq!(mem.read(fa, i), mem.read(fk, i));
        assert_eq!(mem.read(fb, i), mem.read(fk, i));
    }
    for i in 0..256 {
        assert_eq!(mem.read(fa, i), 0);
        assert_eq!(mem.read(fb, i), 0);
    }
    assert_eq!(a.translate(&mem, HHDM + 0x1234), Some(0x1234));
    assert_eq!(b.translate(&mem, 0xffff_ffff_8000_0042), Some(0x20_0042));
    assert_eq!(a.translate(&mem, 0x5000), None);
}

#[test]
fn lower_halves_do_not_touch_each_other() {
    let mut mem = arena(64);
    let mut kernel = Pagemap::new(&mut mem).unwrap();
    assert!(kernel.map(&mut mem, HHDM + 0x1000, 0x1000, RW, SMALL));
    let mut a = Pagemap::new(&mut mem).unwrap().copy_kernel_map(&mut mem, &kernel);
    let mut b = Pagemap::new(&mut mem).unwrap().copy_kernel_map(&mut mem, &kernel);
    assert!(a.map(&mut mem, 0x40_0000, 0xa000, RW | USER, SMALL));
    assert_eq!(a.translate(&mem, 0x40_0000), Some(0xa000));
    assert_eq!(b.translate(&mem, 0x40_0000), None);
    assert!(b.map(&mut mem, 0x40_0000, 0xb000, RW | USER, SMALL));
    assert_eq!(a.translate(&mem, 0x40_0000), Some(0xa000));
    assert_eq!(b.translate(&mem, 0x40_0000), Some(0xb000));
    assert!(a.unmap(&mut mem, 0x40_0000, SMALL));
    assert_eq!(a.translate(&mem, 0x40_0000), None);
    assert_eq!(b.translate(&mem, 0x40_0000), Some(0xb000));
    assert_eq!(a.translate(&mem, HHDM + 0x1000), Some(0x1000));
    assert_eq!(b.translate(&mem, HHDM + 0x1000), Some(0x1000));
    assert_eq!(kernel.translate(&mem, HHDM + 0x1000), Some(0x1000));
    assert_eq!(kernel.translate(&mem, 0x40_0000), None);
}

#[test]
fn ranges_and_unmaps_in_one_space_leave_the_other_alone() {
    let mut mem = arena(64);
    let mut kernel = Pagemap::new(&mut mem).unwrap();
    assert!(kernel.map(&mut mem, HHDM + 0x1000, 0x1000, RW, SMALL));
    let mut a = Pagemap::new(&mut mem).unwrap().copy_kernel_map(&mut mem, &kernel);
    let mut b = Pagemap::new(&mut mem).unwrap().copy_kernel_map(&mut mem, &kernel);
    assert!(b.map_range(&mut mem, 0x7000_0000, 0x30_0000, 0x4000, RW | USER));
    let fb = mem.frame_index(b.top_level).unwrap();
    let roots: Vec<u64> = (0..512).map(|i| mem.read(fb, i)).collect();
    assert!(a.map_range(&mut mem, 0x7000_0000, 0x50_0000, 0x4000, RW | USER));
    assert!(a.map(&mut mem, 0x4000_0000, 0x20_0000, RW, MEDIUM));
    for off in [0u64, 0x1234, 0x3fff] {
        assert_eq!(a.translate(&mem, 0x7000_0000 + off), Some(0x50_0000 + off));
        assert_eq!(b.translate(&mem, 0x7000_0000 + off), Some(0x30_0000 + off));
    }
    assert_eq!(b.translate(&mem, 0x4000_0000), None);
    a.unmap_stack(&mut mem, 0x7000_0000);
    assert!(a.unmap(&mut mem, 0x4000_0000, MEDIUM));
    assert_eq!(a.translate(&mem, 0x7000_0000), None);
    assert_eq!(b.translate(&mem, 0x7000_2000), Some(0x30_2000));
    assert_eq!((0..512).map(|i| mem.read(fb, i)).collect::<Vec<u64>>(), roots);
    let fa = mem.frame_index(a.top_level).unwrap();
    let fk = mem.frame_index(kernel.top_level).unwrap();
    for i in 256..512 {
        assert_eq!(mem.read(fa, i), mem.read(fk, i));
    }
}

#[test]
fn copy_kernel_map_does_nothing_without_a_root() {
    let mut mem = arena(8);
    let kernel = Pagemap::new(&mut mem).unwrap();
    let stray = Pagemap { top_level: 0x5000, used_pages: 7 };
    let r = stray.copy_kernel_map(&mut mem, &kernel);
    assert_eq!(r.top_level, 0x5000);
    assert_eq!(r.used_pages, 7);
    assert_eq!(mem.frame_count(), 1);
}

#[test]
fn translate_from_what_is_no_root_gives_nothing() {
    let mut mem = arena(8);
    let mut pm = Pagemap::new(&mut mem).unwrap();
    assert!(pm.map(&mut mem, 0x1000, 0xa000, RW, SMALL));
    let below = Pagemap { top_level: 0x10_1000, used_pages: 0 };
    assert_eq!(below.translate(&mem, 0x1000), None);
    let nowhere = Pagemap { top_level: 0x10_0800, used_pages: 0 };
    assert_eq!(nowhere.translate(&mem, 0x1000), None);
}

#[test]
fn next_level_links_a_table_only_when_asked() {
    let mut mem = arena(8);
    let pm = Pagemap::new(&mut mem).unwrap();
    let root = mem.frame_index(pm.top_level).unwrap();
    assert_eq!(get_next_level(&mut mem, root, 5, false), None);
    assert_eq!(mem.frame_count(), 1);
    assert_eq!(get_next_level(&mut mem, root, 5, true), Some(1));
    assert_eq!(mem.read(root, 5), 0x10_1000 | PRESENT | 0x2 | USER);
    assert_eq!(mem.frame_level(1), 3);
    assert_eq!(get_next_level(&mut mem, root, 5, true), Some(1));
    assert_eq!(get_next_level(&mut mem, root, 5, false), Some(1));
    assert_eq!(mem.frame_count(), 2);
}

#[test]
fn arena_hands_out_frames_in_order_up_to_its_capacity() {
    let mut mem = PhysMemory::new(0x8000, 0, 2);
    assert_eq!(mem.alloc_table(4, 0), Some(0));
    assert_eq!(mem.alloc_table(3, 7), Some(1));
    assert_eq!(mem.alloc_table(3, 8), None);
    assert_eq!(mem.frame_address(1), 0x9000);
    assert_eq!(mem.frame_prefix(1), 7);
    assert_eq!(mem.frame_index(0x9000), Some(1));
    assert_eq!(mem.frame_index(0x9008), None);
    assert_eq!(mem.frame_index(0x7000), None);
    assert_eq!(mem.frame_index(0xa000), None);
    let mut odd = PhysMemory::new(0x8001, 0, 2);
    assert_eq!(odd.alloc_table(4, 0), None);
}

#[test]
fn page_size_is_the_largest_that_fits() {
    assert_eq!(select_page_size(0x4000_0000, 0x8000_0000, 0x4000_0000), LARGE);
    assert_eq!(select_page_size(0x4000_0000, 0x8000_0000, 0x3fff_f000), MEDIUM);
    assert_eq!(select_page_size(0x4000_0000, 0x20_0000, 0x4000_0000), MEDIUM);
    assert_eq!(select_page_size(0x20_0000, 0x20_0000, 0x1f_f000), SMALL);
    assert_eq!(select_page_size(0x1000, 0x20_0000, 0x4000_0000), SMALL);
}

#[test]
fn map_range_uses_large_steps_where_it_can() {
    let mut mem = arena(32);
    let mut pm = Pagemap::new(&mut mem).unwrap();
    let virt = 0x1f_f000;
    let phys = 0x3f_f000;
    let length = 0x1000 + 0x20_0000 + 0x2000;
    assert!(pm.map_range(&mut mem, virt, phys, length, RW));
    assert_eq!(pm.used_pages, 3);
    assert_eq!(pm.translate(&mem, virt), Some(phys));
    assert_eq!(pm.translate(&mem, 0x20_0000), Some(0x40_0000));
    assert_eq!(pm.translate(&mem, 0x3f_ffff), Some(0x5f_ffff));
    assert_eq!(pm.translate(&mem, 0x40_1fff), Some(0x60_1fff));
    assert_eq!(pm.translate(&mem, 0x40_2000), None);
    assert_eq!(pm.translate(&mem, 0x1f_efff), None);
}

#[test]
fn map_range_refuses_what_is_not_whole_pages() {
    let mut mem = arena(32);
    let mut pm = Pagemap::new(&mut mem).unwrap();
    assert!(!pm.map_range(&mut mem, 0x1001, 0x2000, 0x1000, RW));
    assert!(!pm.map_range(&mut mem, 0x1000, 0x2000, 0x1001, RW));
    assert!(!pm.map_range(&mut mem, 0x1000, 0x2000, 0x8000_0000_1000, RW));
    assert_eq!(mem.frame_count(), 1);
    assert!(pm.map_range(&mut mem, 0x1000, 0x2000, 0, RW));
}

#[test]
fn init_maps_the_memory_map_and_the_executable() {
    let mut mem = arena(64);
    let regions = vec![
        MemoryRegion { base: 0x1000, length: 0x2000, kind: RegionKind::Usable },
        MemoryRegion { base: 0x10_0000, length: 0x1000, kind: RegionKind::Reserved },
        MemoryRegion { base: 0x20_0800, length: 0x1000, kind: RegionKind::Framebuffer },
        MemoryRegion { base: 0x4000_0000, length: 0x4000_0000, kind: RegionKind::BootloaderReclaimable },
    ];
    let pm = init(&mut mem, &regions, 0x80_0000, 0xffff_ffff_8000_0000, 0x2345).unwrap();
    assert_eq!(pm.translate(&mem, HHDM + 0x1000), Some(0x1000));
    assert_eq!(pm.translate(&mem, HHDM + 0x2fff), Some(0x2fff));
    assert_eq!(pm.translate(&mem, HHDM + 0x3000), None);
    assert_eq!(pm.translate(&mem, HHDM + 0x10_0000), None);
    assert_eq!(pm.translate(&mem, HHDM + 0x20_0000), Some(0x20_0000));
    assert_eq!(pm.translate(&mem, HHDM + 0x20_1fff), Some(0x20_1fff));
    assert_eq!(pm.translate(&mem, HHDM + 0x4000_0000), Some(0x4000_0000));
    assert_eq!(pm.translate(&mem, HHDM + 0x7fff_ffff), Some(0x7fff_ffff));
    assert_eq!(pm.translate(&mem, 0xffff_ffff_8000_0000), Some(0x80_0000));
    assert_eq!(pm.translate(&mem, 0xffff_ffff_8000_2fff), Some(0x80_2fff));
    assert_eq!(pm.translate(&mem, 0xffff_ffff_8000_3000), None);
    assert_eq!(pm.used_pages, 2 + 2 + 3);
}

#[test]
fn init_fails_where_the_arena_is_too_small() {
    let mut mem = arena(2);
    let regions = vec![MemoryRegion { base: 0x1000, length: 0x1000, kind: RegionKind::Usable }];
    assert!(init(&mut mem, &regions, 0, 0xffff_ffff_8000_0000, 0).is_none());
    let mut none = arena(0);
    assert!(init(&mut none, &Vec::new(), 0, 0, 0).is_none());
}
