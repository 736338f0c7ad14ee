use krnl::pg::canonical_addr;
use krnl::pg::level_index_long;
use krnl::pg::table_addr;
use krnl::pg::table_addr_long;
use krnl::pg::Level;
use krnl::pg::Level1;
use krnl::pg::Level2;
use krnl::pg::Page;
use krnl::pg::PageTable;
use krnl::pg::PageTableEntry;
use krnl::pg::PAGE_TABLE_ADDR;
use krnl::pg::PAGE_TABLE_ADDR_LONG;
use krnl::pm::init_phys_mem_bare;
use krnl::vm::VirtualMemory;

#[test]
fn entry_encodes_frame_and_flags() {
    let mut e = PageTableEntry::empty();
    assert!(e.free());
    assert!(!e.used());
    e.map(42);
    assert!(e.used());
    assert!(!e.free());
    assert_eq!(e.frame(), 42);
    let f = e.unmap();
    assert_eq!(f, 42);
    assert!(e.free());
}

#[test]
fn level_indices_split_page_numbers() {
    assert_eq!(Level1::index(Page(0x12345)), 0x345);
    assert_eq!(Level2::index(Page(0x12345)), 0x48);
    assert_eq!(Level1::index(Page(0)), 0);
    assert_eq!(Level2::index(Page(0xFFFFF)), 0x3FF);
    assert_eq!(Level1::index(Page(0xFFFFF)), 0x3FF);
}

#[test]
fn page_addresses() {
    assert_eq!(Page(3).ptr(), 0x3000);
    assert_eq!(Page(0).ptr(), 0);
    assert_eq!(canonical_addr(0), 0);
    assert_eq!(canonical_addr(3), 0x3000);
    // the top half of the four-level space is sign-extended
    assert_eq!(canonical_addr(0x8_0000_0000), 0xFFFF_8000_0000_0000);
}

#[test]
fn recursive_addresses_match_the_reference_formula() {
    // two-level: (R << 22) | (i << 12), and the self-map is a fixed point
    assert_eq!(table_addr(PAGE_TABLE_ADDR, 5), 0xFFC0_5000);
    assert_eq!(table_addr(PAGE_TABLE_ADDR, 0), 0xFFC0_0000);
    assert_eq!(table_addr(PAGE_TABLE_ADDR, 0x3FF), PAGE_TABLE_ADDR);
    // four-level: the reserved slot is a fixed point too
    assert_eq!(table_addr_long(PAGE_TABLE_ADDR_LONG, 0x1FE), PAGE_TABLE_ADDR_LONG);
    assert_eq!(table_addr_long(PAGE_TABLE_ADDR_LONG, 0), 0xFFFF_FF7F_BFC0_0000);
    assert_eq!(table_addr_long(PAGE_TABLE_ADDR_LONG, 5), 0xFFFF_FF7F_BFC0_5000);
}

#[test]
fn long_mode_level_indices() {
    let page: u64 = 0x1_2345_6789;
    assert_eq!(level_index_long(1, page), 0x189);
    assert_eq!(level_index_long(2, page), 0xB3);
    assert_eq!(level_index_long(3, page), 0xD1);
    assert_eq!(level_index_long(4, page), 0x24);
}

#[test]
fn fresh_table_is_empty() {
    let t = PageTable::new();
    for i in 0..1024 {
        assert!(!t.entry(i).used());
    }
}

#[test]
fn table_create_leaves_an_empty_child() {
    let mut pm = init_phys_mem_bare();
    let mut vm = VirtualMemory::new(7);
    assert_eq!(vm.table(5), None);
    vm.table_create(&mut pm, 5);
    // the child sits at the recursive-mapping address and holds 1024 free
    // entries
    assert_eq!(vm.table(5), Some(0xFFC0_5000));
    for lo in 0..1024 {
        assert!(!vm.page_present(5 * 1024 + lo));
    }
    assert_eq!(pm.free_frames(), 1023);
    // creating what exists changes nothing
    vm.table_create(&mut pm, 5);
    assert_eq!(pm.free_frames(), 1023);
}

#[test]
fn map_points_pages_at_frames() {
    let mut pm = init_phys_mem_bare();
    let mut vm = VirtualMemory::new(7);
    pm.mark_used(1500, 3);
    vm.map(&mut pm, Page(100), 1500, 3);
    for i in 0..3 {
        assert!(vm.page_present(100 + i));
        assert_eq!(vm.page_frame(100 + i), 1500 + i as u64);
    }
    assert!(!vm.page_present(99));
    assert!(!vm.page_present(103));
    // one frame went to the new table of this region
    assert_eq!(pm.free_frames(), 1024 - 3 - 1);
    vm.free(&mut pm, Page(100), 3);
    assert!(!vm.page_present(100));
    assert_eq!(pm.free_frames(), 1024 - 1);
}

#[test]
fn allocate_then_free_restores_the_free_count() {
    let mut pm = init_phys_mem_bare();
    let mut vm = VirtualMemory::new(7);
    // a first allocation materializes the region's table
    vm.allocate(&mut pm, Page(64), 1).unwrap();
    let before = pm.free_frames();
    let (p, f) = vm.allocate_contiguous(&mut pm, Page(64), 4).unwrap();
    assert_eq!(pm.free_frames(), before - 4);
    assert!(f >= 1024);
    vm.free(&mut pm, p, 4);
    assert_eq!(pm.free_frames(), before);
}

#[test]
fn consecutive_allocations_are_disjoint() {
    let mut pm = init_phys_mem_bare();
    let mut vm = VirtualMemory::new(7);
    let (p1, f1) = vm.allocate_contiguous(&mut pm, Page(0), 5).unwrap();
    let (p2, f2) = vm.allocate_contiguous(&mut pm, Page(0), 5).unwrap();
    assert!(p1.0 + 5 <= p2.0 || p2.0 + 5 <= p1.0);
    assert!(f1 + 5 <= f2 || f2 + 5 <= f1);
    assert_eq!(p1.0, 0);
    assert_eq!(p2.0, 5);
}

#[test]
fn find_free_skips_mapped_pages() {
    let mut pm = init_phys_mem_bare();
    let mut vm = VirtualMemory::new(7);
    vm.allocate(&mut pm, Page(0), 3).unwrap();
    assert_eq!(vm.find_free(Page(0), 2).map(|p| p.0), Some(3));
    assert_eq!(vm.find_free(Page(1), 2).map(|p| p.0), Some(3));
}

#[test]
fn byte_sizes_round_up_to_pages() {
    assert_eq!(VirtualMemory::pages_for(1), 1);
    assert_eq!(VirtualMemory::pages_for(4096), 1);
    assert_eq!(VirtualMemory::pages_for(4097), 2);
    assert_eq!(VirtualMemory::pages_for(16 * 1024), 4);
}

#[test]
fn allocate_reports_out_of_memory() {
    let mut pm = init_phys_mem_bare();
    let mut vm = VirtualMemory::new(7);
    pm.mark_used(1024, 1024);
    assert!(vm.allocate(&mut pm, Page(0), 1).is_none());
}
