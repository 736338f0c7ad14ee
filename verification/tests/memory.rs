use krnl::bitmap::Bitmap;
use krnl::pm::init_phys_mem_bare;
use krnl::pm::init_phys_mem_e820;
use krnl::pm::MmapEntry;
use krnl::pm::PhysicalMemory;

#[test]
fn phase_one_reserves_the_kernel_span() {
    let pm = init_phys_mem_bare();
    assert_eq!(pm.frames(), 2048);
    assert_eq!(pm.free_frames(), 1024);
    for f in 0..1024 {
        assert!(pm.frame_used(f));
    }
    for f in 1024..2048 {
        assert!(!pm.frame_used(f));
    }
    // the first free frame lies above the kernel image
    assert_eq!(pm.find_free(1), Some(1024));
}

#[test]
fn mark_round_trip_is_identity_on_free_count() {
    let mut pm = init_phys_mem_bare();
    let before = pm.free_frames();
    pm.mark_used(1500, 20);
    assert_eq!(pm.free_frames(), before - 20);
    for f in 1500..1520 {
        assert!(pm.frame_used(f));
    }
    pm.mark_free(1500, 20);
    assert_eq!(pm.free_frames(), before);
    for f in 1500..1520 {
        assert!(!pm.frame_used(f));
    }
}

#[test]
fn find_free_returns_first_fitting_run() {
    let mut pm = PhysicalMemory::new(Bitmap::new(vec![0, 0]), 128);
    pm.mark_used(0, 4);
    pm.mark_used(6, 10);
    // the gap at 4..6 is too small for three frames
    assert_eq!(pm.find_free(3), Some(16));
    assert_eq!(pm.find_free(2), Some(4));
}

#[test]
fn find_free_reports_shortage() {
    let mut pm = init_phys_mem_bare();
    pm.mark_used(1024, 1024);
    assert_eq!(pm.free_frames(), 0);
    assert_eq!(pm.find_free(1), None);
    // a free count large enough in total still fails without a long run
    let mut frag = PhysicalMemory::new(Bitmap::new(vec![0]), 64);
    frag.mark_used(8, 8);
    assert_eq!(frag.find_free(60), None);
}

#[test]
fn phase_two_frees_available_regions_beyond_the_bootstrap_span() {
    let mut pm = init_phys_mem_bare();
    // two available regions totalling 2048 frames, covering the kernel span
    let map = vec![
        MmapEntry { addr: 0, len: 0x500000, type_: 1 },
        MmapEntry { addr: 0x500000, len: 0x300000, type_: 1 },
    ];
    init_phys_mem_e820(&mut pm, &map);
    assert_eq!(pm.frames(), 2048);
    assert_eq!(pm.free_frames(), 2048 - 1024);
    assert_eq!(pm.find_free(1), Some(1024));
}

#[test]
fn phase_two_preserves_phase_one_allocations() {
    let mut pm = init_phys_mem_bare();
    // a frame taken during phase one, as for an early page table
    let taken = pm.find_free(1).unwrap();
    pm.mark_used(taken, 1);
    let map = vec![MmapEntry { addr: 0, len: 16 * 1024 * 1024, type_: 1 }];
    init_phys_mem_e820(&mut pm, &map);
    assert_eq!(pm.frames(), 4096);
    assert!(pm.frame_used(taken));
    // the kernel span and the taken frame stay used, the rest is free
    assert_eq!(pm.free_frames(), (1024 - 1) + 2048);
}

#[test]
fn phase_two_ignores_reserved_entries() {
    let mut pm = init_phys_mem_bare();
    let map = vec![
        MmapEntry { addr: 0, len: 0x800000, type_: 1 },
        MmapEntry { addr: 0x800000, len: 0x800000, type_: 2 },
    ];
    init_phys_mem_e820(&mut pm, &map);
    assert_eq!(pm.frames(), 2048);
    assert_eq!(pm.free_frames(), 1024);
}

#[test]
fn phase_two_keeps_unreported_span_frames_used() {
    let mut pm = init_phys_mem_bare();
    // the loader reports nothing below 8 MiB: the bootstrap span beyond the
    // kernel is a hole and must not be handed out
    let map = vec![MmapEntry { addr: 0x800000, len: 0x800000, type_: 1 }];
    init_phys_mem_e820(&mut pm, &map);
    assert_eq!(pm.frames(), 4096);
    for f in 1024..2048 {
        assert!(pm.frame_used(f));
    }
    assert!(pm.frame_used(1500));
    assert_eq!(pm.free_frames(), 2048);
    assert_eq!(pm.find_free(1), Some(2048));
}

#[test]
fn new_wraps_a_counted_bitmap() {
    let pm = PhysicalMemory::new(Bitmap::new(vec![u64::MAX]), 0);
    assert_eq!(pm.frames(), 64);
    assert_eq!(pm.free_frames(), 0);
    assert_eq!(pm.find_free(1), None);
}
