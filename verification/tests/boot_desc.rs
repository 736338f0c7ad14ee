use krnl::boot::handoff_valid;
use krnl::boot::MULTIBOOT_BOOTLOADER_MAGIC;
use krnl::boot::MULTIBOOT_INFO_MEM_MAP;
use krnl::desc::build_gdt;
use krnl::desc::build_idt;
use krnl::desc::pic_eoi_writes;
use krnl::desc::pic_init_writes;
use krnl::desc::tss_descriptor;
use krnl::desc::tss_descriptor_high;
use krnl::desc::GateDescriptor;
use krnl::desc::GateType;
use krnl::desc::KERNEL_CODE_SELECTOR;
use krnl::pg::Page;
use krnl::pm::init_phys_mem_bare;
use krnl::pm::init_phys_mem_e820;
use krnl::pm::MmapEntry;
use krnl::sched::Context;
use krnl::sched::Scheduler;
use krnl::vm::VirtualMemory;

#[test]
fn handoff_accepts_a_compliant_loader() {
    assert!(handoff_valid(MULTIBOOT_BOOTLOADER_MAGIC, MULTIBOOT_INFO_MEM_MAP));
    assert!(handoff_valid(MULTIBOOT_BOOTLOADER_MAGIC, MULTIBOOT_INFO_MEM_MAP | 1));
}

#[test]
fn handoff_halts_on_a_bad_magic_number() {
    assert!(!handoff_valid(0x2BADB003, MULTIBOOT_INFO_MEM_MAP));
    assert!(!handoff_valid(0, MULTIBOOT_INFO_MEM_MAP));
}

#[test]
fn handoff_halts_without_a_memory_map() {
    assert!(!handoff_valid(MULTIBOOT_BOOTLOADER_MAGIC, 0x3F));
    assert!(!handoff_valid(MULTIBOOT_BOOTLOADER_MAGIC, 0));
}

#[test]
fn boot_reaches_the_scheduler_loop() {
    // the loader hands over a valid magic and one 16 MiB available region
    assert!(handoff_valid(MULTIBOOT_BOOTLOADER_MAGIC, MULTIBOOT_INFO_MEM_MAP));
    let mut pm = init_phys_mem_bare();
    let map = vec![MmapEntry { addr: 0, len: 16 * 1024 * 1024, type_: 1 }];
    init_phys_mem_e820(&mut pm, &map);
    assert_eq!(pm.frames(), 4096);
    assert_eq!(pm.free_frames(), 1024 + 2048);
    // the heap comes up on top of the reseeded allocator
    let mut vm = VirtualMemory::new(0);
    assert!(vm.allocate(&mut pm, Page(0), 1).is_some());
    // and the scheduler runs its banner task and exits its loop cleanly
    let mut s = Scheduler::default();
    s.spawn(Context(1), 0);
    assert!(s.run().is_some());
    assert_eq!(s.take_task(), Some(0));
    s.enter(true);
    assert!(s.run().is_none());
}

#[test]
fn gate_descriptor_packs_its_fields() {
    let g = GateDescriptor::new(0x12345678, KERNEL_CODE_SELECTOR, GateType::Interrupt, 0, 0);
    assert_eq!(g.offset_0_15, 0x5678);
    assert_eq!(g.offset_16_31, 0x1234);
    assert_eq!(g.seg_sel, 8);
    assert_eq!(g.ist, 0);
    assert_eq!(g.gate_type_dpl_p, 0x8E);
    let t = GateDescriptor::new(0, KERNEL_CODE_SELECTOR, GateType::Trap, 0, 3);
    assert_eq!(t.gate_type_dpl_p, 0x8F | 0x60);
    let z = GateDescriptor::zeroed();
    assert_eq!(z.gate_type_dpl_p, 0);
}

#[test]
fn idt_holds_48_present_interrupt_gates() {
    let handlers: Vec<u32> = (0..48).map(|i| 0x10_0000 + i * 16).collect();
    let idt = build_idt(&handlers);
    assert_eq!(idt.len(), 48);
    for (i, g) in idt.iter().enumerate() {
        assert_eq!((g.offset_0_15 as u32) | ((g.offset_16_31 as u32) << 16), handlers[i]);
        assert_eq!(g.seg_sel, KERNEL_CODE_SELECTOR);
        assert_eq!(g.ist, 0);
        assert_eq!(g.gate_type_dpl_p, 0x8E);
    }
}

#[test]
fn gdt_encodes_the_flat_segments() {
    let gdt = build_gdt();
    assert_eq!(gdt.len(), 7);
    assert_eq!(gdt[0].access, 0);
    assert_eq!(gdt[1].access, 0x9B);
    assert_eq!(gdt[1].limit_0_15, 0xFFFF);
    assert_eq!(gdt[1].flags_and_limit_16_19, 0xCF);
    assert_eq!(gdt[2].access, 0x93);
    assert_eq!(gdt[3].access, 0xFB);
    assert_eq!(gdt[4].access, 0xF3);
    assert_eq!(gdt[5].access, 0);
    assert_eq!(gdt[6].access, 0);
}

#[test]
fn tss_descriptor_scatters_base_and_limit() {
    let d = tss_descriptor(0x0012_3456, 103);
    assert_eq!(d.limit_0_15, 103);
    assert_eq!(d.base_0_15, 0x3456);
    assert_eq!(d.base_16_23, 0x12);
    assert_eq!(d.base_24_31, 0);
    assert_eq!(d.access, 0x89);
    assert_eq!(d.flags_and_limit_16_19, 0);
}

#[test]
fn tss_high_slot_splits_the_upper_base() {
    let d = tss_descriptor_high(0xABCD_1234_0000_5678);
    assert_eq!(d.limit_0_15, 0x1234);
    assert_eq!(d.base_0_15, 0xABCD);
    assert_eq!(d.base_16_23, 0);
    assert_eq!(d.access, 0);
    assert_eq!(d.flags_and_limit_16_19, 0);
    assert_eq!(d.base_24_31, 0);
}

#[test]
fn pic_initialization_sequence() {
    let w = pic_init_writes();
    assert_eq!(
        w,
        vec![
            (0x20, 0x11),
            (0xA0, 0x11),
            (0x21, 0x20),
            (0xA1, 0x28),
            (0x21, 0x04),
            (0xA1, 0x02),
            (0x21, 0x01),
            (0xA1, 0x01),
        ]
    );
}

#[test]
fn end_of_interrupt_reaches_the_right_controllers() {
    assert_eq!(pic_eoi_writes(0), vec![(0x20, 0x20)]);
    assert_eq!(pic_eoi_writes(7), vec![(0x20, 0x20)]);
    assert_eq!(pic_eoi_writes(8), vec![(0xA0, 0x20), (0x20, 0x20)]);
    assert_eq!(pic_eoi_writes(15), vec![(0xA0, 0x20), (0x20, 0x20)]);
}
