//! Descriptor-table encodings: interrupt-gate descriptors and the 48-vector
//! table layout, segment descriptors and the fixed global table, the
//! task-state segment, and the legacy interrupt controller's initialization
//! and end-of-interrupt write sequences.

use vstd::prelude::*;

verus! {

/// Selector of the kernel code segment: the second descriptor.
pub const KERNEL_CODE_SELECTOR: u16 = 8;

/// Vectors the interrupt table holds: the processor exceptions and the
/// sixteen legacy request lines.
pub const IDT_VECTORS: usize = 48;

/// Gate type of an interrupt gate.
pub const GATE_INTERRUPT: u8 = 0xE;

/// Gate type of a trap gate.
pub const GATE_TRAP: u8 = 0xF;

/// The two gate kinds an interrupt descriptor can encode.
pub enum GateType {
    Interrupt,
    Trap,
}

impl GateType {
    /// The four type bits of the kind.
    pub open spec fn spec_bits(&self) -> u8 {
        match self {
            GateType::Interrupt => GATE_INTERRUPT,
            GateType::Trap => GATE_TRAP,
        }
    }

    /// The four type bits of the kind.
    pub fn bits(&self) -> (r: u8)
        ensures
            r == self.spec_bits(),
    {
        match self {
            GateType::Interrupt => GATE_INTERRUPT,
            GateType::Trap => GATE_TRAP,
        }
    }
}

/// One interrupt-table descriptor: handler offset split low and high, the
/// code-segment selector, the stack-table index, and the packed type,
/// privilege and present bits.
#[derive(Clone, Copy, Debug, PartialEq, Eq, Structural)]
pub struct GateDescriptor {
    pub offset_0_15: u16,
    pub seg_sel: u16,
    pub ist: u8,
    pub gate_type_dpl_p: u8,
    pub offset_16_31: u16,
}

/// A present gate descriptor, field by field.
pub open spec fn spec_gate(offset: u32, seg_sel: u16, gate: u8, ist: u8, dpl: u8)
    -> GateDescriptor {
    GateDescriptor {
        offset_0_15: (offset & 0xFFFF) as u16,
        seg_sel,
        ist,
        gate_type_dpl_p: (gate | (dpl << 5) | 0x80) as u8,
        offset_16_31: ((offset >> 16) & 0xFFFF) as u16,
    }
}

impl GateDescriptor {
    /// A not-present descriptor: every bit zero.
    pub fn zeroed() -> (r: GateDescriptor)
        ensures
            r == (GateDescriptor {
                offset_0_15: 0,
                seg_sel: 0,
                ist: 0,
                gate_type_dpl_p: 0,
                offset_16_31: 0,
            }),
    {
        GateDescriptor { offset_0_15: 0, seg_sel: 0, ist: 0, gate_type_dpl_p: 0, offset_16_31: 0 }
    }

    /// Encodes a present gate for a handler: offset split across the two
    /// halves, and type, privilege and present packed into one byte.
    pub fn new(offset: u32, seg_sel: u16, gate_type: GateType, ist: u8, dpl: u8)
        -> (r: GateDescriptor)
        requires
            dpl < 4,
        ensures
            r == spec_gate(offset, seg_sel, gate_type.spec_bits(), ist, dpl),
            r.gate_type_dpl_p & 0x80 == 0x80,
    {
        let gate = gate_type.bits();
        let r = GateDescriptor {
            offset_0_15: (offset & 0xFFFF) as u16,
            seg_sel,
            ist,
            gate_type_dpl_p: gate | (dpl << 5) | 0x80,
            offset_16_31: ((offset >> 16) & 0xFFFF) as u16,
        };
        proof {
            assert(dpl < 4 ==> ((gate | ((dpl << 5) as u8) | 0x80) & 0x80) == 0x80u8)
                by (bit_vector);
            assert(dpl < 4 ==> ((gate | ((dpl << 5) as u8) | 0x80) as u8)
                == ((gate | (((dpl << 5) as int) as u8) | 0x80) as u8)) by (bit_vector);
        }
        r
    }
}

/// Builds the 48-vector interrupt table: one present interrupt gate per
/// handler, all through the kernel code segment at privilege zero.
pub fn build_idt(handlers: &Vec<u32>) -> (r: Vec<GateDescriptor>)
    requires
        handlers@.len() == IDT_VECTORS,
    ensures
        r@.len() == IDT_VECTORS,
        forall|i: int| 0 <= i < IDT_VECTORS
            ==> r@[i] == spec_gate(handlers@[i], KERNEL_CODE_SELECTOR, GATE_INTERRUPT, 0, 0),
{
    let mut r: Vec<GateDescriptor> = Vec::new();
    let mut i: usize = 0;
    while i < IDT_VECTORS
        invariant
            handlers@.len() == IDT_VECTORS,
            i == r@.len() <= IDT_VECTORS,
            forall|k: int| 0 <= k < i
                ==> r@[k] == spec_gate(handlers@[k], KERNEL_CODE_SELECTOR, GATE_INTERRUPT, 0, 0),
        decreases IDT_VECTORS - i,
    {
        r.push(GateDescriptor::new(handlers[i], KERNEL_CODE_SELECTOR, GateType::Interrupt, 0, 0));
        i = i + 1;
    }
    r
}

/// Accessed bit of a segment descriptor.
pub const ACCESS_A: u8 = 1;

/// Readable-or-writable bit of a segment descriptor.
pub const ACCESS_RW: u8 = 2;

/// Direction-or-conforming bit of a segment descriptor.
pub const ACCESS_DC: u8 = 4;

/// Executable bit of a segment descriptor.
pub const ACCESS_E: u8 = 8;

/// Code-or-data (non-system) bit of a segment descriptor.
pub const ACCESS_S: u8 = 16;

/// Present bit of a segment descriptor.
pub const ACCESS_P: u8 = 128;

/// Long-mode flag of a segment descriptor.
pub const FLAG_L: u8 = 32;

/// Default-operand-size flag of a segment descriptor.
pub const FLAG_DB: u8 = 64;

/// Page-granularity flag of a segment descriptor.
pub const FLAG_G: u8 = 128;

/// One global-descriptor-table entry, base and limit scattered over the
/// fields the processor defined.
#[derive(Clone, Copy, Debug, PartialEq, Eq, Structural)]
pub struct SegmentDescriptor {
    pub limit_0_15: u16,
    pub base_0_15: u16,
    pub base_16_23: u8,
    pub access: u8,
    pub flags_and_limit_16_19: u8,
    pub base_24_31: u8,
}

/// A segment descriptor, field by field.
pub open spec fn spec_segment(base: u32, limit: u32, access: u8, dpl: u8, flags: u8)
    -> SegmentDescriptor {
    SegmentDescriptor {
        limit_0_15: (limit & 0xFFFF) as u16,
        base_0_15: (base & 0xFFFF) as u16,
        base_16_23: ((base >> 16) & 0xFF) as u8,
        access: (access | (dpl << 5)) as u8,
        flags_and_limit_16_19: (((limit >> 16) & 0xF) as u8 | flags) as u8,
        base_24_31: ((base >> 24) & 0xFF) as u8,
    }
}

impl SegmentDescriptor {
    /// A null descriptor: every bit zero.
    pub fn zeroed() -> (r: SegmentDescriptor)
        ensures
            r == (SegmentDescriptor {
                limit_0_15: 0,
                base_0_15: 0,
                base_16_23: 0,
                access: 0,
                flags_and_limit_16_19: 0,
                base_24_31: 0,
            }),
    {
        SegmentDescriptor {
            limit_0_15: 0,
            base_0_15: 0,
            base_16_23: 0,
            access: 0,
            flags_and_limit_16_19: 0,
            base_24_31: 0,
        }
    }

    /// Encodes a descriptor: base scattered over three fields, twenty limit
    /// bits over two, privilege folded into the access byte and the flags
    /// into the high limit nibble.
    pub fn new(base: u32, limit: u32, access: u8, dpl: u8, flags: u8) -> (r: SegmentDescriptor)
        requires
            dpl < 4,
            limit < 0x100000,
        ensures
            r == spec_segment(base, limit, access, dpl, flags),
    {
        proof {
            assert(limit < 0x100000 ==> ((limit >> 16) as u8) == (((limit >> 16) & 0xF) as u8))
                by (bit_vector);
        }
        SegmentDescriptor {
            limit_0_15: (limit & 0xFFFF) as u16,
            base_0_15: (base & 0xFFFF) as u16,
            base_16_23: ((base >> 16) & 0xFF) as u8,
            access: access | (dpl << 5),
            flags_and_limit_16_19: ((limit >> 16) as u8) | flags,
            base_24_31: ((base >> 24) & 0xFF) as u8,
        }
    }
}

/// Slot of the null descriptor.
pub const DESCRIPTOR_NULL: usize = 0;

/// Slot of the kernel code segment.
pub const DESCRIPTOR_KCODE: usize = 1;

/// Slot of the kernel data segment.
pub const DESCRIPTOR_KDATA: usize = 2;

/// Slot of the user code segment.
pub const DESCRIPTOR_UCODE: usize = 3;

/// Slot of the user data segment.
pub const DESCRIPTOR_UDATA: usize = 4;

/// Slot of the task-state descriptor, written when the segment is loaded.
pub const DESCRIPTOR_TSS: usize = 5;

/// Slot of the per-processor base segment, written when it is installed.
pub const DESCRIPTOR_GS: usize = 6;

/// Builds the fixed global descriptor table: null, flat kernel code and
/// data, flat user code and data at privilege three, and two empty slots
/// for the task-state and per-processor descriptors.
pub fn build_gdt() -> (r: Vec<SegmentDescriptor>)
    ensures
        r@.len() == 7,
        r@[DESCRIPTOR_NULL as int] == SegmentDescriptor::spec_zeroed(),
        r@[DESCRIPTOR_KCODE as int] == spec_segment(
            0, 0xFFFFF, ACCESS_A | ACCESS_RW | ACCESS_E | ACCESS_S | ACCESS_P, 0, FLAG_DB | FLAG_G),
        r@[DESCRIPTOR_KDATA as int] == spec_segment(
            0, 0xFFFFF, ACCESS_A | ACCESS_RW | ACCESS_S | ACCESS_P, 0, FLAG_DB | FLAG_G),
        r@[DESCRIPTOR_UCODE as int] == spec_segment(
            0, 0xFFFFF, ACCESS_A | ACCESS_RW | ACCESS_E | ACCESS_S | ACCESS_P, 3, FLAG_DB | FLAG_G),
        r@[DESCRIPTOR_UDATA as int] == spec_segment(
            0, 0xFFFFF, ACCESS_A | ACCESS_RW | ACCESS_S | ACCESS_P, 3, FLAG_DB | FLAG_G),
        r@[DESCRIPTOR_TSS as int] == SegmentDescriptor::spec_zeroed(),
        r@[DESCRIPTOR_GS as int] == SegmentDescriptor::spec_zeroed(),
{
    let mut r: Vec<SegmentDescriptor> = Vec::new();
    r.push(SegmentDescriptor::zeroed());
    r.push(SegmentDescriptor::new(
        0, 0xFFFFF, ACCESS_A | ACCESS_RW | ACCESS_E | ACCESS_S | ACCESS_P, 0, FLAG_DB | FLAG_G));
    r.push(SegmentDescriptor::new(
        0, 0xFFFFF, ACCESS_A | ACCESS_RW | ACCESS_S | ACCESS_P, 0, FLAG_DB | FLAG_G));
    r.push(SegmentDescriptor::new(
        0, 0xFFFFF, ACCESS_A | ACCESS_RW | ACCESS_E | ACCESS_S | ACCESS_P, 3, FLAG_DB | FLAG_G));
    r.push(SegmentDescriptor::new(
        0, 0xFFFFF, ACCESS_A | ACCESS_RW | ACCESS_S | ACCESS_P, 3, FLAG_DB | FLAG_G));
    r.push(SegmentDescriptor::zeroed());
    r.push(SegmentDescriptor::zeroed());
    r
}

impl SegmentDescriptor {
    /// The all-zero descriptor, as a value.
    pub open spec fn spec_zeroed() -> SegmentDescriptor {
        SegmentDescriptor {
            limit_0_15: 0,
            base_0_15: 0,
            base_16_23: 0,
            access: 0,
            flags_and_limit_16_19: 0,
            base_24_31: 0,
        }
    }
}

/// The descriptor installed for a task-state segment when it is loaded:
/// a present system segment, accessed and executable-class, privilege zero.
pub fn tss_descriptor(base: u32, limit: u32) -> (r: SegmentDescriptor)
    requires
        limit < 0x100000,
    ensures
        r == spec_segment(base, limit, ACCESS_A | ACCESS_E | ACCESS_P, 0, 0),
{
    SegmentDescriptor::new(base, limit, ACCESS_A | ACCESS_E | ACCESS_P, 0, 0)
}

/// The second descriptor slot a task-state segment occupies on the
/// four-level architecture: the high half of its 64-bit base, split across
/// the slot's first two fields, with everything else zero.
pub fn tss_descriptor_high(base: u64) -> (r: SegmentDescriptor)
    ensures
        r == (SegmentDescriptor {
            limit_0_15: ((base >> 32) & 0xFFFF) as u16,
            base_0_15: ((base >> 48) & 0xFFFF) as u16,
            base_16_23: 0,
            access: 0,
            flags_and_limit_16_19: 0,
            base_24_31: 0,
        }),
{
    SegmentDescriptor {
        limit_0_15: ((base >> 32) & 0xFFFF) as u16,
        base_0_15: ((base >> 48) & 0xFFFF) as u16,
        base_16_23: 0,
        access: 0,
        flags_and_limit_16_19: 0,
        base_24_31: 0,
    }
}

/// The descriptor installed for the per-processor base segment.
pub fn gs_descriptor(base: u32, limit: u32) -> (r: SegmentDescriptor)
    requires
        limit < 0x100000,
    ensures
        r == spec_segment(
            base, limit, ACCESS_A | ACCESS_RW | ACCESS_E | ACCESS_S | ACCESS_P, 0,
            FLAG_DB | FLAG_G),
{
    SegmentDescriptor::new(
        base, limit, ACCESS_A | ACCESS_RW | ACCESS_E | ACCESS_S | ACCESS_P, 0, FLAG_DB | FLAG_G)
}

/// The processor's task-state segment: the stack pointers and segment
/// registers loaded on a privilege transition, with the kernel stack in
/// ring zero's slot.  Held boxed by the scheduler and described to the
/// processor by `tss_descriptor`.
#[derive(Clone, Copy, Debug, PartialEq, Eq, Structural)]
pub struct TaskStateSegment {
    pub link: u16,
    pub esp0: u32,
    pub ss0: u16,
    pub esp1: u32,
    pub ss1: u16,
    pub esp2: u32,
    pub ss2: u16,
    pub cr3: u32,
    pub eip: u32,
    pub eflags: u32,
    pub eax: u32,
    pub ecx: u32,
    pub edx: u32,
    pub ebx: u32,
    pub esp: u32,
    pub ebp: u32,
    pub esi: u32,
    pub edi: u32,
    pub es: u16,
    pub cs: u16,
    pub ss: u16,
    pub ds: u16,
    pub fs: u16,
    pub gs: u16,
    pub ldtr: u16,
    pub iopb: u16,
}

impl Default for TaskStateSegment {
    /// A fresh task-state segment: every field zero.
    fn default() -> (r: TaskStateSegment)
        ensures
            r == (TaskStateSegment {
                link: 0,
                esp0: 0,
                ss0: 0,
                esp1: 0,
                ss1: 0,
                esp2: 0,
                ss2: 0,
                cr3: 0,
                eip: 0,
                eflags: 0,
                eax: 0,
                ecx: 0,
                edx: 0,
                ebx: 0,
                esp: 0,
                ebp: 0,
                esi: 0,
                edi: 0,
                es: 0,
                cs: 0,
                ss: 0,
                ds: 0,
                fs: 0,
                gs: 0,
                ldtr: 0,
                iopb: 0,
            }),
    {
        TaskStateSegment {
            link: 0,
            esp0: 0,
            ss0: 0,
            esp1: 0,
            ss1: 0,
            esp2: 0,
            ss2: 0,
            cr3: 0,
            eip: 0,
            eflags: 0,
            eax: 0,
            ecx: 0,
            edx: 0,
            ebx: 0,
            esp: 0,
            ebp: 0,
            esi: 0,
            edi: 0,
            es: 0,
            cs: 0,
            ss: 0,
            ds: 0,
            fs: 0,
            gs: 0,
            ldtr: 0,
            iopb: 0,
        }
    }
}

/// Command port of the first interrupt controller.
pub const PIC1_CMD: u16 = 0x20;

/// Data port of the first interrupt controller.
pub const PIC1_DATA: u16 = 0x21;

/// Command port of the second interrupt controller.
pub const PIC2_CMD: u16 = 0xA0;

/// Data port of the second interrupt controller.
pub const PIC2_DATA: u16 = 0xA1;

/// End-of-interrupt command byte.
pub const PIC_EOI: u8 = 0x20;

/// The port writes that initialize the two controllers: start words to
/// both, vector bases 0x20 and 0x28, the cascade wiring, and 8086 mode.
pub fn pic_init_writes() -> (r: Vec<(u16, u8)>)
    ensures
        r@ == seq![
            (PIC1_CMD, 0x11u8),
            (PIC2_CMD, 0x11u8),
            (PIC1_DATA, 0x20u8),
            (PIC2_DATA, 0x28u8),
            (PIC1_DATA, 0x04u8),
            (PIC2_DATA, 0x02u8),
            (PIC1_DATA, 0x01u8),
            (PIC2_DATA, 0x01u8),
        ],
{
    let mut r: Vec<(u16, u8)> = Vec::new();
    r.push((PIC1_CMD, 0x11));
    r.push((PIC2_CMD, 0x11));
    r.push((PIC1_DATA, 0x20));
    r.push((PIC2_DATA, 0x28));
    r.push((PIC1_DATA, 0x04));
    r.push((PIC2_DATA, 0x02));
    r.push((PIC1_DATA, 0x01));
    r.push((PIC2_DATA, 0x01));
    proof {
        assert(r@ =~= seq![
            (PIC1_CMD, 0x11u8),
            (PIC2_CMD, 0x11u8),
            (PIC1_DATA, 0x20u8),
            (PIC2_DATA, 0x28u8),
            (PIC1_DATA, 0x04u8),
            (PIC2_DATA, 0x02u8),
            (PIC1_DATA, 0x01u8),
            (PIC2_DATA, 0x01u8),
        ]);
    }
    r
}

/// The port writes that acknowledge a request line: the second controller
/// only for its lines, and always the first.
pub fn pic_eoi_writes(irq: u8) -> (r: Vec<(u16, u8)>)
    ensures
        irq >= 8 ==> r@ == seq![(PIC2_CMD, PIC_EOI), (PIC1_CMD, PIC_EOI)],
        irq < 8 ==> r@ == seq![(PIC1_CMD, PIC_EOI)],
{
    let mut r: Vec<(u16, u8)> = Vec::new();
    if irq >= 8 {
        r.push((PIC2_CMD, PIC_EOI));
    }
    r.push((PIC1_CMD, PIC_EOI));
    proof {
        if irq >= 8 {
            assert(r@ =~= seq![(PIC2_CMD, PIC_EOI), (PIC1_CMD, PIC_EOI)]);
        } else {
            assert(r@ =~= seq![(PIC1_CMD, PIC_EOI)]);
        }
    }
    r
}

} // verus!
