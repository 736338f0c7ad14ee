//! Boot handoff checks: what the entry point decides from the loader's
//! magic number and information flags before any subsystem is touched.

use vstd::prelude::*;

verus! {

/// Magic number a compliant loader passes to the kernel.
pub const MULTIBOOT_BOOTLOADER_MAGIC: u32 = 0x2BADB002;

/// Information flag that says the memory map fields are valid.
pub const MULTIBOOT_INFO_MEM_MAP: u32 = 0x40;

/// Whether the handoff may proceed: the magic number must match and the
/// memory-map flag must be set; on anything else the kernel halts.
pub fn handoff_valid(magic: u32, flags: u32) -> (r: bool)
    ensures
        r == (magic == MULTIBOOT_BOOTLOADER_MAGIC && flags & MULTIBOOT_INFO_MEM_MAP != 0),
{
    magic == MULTIBOOT_BOOTLOADER_MAGIC && flags & MULTIBOOT_INFO_MEM_MAP != 0
}

} // verus!
