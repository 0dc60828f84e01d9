//! Words for the boot information when it is shown to a reader.

use vstd::prelude::*;

use crate::bootabi::{MemMapFlags, MemType};

verus! {

/// The word for the memory type `t`.
pub open spec fn spec_mem_type_name(t: MemType) -> &'static str {
    match t {
        MemType::Reserved => "reserved",
        MemType::Usable => "usable",
        MemType::AcpiReclaimable => "acpi_reclaimable",
        MemType::AcpiNvs => "acpi_nvs",
        MemType::Mmio => "mmio",
        MemType::BadMemory => "bad_memory",
        MemType::BootloaderReclaimable => "bootloader_reclaimable",
        MemType::KernelAndModules => "kernel_and_modules",
    }
}

/// The word for the memory type `t`.
#[verifier::when_used_as_spec(spec_mem_type_name)]
pub fn mem_type_name(t: MemType) -> (r: &'static str)
    ensures
        r == spec_mem_type_name(t),
{
    match t {
        MemType::Reserved => "reserved",
        MemType::Usable => "usable",
        MemType::AcpiReclaimable => "acpi_reclaimable",
        MemType::AcpiNvs => "acpi_nvs",
        MemType::Mmio => "mmio",
        MemType::BadMemory => "bad_memory",
        MemType::BootloaderReclaimable => "bootloader_reclaimable",
        MemType::KernelAndModules => "kernel_and_modules",
    }
}

/// Whether the flags of a memory map say that the map was cut short: bit 0.
pub open spec fn is_truncated(flags: u16) -> bool {
    flags % 2 == 1
}

/// What follows the flags of a memory map when they are shown: a remark if
/// the map was cut short, nothing otherwise.
pub fn mem_flags_suffix(flags: u16) -> (r: &'static str)
    ensures
        r == if is_truncated(flags) {
            " (TRUNCATED)"
        } else {
            ""
        },
{
    assert((flags & 1 != 0) == (flags % 2 == 1)) by (bit_vector);
    if flags & MemMapFlags::TRUNCATED.bits() != 0 {
        " (TRUNCATED)"
    } else {
        ""
    }
}

} // verus!
