//! The boot information that firmware-facing code hands to the kernel:
//! identity of the machine, the direct-map offset, the physical memory map
//! and a few optional descriptions.

use vstd::prelude::*;

verus! {

/// Magic number of a boot-information header: the bytes of "BOOT".
pub const BOOTABI_MAGIC: u32 = 0x424f4f54;

/// Version of the boot-information layout.
pub const BOOTABI_VERSION: u16 = 1;

/// Size in bytes of one record of the memory map as it lies in memory.
pub const MEMMAP_ENTRY_SIZE: u16 = 24;

/// Header of the boot information.
#[derive(Clone, Copy, Debug, PartialEq, Eq, Structural)]
pub struct BootHeader {
    pub magic: u32,
    pub version: u16,
    /// Size of the fixed part of the boot information, in bytes.
    pub header_size: u16,
}

/// The processor architecture.
#[derive(Clone, Copy, Debug, PartialEq, Eq, Structural)]
pub enum Arch {
    X86_64,
    Aarch64,
}

/// A run of bytes in physical memory: address and length.
#[derive(Clone, Copy, Debug, PartialEq, Eq, Structural)]
pub struct ByteSpan {
    pub ptr: u64,
    pub len: u32,
    pub _pad: u32,
}

impl ByteSpan {
    /// Whether the span names no bytes: its address or its length is zero.
    pub open spec fn spec_is_empty(&self) -> bool {
        self.ptr == 0 || self.len == 0
    }

    /// The span with address and length zero.
    pub fn empty() -> (r: ByteSpan)
        ensures
            r == (ByteSpan { ptr: 0, len: 0, _pad: 0 }),
            r.spec_is_empty(),
    {
        ByteSpan { ptr: 0, len: 0, _pad: 0 }
    }

    /// Whether the span names no bytes.
    #[verifier::when_used_as_spec(spec_is_empty)]
    pub fn is_empty(&self) -> (r: bool)
        ensures
            r == self.spec_is_empty(),
    {
        self.ptr == 0 || self.len == 0
    }
}

/// A virtual address as the boot information carries it.
#[derive(Clone, Copy, Debug, PartialEq, Eq, Structural)]
pub struct VirtAddr(pub u64);

/// A physical address as the boot information carries it.
#[derive(Clone, Copy, Debug, PartialEq, Eq, Structural)]
pub struct PhysAddr(pub u64);

/// Flags of the boot information as a whole.
#[derive(Clone, Copy, Debug, PartialEq, Eq, Structural)]
pub enum BootFlags {
    NONE,
}

/// Flags of the memory map.
#[derive(Clone, Copy, Debug, PartialEq, Eq, Structural)]
pub enum MemMapFlags {
    NONE,
    /// The map was cut short because it did not fit its buffer.
    TRUNCATED,
}

impl MemMapFlags {
    /// The bit pattern of the flag.
    pub open spec fn spec_bits(&self) -> u16 {
        match self {
            MemMapFlags::NONE => 0,
            MemMapFlags::TRUNCATED => 1,
        }
    }

    /// The bit pattern of the flag: 0 for `NONE`, bit 0 for `TRUNCATED`.
    #[verifier::when_used_as_spec(spec_bits)]
    pub fn bits(&self) -> (r: u16)
        ensures
            r == self.spec_bits(),
    {
        match self {
            MemMapFlags::NONE => 0,
            MemMapFlags::TRUNCATED => 1,
        }
    }
}

/// What a region of physical memory holds.
#[derive(Clone, Copy, Debug, PartialEq, Eq, Structural)]
pub enum MemType {
    Reserved,
    Usable,
    AcpiReclaimable,
    AcpiNvs,
    Mmio,
    BadMemory,
    BootloaderReclaimable,
    KernelAndModules,
}

/// One region of the physical memory map.
#[derive(Clone, Copy, Debug, PartialEq, Eq, Structural)]
pub struct MemMapEntry {
    pub base: PhysAddr,
    pub len: u64,
    pub mem_type: MemType,
    pub _pad: u8,
    pub flags: u16,
}

/// Where the memory map lies and how many records it has.
#[derive(Clone, Copy, Debug, PartialEq, Eq, Structural)]
pub struct MemMapView {
    pub entries_ptr: u64,
    pub entry_count: u32,
    pub entry_size: u16,
    pub flags: u16,
}

/// Pixel layout of a framebuffer.
#[derive(Clone, Copy, Debug, PartialEq, Eq, Structural)]
pub enum FbFormat {
    Rgb,
    Bgr,
    Unknown,
}

/// A framebuffer; an address of zero means there is none.
#[derive(Clone, Copy, Debug, PartialEq, Eq, Structural)]
pub struct Framebuffer {
    pub addr: PhysAddr,
    pub width: u32,
    pub height: u32,
    pub pitch: u32,
    pub bpp: u16,
    pub format: FbFormat,
    pub _pad: u8,
}

/// Everything the kernel learns from the boot stage.
#[derive(Clone, Copy, Debug)]
pub struct BootInfo {
    pub hdr: BootHeader,
    pub arch: Arch,
    pub _pad0: [u8; 3],
    pub cpu_count: u32,
    /// Width of physical addresses in bits, 0 if unknown.
    pub phys_addr_bits: u8,
    /// Width of virtual addresses in bits, 0 if unknown.
    pub virt_addr_bits: u8,
    pub _pad1: [u8; 2],
    /// Offset of the higher-half direct map: virtual = physical + offset.
    pub hhdm_offset: u64,
    pub mem: MemMapView,
    /// Physical address of the ACPI root pointer, 0 if none.
    pub acpi_rsdp: PhysAddr,
    pub fb: Framebuffer,
    pub cmdline: ByteSpan,
    pub bootloader: ByteSpan,
    pub boot_flags: u32,
    pub _pad2: u32,
}

} // verus!
