//! Turning what the boot loader reports into the kernel's boot information:
//! the conversion of the memory map, the resolution of the boot loader's
//! pointers, the buffer that keeps its strings, and the assembly of the
//! result. Reading the boot loader's answers and its memory is left to
//! whoever faces the boot loader.

use vstd::prelude::*;

use crate::bootabi::{
    Arch, BootHeader, BootInfo, ByteSpan, FbFormat, Framebuffer, MemMapEntry, MemMapView, MemType,
    PhysAddr, BOOTABI_MAGIC, BOOTABI_VERSION, MEMMAP_ENTRY_SIZE,
};

verus! {

/// Size of the boot information in bytes, as it lies in memory.
pub const BOOTINFO_SIZE: u16 = 120;

/// Capacity of the converted memory map in regions.
pub const MAX_MEMMAP: usize = 1024;

/// Size of the buffer that keeps the boot loader's strings, in bytes.
pub const STRBUF_SIZE: usize = 4096;

/// The longest string that is read from the boot loader, in bytes.
pub const MAX_STR_BYTES: u64 = 1024;

/// Region kinds of the boot protocol.
pub const KIND_USABLE: u64 = 0;

pub const KIND_RESERVED: u64 = 1;

pub const KIND_ACPI_RECLAIMABLE: u64 = 2;

pub const KIND_ACPI_NVS: u64 = 3;

pub const KIND_BAD_MEMORY: u64 = 4;

pub const KIND_BOOTLOADER_RECLAIMABLE: u64 = 5;

pub const KIND_EXECUTABLE_AND_MODULES: u64 = 6;

/// One region of memory as the boot loader reports it.
#[derive(Clone, Copy, Debug)]
pub struct RawRegion {
    pub base: u64,
    pub length: u64,
    pub kind: u64,
}

/// The address widths that are assumed for `arch`: physical, then virtual.
pub fn default_addr_bits(arch: Arch) -> (r: (u8, u8))
    ensures
        r == match arch {
            Arch::X86_64 => (52u8, 48u8),
            Arch::Aarch64 => (48u8, 48u8),
        },
{
    match arch {
        Arch::X86_64 => (52, 48),
        Arch::Aarch64 => (48, 48),
    }
}

/// The view of a memory map without regions.
pub open spec fn spec_empty_view() -> MemMapView {
    MemMapView { entries_ptr: 0, entry_count: 0, entry_size: MEMMAP_ENTRY_SIZE, flags: 0 }
}

/// The view of a memory map without regions, and no flag for the boot
/// information.
pub fn empty_memmap_view() -> (r: (MemMapView, u32))
    ensures
        r.0 == spec_empty_view(),
        r.1 == 0,
{
    (MemMapView { entries_ptr: 0, entry_count: 0, entry_size: MEMMAP_ENTRY_SIZE, flags: 0 }, 0u32)
}

/// The kernel's type for a region kind of the boot protocol. Kinds that the
/// kernel has no type for count as reserved.
pub open spec fn spec_map_memtype(kind: u64) -> MemType {
    if kind == KIND_USABLE {
        MemType::Usable
    } else if kind == KIND_ACPI_RECLAIMABLE {
        MemType::AcpiReclaimable
    } else if kind == KIND_ACPI_NVS {
        MemType::AcpiNvs
    } else if kind == KIND_BAD_MEMORY {
        MemType::BadMemory
    } else if kind == KIND_BOOTLOADER_RECLAIMABLE {
        MemType::BootloaderReclaimable
    } else if kind == KIND_EXECUTABLE_AND_MODULES {
        MemType::KernelAndModules
    } else {
        MemType::Reserved
    }
}

/// The kernel's type for a region kind of the boot protocol.
#[verifier::when_used_as_spec(spec_map_memtype)]
pub fn map_memtype(kind: u64) -> (r: MemType)
    ensures
        r == spec_map_memtype(kind),
{
    if kind == KIND_USABLE {
        MemType::Usable
    } else if kind == KIND_RESERVED {
        MemType::Reserved
    } else if kind == KIND_ACPI_RECLAIMABLE {
        MemType::AcpiReclaimable
    } else if kind == KIND_ACPI_NVS {
        MemType::AcpiNvs
    } else if kind == KIND_BAD_MEMORY {
        MemType::BadMemory
    } else if kind == KIND_BOOTLOADER_RECLAIMABLE {
        MemType::BootloaderReclaimable
    } else if kind == KIND_EXECUTABLE_AND_MODULES {
        MemType::KernelAndModules
    } else {
        MemType::Reserved
    }
}

/// The kernel's record of the region `r`.
pub open spec fn converted(r: RawRegion) -> MemMapEntry {
    MemMapEntry {
        base: PhysAddr(r.base),
        len: r.length,
        mem_type: spec_map_memtype(r.kind),
        _pad: 0,
        flags: 0,
    }
}

/// The number of regions that the converted map keeps of `n`.
pub open spec fn kept(n: nat) -> nat {
    if n > MAX_MEMMAP {
        MAX_MEMMAP as nat
    } else {
        n
    }
}

/// Converts the boot loader's memory map for a buffer at address
/// `buf_addr`: the first 1024 regions in their order, each with the kernel's
/// type. A longer map is cut and flagged as truncated, in the view and for
/// the boot information. An empty map gives the empty view and no records.
pub fn convert_memmap_entries(entries: &Vec<RawRegion>, buf_addr: u64) -> (r: (
    Vec<MemMapEntry>,
    MemMapView,
    u32,
))
    ensures
        r.0@.len() == kept(entries@.len()),
        forall|i: int| 0 <= i < r.0@.len() ==> #[trigger] r.0@[i] == converted(entries@[i]),
        entries@.len() == 0 ==> r.1 == spec_empty_view() && r.2 == 0,
        entries@.len() > 0 ==> r.1 == (MemMapView {
            entries_ptr: buf_addr,
            entry_count: kept(entries@.len()) as u32,
            entry_size: MEMMAP_ENTRY_SIZE,
            flags: if entries@.len() > MAX_MEMMAP {
                1u16
            } else {
                0u16
            },
        }) && r.2 == if entries@.len() > MAX_MEMMAP {
            1u32
        } else {
            0u32
        },
{
    if entries.len() == 0 {
        let (view, flags) = empty_memmap_view();
        return (Vec::new(), view, flags);
    }
    let n_total = entries.len();
    let n = if n_total < MAX_MEMMAP {
        n_total
    } else {
        MAX_MEMMAP
    };
    let mut out: Vec<MemMapEntry> = Vec::new();
    let mut i: usize = 0;
    while i < n
        invariant
            i <= n,
            n <= entries@.len(),
            out@.len() == i,
            forall|j: int| 0 <= j < i ==> #[trigger] out@[j] == converted(entries@[j]),
        decreases n - i,
    {
        let e = entries[i];
        out.push(
            MemMapEntry {
                base: PhysAddr(e.base),
                len: e.length,
                mem_type: map_memtype(e.kind),
                _pad: 0,
                flags: 0,
            },
        );
        i = i + 1;
    }
    let truncated: u32 = if n_total > n {
        1
    } else {
        0
    };
    let view = MemMapView {
        entries_ptr: buf_addr,
        entry_count: n as u32,
        entry_size: MEMMAP_ENTRY_SIZE,
        flags: if n_total > n {
            1
        } else {
            0
        },
    };
    (out, view, truncated)
}

/// How many bytes of memory follow `phys` in the first region of
/// `entries[from..]` that holds it. The search ends without a result at a
/// region whose end does not fit 64 bits.
pub open spec fn available_from(entries: Seq<MemMapEntry>, from: int, phys: u64) -> Option<u64>
    decreases entries.len() - from,
{
    if from < 0 || from >= entries.len() {
        None
    } else if entries[from].base.0 + entries[from].len > u64::MAX {
        None
    } else if entries[from].base.0 <= phys < entries[from].base.0 + entries[from].len {
        Some((entries[from].base.0 + entries[from].len - phys) as u64)
    } else {
        available_from(entries, from + 1, phys)
    }
}

/// How many bytes of memory follow `phys` in the first region that holds
/// it.
pub fn phys_available(phys: u64, entries: &Vec<MemMapEntry>) -> (r: Option<u64>)
    ensures
        r == available_from(entries@, 0, phys),
{
    let mut i: usize = 0;
    while i < entries.len()
        invariant
            i <= entries@.len(),
            available_from(entries@, 0, phys) == available_from(entries@, i as int, phys),
        decreases entries@.len() - i,
    {
        let entry = entries[i];
        let base = entry.base.0;
        let end = match base.checked_add(entry.len) {
            Some(e) => e,
            None => {
                return None;
            },
        };
        if phys >= base && phys < end {
            return Some(end - phys);
        }
        i = i + 1;
    }
    None
}

/// A pointer of the boot loader, resolved: the virtual address to read from
/// and the number of bytes that follow it in its region.
///
/// A pointer below the offset of the direct map is taken as physical; it is
/// read through the direct map. Any other pointer is taken as virtual and
/// read as it is; its region is that of the physical address behind it.
/// Sums and differences wrap at 64 bits. There is no result for a pointer
/// that lies in no region.
pub open spec fn resolved(ptr: u64, hhdm_offset: u64, entries: Seq<MemMapEntry>) -> Option<
    (u64, u64),
> {
    if hhdm_offset != 0 && ptr < hhdm_offset {
        match available_from(entries, 0, ptr) {
            Some(max) => Some((((ptr + hhdm_offset) % 0x1_0000_0000_0000_0000) as u64, max)),
            None => None,
        }
    } else {
        match available_from(
            entries,
            0,
            if hhdm_offset != 0 {
                (ptr - hhdm_offset) as u64
            } else {
                ptr
            },
        ) {
            Some(max) => Some((ptr, max)),
            None => None,
        }
    }
}

/// Resolves a pointer of the boot loader.
pub fn resolve_limine_ptr(ptr: u64, hhdm_offset: u64, entries: &Vec<MemMapEntry>) -> (r: Option<
    (u64, u64),
>)
    ensures
        r == resolved(ptr, hhdm_offset, entries@),
{
    if hhdm_offset != 0 && ptr < hhdm_offset {
        return match phys_available(ptr, entries) {
            Some(max) => Some((ptr.wrapping_add(hhdm_offset), max)),
            None => None,
        };
    }
    let phys = if hhdm_offset != 0 {
        ptr.wrapping_sub(hhdm_offset)
    } else {
        ptr
    };
    match phys_available(phys, entries) {
        Some(max) => Some((ptr, max)),
        None => None,
    }
}

/// Where to read a string of the boot loader from: the virtual address and
/// the number of bytes to look at, at most 1024. There is no such place for
/// a null pointer, without a memory map, and for a pointer that resolves to
/// nothing or to no byte.
pub fn cstr_window(
    ptr: u64,
    hhdm_offset: u64,
    mem: &MemMapView,
    entries: &Vec<MemMapEntry>,
) -> (r: Option<(u64, usize)>)
    ensures
        r == if ptr == 0 || mem.entries_ptr == 0 || mem.entry_count == 0 || mem.entry_size
            != MEMMAP_ENTRY_SIZE {
            None
        } else {
            match resolved(ptr, hhdm_offset, entries@) {
                Some((virt, max)) => if max == 0 {
                    None
                } else if max < MAX_STR_BYTES {
                    Some((virt, max as usize))
                } else {
                    Some((virt, MAX_STR_BYTES as usize))
                },
                None => None,
            }
        },
{
    if ptr == 0 || mem.entries_ptr == 0 || mem.entry_count == 0 || mem.entry_size
        != MEMMAP_ENTRY_SIZE {
        return None;
    }
    let (virt, max_len) = match resolve_limine_ptr(ptr, hhdm_offset, entries) {
        Some(x) => x,
        None => {
            return None;
        },
    };
    let max_len = if max_len < MAX_STR_BYTES {
        max_len
    } else {
        MAX_STR_BYTES
    };
    if max_len == 0 {
        return None;
    }
    Some((virt, max_len as usize))
}

/// The length of the string that starts `bytes`: the number of bytes before
/// the first zero byte. There is none without a zero byte, and an empty
/// string counts as none.
pub fn cstr_len(bytes: &Vec<u8>) -> (r: Option<usize>)
    ensures
        match r {
            Some(n) => 0 < n < bytes@.len() && bytes@[n as int] == 0 && forall|i: int|
                0 <= i < n ==> bytes@[i] != 0,
            None => bytes@.len() == 0 || bytes@[0] == 0 || forall|i: int|
                0 <= i < bytes@.len() ==> bytes@[i] != 0,
        },
{
    let mut i: usize = 0;
    while i < bytes.len()
        invariant
            i <= bytes@.len(),
            forall|j: int| 0 <= j < i ==> bytes@[j] != 0,
        decreases bytes@.len() - i,
    {
        if bytes[i] == 0 {
            if i == 0 {
                return None;
            }
            return Some(i);
        }
        i = i + 1;
    }
    None
}

/// The buffer that keeps the strings of the boot loader for the kernel.
/// Strings are put one behind the other, each at a multiple of eight bytes.
pub struct StrBuf {
    base: u64,
    bytes: Vec<u8>,
    used: usize,
}

/// The first multiple of eight that is not below `used`.
pub open spec fn next_slot(used: int) -> int {
    ((used + 7) / 8) * 8
}

impl StrBuf {
    /// The address of the buffer.
    pub closed spec fn addr(&self) -> u64 {
        self.base
    }

    /// The contents of the buffer.
    pub closed spec fn contents(&self) -> Seq<u8> {
        self.bytes@
    }

    /// The number of bytes of the buffer that are taken.
    pub closed spec fn taken(&self) -> int {
        self.used as int
    }

    /// The buffer has its size, lies wholly below 2^64 and knows how much of
    /// it is taken.
    pub open spec fn wf(&self) -> bool {
        &&& self.contents().len() == STRBUF_SIZE
        &&& 0 <= self.taken() <= STRBUF_SIZE
        &&& self.addr() + STRBUF_SIZE <= u64::MAX
    }

    /// An empty buffer at address `base`.
    pub fn new(base: u64) -> (r: StrBuf)
        requires
            base + STRBUF_SIZE <= u64::MAX,
        ensures
            r.wf(),
            r.addr() == base,
            r.taken() == 0,
    {
        let mut bytes: Vec<u8> = Vec::new();
        let mut i: usize = 0;
        while i < STRBUF_SIZE
            invariant
                i <= STRBUF_SIZE,
                bytes@.len() == i,
            decreases STRBUF_SIZE - i,
        {
            bytes.push(0);
            i = i + 1;
        }
        StrBuf { base, bytes, used: 0 }
    }

    /// Forgets every string: nothing is taken any more.
    pub fn reset(&mut self)
        requires
            old(self).wf(),
        ensures
            final(self).wf(),
            final(self).taken() == 0,
            final(self).addr() == old(self).addr(),
            final(self).contents() == old(self).contents(),
    {
        self.used = 0;
    }

    /// The byte at offset `i`.
    pub fn byte_at(&self, i: usize) -> (r: u8)
        requires
            self.wf(),
            i < STRBUF_SIZE,
        ensures
            r == self.contents()[i as int],
    {
        self.bytes[i]
    }

    /// Writes `src` into the buffer from offset `at` on.
    fn put(&mut self, at: usize, src: &Vec<u8>)
        requires
            old(self).wf(),
            at + src@.len() <= STRBUF_SIZE,
        ensures
            final(self).wf(),
            final(self).addr() == old(self).addr(),
            final(self).taken() == old(self).taken(),
            final(self).contents() == old(self).contents().take(at as int) + src@ + old(
                self,
            ).contents().skip(at + src@.len()),
    {
        let mut i: usize = 0;
        while i < src.len()
            invariant
                i <= src@.len(),
                at + src@.len() <= STRBUF_SIZE,
                self.bytes@.len() == STRBUF_SIZE,
                self.base == old(self).base,
                self.used == old(self).used,
                forall|j: int|
                    0 <= j < STRBUF_SIZE ==> #[trigger] self.bytes@[j] == if at <= j < at + i {
                        src@[j - at]
                    } else {
                        old(self).bytes@[j]
                    },
            decreases src@.len() - i,
        {
            self.bytes[at + i] = src[i];
            i = i + 1;
        }
        assert(self.bytes@ =~= old(self).bytes@.take(at as int) + src@ + old(self).bytes@.skip(
            at + src@.len(),
        ));
    }

    /// Keeps a copy of `bytes` and returns where it lies.
    ///
    /// The copy starts at the first multiple of eight that is free. Nothing
    /// is kept of an empty string, nor of one that does not fit the rest of
    /// the buffer: the result is then the empty span and the buffer stays as
    /// it is.
    pub fn strbuf_alloc_copy(&mut self, bytes: &Vec<u8>) -> (r: ByteSpan)
        requires
            old(self).wf(),
        ensures
            final(self).wf(),
            final(self).addr() == old(self).addr(),
            ({
                let off = next_slot(old(self).taken());
                let need = bytes@.len();
                if need > 0 && off + need <= STRBUF_SIZE {
                    &&& r == (ByteSpan {
                        ptr: (old(self).addr() + off) as u64,
                        len: need as u32,
                        _pad: 0,
                    })
                    &&& final(self).taken() == off + need
                    &&& final(self).contents() == old(self).contents().take(off) + bytes@ + old(
                        self,
                    ).contents().skip(off + need)
                } else {
                    &&& r == (ByteSpan { ptr: 0, len: 0, _pad: 0 })
                    &&& final(self).taken() == old(self).taken()
                    &&& final(self).contents() == old(self).contents()
                }
            }),
    {
        if bytes.len() == 0 {
            return ByteSpan::empty();
        }
        let sum = self.used + 7;
        let off = sum & !7;
        assert(sum & !7usize == (sum / 8) * 8) by (bit_vector)
            requires
                sum <= 4103,
        ;
        let need = bytes.len();
        if need > STRBUF_SIZE || off > STRBUF_SIZE - need {
            return ByteSpan::empty();
        }
        self.put(off, bytes);
        self.used = off + need;
        ByteSpan { ptr: self.base + off as u64, len: need as u32, _pad: 0 }
    }

    /// Keeps `a` and `b` as one string with a space between them and returns
    /// where it lies. If one of the two is empty, only the other is kept.
    /// Nothing is kept of what does not fit: the result is then the empty
    /// span and the buffer stays as it is.
    pub fn strbuf_alloc_join(&mut self, a: &Vec<u8>, b: &Vec<u8>) -> (r: ByteSpan)
        requires
            old(self).wf(),
            a@.len() + b@.len() + 1 <= usize::MAX,
        ensures
            final(self).wf(),
            final(self).addr() == old(self).addr(),
            ({
                let off = next_slot(old(self).taken());
                let joined = if a@.len() == 0 {
                    b@
                } else if b@.len() == 0 {
                    a@
                } else {
                    a@.push(0x20u8) + b@
                };
                let need = joined.len();
                if need > 0 && off + need <= STRBUF_SIZE {
                    &&& r == (ByteSpan {
                        ptr: (old(self).addr() + off) as u64,
                        len: need as u32,
                        _pad: 0,
                    })
                    &&& final(self).taken() == off + need
                    &&& final(self).contents() == old(self).contents().take(off) + joined + old(
                        self,
                    ).contents().skip(off + need)
                } else {
                    &&& r == (ByteSpan { ptr: 0, len: 0, _pad: 0 })
                    &&& final(self).taken() == old(self).taken()
                    &&& final(self).contents() == old(self).contents()
                }
            }),
    {
        if a.len() == 0 {
            return self.strbuf_alloc_copy(b);
        }
        if b.len() == 0 {
            return self.strbuf_alloc_copy(a);
        }
        let mut joined: Vec<u8> = Vec::new();
        let mut i: usize = 0;
        while i < a.len()
            invariant
                i <= a@.len(),
                joined@ == a@.take(i as int),
            decreases a@.len() - i,
        {
            joined.push(a[i]);
            assert(a@.take(i + 1) =~= a@.take(i as int).push(a@[i as int]));
            i = i + 1;
        }
        assert(a@.take(a@.len() as int) =~= a@);
        joined.push(0x20);
        let ghost head = joined@;
        let mut j: usize = 0;
        while j < b.len()
            invariant
                j <= b@.len(),
                joined@ == head + b@.take(j as int),
            decreases b@.len() - j,
        {
            joined.push(b[j]);
            assert(head + b@.take(j + 1) =~= (head + b@.take(j as int)).push(b@[j as int]));
            j = j + 1;
        }
        assert(b@.take(b@.len() as int) =~= b@);
        self.strbuf_alloc_copy(&joined)
    }
}

/// Whether `info` is the boot information of this layout for the given
/// parts: the header names the layout and its size, the address widths are
/// those assumed for the architecture, there is no framebuffer, and all
/// padding is zero.
pub open spec fn is_bootinfo(
    info: BootInfo,
    arch: Arch,
    cpu_count: u32,
    hhdm_offset: u64,
    mem: MemMapView,
    acpi_rsdp: u64,
    cmdline: ByteSpan,
    bootloader: ByteSpan,
    boot_flags: u32,
) -> bool {
    &&& info.hdr == (BootHeader {
        magic: BOOTABI_MAGIC,
        version: BOOTABI_VERSION,
        header_size: BOOTINFO_SIZE,
    })
    &&& info.arch == arch
    &&& info._pad0@ == seq![0u8, 0u8, 0u8]
    &&& info.cpu_count == cpu_count
    &&& info.phys_addr_bits == if arch == Arch::X86_64 {
        52u8
    } else {
        48u8
    }
    &&& info.virt_addr_bits == 48
    &&& info._pad1@ == seq![0u8, 0u8]
    &&& info.hhdm_offset == hhdm_offset
    &&& info.mem == mem
    &&& info.acpi_rsdp == PhysAddr(acpi_rsdp)
    &&& info.fb == (Framebuffer {
        addr: PhysAddr(0),
        width: 0,
        height: 0,
        pitch: 0,
        bpp: 0,
        format: FbFormat::Unknown,
        _pad: 0,
    })
    &&& info.cmdline == cmdline
    &&& info.bootloader == bootloader
    &&& info.boot_flags == boot_flags
    &&& info._pad2 == 0
}

/// Assembles the boot information from what was gathered: the memory map
/// view with its flag for the boot information, and the spans of the command
/// line and of the boot loader's name. There is no framebuffer.
pub fn assemble_bootinfo(
    arch: Arch,
    cpu_count: u32,
    hhdm_offset: u64,
    mem: MemMapView,
    memmap_flags: u32,
    acpi_rsdp: u64,
    cmdline: ByteSpan,
    bootloader: ByteSpan,
) -> (r: BootInfo)
    ensures
        is_bootinfo(
            r,
            arch,
            cpu_count,
            hhdm_offset,
            mem,
            acpi_rsdp,
            cmdline,
            bootloader,
            memmap_flags,
        ),
{
    let (phys_bits, virt_bits) = default_addr_bits(arch);
    let r = BootInfo {
        hdr: BootHeader {
            magic: BOOTABI_MAGIC,
            version: BOOTABI_VERSION,
            header_size: BOOTINFO_SIZE,
        },
        arch,
        _pad0: [0;3],
        cpu_count,
        phys_addr_bits: phys_bits,
        virt_addr_bits: virt_bits,
        _pad1: [0;2],
        hhdm_offset,
        mem,
        acpi_rsdp: PhysAddr(acpi_rsdp),
        fb: Framebuffer {
            addr: PhysAddr(0),
            width: 0,
            height: 0,
            pitch: 0,
            bpp: 0,
            format: FbFormat::Unknown,
            _pad: 0,
        },
        cmdline,
        bootloader,
        boot_flags: memmap_flags,
        _pad2: 0,
    };
    assert(r._pad0@ =~= seq![0u8, 0u8, 0u8]);
    assert(r._pad1@ =~= seq![0u8, 0u8]);
    r
}

/// The boot information for a boot loader that cannot be asked: no direct
/// map, no memory map, no strings.
pub fn minimal_bootinfo(arch: Arch, cpu_count: u32) -> (r: BootInfo)
    ensures
        is_bootinfo(
            r,
            arch,
            cpu_count,
            0,
            spec_empty_view(),
            0,
            ByteSpan { ptr: 0, len: 0, _pad: 0 },
            ByteSpan { ptr: 0, len: 0, _pad: 0 },
            0,
        ),
{
    let (view, flags) = empty_memmap_view();
    assemble_bootinfo(arch, cpu_count, 0, view, flags, 0, ByteSpan::empty(), ByteSpan::empty())
}

} // verus!
