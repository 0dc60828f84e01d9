use kernel_vm::bootabi::{
    Arch, BootInfo, ByteSpan, FbFormat, MemMapEntry, MemMapView, MemType, PhysAddr, BOOTABI_MAGIC,
    BOOTABI_VERSION, MEMMAP_ENTRY_SIZE,
};
use kernel_vm::bootinfo::{mem_flags_suffix, mem_type_name};
use kernel_vm::bootloader::{
    assemble_bootinfo, convert_memmap_entries, cstr_len, cstr_window, default_addr_bits,
    empty_memmap_view, map_memtype, minimal_bootinfo, phys_available, resolve_limine_ptr, RawRegion,
    StrBuf, BOOTINFO_SIZE, MAX_MEMMAP, STRBUF_SIZE,
};

fn region(base: u64, len: u64) -> MemMapEntry {
    MemMapEntry { base: PhysAddr(base), len, mem_type: MemType::Usable, _pad: 0, flags: 0 }
}

fn fields(b: &BootInfo) -> (u32, u16, u16, Arch, u32, u8, u8, u64, MemMapView, u64, u32) {
    (
        b.hdr.magic,
        b.hdr.version,
        b.hdr.header_size,
        b.arch,
        b.cpu_count,
        b.phys_addr_bits,
        b.virt_addr_bits,
        b.hhdm_offset,
        b.mem,
        b.acpi_rsdp.0,
        b.boot_flags,
    )
}

#[test]
fn memory_types_have_names() {
    assert_eq!(mem_type_name(MemType::Reserved), "reserved");
    assert_eq!(mem_type_name(MemType::Usable), "usable");
    assert_eq!(mem_type_name(MemType::AcpiReclaimable), "acpi_reclaimable");
    assert_eq!(mem_type_name(MemType::AcpiNvs), "acpi_nvs");
    assert_eq!(mem_type_name(MemType::Mmio), "mmio");
    assert_eq!(mem_type_name(MemType::BadMemory), "bad_memory");
    assert_eq!(mem_type_name(MemType::BootloaderReclaimable), "bootloader_reclaimable");
    assert_eq!(mem_type_name(MemType::KernelAndModules), "kernel_and_modules");
    assert_eq!(mem_flags_suffix(0), "");
    assert_eq!(mem_flags_suffix(1), " (TRUNCATED)");
    assert_eq!(mem_flags_suffix(2), "");
    assert_eq!(mem_flags_suffix(0xffff), " (TRUNCATED)");
}

#[test]
fn region_kinds_map_to_memory_types() {
    assert_eq!(map_memtype(0), MemType::Usable);
    assert_eq!(map_memtype(1), MemType::Reserved);
    assert_eq!(map_memtype(2), MemType::AcpiReclaimable);
    assert_eq!(map_memtype(3), MemType::AcpiNvs);
    assert_eq!(map_memtype(4), MemType::BadMemory);
    assert_eq!(map_memtype(5), MemType::BootloaderReclaimable);
    assert_eq!(map_memtype(6), MemType::KernelAndModules);
    assert_eq!(map_memtype(7), MemType::Reserved);
    assert_eq!(map_memtype(u64::MAX), MemType::Reserved);
    assert_eq!(default_addr_bits(Arch::X86_64), (52, 48));
    assert_eq!(default_addr_bits(Arch::Aarch64), (48, 48));
}

#[test]
fn the_memory_map_is_converted_in_order() {
    let raw = vec![
        RawRegion { base: 0, length: 0x1000, kind: 1 },
        RawRegion { base: 0x1000, length: 0x9000, kind: 0 },
        RawRegion { base: 0xa000, length: 0x1000, kind: 6 },
    ];
    let (entries, view, flags) = convert_memmap_entries(&raw, 0xffff_8000_0010_0000);
    assert_eq!(
        entries,
        vec![
            MemMapEntry { base: PhysAddr(0), len: 0x1000, mem_type: MemType::Reserved, _pad: 0,
                flags: 0 },
            MemMapEntry { base: PhysAddr(0x1000), len: 0x9000, mem_type: MemType::Usable, _pad: 0,
                flags: 0 },
            MemMapEntry {
                base: PhysAddr(0xa000),
                len: 0x1000,
                mem_type: MemType::KernelAndModules,
                _pad: 0,
                flags: 0
            },
        ]
    );
    assert_eq!(
        view,
        MemMapView { entries_ptr: 0xffff_8000_0010_0000, entry_count: 3, entry_size: 24, flags: 0 }
    );
    assert_eq!(flags, 0);
}

#[test]
fn a_long_memory_map_is_cut_and_flagged() {
    let mut raw = Vec::new();
    let mut i = 0u64;
    while i < (MAX_MEMMAP as u64) + 1 {
        raw.push(RawRegion { base: i * 0x1000, length: 0x1000, kind: 0 });
        i += 1;
    }
    let (entries, view, flags) = convert_memmap_entries(&raw, 0x5000);
    assert_eq!(entries.len(), 1024);
    assert_eq!(entries[1023].base, PhysAddr(1023 * 0x1000));
    assert_eq!(view.entry_count, 1024);
    assert_eq!(view.flags, 1);
    assert_eq!(flags, 1);
    raw.pop();
    let (entries, view, flags) = convert_memmap_entries(&raw, 0x5000);
    assert_eq!(entries.len(), 1024);
    assert_eq!((view.flags, flags), (0, 0));
}

#[test]
fn an_empty_memory_map_has_the_empty_view() {
    let (entries, view, flags) = convert_memmap_entries(&Vec::new(), 0x5000);
    assert!(entries.is_empty());
    assert_eq!(view, MemMapView { entries_ptr: 0, entry_count: 0, entry_size: 24, flags: 0 });
    assert_eq!(flags, 0);
    assert_eq!(empty_memmap_view(), (view, 0));
    assert_eq!(MEMMAP_ENTRY_SIZE, 24);
}

#[test]
fn available_bytes_run_to_the_end_of_the_region() {
    let entries = vec![region(0x1000, 0x1000), region(0x4000, 0x2000)];
    assert_eq!(phys_available(0x1000, &entries), Some(0x1000));
    assert_eq!(phys_available(0x1fff, &entries), Some(1));
    assert_eq!(phys_available(0x2000, &entries), None);
    assert_eq!(phys_available(0x4800, &entries), Some(0x1800));
    assert_eq!(phys_available(0xfff, &entries), None);
    assert_eq!(phys_available(0x1000, &Vec::new()), None);
    // a region that ends beyond 64 bits ends the search
    let broken = vec![region(0xffff_ffff_ffff_0000, 0x2_0000), region(0x1000, 0x1000)];
    assert_eq!(phys_available(0x1000, &broken), None);
}

#[test]
fn pointers_resolve_through_the_direct_map() {
    let entries = vec![region(0x1000, 0x1000)];
    let hhdm = 0xffff_8000_0000_0000;
    // a physical pointer
    assert_eq!(resolve_limine_ptr(0x1800, hhdm, &entries), Some((hhdm + 0x1800, 0x800)));
    // a virtual pointer into the direct map
    assert_eq!(resolve_limine_ptr(hhdm + 0x1800, hhdm, &entries), Some((hhdm + 0x1800, 0x800)));
    assert_eq!(resolve_limine_ptr(hhdm + 0x2000, hhdm, &entries), None);
    assert_eq!(resolve_limine_ptr(0x3000, hhdm, &entries), None);
    // without a direct map the pointer is its own address
    assert_eq!(resolve_limine_ptr(0x1800, 0, &entries), Some((0x1800, 0x800)));
}

#[test]
fn strings_are_looked_for_in_a_bounded_window() {
    let entries = vec![region(0x1000, 0x1000), region(0x4000, 0x10)];
    let mem = MemMapView { entries_ptr: 0x9000, entry_count: 2, entry_size: 24, flags: 0 };
    let hhdm = 0xffff_8000_0000_0000;
    assert_eq!(cstr_window(0x1000, hhdm, &mem, &entries), Some((hhdm + 0x1000, 1024)));
    assert_eq!(cstr_window(0x4008, hhdm, &mem, &entries), Some((hhdm + 0x4008, 8)));
    assert_eq!(cstr_window(0, hhdm, &mem, &entries), None);
    assert_eq!(cstr_window(0x8000, hhdm, &mem, &entries), None);
    let none = MemMapView { entries_ptr: 0, ..mem };
    assert_eq!(cstr_window(0x1000, hhdm, &none, &entries), None);
    let empty = MemMapView { entry_count: 0, ..mem };
    assert_eq!(cstr_window(0x1000, hhdm, &empty, &entries), None);
    let odd = MemMapView { entry_size: 32, ..mem };
    assert_eq!(cstr_window(0x1000, hhdm, &odd, &entries), None);
}

#[test]
fn strings_end_at_the_first_zero() {
    assert_eq!(cstr_len(&b"limine\0rest\0".to_vec()), Some(6));
    assert_eq!(cstr_len(&b"x\0".to_vec()), Some(1));
    assert_eq!(cstr_len(&b"\0abc".to_vec()), None);
    assert_eq!(cstr_len(&b"no end".to_vec()), None);
    assert_eq!(cstr_len(&Vec::new()), None);
}

#[test]
fn the_string_buffer_packs_at_multiples_of_eight() {
    let mut buf = StrBuf::new(0x10_0000);
    assert_eq!(
        buf.strbuf_alloc_copy(&b"quiet".to_vec()),
        ByteSpan { ptr: 0x10_0000, len: 5, _pad: 0 }
    );
    assert_eq!(
        buf.strbuf_alloc_join(&b"Limine".to_vec(), &b"9.2".to_vec()),
        ByteSpan { ptr: 0x10_0008, len: 10, _pad: 0 }
    );
    let mut got = Vec::new();
    let mut i = 0;
    while i < 18 {
        got.push(buf.byte_at(i));
        i += 1;
    }
    assert_eq!(got, b"quiet\0\0\0Limine 9.2".to_vec());
    assert_eq!(
        buf.strbuf_alloc_join(&Vec::new(), &b"b".to_vec()),
        ByteSpan { ptr: 0x10_0018, len: 1, _pad: 0 }
    );
    assert_eq!(
        buf.strbuf_alloc_join(&b"a".to_vec(), &Vec::new()),
        ByteSpan { ptr: 0x10_0020, len: 1, _pad: 0 }
    );
    assert_eq!(buf.strbuf_alloc_copy(&Vec::new()), ByteSpan::empty());
    assert_eq!(buf.strbuf_alloc_join(&Vec::new(), &Vec::new()), ByteSpan::empty());
    // what does not fit is not kept, and the buffer stays usable
    assert_eq!(buf.strbuf_alloc_copy(&vec![b'x'; STRBUF_SIZE]), ByteSpan::empty());
    assert_eq!(
        buf.strbuf_alloc_copy(&vec![b'y'; STRBUF_SIZE - 0x28]),
        ByteSpan { ptr: 0x10_0028, len: (STRBUF_SIZE - 0x28) as u32, _pad: 0 }
    );
    assert_eq!(buf.strbuf_alloc_copy(&b"z".to_vec()), ByteSpan::empty());
    buf.reset();
    assert_eq!(
        buf.strbuf_alloc_copy(&vec![b'x'; STRBUF_SIZE]),
        ByteSpan { ptr: 0x10_0000, len: 4096, _pad: 0 }
    );
    assert_eq!(buf.byte_at(4095), b'x');
}

#[test]
fn the_boot_information_is_assembled() {
    let mem = MemMapView { entries_ptr: 0x9000, entry_count: 3, entry_size: 24, flags: 1 };
    let cmdline = ByteSpan { ptr: 0x10_0000, len: 5, _pad: 0 };
    let name = ByteSpan { ptr: 0x10_0008, len: 10, _pad: 0 };
    let b = assemble_bootinfo(Arch::X86_64, 4, 0xffff_8000_0000_0000, mem, 1, 0xe_0000, cmdline,
        name);
    assert_eq!(
        fields(&b),
        (
            BOOTABI_MAGIC,
            BOOTABI_VERSION,
            BOOTINFO_SIZE,
            Arch::X86_64,
            4,
            52,
            48,
            0xffff_8000_0000_0000,
            mem,
            0xe_0000,
            1
        )
    );
    assert_eq!((b.cmdline, b.bootloader), (cmdline, name));
    assert_eq!(b.fb.addr.0, 0);
    assert_eq!(b.fb.format, FbFormat::Unknown);
    assert_eq!((b._pad0, b._pad1, b._pad2), ([0; 3], [0; 2], 0));
    assert_eq!(BOOTABI_MAGIC, 0x424f_4f54);
    assert_eq!(BOOTINFO_SIZE, 120);
}

#[test]
fn the_minimal_boot_information_has_nothing() {
    let b = minimal_bootinfo(Arch::Aarch64, 2);
    let view = MemMapView { entries_ptr: 0, entry_count: 0, entry_size: 24, flags: 0 };
    assert_eq!(fields(&b), (BOOTABI_MAGIC, 1, 120, Arch::Aarch64, 2, 48, 48, 0, view, 0, 0));
    assert!(b.cmdline.is_empty());
    assert!(b.bootloader.is_empty());
}
