use kernel_vm::boot_alloc::{align_up, is_usable, BootPtAlloc, MAX_FREE_FRAMES};
use kernel_vm::bootabi::{
    Arch, BootHeader, BootInfo, ByteSpan, FbFormat, Framebuffer, MemMapEntry, MemMapView, MemType,
    BOOTABI_MAGIC, BOOTABI_VERSION, MEMMAP_ENTRY_SIZE,
};
use kernel_vm::mmu::{PageTableFrameAlloc, PhysAddr};
use kernel_vm::phys_mem::PhysMemory;

fn region(base: u64, len: u64, mem_type: MemType) -> MemMapEntry {
    MemMapEntry { base: kernel_vm::bootabi::PhysAddr(base), len, mem_type, _pad: 0, flags: 0 }
}

fn boot(hhdm_offset: u64, entries_ptr: u64, entry_count: u32, entry_size: u16) -> BootInfo {
    BootInfo {
        hdr: BootHeader { magic: BOOTABI_MAGIC, version: BOOTABI_VERSION, header_size: 0 },
        arch: Arch::X86_64,
        _pad0: [0; 3],
        cpu_count: 1,
        phys_addr_bits: 52,
        virt_addr_bits: 48,
        _pad1: [0; 2],
        hhdm_offset,
        mem: MemMapView { entries_ptr, entry_count, entry_size, flags: 0 },
        acpi_rsdp: kernel_vm::bootabi::PhysAddr(0),
        fb: Framebuffer {
            addr: kernel_vm::bootabi::PhysAddr(0),
            width: 0,
            height: 0,
            pitch: 0,
            bpp: 0,
            format: FbFormat::Unknown,
            _pad: 0,
        },
        cmdline: ByteSpan::empty(),
        bootloader: ByteSpan::empty(),
        boot_flags: 0,
        _pad2: 0,
    }
}

fn source_over(entries: Vec<MemMapEntry>) -> BootPtAlloc {
    let n = entries.len() as u32;
    BootPtAlloc::new(&boot(0xffff_8000_0000_0000, 0x9000, n, MEMMAP_ENTRY_SIZE), entries).unwrap()
}

#[test]
fn new_needs_the_direct_map_and_a_memory_map() {
    let one = || vec![region(0x1000, 0x1000, MemType::Usable)];
    assert!(BootPtAlloc::new(&boot(0, 0x9000, 1, MEMMAP_ENTRY_SIZE), one()).is_none());
    assert!(BootPtAlloc::new(&boot(0x1000, 0, 1, MEMMAP_ENTRY_SIZE), one()).is_none());
    assert!(BootPtAlloc::new(&boot(0x1000, 0x9000, 0, MEMMAP_ENTRY_SIZE), vec![]).is_none());
    assert!(BootPtAlloc::new(&boot(0x1000, 0x9000, 1, 16), one()).is_none());
    assert!(BootPtAlloc::new(&boot(0x1000, 0x9000, 1, 24), one()).is_some());
}

#[test]
fn entry_at_reads_the_map() {
    let a = source_over(vec![
        region(0x0, 0x1000, MemType::Reserved),
        region(0x1000, 0x3000, MemType::Usable),
    ]);
    let e = a.entry_at(1).unwrap();
    assert_eq!(e.base.0, 0x1000);
    assert_eq!(e.len, 0x3000);
    assert_eq!(e.mem_type, MemType::Usable);
    assert!(a.entry_at(2).is_none());
}

#[test]
fn only_usable_and_reclaimable_memory_gives_frames() {
    assert!(is_usable(MemType::Usable));
    assert!(is_usable(MemType::BootloaderReclaimable));
    assert!(!is_usable(MemType::Reserved));
    assert!(!is_usable(MemType::AcpiReclaimable));
    assert!(!is_usable(MemType::AcpiNvs));
    assert!(!is_usable(MemType::Mmio));
    assert!(!is_usable(MemType::BadMemory));
    assert!(!is_usable(MemType::KernelAndModules));
}

#[test]
fn align_up_rounds_to_the_next_multiple() {
    assert_eq!(align_up(0, 4096), 0);
    assert_eq!(align_up(1, 4096), 4096);
    assert_eq!(align_up(0x1000, 4096), 0x1000);
    assert_eq!(align_up(0x1001, 4096), 0x2000);
    assert_eq!(align_up(13, 8), 16);
    assert_eq!(align_up(13, 1), 13);
    assert_eq!(align_up(0xffff_ffff_ffff_f000, 4096), 0xffff_ffff_ffff_f000);
}

#[test]
fn the_cursor_walks_usable_regions_page_by_page() {
    let mut a = source_over(vec![
        region(0x0, 0x2000, MemType::Reserved),
        // unaligned base and end: pages 0x3000 and 0x4000 fit
        region(0x2800, 0x2fff, MemType::Usable),
        region(0x6000, 0x1000, MemType::Mmio),
        // too small for a page
        region(0x7000, 0xfff, MemType::Usable),
        region(0x8000, 0x1000, MemType::BootloaderReclaimable),
        region(0x9000, 0x2000, MemType::AcpiNvs),
    ]);
    assert_eq!(a.next_from_map(), Some(PhysAddr(0x3000)));
    assert_eq!(a.next_from_map(), Some(PhysAddr(0x4000)));
    assert_eq!(a.next_from_map(), Some(PhysAddr(0x8000)));
    assert_eq!(a.next_from_map(), None);
    assert_eq!(a.next_from_map(), None);
}

#[test]
fn a_region_that_ends_beyond_sixty_four_bits_stops_the_scan() {
    let mut a = source_over(vec![
        region(0xffff_ffff_ffff_0000, 0x2_0000, MemType::Usable),
        region(0x1000, 0x1000, MemType::Usable),
    ]);
    assert_eq!(a.next_from_map(), None);
}

#[test]
fn the_last_page_of_the_address_space_is_never_handed_out() {
    let mut a = source_over(vec![region(0xffff_ffff_ffff_e000, 0x1fff, MemType::Usable)]);
    assert_eq!(a.next_from_map(), Some(PhysAddr(0xffff_ffff_ffff_e000)));
    assert_eq!(a.next_from_map(), None);
}

#[test]
fn allocated_frames_read_as_zero() {
    let mut mem = PhysMemory::new(8);
    let mut a = source_over(vec![region(0x2000, 0x2000, MemType::Usable)]);
    let mut i = 0;
    while i < 512 {
        mem.write_entry(PhysAddr(0x2000), i, 0xffff_ffff_ffff_ffff);
        mem.write_entry(PhysAddr(0x3000), i, 0x1234);
        i += 1;
    }
    let p = a.alloc_frame_4k(&mut mem).unwrap();
    assert_eq!(p, PhysAddr(0x2000));
    let mut i = 0;
    while i < 512 {
        assert_eq!(mem.read_entry(p, i), 0);
        // the neighbour is untouched
        assert_eq!(mem.read_entry(PhysAddr(0x3000), i), 0x1234);
        i += 1;
    }
    // a recycled frame is zeroed again
    mem.write_entry(p, 7, 99);
    a.free_frame_4k(p);
    assert_eq!(a.alloc_frame_4k(&mut mem), Some(p));
    assert_eq!(mem.read_entry(p, 7), 0);
}

#[test]
fn a_freed_frame_comes_back_first() {
    let mut mem = PhysMemory::new(16);
    let mut a = source_over(vec![region(0x2000, 0x8000, MemType::Usable)]);
    let p1 = a.alloc_frame_4k(&mut mem).unwrap();
    let p2 = a.alloc_frame_4k(&mut mem).unwrap();
    let p3 = a.alloc_frame_4k(&mut mem).unwrap();
    assert_eq!((p1, p2, p3), (PhysAddr(0x2000), PhysAddr(0x3000), PhysAddr(0x4000)));
    a.free_frame_4k(p1);
    a.free_frame_4k(p3);
    // most recently freed first
    assert_eq!(a.alloc_frame_4k(&mut mem), Some(p3));
    assert_eq!(a.alloc_frame_4k(&mut mem), Some(p1));
    // then the map again
    assert_eq!(a.alloc_frame_4k(&mut mem), Some(PhysAddr(0x5000)));
}

#[test]
fn a_full_free_list_forgets_further_frames() {
    let frames = MAX_FREE_FRAMES + 2;
    let mut mem = PhysMemory::new(frames + 1);
    let mut a = source_over(vec![region(0x1000, (frames as u64) * 4096, MemType::Usable)]);
    let mut got = Vec::new();
    let mut i = 0;
    while i < frames {
        got.push(a.alloc_frame_4k(&mut mem).unwrap());
        i += 1;
    }
    assert_eq!(a.alloc_frame_4k(&mut mem), None);
    let mut i = 0;
    while i < frames {
        a.free_frame_4k(got[i]);
        i += 1;
    }
    // the list took the first 128 and dropped the last two
    let mut i = MAX_FREE_FRAMES;
    while i > 0 {
        assert_eq!(a.alloc_frame_4k(&mut mem), Some(got[i - 1]));
        i -= 1;
    }
    assert_eq!(a.alloc_frame_4k(&mut mem), None);
}

#[test]
fn an_exhausted_map_gives_no_frame() {
    let mut mem = PhysMemory::new(4);
    let mut a = source_over(vec![region(0x1000, 0x1000, MemType::Usable)]);
    assert_eq!(a.alloc_frame_4k(&mut mem), Some(PhysAddr(0x1000)));
    assert_eq!(a.alloc_frame_4k(&mut mem), None);
}
