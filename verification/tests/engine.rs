use kernel_vm::boot_alloc::BootPtAlloc;
use kernel_vm::bootabi::{
    Arch, BootHeader, BootInfo, ByteSpan, FbFormat, Framebuffer, MemMapEntry, MemMapView, MemType,
    BOOTABI_MAGIC, BOOTABI_VERSION, MEMMAP_ENTRY_SIZE,
};
use kernel_vm::mmu::{
    AddressSpace, HwOp, MapError, MapFlags, Mmu, PageTableFrameAlloc, PhysAddr, TranslateError,
    VirtAddr, EXEC, GLOBAL, READ, UNCACHED, USER, WRITE,
};
use kernel_vm::paging::{pd_index, pdpt_index, pml4_index, pt_index};
use kernel_vm::phys_mem::PhysMemory;
use kernel_vm::x86_mmu::{
    FeatureRegs, X86Mmu, CR0_WP, CR4_PGE, EFER_NXE, KERNEL_SPACE_ID, MAX_ADDRESS_SPACES,
};

const KERNEL_ROOT: u64 = 0x1000;

fn region(base: u64, len: u64, mem_type: MemType) -> MemMapEntry {
    MemMapEntry { base: kernel_vm::bootabi::PhysAddr(base), len, mem_type, _pad: 0, flags: 0 }
}

fn boot_info(entry_count: u32) -> BootInfo {
    BootInfo {
        hdr: BootHeader { magic: BOOTABI_MAGIC, version: BOOTABI_VERSION, header_size: 0 },
        arch: Arch::X86_64,
        _pad0: [0; 3],
        cpu_count: 1,
        phys_addr_bits: 52,
        virt_addr_bits: 48,
        _pad1: [0; 2],
        hhdm_offset: 0xffff_8000_0000_0000,
        mem: MemMapView {
            entries_ptr: 0x9000,
            entry_count,
            entry_size: MEMMAP_ENTRY_SIZE,
            flags: 0,
        },
        acpi_rsdp: kernel_vm::bootabi::PhysAddr(0),
        fb: Framebuffer {
            addr: kernel_vm::bootabi::PhysAddr(0),
            width: 0,
            height: 0,
            pitch: 0,
            bpp: 0,
            format: FbFormat::Unknown,
            _pad: 0,
        },
        cmdline: ByteSpan::empty(),
        bootloader: ByteSpan::empty(),
        boot_flags: 0,
        _pad2: 0,
    }
}

/// A frame source over the usable frames from `base` on, `frames` of them.
fn source(base: u64, frames: u64) -> BootPtAlloc {
    let entries = vec![
        region(0x0, base, MemType::Reserved),
        region(base, frames * 4096, MemType::Usable),
    ];
    BootPtAlloc::new(&boot_info(2), entries).unwrap()
}

/// Memory of 256 frames, a frame source over frames 0x10..0x100 and an engine
/// whose kernel address space has the empty root table at frame 1.
fn setup() -> (PhysMemory, BootPtAlloc, X86Mmu, AddressSpace) {
    let mem = PhysMemory::new(256);
    let alloc = source(0x10000, 0xf0);
    let mut mmu = X86Mmu::new();
    let kernel = mmu.init_kernel(&mem, KERNEL_ROOT).unwrap();
    (mem, alloc, mmu, kernel)
}

fn flags(bits: u32) -> MapFlags {
    MapFlags::from_bits_truncate(bits)
}

/// The leaf entry of `v` as it stands in memory, found by walking by hand.
fn leaf_entry_of(mem: &PhysMemory, root: PhysAddr, v: u64) -> u64 {
    let mask: u64 = 0x000f_ffff_ffff_f000;
    let e1 = mem.read_entry(root, pml4_index(v));
    let e2 = mem.read_entry(PhysAddr(e1 & mask), pdpt_index(v));
    let e3 = mem.read_entry(PhysAddr(e2 & mask), pd_index(v));
    mem.read_entry(PhysAddr(e3 & mask), pt_index(v))
}

#[test]
fn map_then_translate_every_offset() {
    let (mut mem, mut alloc, mut mmu, kernel) = setup();
    let r = mmu.map_4k(
        &mut mem,
        &mut alloc,
        &kernel,
        VirtAddr(0x4000_0000),
        PhysAddr(0x7_3000),
        flags(WRITE),
    );
    assert_eq!(r, Ok(()));
    let mut k: u64 = 0;
    while k < 4096 {
        assert_eq!(
            mmu.translate(&mem, &kernel, VirtAddr(0x4000_0000 + k)),
            Ok(PhysAddr(0x7_3000 + k))
        );
        k += 1;
    }
    assert_eq!(
        mmu.translate(&mem, &kernel, VirtAddr(0x4000_1000)),
        Err(TranslateError::NotMapped)
    );
    assert_eq!(
        mmu.translate(&mem, &kernel, VirtAddr(0x3fff_ffff)),
        Err(TranslateError::NotMapped)
    );
}

#[test]
fn map_in_the_highest_page_translates_to_the_last_byte() {
    let (mut mem, mut alloc, mut mmu, kernel) = setup();
    let v = VirtAddr(0xffff_ffff_ffff_f000);
    assert_eq!(mmu.map_4k(&mut mem, &mut alloc, &kernel, v, PhysAddr(0x9000), flags(READ)), Ok(()));
    assert_eq!(
        mmu.translate(&mem, &kernel, VirtAddr(0xffff_ffff_ffff_ffff)),
        Ok(PhysAddr(0x9fff))
    );
}

#[test]
fn map_installs_three_tables_and_the_leaf_entry() {
    let (mut mem, mut alloc, mut mmu, kernel) = setup();
    let v = 0x0000_7f12_3456_7000u64;
    assert_eq!(
        mmu.map_4k(&mut mem, &mut alloc, &kernel, VirtAddr(v), PhysAddr(0xab000),
            flags(WRITE | USER)),
        Ok(())
    );
    // the first three frames of the source became the tables, in walk order
    let root = mmu.root_table(&kernel);
    assert_eq!(root, PhysAddr(KERNEL_ROOT));
    assert_eq!(mem.read_entry(root, pml4_index(v)), 0x10000 | 0x7);
    assert_eq!(mem.read_entry(PhysAddr(0x10000), pdpt_index(v)), 0x11000 | 0x7);
    assert_eq!(mem.read_entry(PhysAddr(0x11000), pd_index(v)), 0x12000 | 0x7);
    assert_eq!(mem.read_entry(PhysAddr(0x12000), pt_index(v)), 0xab000 | 0x7);
    // a second page under the same tables needs no frame
    assert_eq!(
        mmu.map_4k(
            &mut mem,
            &mut alloc,
            &kernel,
            VirtAddr(v + 0x1000),
            PhysAddr(0xac000),
            flags(WRITE)
        ),
        Ok(())
    );
    assert_eq!(alloc.alloc_frame_4k(&mut mem), Some(PhysAddr(0x13000)));
}

#[test]
fn kernel_only_tables_are_not_user_accessible() {
    let (mut mem, mut alloc, mut mmu, kernel) = setup();
    let v = 0x20_0000u64;
    assert_eq!(
        mmu.map_4k(&mut mem, &mut alloc, &kernel, VirtAddr(v), PhysAddr(0x5000), flags(WRITE)),
        Ok(())
    );
    assert_eq!(mem.read_entry(PhysAddr(KERNEL_ROOT), pml4_index(v)), 0x10000 | 0x3);
    assert_eq!(leaf_entry_of(&mem, PhysAddr(KERNEL_ROOT), v), 0x5000 | 0x3);
}

#[test]
fn map_twice_is_already_mapped_and_keeps_the_mapping() {
    let (mut mem, mut alloc, mut mmu, kernel) = setup();
    let v = VirtAddr(0x20_0000);
    assert_eq!(mmu.map_4k(&mut mem, &mut alloc, &kernel, v, PhysAddr(0x5000), flags(WRITE)),
        Ok(()));
    assert_eq!(
        mmu.map_4k(&mut mem, &mut alloc, &kernel, v, PhysAddr(0x6000), flags(WRITE)),
        Err(MapError::AlreadyMapped)
    );
    assert_eq!(mmu.translate(&mem, &kernel, VirtAddr(0x20_0010)), Ok(PhysAddr(0x5010)));
    assert_eq!(leaf_entry_of(&mem, PhysAddr(KERNEL_ROOT), 0x20_0000), 0x5000 | 0x3);
}

#[test]
fn unmap_then_translate_is_not_mapped() {
    let (mut mem, mut alloc, mut mmu, kernel) = setup();
    let v = VirtAddr(0x20_0000);
    let w = VirtAddr(0x20_1000);
    assert_eq!(mmu.map_4k(&mut mem, &mut alloc, &kernel, v, PhysAddr(0x5000), flags(WRITE)),
        Ok(()));
    assert_eq!(mmu.map_4k(&mut mem, &mut alloc, &kernel, w, PhysAddr(0x6000), flags(WRITE)),
        Ok(()));
    assert_eq!(mmu.unmap_4k(&mut mem, &kernel, v), Ok(()));
    assert_eq!(mmu.translate(&mem, &kernel, v), Err(TranslateError::NotMapped));
    assert_eq!(mmu.translate(&mem, &kernel, VirtAddr(0x20_0fff)), Err(TranslateError::NotMapped));
    assert_eq!(mmu.translate(&mem, &kernel, w), Ok(PhysAddr(0x6000)));
    assert_eq!(mmu.unmap_4k(&mut mem, &kernel, v), Err(MapError::NotMapped));
    assert_eq!(leaf_entry_of(&mem, PhysAddr(KERNEL_ROOT), 0x20_0000), 0);
}

#[test]
fn unmap_and_protect_without_tables_are_not_mapped() {
    let (mut mem, _alloc, mut mmu, kernel) = setup();
    assert_eq!(mmu.unmap_4k(&mut mem, &kernel, VirtAddr(0x7000)), Err(MapError::NotMapped));
    assert_eq!(
        mmu.protect_4k(&mut mem, &kernel, VirtAddr(0x7000), flags(WRITE)),
        Err(MapError::NotMapped)
    );
}

#[test]
fn protect_changes_the_bits_and_keeps_the_target() {
    let (mut mem, mut alloc, mut mmu, kernel) = setup();
    let v = VirtAddr(0x20_0000);
    assert_eq!(mmu.map_4k(&mut mem, &mut alloc, &kernel, v, PhysAddr(0x5000), flags(WRITE)),
        Ok(()));
    assert_eq!(leaf_entry_of(&mem, PhysAddr(KERNEL_ROOT), v.0) & 0x2, 0x2);
    assert_eq!(mmu.protect_4k(&mut mem, &kernel, v, flags(READ | USER)), Ok(()));
    assert_eq!(mmu.translate(&mem, &kernel, VirtAddr(0x20_0123)), Ok(PhysAddr(0x5123)));
    // write access is gone, user access is there
    assert_eq!(leaf_entry_of(&mem, PhysAddr(KERNEL_ROOT), v.0), 0x5000 | 0x1 | 0x4);
}

#[test]
fn end_to_end_scenario() {
    let (mut mem, mut alloc, mut mmu, kernel) = setup();
    assert_eq!(
        mmu.map_4k(
            &mut mem,
            &mut alloc,
            &kernel,
            VirtAddr(0x0000_1000),
            PhysAddr(0x0000_2000),
            flags(WRITE)
        ),
        Ok(())
    );
    assert_eq!(mmu.translate(&mem, &kernel, VirtAddr(0x0000_1042)), Ok(PhysAddr(0x0000_2042)));
    assert_eq!(
        mmu.protect_4k(&mut mem, &kernel, VirtAddr(0x0000_1000), flags(WRITE | EXEC)),
        Ok(())
    );
    assert_eq!(mmu.translate(&mem, &kernel, VirtAddr(0x0000_1042)), Ok(PhysAddr(0x0000_2042)));
    assert_eq!(mmu.unmap_4k(&mut mem, &kernel, VirtAddr(0x0000_1000)), Ok(()));
    assert_eq!(
        mmu.translate(&mem, &kernel, VirtAddr(0x0000_1042)),
        Err(TranslateError::NotMapped)
    );
}

#[test]
fn non_canonical_addresses_are_rejected_everywhere() {
    let (mut mem, mut alloc, mut mmu, kernel) = setup();
    let bad = VirtAddr(0x0001_0000_0000_0000);
    assert_eq!(
        mmu.map_4k(&mut mem, &mut alloc, &kernel, bad, PhysAddr(0x5000), flags(WRITE)),
        Err(MapError::InvalidArgs)
    );
    assert_eq!(mmu.unmap_4k(&mut mem, &kernel, bad), Err(MapError::InvalidArgs));
    assert_eq!(mmu.protect_4k(&mut mem, &kernel, bad, flags(WRITE)), Err(MapError::InvalidArgs));
    assert_eq!(mmu.translate(&mem, &kernel, bad), Err(TranslateError::InvalidAddress));
    // the first address above the lower half and the last below the upper half
    assert_eq!(
        mmu.translate(&mem, &kernel, VirtAddr(0x0000_8000_0000_0000)),
        Err(TranslateError::InvalidAddress)
    );
    assert_eq!(
        mmu.translate(&mem, &kernel, VirtAddr(0xffff_7fff_ffff_ffff)),
        Err(TranslateError::InvalidAddress)
    );
    assert_eq!(
        mmu.translate(&mem, &kernel, VirtAddr(0x0000_7fff_ffff_ffff)),
        Err(TranslateError::NotMapped)
    );
}

#[test]
fn unaligned_addresses_are_rejected() {
    let (mut mem, mut alloc, mut mmu, kernel) = setup();
    assert_eq!(
        mmu.map_4k(&mut mem, &mut alloc, &kernel, VirtAddr(0x1001), PhysAddr(0x5000), flags(WRITE)),
        Err(MapError::Unaligned)
    );
    assert_eq!(
        mmu.map_4k(&mut mem, &mut alloc, &kernel, VirtAddr(0x1000), PhysAddr(0x5008), flags(WRITE)),
        Err(MapError::Unaligned)
    );
    assert_eq!(mmu.unmap_4k(&mut mem, &kernel, VirtAddr(0x1001)), Err(MapError::Unaligned));
    assert_eq!(
        mmu.protect_4k(&mut mem, &kernel, VirtAddr(0x1001), flags(WRITE)),
        Err(MapError::Unaligned)
    );
    // alignment is looked at before the canonical form
    assert_eq!(
        mmu.unmap_4k(&mut mem, &kernel, VirtAddr(0x0001_0000_0000_0001)),
        Err(MapError::Unaligned)
    );
    // translation takes any offset
    assert_eq!(mmu.translate(&mem, &kernel, VirtAddr(0x1001)), Err(TranslateError::NotMapped));
}

#[test]
fn map_without_frames_is_out_of_memory() {
    let mut mem = PhysMemory::new(64);
    // two frames only: the third table cannot be made
    let mut alloc = source(0x10000, 2);
    let mut mmu = X86Mmu::new();
    let kernel = mmu.init_kernel(&mem, KERNEL_ROOT).unwrap();
    assert_eq!(
        mmu.map_4k(&mut mem, &mut alloc, &kernel, VirtAddr(0x1000), PhysAddr(0x2000), flags(WRITE)),
        Err(MapError::OutOfMemory)
    );
    assert_eq!(mmu.translate(&mem, &kernel, VirtAddr(0x1000)), Err(TranslateError::NotMapped));
    // the two tables that were made stay in place
    assert_eq!(mem.read_entry(PhysAddr(KERNEL_ROOT), 0), 0x10000 | 0x3);
    assert_eq!(mem.read_entry(PhysAddr(0x10000), 0), 0x11000 | 0x3);
    assert_eq!(mem.read_entry(PhysAddr(0x11000), 0), 0);
}

#[test]
fn link_table_without_a_frame_is_out_of_memory() {
    let (mut mem, _alloc, mut mmu, _kernel) = setup();
    assert_eq!(
        mmu.link_table(&mut mem, PhysAddr(KERNEL_ROOT), 5, false, None),
        Err(MapError::OutOfMemory)
    );
    assert_eq!(mem.read_entry(PhysAddr(KERNEL_ROOT), 5), 0);
    assert_eq!(
        mmu.link_table(&mut mem, PhysAddr(KERNEL_ROOT), 5, true, Some(PhysAddr(0x30000))),
        Ok(PhysAddr(0x30000))
    );
    assert_eq!(mem.read_entry(PhysAddr(KERNEL_ROOT), 5), 0x30000 | 0x7);
}

#[test]
fn init_kernel_needs_an_active_root_and_is_idempotent() {
    let mem = PhysMemory::new(16);
    let mut mmu = X86Mmu::new();
    assert!(mmu.kernel_space().is_none());
    assert_eq!(mmu.init_kernel(&mem, 0), Err(MapError::InvalidArgs));
    // only the frame address of the register counts
    assert_eq!(mmu.init_kernel(&mem, 0xfff), Err(MapError::InvalidArgs));
    let k = mmu.init_kernel(&mem, 0x2018).unwrap();
    assert_eq!(k.as_ptr(), KERNEL_SPACE_ID);
    assert_eq!(mmu.root_table(&k), PhysAddr(0x2000));
    assert_eq!(mmu.current(), k);
    // a second call changes nothing, whatever the register holds
    assert_eq!(mmu.init_kernel(&mem, 0x5000), Ok(k));
    assert_eq!(mmu.root_table(&k), PhysAddr(0x2000));
    assert_eq!(mmu.kernel_space(), Some(k));
}

#[test]
fn registry_capacity_is_sixty_four() {
    let (mut mem, mut alloc, mut mmu, _kernel) = setup();
    let mut i = 0;
    while i < MAX_ADDRESS_SPACES {
        let h = mmu.address_space_new(&mut mem, &mut alloc, KERNEL_ROOT).unwrap();
        assert_eq!(h.as_ptr(), i);
        i += 1;
    }
    assert_eq!(
        mmu.address_space_new(&mut mem, &mut alloc, KERNEL_ROOT),
        Err(MapError::OutOfMemory)
    );
    // a destroyed address space makes room for one more, in the same slot
    mmu.address_space_destroy(&mem, &mut alloc, AddressSpace::from_ptr(7));
    let again = mmu.address_space_new(&mut mem, &mut alloc, KERNEL_ROOT).unwrap();
    assert_eq!(again.as_ptr(), 7);
    assert_eq!(
        mmu.address_space_new(&mut mem, &mut alloc, KERNEL_ROOT),
        Err(MapError::OutOfMemory)
    );
}

#[test]
fn address_space_new_without_a_frame_is_out_of_memory() {
    let mut mem = PhysMemory::new(64);
    let mut alloc = source(0x10000, 1);
    let mut mmu = X86Mmu::new();
    assert!(mmu.address_space_new(&mut mem, &mut alloc, KERNEL_ROOT).is_ok());
    assert_eq!(
        mmu.address_space_new(&mut mem, &mut alloc, KERNEL_ROOT),
        Err(MapError::OutOfMemory)
    );
    assert_eq!(mmu.address_space_with_root(&mut mem, None), Err(MapError::OutOfMemory));
}

#[test]
fn address_space_new_establishes_the_kernel_space_first() {
    let mut mem = PhysMemory::new(64);
    let mut alloc = source(0x10000, 4);
    let mut mmu = X86Mmu::new();
    assert_eq!(mmu.address_space_new(&mut mem, &mut alloc, 0), Err(MapError::InvalidArgs));
    let h = mmu.address_space_new(&mut mem, &mut alloc, KERNEL_ROOT).unwrap();
    assert_eq!(h.as_ptr(), 0);
    let k = mmu.kernel_space().unwrap();
    assert_eq!(mmu.root_table(&k), PhysAddr(KERNEL_ROOT));
    assert_eq!(mmu.current(), k);
}

#[test]
fn new_address_space_shares_the_kernel_half() {
    let (mut mem, mut alloc, mut mmu, kernel) = setup();
    let high = VirtAddr(0xffff_8000_0020_0000);
    let low = VirtAddr(0x0000_0000_0040_0000);
    assert_eq!(mmu.map_4k(&mut mem, &mut alloc, &kernel, high, PhysAddr(0x5000), flags(WRITE)),
        Ok(()));
    assert_eq!(mmu.map_4k(&mut mem, &mut alloc, &kernel, low, PhysAddr(0x6000), flags(WRITE)),
        Ok(()));
    // a frame with old contents becomes the root
    let dirty = PhysAddr(0x16000);
    let mut i = 0;
    while i < 512 {
        mem.write_entry(dirty, i, 0xdead_beef_0000_0001);
        i += 1;
    }
    let space = mmu.address_space_new(&mut mem, &mut alloc, KERNEL_ROOT).unwrap();
    let root = mmu.root_table(&space);
    assert_eq!(root, dirty);
    let mut k = 0;
    while k < 256 {
        assert_eq!(mem.read_entry(root, k), 0);
        k += 1;
    }
    while k < 512 {
        assert_eq!(mem.read_entry(root, k), mem.read_entry(PhysAddr(KERNEL_ROOT), k));
        k += 1;
    }
    assert_ne!(mem.read_entry(root, 256), 0);
    assert_eq!(mmu.translate(&mem, &space, VirtAddr(high.0 + 0x10)), Ok(PhysAddr(0x5010)));
    assert_eq!(mmu.translate(&mem, &space, low), Err(TranslateError::NotMapped));
    assert_eq!(mmu.translate(&mem, &kernel, low), Ok(PhysAddr(0x6000)));
}

#[test]
fn user_mappings_are_isolated_between_address_spaces() {
    let (mut mem, mut alloc, mut mmu, kernel) = setup();
    let a = mmu.address_space_new(&mut mem, &mut alloc, KERNEL_ROOT).unwrap();
    let b = mmu.address_space_new(&mut mem, &mut alloc, KERNEL_ROOT).unwrap();
    let v = VirtAddr(0x40_0000);
    assert_eq!(mmu.map_4k(&mut mem, &mut alloc, &a, v, PhysAddr(0x5000), flags(WRITE | USER)),
        Ok(()));
    assert_eq!(mmu.map_4k(&mut mem, &mut alloc, &b, v, PhysAddr(0x6000), flags(WRITE | USER)),
        Ok(()));
    assert_eq!(mmu.translate(&mem, &a, v), Ok(PhysAddr(0x5000)));
    assert_eq!(mmu.translate(&mem, &b, v), Ok(PhysAddr(0x6000)));
    assert_eq!(mmu.translate(&mem, &kernel, v), Err(TranslateError::NotMapped));
    assert_eq!(mmu.unmap_4k(&mut mem, &a, v), Ok(()));
    assert_eq!(mmu.translate(&mem, &a, v), Err(TranslateError::NotMapped));
    assert_eq!(mmu.translate(&mem, &b, v), Ok(PhysAddr(0x6000)));
}

#[test]
fn destroy_hands_back_the_user_tables_and_the_root() {
    let (mut mem, mut alloc, mut mmu, _kernel) = setup();
    let space = mmu.address_space_new(&mut mem, &mut alloc, KERNEL_ROOT).unwrap();
    assert_eq!(mmu.root_table(&space), PhysAddr(0x10000));
    assert_eq!(
        mmu.map_4k(&mut mem, &mut alloc, &space, VirtAddr(0x1000), PhysAddr(0x2000), flags(WRITE)),
        Ok(())
    );
    // tables at 0x11000 (level 3), 0x12000 (level 2), 0x13000 (level 1)
    mmu.address_space_destroy(&mem, &mut alloc, space);
    // handed back leaf tables first and the root last, so they come out in
    // the opposite order
    assert_eq!(alloc.alloc_frame_4k(&mut mem), Some(PhysAddr(0x10000)));
    assert_eq!(alloc.alloc_frame_4k(&mut mem), Some(PhysAddr(0x11000)));
    assert_eq!(alloc.alloc_frame_4k(&mut mem), Some(PhysAddr(0x12000)));
    assert_eq!(alloc.alloc_frame_4k(&mut mem), Some(PhysAddr(0x13000)));
    // then the map goes on where it stood
    assert_eq!(alloc.alloc_frame_4k(&mut mem), Some(PhysAddr(0x14000)));
}

#[test]
fn destroy_skips_large_pages_and_the_kernel_half() {
    let (mut mem, mut alloc, mut mmu, kernel) = setup();
    let high = VirtAddr(0xffff_8000_0020_0000);
    assert_eq!(mmu.map_4k(&mut mem, &mut alloc, &kernel, high, PhysAddr(0x5000), flags(WRITE)),
        Ok(()));
    // kernel tables at 0x10000, 0x11000, 0x12000
    let space = mmu.address_space_new(&mut mem, &mut alloc, KERNEL_ROOT).unwrap();
    let root = mmu.root_table(&space);
    assert_eq!(root, PhysAddr(0x13000));
    assert_eq!(
        mmu.map_4k(&mut mem, &mut alloc, &space, VirtAddr(0x1000), PhysAddr(0x2000), flags(WRITE)),
        Ok(())
    );
    // user tables at 0x14000, 0x15000, 0x16000; mark the level-2 entry large
    let e = mem.read_entry(PhysAddr(0x15000), 0);
    mem.write_entry(PhysAddr(0x15000), 0, e | 0x80);
    mmu.address_space_destroy(&mem, &mut alloc, space);
    assert_eq!(alloc.alloc_frame_4k(&mut mem), Some(root));
    assert_eq!(alloc.alloc_frame_4k(&mut mem), Some(PhysAddr(0x14000)));
    assert_eq!(alloc.alloc_frame_4k(&mut mem), Some(PhysAddr(0x15000)));
    // neither the table behind the large entry nor a kernel table came back
    assert_eq!(alloc.alloc_frame_4k(&mut mem), Some(PhysAddr(0x17000)));
    assert_eq!(mmu.translate(&mem, &kernel, high), Ok(PhysAddr(0x5000)));
}

#[test]
fn destroy_of_the_kernel_space_does_nothing() {
    let (mut mem, mut alloc, mut mmu, kernel) = setup();
    assert_eq!(
        mmu.map_4k(&mut mem, &mut alloc, &kernel, VirtAddr(0x1000), PhysAddr(0x2000), flags(WRITE)),
        Ok(())
    );
    mmu.address_space_destroy(&mem, &mut alloc, kernel);
    assert_eq!(mmu.translate(&mem, &kernel, VirtAddr(0x1000)), Ok(PhysAddr(0x2000)));
    assert_eq!(alloc.alloc_frame_4k(&mut mem), Some(PhysAddr(0x13000)));
}

#[test]
fn activate_records_the_root_and_sets_current() {
    let (mut mem, mut alloc, mut mmu, kernel) = setup();
    assert_eq!(mmu.current(), kernel);
    let space = mmu.address_space_new(&mut mem, &mut alloc, KERNEL_ROOT).unwrap();
    mmu.activate(&space);
    assert_eq!(mmu.current(), space);
    mmu.activate(&kernel);
    assert_eq!(mmu.current(), kernel);
    assert_eq!(mmu.take_hw_ops(), vec![HwOp::LoadRoot(0x10000), HwOp::LoadRoot(KERNEL_ROOT)]);
    assert_eq!(mmu.take_hw_ops(), vec![]);
}

#[test]
fn successful_changes_flush_the_page() {
    let (mut mem, mut alloc, mut mmu, kernel) = setup();
    let v = VirtAddr(0x20_0000);
    assert_eq!(mmu.map_4k(&mut mem, &mut alloc, &kernel, v, PhysAddr(0x5000), flags(WRITE)),
        Ok(()));
    assert_eq!(mmu.take_hw_ops(), vec![HwOp::FlushPage(v)]);
    // failures flush nothing
    assert!(mmu.map_4k(&mut mem, &mut alloc, &kernel, v, PhysAddr(0x5000), flags(WRITE)).is_err());
    assert!(mmu.unmap_4k(&mut mem, &kernel, VirtAddr(0x1001)).is_err());
    assert!(mmu.protect_4k(&mut mem, &kernel, VirtAddr(0x9000), flags(WRITE)).is_err());
    assert_eq!(mmu.translate(&mem, &kernel, v), Ok(PhysAddr(0x5000)));
    assert_eq!(mmu.take_hw_ops(), vec![]);
    assert_eq!(mmu.protect_4k(&mut mem, &kernel, v, flags(READ)), Ok(()));
    assert_eq!(mmu.unmap_4k(&mut mem, &kernel, v), Ok(()));
    assert_eq!(mmu.take_hw_ops(), vec![HwOp::FlushPage(v), HwOp::FlushPage(v)]);
}

#[test]
fn shootdowns_are_local_flushes() {
    let mut mmu = X86Mmu::new();
    mmu.flush_tlb_page(VirtAddr(0x1000));
    mmu.flush_tlb_all();
    mmu.shootdown_tlb_page(VirtAddr(0x2000));
    mmu.shootdown_tlb_all();
    assert_eq!(
        mmu.take_hw_ops(),
        vec![
            HwOp::FlushPage(VirtAddr(0x1000)),
            HwOp::FlushAll,
            HwOp::FlushPage(VirtAddr(0x2000)),
            HwOp::FlushAll
        ]
    );
}

#[test]
fn init_features_sets_the_control_bits() {
    let mut mmu = X86Mmu::new();
    assert_eq!(
        mmu.init_features(true, true, 0x8000_0011, 0x20, 0x500),
        FeatureRegs { cr0: 0x8001_0011, cr4: 0xa0, efer: Some(0xd00) }
    );
    assert!(mmu.nxe());
    assert_eq!(
        mmu.init_features(true, false, 0, 0, 0),
        FeatureRegs { cr0: CR0_WP, cr4: CR4_PGE, efer: None }
    );
    assert!(!mmu.nxe());
    assert_eq!(mmu.init_features(false, true, 0, 0, 0).efer, None);
    assert!(!mmu.nxe());
    assert_eq!(EFER_NXE, 1 << 11);
}

#[test]
fn no_execute_is_set_only_when_the_feature_is_on() {
    let mut mem = PhysMemory::new(64);
    let mut alloc = source(0x10000, 16);
    let mut mmu = X86Mmu::new();
    mmu.init_features(true, true, 0, 0, 0);
    let kernel = mmu.init_kernel(&mem, KERNEL_ROOT).unwrap();
    assert_eq!(
        mmu.map_4k(&mut mem, &mut alloc, &kernel, VirtAddr(0x1000), PhysAddr(0x2000), flags(WRITE)),
        Ok(())
    );
    assert_eq!(
        leaf_entry_of(&mem, PhysAddr(KERNEL_ROOT), 0x1000),
        0x8000_0000_0000_0000 | 0x2000 | 0x3
    );
    assert_eq!(
        mmu.protect_4k(&mut mem, &kernel, VirtAddr(0x1000), flags(EXEC | GLOBAL | UNCACHED)),
        Ok(())
    );
    assert_eq!(leaf_entry_of(&mem, PhysAddr(KERNEL_ROOT), 0x1000), 0x2000 | 0x1 | 0x100 | 0x18);
}

#[test]
fn the_target_keeps_only_its_frame_address_field() {
    let mut mem = PhysMemory::new(64);
    let mut alloc = source(0x10000, 16);
    let mut mmu = X86Mmu::new();
    let kernel = mmu.init_kernel(&mem, KERNEL_ROOT).unwrap();
    // bit 52 does not fit the field of an entry
    assert_eq!(
        mmu.map_4k(
            &mut mem,
            &mut alloc,
            &kernel,
            VirtAddr(0x1000),
            PhysAddr(0x10_0000_0000_3000),
            flags(WRITE)
        ),
        Ok(())
    );
    assert_eq!(mmu.translate(&mem, &kernel, VirtAddr(0x1004)), Ok(PhysAddr(0x3004)));
}

/// The end-to-end scenario against the interface alone.
fn scenario_on<M: Mmu, A: PageTableFrameAlloc>(mmu: &mut M, mem: &mut PhysMemory, alloc: &mut A) {
    let space = Mmu::address_space_new(mmu, mem, alloc, KERNEL_ROOT).unwrap();
    assert_eq!(
        Mmu::map_4k(mmu, mem, alloc, &space, VirtAddr(0x1000), PhysAddr(0x2000), flags(WRITE)),
        Ok(())
    );
    assert_eq!(Mmu::translate(mmu, mem, &space, VirtAddr(0x1042)), Ok(PhysAddr(0x2042)));
    assert_eq!(Mmu::protect_4k(mmu, mem, &space, VirtAddr(0x1000), flags(WRITE | EXEC)), Ok(()));
    assert_eq!(Mmu::translate(mmu, mem, &space, VirtAddr(0x1042)), Ok(PhysAddr(0x2042)));
    assert_eq!(Mmu::unmap_4k(mmu, mem, &space, VirtAddr(0x1000)), Ok(()));
    assert_eq!(
        Mmu::translate(mmu, mem, &space, VirtAddr(0x1042)),
        Err(TranslateError::NotMapped)
    );
    Mmu::activate(mmu, &space);
    assert_eq!(Mmu::current(mmu), space);
    Mmu::shootdown_tlb_page(mmu, VirtAddr(0x5000));
    Mmu::shootdown_tlb_all(mmu);
    Mmu::flush_tlb_page(mmu, VirtAddr(0x6000));
    Mmu::flush_tlb_all(mmu);
    Mmu::address_space_destroy(mmu, mem, alloc, space);
}

#[test]
fn the_engine_serves_the_interface() {
    let mut mem = PhysMemory::new(64);
    let mut alloc = source(0x10000, 16);
    let mut mmu = X86Mmu::new();
    assert_eq!(Mmu::init_kernel(&mut mmu, &mem, 0), Err(MapError::InvalidArgs));
    assert!(Mmu::init_kernel(&mut mmu, &mem, KERNEL_ROOT).is_ok());
    scenario_on(&mut mmu, &mut mem, &mut alloc);
    let page = HwOp::FlushPage(VirtAddr(0x1000));
    assert_eq!(
        mmu.take_hw_ops(),
        vec![
            page,
            page,
            page,
            HwOp::LoadRoot(0x10000),
            HwOp::FlushPage(VirtAddr(0x5000)),
            HwOp::FlushAll,
            HwOp::FlushPage(VirtAddr(0x6000)),
            HwOp::FlushAll
        ]
    );
}
