use kernel_vm::boot_alloc::check_memmap;
use kernel_vm::boot_check::{check_boot_tables, in_map_frames};
use kernel_vm::bootabi::{
    Arch, BootHeader, BootInfo, ByteSpan, FbFormat, Framebuffer, MemMapEntry, MemMapView, MemType,
    BOOTABI_MAGIC, BOOTABI_VERSION, MEMMAP_ENTRY_SIZE,
};
use kernel_vm::mmu::{
    HwOp, MapError, MapFlags, PhysAddr, TranslateError, VirtAddr, EXEC, USER, WRITE,
};
use kernel_vm::phys_mem::PhysMemory;
use kernel_vm::vm::{
    activate, destroy_address_space, init, init_features, kernel_space, map_4k, new_address_space,
    protect_4k, take_hw_ops, translate, try_init, unmap_4k, usable_within, Vm,
};
use kernel_vm::x86_mmu::{X86Mmu, KERNEL_SPACE_ID, MAX_ADDRESS_SPACES};

fn region(base: u64, len: u64, mem_type: MemType) -> MemMapEntry {
    MemMapEntry { base: kernel_vm::bootabi::PhysAddr(base), len, mem_type, _pad: 0, flags: 0 }
}

fn boot(entry_count: u32) -> BootInfo {
    BootInfo {
        hdr: BootHeader { magic: BOOTABI_MAGIC, version: BOOTABI_VERSION, header_size: 0 },
        arch: Arch::X86_64,
        _pad0: [0; 3],
        cpu_count: 1,
        phys_addr_bits: 52,
        virt_addr_bits: 48,
        _pad1: [0; 2],
        hhdm_offset: 0xffff_8000_0000_0000,
        mem: MemMapView {
            entries_ptr: 0x9000,
            entry_count,
            entry_size: MEMMAP_ENTRY_SIZE,
            flags: 0,
        },
        acpi_rsdp: kernel_vm::bootabi::PhysAddr(0),
        fb: Framebuffer {
            addr: kernel_vm::bootabi::PhysAddr(0),
            width: 0,
            height: 0,
            pitch: 0,
            bpp: 0,
            format: FbFormat::Unknown,
            _pad: 0,
        },
        cmdline: ByteSpan::empty(),
        bootloader: ByteSpan::empty(),
        boot_flags: 0,
        _pad2: 0,
    }
}

/// A service over 256 frames whose usable frames are 0x10..0x100 and whose
/// kernel root is the empty table at frame 1.
fn service() -> Vm {
    let entries = vec![
        region(0x0, 0x10000, MemType::KernelAndModules),
        region(0x10000, 0xf0000, MemType::Usable),
    ];
    init(&boot(2), entries, PhysMemory::new(256), X86Mmu::new(), 0x1000)
}

fn flags(bits: u32) -> MapFlags {
    MapFlags::from_bits_truncate(bits)
}

#[test]
fn service_end_to_end() {
    let mut vm = service();
    let k = kernel_space(&vm);
    assert_eq!(k.as_ptr(), KERNEL_SPACE_ID);
    assert_eq!(vm.mmu().current(), k);
    assert_eq!(map_4k(&mut vm, &k, VirtAddr(0x1000), PhysAddr(0x2000), flags(WRITE)), Ok(()));
    assert_eq!(translate(&vm, &k, VirtAddr(0x1042)), Ok(PhysAddr(0x2042)));
    assert_eq!(protect_4k(&mut vm, &k, VirtAddr(0x1000), flags(WRITE | EXEC)), Ok(()));
    assert_eq!(translate(&vm, &k, VirtAddr(0x1042)), Ok(PhysAddr(0x2042)));
    assert_eq!(unmap_4k(&mut vm, &k, VirtAddr(0x1000)), Ok(()));
    assert_eq!(translate(&vm, &k, VirtAddr(0x1042)), Err(TranslateError::NotMapped));
}

#[test]
fn service_reports_each_error() {
    let mut vm = service();
    let k = kernel_space(&vm);
    assert_eq!(
        map_4k(&mut vm, &k, VirtAddr(0x1001), PhysAddr(0x2000), flags(WRITE)),
        Err(MapError::Unaligned)
    );
    assert_eq!(
        map_4k(&mut vm, &k, VirtAddr(0x0001_0000_0000_0000), PhysAddr(0x2000), flags(WRITE)),
        Err(MapError::InvalidArgs)
    );
    assert_eq!(map_4k(&mut vm, &k, VirtAddr(0x1000), PhysAddr(0x2000), flags(WRITE)), Ok(()));
    assert_eq!(
        map_4k(&mut vm, &k, VirtAddr(0x1000), PhysAddr(0x3000), flags(WRITE)),
        Err(MapError::AlreadyMapped)
    );
    assert_eq!(unmap_4k(&mut vm, &k, VirtAddr(0x2000)), Err(MapError::NotMapped));
    assert_eq!(protect_4k(&mut vm, &k, VirtAddr(0x2000), flags(USER)), Err(MapError::NotMapped));
    assert_eq!(
        translate(&vm, &k, VirtAddr(0x0001_0000_0000_0000)),
        Err(TranslateError::InvalidAddress)
    );
}

#[test]
fn service_runs_out_of_frames() {
    let entries = vec![region(0x10000, 0x2000, MemType::Usable)];
    let mut vm = init(&boot(1), entries, PhysMemory::new(32), X86Mmu::new(), 0x1000);
    let k = kernel_space(&vm);
    assert_eq!(
        map_4k(&mut vm, &k, VirtAddr(0x1000), PhysAddr(0x2000), flags(WRITE)),
        Err(MapError::OutOfMemory)
    );
    assert_eq!(new_address_space(&mut vm), Err(MapError::OutOfMemory));
}

#[test]
fn service_registry_fills_up_and_frees() {
    let mut vm = service();
    let mut spaces = Vec::new();
    let mut i = 0;
    while i < MAX_ADDRESS_SPACES {
        spaces.push(new_address_space(&mut vm).unwrap());
        i += 1;
    }
    assert_eq!(new_address_space(&mut vm), Err(MapError::OutOfMemory));
    destroy_address_space(&mut vm, spaces[63]);
    assert_eq!(new_address_space(&mut vm).map(|h| h.as_ptr()), Ok(63));
}

#[test]
fn service_spaces_share_kernel_mappings_only() {
    let mut vm = service();
    let k = kernel_space(&vm);
    let high = VirtAddr(0xffff_ffff_8000_0000);
    assert_eq!(map_4k(&mut vm, &k, high, PhysAddr(0x5000), flags(WRITE)), Ok(()));
    let a = new_address_space(&mut vm).unwrap();
    assert_eq!(translate(&vm, &a, high), Ok(PhysAddr(0x5000)));
    assert_eq!(map_4k(&mut vm, &a, VirtAddr(0x1000), PhysAddr(0x6000), flags(USER)), Ok(()));
    assert_eq!(translate(&vm, &k, VirtAddr(0x1000)), Err(TranslateError::NotMapped));
    // the root of the new space is the frame the source handed out
    let root = vm.mmu().root_table(&a);
    assert_eq!(vm.mem().read_entry(root, 511), vm.mem().read_entry(PhysAddr(0x1000), 511));
    assert_eq!(vm.frame_source().entry_at(0).unwrap().base.0, 0x0);
    destroy_address_space(&mut vm, k);
    assert_eq!(translate(&vm, &k, high), Ok(PhysAddr(0x5000)));
}

#[test]
fn service_records_what_the_processor_must_do() {
    let mut vm = service();
    let k = kernel_space(&vm);
    let a = new_address_space(&mut vm).unwrap();
    assert_eq!(map_4k(&mut vm, &a, VirtAddr(0x3000), PhysAddr(0x7000), flags(WRITE)), Ok(()));
    activate(&mut vm, &a);
    assert_eq!(vm.mmu().current(), a);
    assert_eq!(unmap_4k(&mut vm, &a, VirtAddr(0x3000)), Ok(()));
    activate(&mut vm, &k);
    assert_eq!(
        take_hw_ops(&mut vm),
        vec![
            HwOp::FlushPage(VirtAddr(0x3000)),
            HwOp::LoadRoot(0x10000),
            HwOp::FlushPage(VirtAddr(0x3000)),
            HwOp::LoadRoot(0x1000)
        ]
    );
    assert!(take_hw_ops(&mut vm).is_empty());
}

#[test]
fn service_hands_out_its_writes() {
    let mut vm = service();
    assert!(kernel_vm::vm::take_writes(&mut vm).is_empty());
    let k = kernel_space(&vm);
    assert_eq!(map_4k(&mut vm, &k, VirtAddr(0x1000), PhysAddr(0x2000), flags(WRITE)), Ok(()));
    let writes = kernel_vm::vm::take_writes(&mut vm);
    // three tables are filled with zeroes twice and linked, then the leaf
    assert_eq!(writes.len(), 3 * (2 * 512 + 1) + 1);
    assert_eq!(writes[0], (0x10000 / 8, 0));
    assert_eq!(writes[1024], (0x1000 / 8, 0x10000 | 0x3));
    assert_eq!(writes[writes.len() - 1], (0x12000 / 8 + 1, 0x2000 | 0x3));
    assert!(kernel_vm::vm::take_writes(&mut vm).is_empty());
    assert_eq!(unmap_4k(&mut vm, &k, VirtAddr(0x1000)), Ok(()));
    assert_eq!(kernel_vm::vm::take_writes(&mut vm), vec![(0x12000 / 8 + 1, 0)]);
}

#[test]
fn entry_conditions_can_be_tested() {
    let mem = PhysMemory::new(16);
    let good = vec![
        region(0x0, 0x4000, MemType::Usable),
        region(0x2000, 0x4000, MemType::Reserved),
        region(0x8000, 0x8000, MemType::BootloaderReclaimable),
    ];
    assert!(check_memmap(&good));
    assert!(usable_within(&good, &mem));
    assert!(!usable_within(&good, &PhysMemory::new(15)));
    let overlapping = vec![
        region(0x0, 0x4000, MemType::Usable),
        region(0x3000, 0x4000, MemType::Usable),
    ];
    assert!(!check_memmap(&overlapping));
    let touching_backwards = vec![
        region(0x4000, 0x4000, MemType::Usable),
        region(0x0, 0x4000, MemType::Usable),
    ];
    assert!(check_memmap(&touching_backwards));
    let high = vec![region(0xf_ffff_ffff_f000, 0x2000, MemType::Usable)];
    assert!(!check_memmap(&high));
    let overflowing = vec![region(u64::MAX, 2, MemType::Usable)];
    assert!(!check_memmap(&overflowing));
    assert!(!usable_within(&overflowing, &mem));
    assert!(check_memmap(&vec![region(u64::MAX, 2, MemType::Mmio)]));
    assert!(check_memmap(&Vec::new()));
    let vm = service();
    assert!(vm.mmu().has_space(&kernel_space(&vm)));
    assert!(!vm.mmu().has_space(&kernel_vm::mmu::AddressSpace::from_ptr(0)));
    assert!(!vm.mmu().has_space(&kernel_vm::mmu::AddressSpace::from_ptr(1000)));
}

#[test]
fn boot_tables_are_tested_before_they_are_trusted() {
    let usable = vec![region(0x80000, 0x8000, MemType::Usable)];
    let mut mem = PhysMemory::new(256);
    let root = PhysAddr(0x1000);
    // an empty root
    assert!(check_boot_tables(&mem, root, &usable));
    // a chain of tables down to a leaf entry
    mem.write_entry(root, 0, 0x2000 | 0x3);
    mem.write_entry(PhysAddr(0x2000), 5, 0x3000 | 0x3);
    mem.write_entry(PhysAddr(0x3000), 7, 0x4000 | 0x3);
    mem.write_entry(PhysAddr(0x4000), 9, 0x7777_7000 | 0x3);
    assert!(check_boot_tables(&mem, root, &usable));
    // entries that are not present do not count
    mem.write_entry(root, 1, 0xffff_f000);
    assert!(check_boot_tables(&mem, root, &usable));
    // the same table behind two entries
    mem.write_entry(root, 2, 0x2000 | 0x1);
    assert!(!check_boot_tables(&mem, root, &usable));
    mem.write_entry(root, 2, 0);
    // the root behind one of its own entries
    mem.write_entry(root, 511, 0x1000 | 0x3);
    assert!(!check_boot_tables(&mem, root, &usable));
    mem.write_entry(root, 511, 0);
    // a table outside memory
    mem.write_entry(PhysAddr(0x2000), 6, 0x10_0000 | 0x1);
    assert!(!check_boot_tables(&mem, root, &usable));
    mem.write_entry(PhysAddr(0x2000), 6, 0);
    // a table that the frame source could hand out
    mem.write_entry(PhysAddr(0x3000), 8, 0x80000 | 0x1);
    assert!(!check_boot_tables(&mem, root, &usable));
    assert!(check_boot_tables(&mem, root, &Vec::new()));
    mem.write_entry(PhysAddr(0x3000), 8, 0);
    // a root outside memory, and one in usable memory
    assert!(!check_boot_tables(&mem, PhysAddr(0x10_0000), &usable));
    assert!(!check_boot_tables(&mem, PhysAddr(0x81000), &usable));
    assert!(in_map_frames(&usable, 0x87000));
    assert!(!in_map_frames(&usable, 0x88000));
    assert!(!in_map_frames(&usable, 0x80008));
    // tables that passed carry a service
    let _ = mem.take_writes();
    let vm = init(&boot(1), usable, mem, X86Mmu::new(), 0x1000);
    assert_eq!(
        translate(&vm, &kernel_space(&vm), VirtAddr((5 << 30) | (7 << 21) | (9 << 12) | 0x123)),
        Ok(PhysAddr(0x7777_7123))
    );
}

#[test]
fn bring_up_tests_every_condition() {
    let entries =
        || vec![region(0x0, 0x10000, MemType::Reserved), region(0x10000, 0x8000, MemType::Usable)];
    let mem = || PhysMemory::new(32);
    assert!(try_init(&boot(2), entries(), mem(), 0x1000).is_some());
    // the count of the view and the map differ
    assert!(try_init(&boot(3), entries(), mem(), 0x1000).is_none());
    let mut no_hhdm = boot(2);
    no_hhdm.hhdm_offset = 0;
    assert!(try_init(&no_hhdm, entries(), mem(), 0x1000).is_none());
    let mut no_map = boot(2);
    no_map.mem.entries_ptr = 0;
    assert!(try_init(&no_map, entries(), mem(), 0x1000).is_none());
    let mut odd = boot(2);
    odd.mem.entry_size = 32;
    assert!(try_init(&odd, entries(), mem(), 0x1000).is_none());
    assert!(try_init(&boot(0), Vec::new(), mem(), 0x1000).is_none());
    // usable regions that overlap, or that end behind the memory
    let overlapping =
        vec![region(0x10000, 0x8000, MemType::Usable), region(0x14000, 0x8000, MemType::Usable)];
    assert!(try_init(&boot(2), overlapping, mem(), 0x1000).is_none());
    assert!(try_init(&boot(2), entries(), PhysMemory::new(16), 0x1000).is_none());
    // no active root, and a root in usable memory
    assert!(try_init(&boot(2), entries(), mem(), 0xfff).is_none());
    assert!(try_init(&boot(2), entries(), mem(), 0x10000).is_none());
    let mut vm = try_init(&boot(2), entries(), mem(), 0x1018).unwrap();
    assert_eq!(vm.mmu().root_table(&kernel_space(&vm)), PhysAddr(0x1000));
    assert!(!vm.mmu().nxe());
    let regs = init_features(&mut vm, true, true, 0, 0, 0);
    assert_eq!(regs.efer, Some(1 << 11));
    assert!(vm.mmu().nxe());
    assert!(take_hw_ops(&mut vm).is_empty());
}

fn word_at(vm: &Vm, word: usize) -> u64 {
    vm.mem().read_entry(PhysAddr((word / 512 * 4096) as u64), word % 512)
}

#[test]
fn replayed_writes_rebuild_the_memory() {
    let mut vm = service();
    let mut copy = vec![0u64; vm.mem().len()];
    let _ = kernel_vm::vm::take_writes(&mut vm);
    for word in 0..copy.len() {
        copy[word] = word_at(&vm, word);
    }
    let k = kernel_space(&vm);
    assert_eq!(map_4k(&mut vm, &k, VirtAddr(0x1000), PhysAddr(0x2000), flags(WRITE)), Ok(()));
    let user = new_address_space(&mut vm).unwrap();
    assert_eq!(map_4k(&mut vm, &user, VirtAddr(0x5000), PhysAddr(0x6000), flags(USER)), Ok(()));
    assert_eq!(protect_4k(&mut vm, &user, VirtAddr(0x5000), flags(WRITE)), Ok(()));
    assert_eq!(unmap_4k(&mut vm, &k, VirtAddr(0x1000)), Ok(()));
    let writes = kernel_vm::vm::take_writes(&mut vm);
    assert!(!writes.is_empty());
    for (word, value) in writes {
        copy[word] = value;
    }
    for word in 0..copy.len() {
        assert_eq!(copy[word], word_at(&vm, word));
    }
    assert!(kernel_vm::vm::take_writes(&mut vm).is_empty());
}
