//! The kernel's virtual-memory service: one owner for physical memory, the
//! boot frame source and the page-table engine, so that every operation
//! needs no more than a valid service and a live address space.

use vstd::prelude::*;

use crate::boot_alloc::{
    ahead, check_memmap, in_region, is_usable, region_end, sane_memmap, spec_is_usable, BootPtAlloc,
};
use crate::boot_check::check_boot_tables;
use crate::bootabi::{BootInfo, MemMapEntry, MEMMAP_ENTRY_SIZE};
use crate::mmu::{
    taken, AddressSpace, HwOp, MapError, MapFlags, PageTableFrameAlloc, PhysAddr, TranslateError,
    VirtAddr,
};
use crate::paging::{
    pte_addr, spec_aligned_4k, spec_flags_to_pte, spec_is_canonical, spec_pml4_index, vpn,
    ADDR_MASK,
};
use crate::phys_mem::{frame_in, replay, PhysMemory};
use crate::tables::{kernel_half, teardown_order};
use crate::walk::{missing_tables, translate_spec};
use crate::x86_mmu::{
    boot_tables_ok, FeatureRegs, X86Mmu, CR0_WP, CR4_PGE, EFER_NXE, KERNEL_SPACE_ID,
    MAX_ADDRESS_SPACES,
};

verus! {

/// The virtual-memory service.
pub struct Vm {
    mem: PhysMemory,
    alloc: BootPtAlloc,
    mmu: X86Mmu,
}

/// The frames that a frame source over the memory map `map` can ever take
/// from the map.
pub open spec fn map_frames(map: Seq<MemMapEntry>) -> Set<u64> {
    Set::new(|f: u64| ahead(map, 0, 0, f))
}

impl Vm {
    /// The contents of physical memory.
    pub open spec fn memory(&self) -> Seq<u64> {
        self.phys()@
    }

    /// The page-table engine.
    pub closed spec fn engine(&self) -> X86Mmu {
        self.mmu
    }

    /// The frame source.
    pub closed spec fn source(&self) -> BootPtAlloc {
        self.alloc
    }

    /// The invariant of the service: the engine is valid for the memory and
    /// has a kernel address space, and the frame source is valid, draws from
    /// the memory and holds no page table among its free frames.
    pub closed spec fn wf(&self) -> bool {
        &&& self.mmu.wf(self.mem@)
        &&& self.mmu.fed_by(self.mem@, &self.alloc)
        &&& self.mmu.kernel_root() is Some
    }

    /// Whether `aspace` is the kernel address space or a registered one.
    pub open spec fn is_live(&self, aspace: AddressSpace) -> bool {
        self.engine().is_live(aspace)
    }

    /// The view of a live address space.
    pub open spec fn view_of(&self, aspace: AddressSpace) -> Map<u64, u64> {
        self.engine().view_of(self.memory(), aspace)
    }

    /// Physical memory, for reading.
    pub fn mem(&self) -> (r: &PhysMemory)
        ensures
            r@ == self.memory(),
            *r == self.phys(),
    {
        &self.mem
    }

    /// The page-table engine, for reading.
    pub fn mmu(&self) -> (r: &X86Mmu)
        ensures
            *r == self.engine(),
    {
        &self.mmu
    }

    /// The frame source, for reading.
    pub fn frame_source(&self) -> (r: &BootPtAlloc)
        ensures
            *r == self.source(),
    {
        &self.alloc
    }
}

/// Whether every usable region of the memory map ends within `mem`, so that
/// every frame of the map lies in `mem`.
pub fn usable_within(entries: &Vec<MemMapEntry>, mem: &PhysMemory) -> (r: bool)
    ensures
        r == forall|i: int|
            0 <= i < entries@.len() && spec_is_usable((#[trigger] entries@[i]).mem_type)
                ==> region_end(entries@[i]) <= mem@.len() * 8,
        r ==> forall|f: u64| #[trigger] map_frames(entries@).contains(f) ==> frame_in(mem@, f),
{
    let words = mem.len();
    let mut i: usize = 0;
    while i < entries.len()
        invariant
            i <= entries@.len(),
            words == mem@.len(),
            forall|k: int|
                0 <= k < i && spec_is_usable((#[trigger] entries@[k]).mem_type) ==> region_end(
                    entries@[k],
                ) <= words * 8,
        decreases entries@.len() - i,
    {
        let e = entries[i];
        if is_usable(e.mem_type) {
            let end: u128 = e.base.0 as u128 + e.len as u128;
            let limit: u128 = words as u128 * 8;
            let fits = end <= limit;
            if !fits {
                assert(region_end(entries@[i as int]) > words * 8);
                return false;
            }
        }
        i = i + 1;
    }
    proof {
        let map = entries@;
        assert forall|f: u64| #[trigger] map_frames(map).contains(f) implies frame_in(mem@, f) by {
            if in_region(map, 0, 0, f) {
                assert(spec_is_usable(map[0].mem_type));
            } else {
                let k = choose|k: int| 0 < k && #[trigger] in_region(map, k, 0, f);
                assert(spec_is_usable(map[k].mem_type));
            }
        }
    }
    true
}

/// Brings the service up: makes the frame source over the memory map
/// `entries` that `boot` describes, and establishes the kernel address space
/// from the root table that `cr3` names.
///
/// The boot information must allow a frame source, the memory map must be
/// sane and its usable frames must lie in `mem`, a root table must be active,
/// and its tables must form a forest that shares no frame with the usable
/// frames of the map.
pub fn init(
    boot: &BootInfo,
    entries: Vec<MemMapEntry>,
    mem: PhysMemory,
    mmu: X86Mmu,
    cr3: u64,
) -> (vm: Vm)
    requires
        entries@.len() == boot.mem.entry_count,
        boot.hhdm_offset != 0,
        boot.mem.entries_ptr != 0,
        boot.mem.entry_count != 0,
        boot.mem.entry_size == MEMMAP_ENTRY_SIZE,
        sane_memmap(entries@),
        forall|f: u64| #[trigger] map_frames(entries@).contains(f) ==> frame_in(mem@, f),
        mmu.wf(mem@),
        mmu.kernel_root() is None,
        pte_addr(cr3) != 0,
        boot_tables_ok(mem@, pte_addr(cr3), map_frames(entries@)),
    ensures
        vm.phys() == mem,
        vm.wf(),
        vm.memory() == mem@,
        vm.source().memmap() == entries@,
        vm.source().free_list() == Seq::<u64>::empty(),
        vm.source().cursor_entry() == 0,
        vm.source().cursor_addr() == 0,
        vm.engine().kernel_root() == Some(pte_addr(cr3)),
        vm.engine().current_space() is Some,
        vm.engine().current_space().unwrap().id() == KERNEL_SPACE_ID,
        vm.engine().nxe_enabled() == mmu.nxe_enabled(),
        vm.engine().hw_ops() == mmu.hw_ops(),
        forall|i: int| !vm.engine().slot_used(i),
{
    let ghost before = mmu;
    let alloc = BootPtAlloc::new(boot, entries).unwrap();
    let mut mmu = mmu;
    proof {
        assert(alloc.free_frames() =~= map_frames(entries@)) by {
            assert forall|f: u64| alloc.free_list().contains(f) implies false by {}
        }
    }
    let r = mmu.init_kernel_avoiding(&mem, cr3, Ghost(alloc.free_frames()));
    proof {
        before.lemma_no_kernel_no_slots(mem@);
    }
    Vm { mem, alloc, mmu }
}

/// Whether the service can be brought up from this boot information,
/// memory map, memory and root-table register: the boot information allows
/// a frame source over the map, the map is sane and its usable regions end
/// within the memory, a root table is active, and its tables form a forest
/// that shares no frame with the usable frames of the map.
pub open spec fn can_init(
    boot: &BootInfo,
    entries: Seq<MemMapEntry>,
    m: Seq<u64>,
    cr3: u64,
) -> bool {
    &&& entries.len() == boot.mem.entry_count
    &&& boot.hhdm_offset != 0
    &&& boot.mem.entries_ptr != 0
    &&& boot.mem.entry_count != 0
    &&& boot.mem.entry_size == MEMMAP_ENTRY_SIZE
    &&& sane_memmap(entries)
    &&& forall|i: int|
        0 <= i < entries.len() && spec_is_usable((#[trigger] entries[i]).mem_type) ==> region_end(
            entries[i],
        ) <= m.len() * 8
    &&& pte_addr(cr3) != 0
    &&& boot_tables_ok(m, pte_addr(cr3), map_frames(entries))
}

/// Brings the service up with a new engine if it can be brought up, and
/// says so if it cannot. Nothing is asked of the arguments: every condition
/// is tested.
pub fn try_init(
    boot: &BootInfo,
    entries: Vec<MemMapEntry>,
    mem: PhysMemory,
    cr3: u64,
) -> (r: Option<Vm>)
    ensures
        r is Some <==> can_init(boot, entries@, mem@, cr3),
        r matches Some(vm) ==> {
            &&& vm.wf()
            &&& vm.memory() == mem@
            &&& vm.phys() == mem
            &&& vm.source().memmap() == entries@
            &&& vm.source().free_list() == Seq::<u64>::empty()
            &&& vm.source().cursor_entry() == 0
            &&& vm.source().cursor_addr() == 0
            &&& vm.engine().kernel_root() == Some(pte_addr(cr3))
            &&& vm.engine().current_space() is Some
            &&& vm.engine().current_space().unwrap().id() == KERNEL_SPACE_ID
            &&& !vm.engine().nxe_enabled()
            &&& vm.engine().hw_ops() == Seq::<HwOp>::empty()
            &&& forall|i: int| !vm.engine().slot_used(i)
        },
{
    if entries.len() != boot.mem.entry_count as usize {
        return None;
    }
    if boot.hhdm_offset == 0 || boot.mem.entries_ptr == 0 || boot.mem.entry_count == 0
        || boot.mem.entry_size != MEMMAP_ENTRY_SIZE {
        return None;
    }
    if !check_memmap(&entries) {
        return None;
    }
    if !usable_within(&entries, &mem) {
        return None;
    }
    let root = cr3 & ADDR_MASK;
    if root == 0 {
        return None;
    }
    if !check_boot_tables(&mem, PhysAddr(root), &entries) {
        return None;
    }
    let mmu = X86Mmu::new();
    Some(init(boot, entries, mem, mmu, cr3))
}

/// Computes the control-register values that turn on write protection and
/// global pages, and no-execute when it is asked for and supported, and
/// records whether no-execute is on.
pub fn init_features(
    vm: &mut Vm,
    enable_nx: bool,
    has_nx: bool,
    cr0: u64,
    cr4: u64,
    efer: u64,
) -> (r: FeatureRegs)
    requires
        old(vm).wf(),
    ensures
        final(vm).phys() == old(vm).phys(),
        final(vm).wf(),
        final(vm).memory() == old(vm).memory(),
        final(vm).source() == old(vm).source(),
        r.cr0 == cr0 | CR0_WP,
        r.cr4 == cr4 | CR4_PGE,
        r.efer == if enable_nx && has_nx {
            Some(efer | EFER_NXE)
        } else {
            None
        },
        final(vm).engine().nxe_enabled() == (enable_nx && has_nx),
        final(vm).engine().kernel_root() == old(vm).engine().kernel_root(),
        final(vm).engine().current_space() == old(vm).engine().current_space(),
        final(vm).engine().hw_ops() == old(vm).engine().hw_ops(),
        forall|a: AddressSpace| final(vm).is_live(a) == old(vm).is_live(a),
        forall|a: AddressSpace| final(vm).view_of(a) == old(vm).view_of(a),
{
    let ghost before = vm.mmu;
    let r = vm.mmu.init_features(enable_nx, has_nx, cr0, cr4, efer);
    proof {
        assert forall|a: AddressSpace| vm.mmu.view_of(vm.mem@, a) == before.view_of(vm.mem@, a) by {
            assert(vm.mmu.root_of(a) == before.root_of(a));
        }
    }
    r
}

/// The handle of the kernel address space.
pub fn kernel_space(vm: &Vm) -> (r: AddressSpace)
    requires
        vm.wf(),
    ensures
        r.id() == KERNEL_SPACE_ID,
        vm.is_live(r),
{
    proof {
        AddressSpace::lemma_from_ptr_id(KERNEL_SPACE_ID);
    }
    AddressSpace::from_ptr(KERNEL_SPACE_ID)
}

/// Creates an address space that shares the kernel half of the kernel
/// address space.
///
/// Succeeds exactly when the frame source has a frame and the registry has
/// an unused slot; otherwise fails with `OutOfMemory`. The source is asked
/// for its next frame in either case, and a frame that finds no slot is
/// lost. On success the new address space is live, takes the first unused
/// slot, has that frame as its root and shows the kernel half of the
/// kernel's view. The views of the existing address spaces stay as they
/// were.
pub fn new_address_space(vm: &mut Vm) -> (r: Result<AddressSpace, MapError>)
    requires
        old(vm).wf(),
    ensures
        final(vm).phys().follows(&old(vm).phys()),
        final(vm).wf(),
        final(vm).memory().len() == old(vm).memory().len(),
        final(vm).engine().kernel_root() == old(vm).engine().kernel_root(),
        forall|a: AddressSpace| #[trigger]
            old(vm).is_live(a) ==> final(vm).is_live(a) && final(vm).view_of(a)
                == old(vm).view_of(a),
        match r {
            Ok(h) => {
                &&& 0 <= h.id() < MAX_ADDRESS_SPACES
                &&& !old(vm).is_live(h)
                &&& final(vm).is_live(h)
                &&& forall|j: int| 0 <= j < h.id() ==> old(vm).engine().slot_used(j)
                &&& final(vm).view_of(h) == kernel_half(
                    old(vm).view_of(AddressSpace::from_ptr(KERNEL_SPACE_ID)),
                )
            },
            Err(e) => {
                &&& e == MapError::OutOfMemory
                &&& forall|a: AddressSpace| final(vm).is_live(a) == old(vm).is_live(a)
            },
        },
        r is Ok <==> old(vm).source().supply() > 0 && !old(vm).engine().registry_full(),
        old(vm).source().supply() > 0 <==> old(vm).source().next_frame() is Some,
        r matches Ok(h) ==> Some(final(vm).engine().root_of(h)) == old(vm).source().next_frame(),
{
    let ghost before = vm.mmu;
    let ghost m0 = vm.mem@;
    proof {
        vm.alloc.lemma_next_frame_supply();
    }
    let frame = vm.alloc.alloc_frame_4k(&mut vm.mem);
    let ghost m1 = vm.mem@;
    proof {
        before.lemma_fresh_frame_keeps(m0, frame);
    }
    let r = vm.mmu.address_space_with_root(&mut vm.mem, frame);
    proof {
        let k = AddressSpace::from_ptr(KERNEL_SPACE_ID);
        AddressSpace::lemma_from_ptr_id(KERNEL_SPACE_ID);
        assert(before.is_live(k));
        assert(before.view_of(m1, k) == before.view_of(m0, k));
        assert forall|a: AddressSpace| #[trigger] before.is_live(a) implies before.view_of(
            vm.mem@,
            a,
        ) == before.view_of(m0, a) by {
            assert(before.view_of(vm.mem@, a) == before.view_of(m1, a));
            assert(before.view_of(m1, a) == before.view_of(m0, a));
        }
        assert forall|a: AddressSpace| #[trigger] before.is_live(a) implies vm.mmu.is_live(a)
            && vm.mmu.view_of(vm.mem@, a) == before.view_of(m0, a) by {
            assert(before.view_of(vm.mem@, a) == before.view_of(m0, a));
        }
        AddressSpace::lemma_from_ptr_id(KERNEL_SPACE_ID);
    }
    r
}

/// Destroys the address space `aspace` and hands the page-table frames of
/// its user half and its root back to the frame source. Does nothing for
/// the kernel address space.
///
/// Afterwards the address space is not live, unless it is the kernel's; all
/// others stay live with their views. Memory is not written.
pub fn destroy_address_space(vm: &mut Vm, aspace: AddressSpace)
    requires
        old(vm).wf(),
        old(vm).is_live(aspace),
    ensures
        final(vm).phys() == old(vm).phys(),
        final(vm).wf(),
        final(vm).memory() == old(vm).memory(),
        final(vm).engine().kernel_root() == old(vm).engine().kernel_root(),
        aspace.id() == KERNEL_SPACE_ID ==> final(vm).engine() == old(vm).engine()
            && final(vm).source().free_frames() == old(vm).source().free_frames(),
        aspace.id() != KERNEL_SPACE_ID ==> !final(vm).is_live(aspace),
        final(vm).source().handed_back() == if aspace.id() == KERNEL_SPACE_ID {
            old(vm).source().handed_back()
        } else {
            old(vm).source().handed_back() + teardown_order(
                old(vm).memory(),
                old(vm).engine().root_of(aspace),
            )
        },
        forall|a: AddressSpace| #[trigger]
            old(vm).is_live(a) && a.id() != aspace.id() ==> final(vm).is_live(a)
                && final(vm).view_of(a) == old(vm).view_of(a),
        forall|a: AddressSpace| #[trigger] final(vm).is_live(a) ==> old(vm).is_live(a),
        old(vm).source().free_frames().subset_of(final(vm).source().free_frames()),
        forall|f: u64| #[trigger]
            final(vm).source().free_frames().contains(f)
                ==> old(vm).source().free_frames().contains(
                f,
            ) || old(vm).engine().table_frames().contains(f),
{
    vm.mmu.address_space_destroy(&vm.mem, &mut vm.alloc, aspace);
}

/// Maps the page at `vaddr` in `aspace` to the frame at `paddr` with the
/// hardware bits that `flags` ask for.
///
/// Fails with `Unaligned` when either address is not page-aligned, with
/// `InvalidArgs` when `vaddr` is not canonical, with `AlreadyMapped` when the
/// page is mapped, and with `OutOfMemory` when more tables are missing on
/// the walk than the frame source has frames to supply. In every other case
/// it succeeds. On failure every view stays as it was.
pub fn map_4k(
    vm: &mut Vm,
    aspace: &AddressSpace,
    vaddr: VirtAddr,
    paddr: PhysAddr,
    flags: MapFlags,
) -> (r: Result<(), MapError>)
    requires
        old(vm).wf(),
        old(vm).is_live(*aspace),
    ensures
        final(vm).phys().follows(&old(vm).phys()),
        final(vm).wf(),
        final(vm).memory().len() == old(vm).memory().len(),
        final(vm).engine().same_registry(&old(vm).engine()),
        forall|a: AddressSpace| final(vm).is_live(a) == old(vm).is_live(a),
        match r {
            Ok(()) => {
                &&& spec_aligned_4k(vaddr.0)
                &&& spec_aligned_4k(paddr.0)
                &&& spec_is_canonical(vaddr.0)
                &&& !old(vm).view_of(*aspace).dom().contains(vpn(vaddr.0))
                &&& final(vm).view_of(*aspace) == old(vm).view_of(*aspace).insert(
                    vpn(vaddr.0),
                    pte_addr(paddr.0) | spec_flags_to_pte(flags, old(vm).engine().nxe_enabled()),
                )
            },
            Err(e) => {
                &&& forall|a: AddressSpace| #[trigger]
                    old(vm).is_live(a) ==> final(vm).view_of(a) == old(vm).view_of(a)
                &&& e == if !spec_aligned_4k(vaddr.0) || !spec_aligned_4k(paddr.0) {
                    MapError::Unaligned
                } else if !spec_is_canonical(vaddr.0) {
                    MapError::InvalidArgs
                } else if old(vm).view_of(*aspace).dom().contains(vpn(vaddr.0)) {
                    MapError::AlreadyMapped
                } else {
                    MapError::OutOfMemory
                }
                &&& e == MapError::OutOfMemory ==> !old(vm).engine().has_leaf_table(
                    old(vm).memory(),
                    *aspace,
                    vaddr.0,
                )
                &&& e != MapError::OutOfMemory ==> final(vm).memory() == old(vm).memory()
            },
        },
        forall|other: AddressSpace|
            old(vm).is_live(other) && old(vm).engine().root_of(other) != old(vm).engine().root_of(
                *aspace,
            ) && spec_pml4_index(vaddr.0) < 256 ==> #[trigger] final(vm).view_of(other)
                == old(vm).view_of(other),
        final(vm).engine().hw_ops() == if r is Ok {
            old(vm).engine().hw_ops().push(HwOp::FlushPage(vaddr))
        } else {
            old(vm).engine().hw_ops()
        },
        final(vm).source().handed_back() == old(vm).source().handed_back(),
        final(vm).engine().table_frames() == old(vm).engine().table_frames().union(
            taken(old(vm).source().free_frames(), final(vm).source().free_frames()),
        ),
        r is Ok <==> spec_aligned_4k(vaddr.0) && spec_aligned_4k(paddr.0) && spec_is_canonical(
            vaddr.0,
        ) && !old(vm).view_of(*aspace).dom().contains(vpn(vaddr.0)) && old(vm).source().supply()
            >= missing_tables(old(vm).memory(), old(vm).engine().root_of(*aspace), vaddr.0),
        r is Ok ==> final(vm).source().supply() == old(vm).source().supply() - missing_tables(
            old(vm).memory(),
            old(vm).engine().root_of(*aspace),
            vaddr.0,
        ),
{
    let ghost before = vm.mmu;
    let ghost m0 = vm.mem@;
    let r = vm.mmu.map_4k(&mut vm.mem, &mut vm.alloc, aspace, vaddr, paddr, flags);
    proof {
        vm.mmu.lemma_same_registry(&before);
        let m1 = vm.mem@;
        assert forall|a: AddressSpace| vm.mmu.view_of(m1, a) == before.view_of(m1, a) by {
            assert(vm.mmu.root_of(a) == before.root_of(a));
        }
        if r is Err {
            assert forall|a: AddressSpace| #[trigger] before.is_live(a) implies vm.mmu.view_of(
                m1,
                a,
            ) == before.view_of(m0, a) by {
                assert(before.view_of(m1, a) == before.view_of(m0, a));
            }
        }
        assert forall|other: AddressSpace|
            before.is_live(other) && before.root_of(other) != before.root_of(*aspace)
                && spec_pml4_index(vaddr.0) < 256 implies #[trigger] vm.mmu.view_of(m1, other)
            == before.view_of(m0, other) by {
            assert(before.view_of(m1, other) == before.view_of(m0, other));
        }
    }
    r
}

/// Removes the mapping of the page at `vaddr` from `aspace`.
///
/// Fails with `Unaligned` when `vaddr` is not page-aligned, with
/// `InvalidArgs` when it is not canonical, and with `NotMapped` when the page
/// is not mapped. On failure nothing changes.
pub fn unmap_4k(vm: &mut Vm, aspace: &AddressSpace, vaddr: VirtAddr) -> (r: Result<(), MapError>)
    requires
        old(vm).wf(),
        old(vm).is_live(*aspace),
    ensures
        final(vm).phys().follows(&old(vm).phys()),
        final(vm).wf(),
        final(vm).memory().len() == old(vm).memory().len(),
        final(vm).engine().same_registry(&old(vm).engine()),
        forall|a: AddressSpace| final(vm).is_live(a) == old(vm).is_live(a),
        final(vm).engine().hw_ops() == if r is Ok {
            old(vm).engine().hw_ops().push(HwOp::FlushPage(vaddr))
        } else {
            old(vm).engine().hw_ops()
        },
        match r {
            Ok(()) => {
                &&& spec_aligned_4k(vaddr.0)
                &&& spec_is_canonical(vaddr.0)
                &&& old(vm).view_of(*aspace).dom().contains(vpn(vaddr.0))
                &&& final(vm).view_of(*aspace) == old(vm).view_of(*aspace).remove(vpn(vaddr.0))
            },
            Err(e) => {
                &&& final(vm).memory() == old(vm).memory()
                &&& e == if !spec_aligned_4k(vaddr.0) {
                    MapError::Unaligned
                } else if !spec_is_canonical(vaddr.0) {
                    MapError::InvalidArgs
                } else {
                    MapError::NotMapped
                }
                &&& spec_aligned_4k(vaddr.0) && spec_is_canonical(vaddr.0) ==> !old(vm).view_of(
                    *aspace,
                ).dom().contains(vpn(vaddr.0))
            },
        },
        forall|other: AddressSpace|
            old(vm).is_live(other) && old(vm).engine().root_of(other) != old(vm).engine().root_of(
                *aspace,
            ) && spec_pml4_index(vaddr.0) < 256 ==> #[trigger] final(vm).view_of(other)
                == old(vm).view_of(other),
{
    let ghost before = vm.mmu;
    let ghost m0 = vm.mem@;
    let r = vm.mmu.unmap_4k(&mut vm.mem, aspace, vaddr);
    proof {
        vm.mmu.lemma_same_registry(&before);
        vm.mmu.lemma_same_views(&before, vm.mem@);
        vm.mmu.lemma_same_feeding(&before, m0, vm.mem@, &vm.alloc);
    }
    r
}

/// Gives the mapped page at `vaddr` the hardware bits that `flags` ask for
/// and keeps its physical target.
///
/// Fails as `unmap_4k` does. On failure nothing changes.
pub fn protect_4k(
    vm: &mut Vm,
    aspace: &AddressSpace,
    vaddr: VirtAddr,
    flags: MapFlags,
) -> (r: Result<(), MapError>)
    requires
        old(vm).wf(),
        old(vm).is_live(*aspace),
    ensures
        final(vm).phys().follows(&old(vm).phys()),
        final(vm).wf(),
        final(vm).memory().len() == old(vm).memory().len(),
        final(vm).engine().same_registry(&old(vm).engine()),
        forall|a: AddressSpace| final(vm).is_live(a) == old(vm).is_live(a),
        final(vm).engine().hw_ops() == if r is Ok {
            old(vm).engine().hw_ops().push(HwOp::FlushPage(vaddr))
        } else {
            old(vm).engine().hw_ops()
        },
        match r {
            Ok(()) => {
                &&& spec_aligned_4k(vaddr.0)
                &&& spec_is_canonical(vaddr.0)
                &&& old(vm).view_of(*aspace).dom().contains(vpn(vaddr.0))
                &&& final(vm).view_of(*aspace) == old(vm).view_of(*aspace).insert(
                    vpn(vaddr.0),
                    pte_addr(old(vm).view_of(*aspace)[vpn(vaddr.0)]) | spec_flags_to_pte(
                        flags,
                        old(vm).engine().nxe_enabled(),
                    ),
                )
            },
            Err(e) => {
                &&& final(vm).memory() == old(vm).memory()
                &&& e == if !spec_aligned_4k(vaddr.0) {
                    MapError::Unaligned
                } else if !spec_is_canonical(vaddr.0) {
                    MapError::InvalidArgs
                } else {
                    MapError::NotMapped
                }
                &&& spec_aligned_4k(vaddr.0) && spec_is_canonical(vaddr.0) ==> !old(vm).view_of(
                    *aspace,
                ).dom().contains(vpn(vaddr.0))
            },
        },
        forall|other: AddressSpace|
            old(vm).is_live(other) && old(vm).engine().root_of(other) != old(vm).engine().root_of(
                *aspace,
            ) && spec_pml4_index(vaddr.0) < 256 ==> #[trigger] final(vm).view_of(other)
                == old(vm).view_of(other),
{
    let ghost before = vm.mmu;
    let ghost m0 = vm.mem@;
    let r = vm.mmu.protect_4k(&mut vm.mem, aspace, vaddr, flags);
    proof {
        vm.mmu.lemma_same_registry(&before);
        vm.mmu.lemma_same_views(&before, vm.mem@);
        vm.mmu.lemma_same_feeding(&before, m0, vm.mem@, &vm.alloc);
    }
    r
}

/// Translates `vaddr` in `aspace`: the frame address of the page's leaf
/// entry with the page offset of `vaddr`.
///
/// Fails with `InvalidAddress` for a non-canonical address and with
/// `NotMapped` when the page is not mapped. Reads only.
pub fn translate(vm: &Vm, aspace: &AddressSpace, vaddr: VirtAddr) -> (r: Result<
    PhysAddr,
    TranslateError,
>)
    requires
        vm.wf(),
        vm.is_live(*aspace),
    ensures
        r == translate_spec(vm.view_of(*aspace), vaddr.0),
{
    vm.mmu.translate(&vm.mem, aspace, vaddr)
}

/// Makes `aspace` the current address space and records that the
/// root-table register is to be loaded with the frame address of its root.
pub fn activate(vm: &mut Vm, aspace: &AddressSpace)
    requires
        old(vm).wf(),
        old(vm).is_live(*aspace),
    ensures
        final(vm).phys() == old(vm).phys(),
        final(vm).wf(),
        final(vm).memory() == old(vm).memory(),
        final(vm).source() == old(vm).source(),
        final(vm).engine().current_space() == Some(*aspace),
        final(vm).engine().hw_ops() == old(vm).engine().hw_ops().push(
            HwOp::LoadRoot(pte_addr(old(vm).engine().root_of(*aspace))),
        ),
        forall|a: AddressSpace| final(vm).is_live(a) == old(vm).is_live(a),
        forall|a: AddressSpace| final(vm).view_of(a) == old(vm).view_of(a),
{
    let ghost before = vm.mmu;
    vm.mmu.activate(aspace);
    proof {
        vm.mmu.lemma_same_slots(&before);
        assert forall|a: AddressSpace| vm.mmu.view_of(vm.mem@, a) == before.view_of(vm.mem@, a) by {
            assert(vm.mmu.root_of(a) == before.root_of(a));
        }
    }
}

/// Takes the hardware operations that the service has recorded, oldest
/// first, to carry them out. None stays recorded.
pub fn take_hw_ops(vm: &mut Vm) -> (r: Vec<HwOp>)
    requires
        old(vm).wf(),
    ensures
        final(vm).phys() == old(vm).phys(),
        final(vm).wf(),
        r@ == old(vm).engine().hw_ops(),
        final(vm).engine().hw_ops() == Seq::<HwOp>::empty(),
        final(vm).memory() == old(vm).memory(),
        final(vm).source() == old(vm).source(),
        final(vm).engine().same_registry(&old(vm).engine()),
        forall|a: AddressSpace| final(vm).is_live(a) == old(vm).is_live(a),
        forall|a: AddressSpace| final(vm).view_of(a) == old(vm).view_of(a),
{
    let ghost before = vm.mmu;
    let r = vm.mmu.take_hw_ops();
    proof {
        vm.mmu.lemma_same_but_ops(&before);
        vm.mmu.lemma_same_registry(&before);
        vm.mmu.lemma_same_slots(&before);
        assert forall|a: AddressSpace| vm.mmu.view_of(vm.mem@, a) == before.view_of(vm.mem@, a) by {
            assert(vm.mmu.root_of(a) == before.root_of(a));
        }
    }
    r
}

/// Takes the writes that were made to the service's memory since they were
/// taken last, oldest first: the index of the word and its new value.
///
/// The memory itself stays as it is and counts as the memory of the last
/// taking from now on; no write stays pending. If the pending writes
/// accounted for every change, then whoever replays the writes that were
/// taken on a copy of the memory of the taking before has a copy of the
/// service's memory.
pub fn take_writes(vm: &mut Vm) -> (r: Vec<(usize, u64)>)
    requires
        old(vm).wf(),
    ensures
        final(vm).wf(),
        r@ == old(vm).phys().pending(),
        final(vm).phys().pending() == Seq::<(usize, u64)>::empty(),
        final(vm).phys().flushed() == old(vm).memory(),
        final(vm).phys().coherent(),
        old(vm).phys().coherent() ==> replay(old(vm).phys().flushed(), r@) == old(vm).memory(),
        final(vm).memory() == old(vm).memory(),
        final(vm).source() == old(vm).source(),
        final(vm).engine() == old(vm).engine(),
{
    vm.mem.take_writes()
}

impl Vm {
    /// The physical memory with its record of writes.
    pub closed spec fn phys(&self) -> PhysMemory {
        self.mem
    }
}

} // verus!
