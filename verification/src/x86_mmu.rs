//! The page-table engine for 4-level paging and the registry of address
//! spaces that it serves.
//!
//! The engine owns no memory: every operation works on the physical memory
//! and the frame source that the caller hands in, and its contract says what
//! the operation does to the view of the address space concerned.

use vstd::prelude::*;

use crate::mmu::{
    feeds, taken, AddressSpace, HwOp, MapError, MapFlags, Mmu, PageTableFrameAlloc, PhysAddr,
    TranslateError, VirtAddr, USER,
};
use crate::paging::{
    aligned_4k, flags_to_pte, is_canonical, lemma_index_bounds, lemma_leaf_bits, lemma_pte_addr,
    lemma_table_entry, pd_index, pdpt_index, pml4_index, pt_index, pte_addr, pte_present,
    spec_aligned_4k, spec_flags_to_pte, spec_is_canonical, spec_pd_index, spec_pdpt_index,
    spec_pml4_index, spec_pt_index, table_entry, vpn, ADDR_MASK, ENTRY_COUNT, KERNEL_PML4_START,
    PTE_P, PTE_PS, PTE_U, PTE_W,
};
use crate::phys_mem::{
    entry, frame_in, frame_is_zero, lemma_slots_distinct, word_index, zeroed, PhysMemory,
};
use crate::tables::{
    child_tag, descends, freed_so_far, is_root, kernel_half, leaf_tables_upto, lemma_frame_addr,
    lemma_install, lemma_leaf_write_other, lemma_leaf_write_view, lemma_new_root,
    lemma_remove_space, lemma_walk_tags, lemma_walks_kept_trans, lemma_walks_kept_view,
    lemma_zero_fresh, max_words, pd_tables_upto, root_tag, space_tables, tables_wf, teardown_order,
    user_tables_upto, walks_kept, with_new_root, TableTag,
};
use crate::walk::{
    leaf_entry, leaf_target, lemma_view_at, missing_tables, next_table, pd_of, pt_of, space_view,
    translate_spec,
};

verus! {

/// Capacity of the address-space registry.
pub const MAX_ADDRESS_SPACES: usize = 64;

/// The identity that the handle of the kernel address space carries. The
/// handle of a registered address space carries the index of its slot.
pub const KERNEL_SPACE_ID: usize = 64;

/// Control-register bit CR0.WP: supervisor writes honour read-only pages.
pub const CR0_WP: u64 = 0x1_0000;

/// Control-register bit CR4.PGE: global pages.
pub const CR4_PGE: u64 = 0x80;

/// Bit NXE of the extended-feature register: no-execute pages.
pub const EFER_NXE: u64 = 0x800;

/// The register values that feature initialisation asks to be written.
#[derive(Clone, Copy, Debug, PartialEq, Eq, Structural)]
pub struct FeatureRegs {
    pub cr0: u64,
    pub cr4: u64,
    /// The new value of the extended-feature register, if it is to change.
    pub efer: Option<u64>,
}

/// Whether the tables reachable from `root` in `m` can serve as the kernel
/// address space: they form a forest, and none of their frames lies in
/// `avoid`.
pub open spec fn boot_tables_ok(m: Seq<u64>, root: u64, avoid: Set<u64>) -> bool {
    exists|tags: Map<u64, TableTag>|
        tables_wf(m, tags) && is_root(tags, root) && #[trigger] tags.dom().disjoint(avoid)
}

/// An empty root table can serve as the kernel address space: a frame of
/// zeroes in memory is a forest of one table.
pub proof fn lemma_empty_root_bootable(m: Seq<u64>, root: u64, avoid: Set<u64>)
    requires
        m.len() <= max_words(),
        frame_in(m, root),
        frame_is_zero(m, root),
        !avoid.contains(root),
    ensures
        boot_tables_ok(m, root, avoid),
{
    let tags = Map::<u64, TableTag>::empty().insert(root, root_tag(root));
    crate::tables::lemma_zero_absent();
    assert forall|f: u64, k: int|
        tags.dom().contains(f) && 0 <= k < 512 && tags[f].level > 1 && pte_present(
            #[trigger] entry(m, f, k),
        ) implies tags.dom().contains(pte_addr(entry(m, f, k))) && crate::tables::child_tag_ok(
        tags[f],
        k,
        tags[pte_addr(entry(m, f, k))],
    ) by {
        assert(entry(m, root, k) == 0);
    }
    assert(tables_wf(m, tags));
    assert(is_root(tags, root));
    assert(tags.dom().disjoint(avoid));
}

/// One slot of the registry.
#[derive(Clone, Copy)]
pub struct AddressSpaceSlot {
    pub used: bool,
    pub root: PhysAddr,
    pub handle: AddressSpace,
}

/// The engine's state: the kernel address space, the registry, the address
/// space that was activated last, and whether no-execute is on.
pub struct X86Mmu {
    kernel: Option<PhysAddr>,
    current: Option<AddressSpace>,
    slots: Vec<AddressSpaceSlot>,
    nxe: bool,
    pending: Vec<HwOp>,
    tags: Ghost<Map<u64, TableTag>>,
}

impl X86Mmu {
    /// The root table of the kernel address space, once it is established.
    pub closed spec fn kernel_root(&self) -> Option<u64> {
        match self.kernel {
            Some(k) => Some(k.0),
            None => None,
        }
    }

    /// Whether slot `i` of the registry is in use.
    pub closed spec fn slot_used(&self, i: int) -> bool {
        0 <= i < self.slots@.len() && self.slots@[i].used
    }

    /// The root table that slot `i` of the registry holds.
    pub closed spec fn slot_root(&self, i: int) -> u64 {
        if 0 <= i < self.slots@.len() {
            self.slots@[i].root.0
        } else {
            0
        }
    }

    /// Whether the registry holds in every slot what the registry of `other`
    /// holds.
    pub closed spec fn same_slots(&self, other: &X86Mmu) -> bool {
        self.slots@ == other.slots@
    }

    /// The address space that was activated last.
    pub closed spec fn current_space(&self) -> Option<AddressSpace> {
        self.current
    }

    /// Whether the no-execute feature is on.
    pub closed spec fn nxe_enabled(&self) -> bool {
        self.nxe
    }

    /// The hardware operations that were recorded and not yet taken, oldest
    /// first.
    pub closed spec fn hw_ops(&self) -> Seq<HwOp> {
        self.pending@
    }

    /// The frames that serve as page tables of any address space.
    pub closed spec fn table_frames(&self) -> Set<u64> {
        self.tags@.dom()
    }

    /// Whether every slot of the registry is in use.
    pub open spec fn registry_full(&self) -> bool {
        forall|i: int| 0 <= i < MAX_ADDRESS_SPACES ==> self.slot_used(i)
    }

    /// The number of slots among the first `n` that are in use.
    pub open spec fn used_upto(&self, n: int) -> nat
        decreases n,
    {
        if n <= 0 {
            0
        } else if self.slot_used(n - 1) {
            self.used_upto(n - 1) + 1
        } else {
            self.used_upto(n - 1)
        }
    }

    /// The number of registered address spaces.
    pub open spec fn used_slots(&self) -> nat {
        self.used_upto(MAX_ADDRESS_SPACES as int)
    }

    /// Among the first `n` slots at most `n` are in use, and all `n` exactly
    /// when each of them is.
    pub proof fn lemma_used_upto(&self, n: int)
        requires
            0 <= n,
        ensures
            self.used_upto(n) <= n,
            self.used_upto(n) == n <==> forall|i: int| 0 <= i < n ==> self.slot_used(i),
        decreases n,
    {
        if n > 0 {
            self.lemma_used_upto(n - 1);
            if self.used_upto(n) == n {
                assert forall|i: int| 0 <= i < n implies self.slot_used(i) by {
                    if i < n - 1 {
                        assert(self.used_upto(n - 1) == n - 1);
                    }
                }
            }
        }
    }

    /// The registry is full exactly when it holds as many address spaces as
    /// it has slots.
    pub proof fn lemma_full_is_capacity(&self)
        ensures
            self.used_slots() <= MAX_ADDRESS_SPACES,
            self.registry_full() <==> self.used_slots() == MAX_ADDRESS_SPACES,
    {
        self.lemma_used_upto(MAX_ADDRESS_SPACES as int);
    }

    /// Two registries that use the same slots but slot `i` differ in their
    /// count by that slot.
    pub proof fn lemma_used_but_one(&self, other: &X86Mmu, i: int, n: int)
        requires
            0 <= n,
            forall|j: int| j != i ==> self.slot_used(j) == other.slot_used(j),
        ensures
            self.used_upto(n) + (if 0 <= i < n && other.slot_used(i) {
                1nat
            } else {
                0nat
            }) == other.used_upto(n) + (if 0 <= i < n && self.slot_used(i) {
                1nat
            } else {
                0nat
            }),
        decreases n,
    {
        if n > 0 {
            self.lemma_used_but_one(other, i, n - 1);
        }
    }

    /// Whether `aspace` is the kernel address space or a registered one.
    pub open spec fn is_live(&self, aspace: AddressSpace) -> bool {
        if aspace.id() == KERNEL_SPACE_ID {
            self.kernel_root() is Some
        } else {
            self.slot_used(aspace.id() as int)
        }
    }

    /// The root table of a live address space.
    pub open spec fn root_of(&self, aspace: AddressSpace) -> u64 {
        if aspace.id() == KERNEL_SPACE_ID {
            self.kernel_root().unwrap()
        } else {
            self.slot_root(aspace.id() as int)
        }
    }

    /// The view of a live address space: its mapped virtual page numbers,
    /// each with its leaf entry.
    pub open spec fn view_of(&self, m: Seq<u64>, aspace: AddressSpace) -> Map<u64, u64> {
        space_view(m, self.root_of(aspace))
    }

    /// Whether the walk for `v` in `aspace` reaches a table of leaf entries,
    /// so that mapping the page of `v` needs no new table.
    pub open spec fn has_leaf_table(&self, m: Seq<u64>, aspace: AddressSpace, v: u64) -> bool {
        pt_of(m, self.root_of(aspace), v) is Some
    }

    /// The engine's invariant with respect to memory `m`: the page tables of
    /// all address spaces form a forest in `m`, and the kernel root and the
    /// roots of the used slots are different root tables of it.
    pub closed spec fn wf(&self, m: Seq<u64>) -> bool {
        &&& self.slots@.len() == MAX_ADDRESS_SPACES
        &&& tables_wf(m, self.tags@)
        &&& match self.kernel {
            Some(k) => is_root(self.tags@, k.0),
            None => self.tags@.dom() =~= Set::empty() && forall|i: int|
                0 <= i < MAX_ADDRESS_SPACES ==> !(#[trigger] self.slots@[i]).used,
        }
        &&& forall|i: int|
            0 <= i < MAX_ADDRESS_SPACES && (#[trigger] self.slots@[i]).used ==> {
                &&& is_root(self.tags@, self.slots@[i].root.0)
                &&& self.slots@[i].handle.id() == i
                &&& self.kernel != Some(self.slots@[i].root)
            }
        &&& forall|i: int, j: int|
            0 <= i < MAX_ADDRESS_SPACES && 0 <= j < MAX_ADDRESS_SPACES && i != j && (
            #[trigger] self.slots@[i]).used && (#[trigger] self.slots@[j]).used
                ==> self.slots@[i].root != self.slots@[j].root
    }

    /// Whether the frame source `a` may feed this engine: its free frames lie
    /// in memory `m`, and none of them serves as a page table.
    pub open spec fn fed_by<A: PageTableFrameAlloc>(&self, m: Seq<u64>, a: &A) -> bool {
        feeds(a, m, self.table_frames())
    }

    /// Whether the registry, the kernel root, the current address space and
    /// the no-execute state are those of `other`.
    pub closed spec fn same_registry(&self, other: &X86Mmu) -> bool {
        &&& self.kernel == other.kernel
        &&& self.current == other.current
        &&& self.slots@ == other.slots@
        &&& self.nxe == other.nxe
    }

    /// The same registry has the same live address spaces with the same
    /// roots.
    pub proof fn lemma_same_registry(&self, other: &X86Mmu)
        requires
            self.same_registry(other),
        ensures
            self.kernel_root() == other.kernel_root(),
            self.current_space() == other.current_space(),
            self.nxe_enabled() == other.nxe_enabled(),
            forall|i: int| self.slot_used(i) == other.slot_used(i),
            forall|i: int| self.slot_root(i) == other.slot_root(i),
            forall|a: AddressSpace| self.is_live(a) == other.is_live(a),
            forall|a: AddressSpace| self.root_of(a) == other.root_of(a),
    {
    }

    /// Without a kernel address space no slot is used and no frame is a
    /// table.
    pub proof fn lemma_no_kernel_no_slots(&self, m: Seq<u64>)
        requires
            self.wf(m),
            self.kernel_root() is None,
        ensures
            forall|i: int| !self.slot_used(i),
            self.table_frames() == Set::<u64>::empty(),
    {
        assert forall|i: int| !self.slot_used(i) by {
            if 0 <= i < MAX_ADDRESS_SPACES {
                assert(!self.slots@[i].used);
            }
        }
    }

    /// The same registry gives every address space the same view of a
    /// memory.
    pub proof fn lemma_same_views(&self, other: &X86Mmu, m: Seq<u64>)
        requires
            self.same_registry(other),
        ensures
            forall|a: AddressSpace| self.view_of(m, a) == other.view_of(m, a),
    {
        self.lemma_same_registry(other);
        assert forall|a: AddressSpace| self.view_of(m, a) == other.view_of(m, a) by {
            assert(self.root_of(a) == other.root_of(a));
        }
    }

    /// An engine with the same tables is fed by the same frame sources, over
    /// memories of the same size.
    pub proof fn lemma_same_feeding<A: PageTableFrameAlloc>(
        &self,
        other: &X86Mmu,
        m: Seq<u64>,
        m2: Seq<u64>,
        a: &A,
    )
        requires
            self.table_frames() == other.table_frames(),
            m.len() == m2.len(),
            other.fed_by(m, a),
        ensures
            self.fed_by(m2, a),
    {
    }

    /// The same slots are used alike and hold the same roots.
    pub proof fn lemma_same_slots(&self, other: &X86Mmu)
        requires
            self.same_slots(other),
            self.kernel_root() == other.kernel_root(),
        ensures
            forall|i: int| self.slot_used(i) == other.slot_used(i),
            forall|i: int| self.slot_root(i) == other.slot_root(i),
            forall|a: AddressSpace| self.is_live(a) == other.is_live(a),
            forall|a: AddressSpace| self.root_of(a) == other.root_of(a),
    {
    }

    /// The root of a live address space is a root table of the forest.
    proof fn lemma_live_root(&self, m: Seq<u64>, aspace: AddressSpace)
        requires
            self.wf(m),
            self.is_live(aspace),
        ensures
            is_root(self.tags@, self.root_of(aspace)),
            tables_wf(m, self.tags@),
            frame_in(m, self.root_of(aspace)),
    {
        if aspace.id() != KERNEL_SPACE_ID {
            assert(self.slots@[aspace.id() as int].used);
        }
    }

    /// Whether the no-execute feature is on.
    pub fn nxe(&self) -> (r: bool)
        ensures
            r == self.nxe_enabled(),
    {
        self.nxe
    }

    /// The handle of the kernel address space, once it is established.
    pub fn kernel_space(&self) -> (r: Option<AddressSpace>)
        ensures
            r is Some == self.kernel_root() is Some,
            r matches Some(h) ==> h.id() == KERNEL_SPACE_ID && self.is_live(h),
    {
        if self.kernel.is_some() {
            Some(AddressSpace::from_ptr(KERNEL_SPACE_ID))
        } else {
            None
        }
    }

    /// An engine with no kernel address space and an empty registry.
    pub fn new() -> (r: X86Mmu)
        ensures
            r.kernel_root() is None,
            r.current_space() is None,
            !r.nxe_enabled(),
            forall|i: int| !r.slot_used(i),
            r.table_frames() == Set::<u64>::empty(),
            r.hw_ops() == Seq::<HwOp>::empty(),
            r.used_slots() == 0,
            forall|m: Seq<u64>| m.len() <= crate::tables::max_words() ==> r.wf(m),
    {
        let mut slots: Vec<AddressSpaceSlot> = Vec::new();
        let mut i: usize = 0;
        while i < MAX_ADDRESS_SPACES
            invariant
                i <= MAX_ADDRESS_SPACES,
                slots@.len() == i,
                forall|j: int| 0 <= j < i ==> !(#[trigger] slots@[j]).used,
            decreases MAX_ADDRESS_SPACES - i,
        {
            slots.push(
                AddressSpaceSlot {
                    used: false,
                    root: PhysAddr(0),
                    handle: AddressSpace::from_ptr(KERNEL_SPACE_ID),
                },
            );
            i = i + 1;
        }
        let r = X86Mmu {
            kernel: None,
            current: None,
            slots,
            nxe: false,
            pending: Vec::new(),
            tags: Ghost(Map::empty()),
        };
        proof {
            r.lemma_none_used(MAX_ADDRESS_SPACES as int);
        }
        r
    }

    /// A registry without a used slot counts none.
    proof fn lemma_none_used(&self, n: int)
        requires
            forall|i: int| !self.slot_used(i),
        ensures
            self.used_upto(n) == 0,
        decreases n,
    {
        if n > 0 {
            self.lemma_none_used(n - 1);
        }
    }

    /// Whether `aspace` is the kernel address space or a registered one.
    pub fn has_space(&self, aspace: &AddressSpace) -> (r: bool)
        ensures
            r == self.is_live(*aspace),
    {
        let id = aspace.as_ptr();
        if id == KERNEL_SPACE_ID {
            self.kernel.is_some()
        } else {
            id < self.slots.len() && self.slots[id].used
        }
    }

    /// The root table of a live address space.
    pub fn root_table(&self, aspace: &AddressSpace) -> (r: PhysAddr)
        requires
            self.is_live(*aspace),
        ensures
            r.0 == self.root_of(*aspace),
    {
        if aspace.as_ptr() == KERNEL_SPACE_ID {
            self.kernel.unwrap()
        } else {
            self.slots[aspace.as_ptr()].root
        }
    }

    /// Walks the three upper levels for `v` and returns the table of leaf
    /// entries, if every level is present.
    fn leaf_table(&self, mem: &PhysMemory, root: PhysAddr, v: u64) -> (r: Option<PhysAddr>)
        requires
            tables_wf(mem@, self.tags@),
            is_root(self.tags@, root.0),
        ensures
            match r {
                Some(t) => pt_of(mem@, root.0, v) == Some(t.0) && frame_in(mem@, t.0)
                    && self.tags@.dom().contains(t.0) && self.tags@[t.0].level == 1,
                None => pt_of(mem@, root.0, v) is None,
            },
    {
        proof {
            lemma_walk_tags(mem@, self.tags@, root.0, v);
        }
        let e1 = mem.read_entry(root, pml4_index(v));
        if (e1 & PTE_P) == 0 {
            return None;
        }
        let pdpt = PhysAddr(e1 & ADDR_MASK);
        let e2 = mem.read_entry(pdpt, pdpt_index(v));
        if (e2 & PTE_P) == 0 {
            return None;
        }
        let pd = PhysAddr(e2 & ADDR_MASK);
        let e3 = mem.read_entry(pd, pd_index(v));
        if (e3 & PTE_P) == 0 {
            return None;
        }
        Some(PhysAddr(e3 & ADDR_MASK))
    }

    /// Translates `vaddr` in `aspace`: the frame address of the page's leaf
    /// entry with the page offset of `vaddr`.
    ///
    /// Fails with `InvalidAddress` for a non-canonical address and with
    /// `NotMapped` when the page has no present leaf entry. Reads only.
    pub fn translate(&self, mem: &PhysMemory, aspace: &AddressSpace, vaddr: VirtAddr) -> (r: Result<
        PhysAddr,
        TranslateError,
    >)
        requires
            self.wf(mem@),
            self.is_live(*aspace),
        ensures
            r == translate_spec(self.view_of(mem@, *aspace), vaddr.0),
    {
        if !is_canonical(vaddr.0) {
            return Err(TranslateError::InvalidAddress);
        }
        proof {
            self.lemma_live_root(mem@, *aspace);
            lemma_view_at(mem@, self.root_of(*aspace), vaddr.0);
        }
        let root = self.root_table(aspace);
        match self.leaf_table(mem, root, vaddr.0) {
            None => Err(TranslateError::NotMapped),
            Some(pt) => {
                let e4 = mem.read_entry(pt, pt_index(vaddr.0));
                if (e4 & PTE_P) == 0 {
                    return Err(TranslateError::NotMapped);
                }
                let base = e4 & ADDR_MASK;
                let off = vaddr.0 & 0xfff;
                Ok(PhysAddr(base | off))
            },
        }
    }

    /// Removes the mapping of the page at `vaddr` from `aspace`.
    ///
    /// Fails with `Unaligned` when `vaddr` is not page-aligned, with
    /// `InvalidArgs` when it is not canonical, and with `NotMapped` when the
    /// page has no present leaf entry. On failure nothing changes. On success
    /// the page leaves the view and every other page keeps its entry; when
    /// the page lies in the user half, the views of all other address spaces
    /// stay as they were.
    pub fn unmap_4k(
        &mut self,
        mem: &mut PhysMemory,
        aspace: &AddressSpace,
        vaddr: VirtAddr,
    ) -> (r: Result<(), MapError>)
        requires
            old(self).wf(old(mem)@),
            old(self).is_live(*aspace),
        ensures
            final(mem).follows(old(mem)),
            final(self).wf(final(mem)@),
            final(self).same_registry(old(self)),
            final(self).table_frames() == old(self).table_frames(),
            final(self).hw_ops() == if r is Ok {
                old(self).hw_ops().push(HwOp::FlushPage(vaddr))
            } else {
                old(self).hw_ops()
            },
            final(mem)@.len() == old(mem)@.len(),
            match r {
                Ok(()) => {
                    &&& spec_aligned_4k(vaddr.0)
                    &&& spec_is_canonical(vaddr.0)
                    &&& old(self).view_of(old(mem)@, *aspace).dom().contains(vpn(vaddr.0))
                    &&& old(self).view_of(final(mem)@, *aspace) == old(self).view_of(
                        old(mem)@,
                        *aspace,
                    ).remove(vpn(vaddr.0))
                },
                Err(e) => {
                    &&& final(mem)@ == old(mem)@
                    &&& e == if !spec_aligned_4k(vaddr.0) {
                        MapError::Unaligned
                    } else if !spec_is_canonical(vaddr.0) {
                        MapError::InvalidArgs
                    } else {
                        MapError::NotMapped
                    }
                    &&& spec_aligned_4k(vaddr.0) && spec_is_canonical(vaddr.0)
                        ==> !old(self).view_of(
                        old(mem)@,
                        *aspace,
                    ).dom().contains(vpn(vaddr.0))
                },
            },
            forall|other: AddressSpace|
                old(self).is_live(other) && old(self).root_of(other) != old(self).root_of(*aspace)
                    && spec_pml4_index(vaddr.0) < 256 ==> #[trigger] old(self).view_of(
                    final(mem)@,
                    other,
                ) == old(self).view_of(old(mem)@, other),
    {
        if !aligned_4k(vaddr.0) {
            return Err(MapError::Unaligned);
        }
        if !is_canonical(vaddr.0) {
            return Err(MapError::InvalidArgs);
        }
        proof {
            self.lemma_live_root(mem@, *aspace);
            lemma_view_at(mem@, self.root_of(*aspace), vaddr.0);
        }
        let root = self.root_table(aspace);
        match self.leaf_table(mem, root, vaddr.0) {
            None => Err(MapError::NotMapped),
            Some(pt) => {
                let idx = pt_index(vaddr.0);
                if (mem.read_entry(pt, idx) & PTE_P) == 0 {
                    return Err(MapError::NotMapped);
                }
                proof {
                    crate::tables::lemma_zero_absent();
                    lemma_leaf_write_view(mem@, self.tags@, root.0, vaddr.0, 0);
                    self.lemma_others_kept(mem@, *aspace, vaddr.0, 0);
                }
                mem.write_entry(pt, idx, 0);
                self.pending.push(HwOp::FlushPage(vaddr));
                Ok(())
            },
        }
    }

    /// A write to a leaf slot in the user half of one address space keeps the
    /// views of the others.
    proof fn lemma_others_kept(&self, m: Seq<u64>, aspace: AddressSpace, v: u64, e: u64)
        requires
            self.wf(m),
            self.is_live(aspace),
            pt_of(m, self.root_of(aspace), v) is Some,
        ensures
            forall|other: AddressSpace|
                self.is_live(other) && self.root_of(other) != self.root_of(aspace)
                    && spec_pml4_index(v) < 256 ==> #[trigger] self.view_of(
                    m.update(
                        word_index(pt_of(m, self.root_of(aspace), v).unwrap(), spec_pt_index(v)),
                        e,
                    ),
                    other,
                ) == self.view_of(m, other),
    {
        let root = self.root_of(aspace);
        let m2 = m.update(word_index(pt_of(m, root, v).unwrap(), spec_pt_index(v)), e);
        self.lemma_live_root(m, aspace);
        assert forall|other: AddressSpace|
            self.is_live(other) && self.root_of(other) != root && spec_pml4_index(v)
                < 256 implies #[trigger] self.view_of(m2, other) == self.view_of(m, other) by {
            self.lemma_live_root(m, other);
            lemma_leaf_write_other(m, self.tags@, root, v, e, self.root_of(other));
        }
    }

    /// Gives the mapped page at `vaddr` the hardware bits that `flags` ask
    /// for and keeps its physical target.
    ///
    /// Fails as `unmap_4k` does. On failure nothing changes. On success the
    /// page's entry is its old frame address with the new bits, and every
    /// other page keeps its entry.
    pub fn protect_4k(
        &mut self,
        mem: &mut PhysMemory,
        aspace: &AddressSpace,
        vaddr: VirtAddr,
        flags: MapFlags,
    ) -> (r: Result<(), MapError>)
        requires
            old(self).wf(old(mem)@),
            old(self).is_live(*aspace),
        ensures
            final(mem).follows(old(mem)),
            final(self).wf(final(mem)@),
            final(self).same_registry(old(self)),
            final(self).table_frames() == old(self).table_frames(),
            final(self).hw_ops() == if r is Ok {
                old(self).hw_ops().push(HwOp::FlushPage(vaddr))
            } else {
                old(self).hw_ops()
            },
            final(mem)@.len() == old(mem)@.len(),
            match r {
                Ok(()) => {
                    &&& spec_aligned_4k(vaddr.0)
                    &&& spec_is_canonical(vaddr.0)
                    &&& old(self).view_of(old(mem)@, *aspace).dom().contains(vpn(vaddr.0))
                    &&& old(self).view_of(final(mem)@, *aspace) == old(self).view_of(
                        old(mem)@,
                        *aspace,
                    ).insert(
                        vpn(vaddr.0),
                        pte_addr(old(self).view_of(old(mem)@, *aspace)[vpn(vaddr.0)])
                            | spec_flags_to_pte(flags, old(self).nxe_enabled()),
                    )
                },
                Err(e) => {
                    &&& final(mem)@ == old(mem)@
                    &&& e == if !spec_aligned_4k(vaddr.0) {
                        MapError::Unaligned
                    } else if !spec_is_canonical(vaddr.0) {
                        MapError::InvalidArgs
                    } else {
                        MapError::NotMapped
                    }
                    &&& spec_aligned_4k(vaddr.0) && spec_is_canonical(vaddr.0)
                        ==> !old(self).view_of(
                        old(mem)@,
                        *aspace,
                    ).dom().contains(vpn(vaddr.0))
                },
            },
            forall|other: AddressSpace|
                old(self).is_live(other) && old(self).root_of(other) != old(self).root_of(*aspace)
                    && spec_pml4_index(vaddr.0) < 256 ==> #[trigger] old(self).view_of(
                    final(mem)@,
                    other,
                ) == old(self).view_of(old(mem)@, other),
    {
        if !aligned_4k(vaddr.0) {
            return Err(MapError::Unaligned);
        }
        if !is_canonical(vaddr.0) {
            return Err(MapError::InvalidArgs);
        }
        proof {
            self.lemma_live_root(mem@, *aspace);
            lemma_view_at(mem@, self.root_of(*aspace), vaddr.0);
        }
        let root = self.root_table(aspace);
        match self.leaf_table(mem, root, vaddr.0) {
            None => Err(MapError::NotMapped),
            Some(pt) => {
                let idx = pt_index(vaddr.0);
                let old_entry = mem.read_entry(pt, idx);
                if (old_entry & PTE_P) == 0 {
                    return Err(MapError::NotMapped);
                }
                let paddr = old_entry & ADDR_MASK;
                let new_entry = paddr | flags_to_pte(flags, self.nxe);
                proof {
                    crate::paging::lemma_leaf_bits(paddr, flags, self.nxe);
                    lemma_leaf_write_view(mem@, self.tags@, root.0, vaddr.0, new_entry);
                    self.lemma_others_kept(mem@, *aspace, vaddr.0, new_entry);
                }
                mem.write_entry(pt, idx, new_entry);
                self.pending.push(HwOp::FlushPage(vaddr));
                Ok(())
            },
        }
    }

    /// Whether every live address space has in `m2` the view it has in `m`.
    pub open spec fn views_kept(&self, m: Seq<u64>, m2: Seq<u64>) -> bool {
        forall|a: AddressSpace|
            self.is_live(a) ==> #[trigger] self.view_of(m2, a) == self.view_of(m, a)
    }

    /// Memory that keeps the findings of every walk keeps every view.
    proof fn lemma_views_kept(&self, m: Seq<u64>, m2: Seq<u64>)
        requires
            self.wf(m),
            forall|r: u64| is_root(self.tags@, r) ==> #[trigger] walks_kept(m, m2, r),
        ensures
            self.views_kept(m, m2),
    {
        assert forall|a: AddressSpace| self.is_live(a) implies #[trigger] self.view_of(m2, a)
            == self.view_of(m, a) by {
            self.lemma_live_root(m, a);
            assert(walks_kept(m, m2, self.root_of(a)));
            lemma_walks_kept_view(m, m2, self.root_of(a));
        }
    }

    /// Returns the table that entry `idx` of `parent` points to, after
    /// making one from a fresh frame if the entry is absent.
    fn ensure_table<A: PageTableFrameAlloc>(
        &mut self,
        mem: &mut PhysMemory,
        pt_alloc: &mut A,
        parent: PhysAddr,
        idx: usize,
        user: bool,
    ) -> (r: Result<PhysAddr, MapError>)
        requires
            old(self).wf(old(mem)@),
            old(self).fed_by(old(mem)@, old(pt_alloc)),
            old(self).tags@.dom().contains(parent.0),
            old(self).tags@[parent.0].level > 1,
            idx < 512,
        ensures
            final(mem).follows(old(mem)),
            final(self).wf(final(mem)@),
            final(self).fed_by(final(mem)@, final(pt_alloc)),
            final(self).same_registry(old(self)),
            final(self).hw_ops() == old(self).hw_ops(),
            final(pt_alloc).handed_back() == old(pt_alloc).handed_back(),
            final(self).table_frames() == old(self).table_frames().union(
                taken(old(pt_alloc).free_frames(), final(pt_alloc).free_frames()),
            ),
            final(pt_alloc).free_frames().subset_of(old(pt_alloc).free_frames()),
            final(mem)@.len() == old(mem)@.len(),
            forall|f: u64| #[trigger]
                old(self).tags@.dom().contains(f) ==> final(self).tags@.dom().contains(f)
                    && final(self).tags@[f] == old(self).tags@[f],
            forall|r: u64|
                is_root(old(self).tags@, r) ==> #[trigger] walks_kept(
                    old(mem)@,
                    final(mem)@,
                    r,
                ),
            match r {
                Ok(t) => {
                    &&& next_table(final(mem)@, parent.0, idx as int) == Some(t.0)
                    &&& pte_present(entry(old(mem)@, parent.0, idx as int)) ==> {
                        &&& final(mem)@ == old(mem)@
                        &&& final(self).tags@ == old(self).tags@
                        &&& final(pt_alloc).free_frames() == old(pt_alloc).free_frames()
                        &&& final(pt_alloc).supply() == old(pt_alloc).supply()
                    }
                    &&& !pte_present(entry(old(mem)@, parent.0, idx as int)) ==> {
                        &&& frame_is_zero(final(mem)@, t.0)
                        &&& old(pt_alloc).supply() > 0
                        &&& final(pt_alloc).supply() == old(pt_alloc).supply() - 1
                    }
                },
                Err(e) => {
                    &&& e == MapError::OutOfMemory
                    &&& !pte_present(entry(old(mem)@, parent.0, idx as int))
                    &&& final(mem)@ == old(mem)@
                    &&& final(self).tags@ == old(self).tags@
                    &&& final(pt_alloc).free_frames() == old(pt_alloc).free_frames()
                    &&& old(pt_alloc).supply() == 0
                    &&& final(pt_alloc).supply() == 0
                },
            },
    {
        let ghost m0 = mem@;
        let ghost tags0 = self.tags@;
        let e = mem.read_entry(parent, idx);
        if (e & PTE_P) != 0 {
            proof {
                assert forall|r: u64| is_root(tags0, r)
                    implies #[trigger] walks_kept(m0, m0, r) by {
                }
            }
            return Ok(PhysAddr(e & ADDR_MASK));
        }
        let frame = pt_alloc.alloc_frame_4k(mem);
        proof {
            if frame is Some {
                lemma_zero_fresh(m0, tags0, frame.unwrap().0);
            }
        }
        let ghost m1 = mem@;
        let r = self.link_table(mem, parent, idx, user, frame);
        proof {
            let m2 = mem@;
            if frame is Some {
                let c = frame.unwrap().0;
                assert forall|i: int| 0 <= i < 512 implies #[trigger] entry(m2, c, i) == 0 by {
                    lemma_slots_distinct(parent.0, idx as int, c, i);
                    assert(entry(m1, c, i) == 0);
                }
            }
            assert forall|r: u64| is_root(tags0, r) implies #[trigger] walks_kept(m0, m2, r) by {
                assert(walks_kept(m0, m1, r));
                assert(walks_kept(m1, m2, r));
                lemma_walks_kept_trans(m0, m1, m2, r);
            }
        }
        r
    }

    /// Whether the frame at `f` serves as a page table of a level above the
    /// tables of leaf entries.
    pub closed spec fn is_upper_table(&self, f: u64) -> bool {
        self.tags@.dom().contains(f) && self.tags@[f].level > 1
    }

    /// Whether this engine has every table of `before` in the same place,
    /// and every walk from a root of `before` finds in `m2` what it found in
    /// `m`.
    pub closed spec fn extends(&self, before: &X86Mmu, m: Seq<u64>, m2: Seq<u64>) -> bool {
        &&& forall|f: u64| #[trigger]
            before.tags@.dom().contains(f) ==> self.tags@.dom().contains(f) && self.tags@[f]
                == before.tags@[f]
        &&& forall|r: u64| is_root(before.tags@, r) ==> #[trigger] walks_kept(m, m2, r)
    }

    /// Filling with zeroes a frame that a frame source handed out keeps the
    /// engine valid and every view.
    pub proof fn lemma_fresh_frame_keeps(&self, m: Seq<u64>, frame: Option<PhysAddr>)
        requires
            self.wf(m),
            frame matches Some(p) ==> frame_in(m, p.0) && !self.table_frames().contains(p.0),
        ensures
            frame matches Some(p) ==> self.wf(zeroed(m, p.0)) && self.views_kept(
                m,
                zeroed(m, p.0),
            ),
    {
        if frame is Some {
            let p = frame.unwrap().0;
            lemma_zero_fresh(m, self.tags@, p);
            self.lemma_views_kept(m, zeroed(m, p));
        }
    }

    /// The root of a live address space is a table above the leaf level.
    pub proof fn lemma_root_is_upper_table(&self, m: Seq<u64>, aspace: AddressSpace)
        requires
            self.wf(m),
            self.is_live(aspace),
        ensures
            self.is_upper_table(self.root_of(aspace)),
    {
        self.lemma_live_root(m, aspace);
    }

    /// Points the absent entry `idx` of the table `parent` at the frame that
    /// a frame source returned, making that frame an empty table.
    ///
    /// Fails with `OutOfMemory` exactly when there is no frame; nothing
    /// changes then. With a frame, the frame is filled with zeroes and the
    /// entry becomes present and writable, and user-accessible if `user` is
    /// set. Every view stays as it was: the new table maps nothing yet.
    pub fn link_table(
        &mut self,
        mem: &mut PhysMemory,
        parent: PhysAddr,
        idx: usize,
        user: bool,
        frame: Option<PhysAddr>,
    ) -> (r: Result<PhysAddr, MapError>)
        requires
            old(self).wf(old(mem)@),
            old(self).is_upper_table(parent.0),
            idx < 512,
            !pte_present(entry(old(mem)@, parent.0, idx as int)),
            frame matches Some(p) ==> frame_in(old(mem)@, p.0)
                && !old(self).table_frames().contains(
                p.0,
            ),
        ensures
            final(mem).follows(old(mem)),
            final(self).wf(final(mem)@),
            final(self).same_registry(old(self)),
            final(self).hw_ops() == old(self).hw_ops(),
            final(self).extends(old(self), old(mem)@, final(mem)@),
            old(self).views_kept(old(mem)@, final(mem)@),
            match frame {
                None => {
                    &&& r == Err::<PhysAddr, MapError>(MapError::OutOfMemory)
                    &&& final(mem)@ == old(mem)@
                    &&& *final(self) == *old(self)
                },
                Some(p) => {
                    &&& r == Ok::<PhysAddr, MapError>(p)
                    &&& final(mem)@ == zeroed(old(mem)@, p.0).update(
                        word_index(parent.0, idx as int),
                        table_entry(p.0, user),
                    )
                    &&& next_table(final(mem)@, parent.0, idx as int) == Some(p.0)
                    &&& final(self).table_frames() == old(self).table_frames().insert(p.0)
                },
            },
    {
        let ghost m0 = mem@;
        let ghost tags0 = self.tags@;
        let ghost s0 = *self;
        let frame = match frame {
            Some(f) => f,
            None => {
                proof {
                    assert forall|r: u64| is_root(tags0, r) implies #[trigger] walks_kept(
                        m0,
                        m0,
                        r,
                    ) by {
                    }
                    s0.lemma_views_kept(m0, m0);
                }
                return Err(MapError::OutOfMemory);
            },
        };
        proof {
            lemma_zero_fresh(m0, tags0, frame.0);
            lemma_frame_addr(m0, frame.0);
        }
        mem.zero_frame(frame);
        let ghost m1 = mem@;
        let mut flags = PTE_P | PTE_W;
        if user {
            flags |= PTE_U;
        }
        let val = (frame.0 & ADDR_MASK) | flags;
        proof {
            lemma_table_entry(frame.0, user);
            assert(val == table_entry(frame.0, user));
            lemma_install(m1, tags0, parent.0, idx as int, val);
        }
        mem.write_entry(parent, idx, val);
        let ghost tags1 = tags0.insert(frame.0, child_tag(tags0[parent.0], idx as int));
        self.tags = Ghost(tags1);
        proof {
            let m2 = mem@;
            assert forall|r: u64| is_root(tags0, r) implies #[trigger] walks_kept(m0, m2, r) by {
                assert(walks_kept(m0, m1, r));
                assert(walks_kept(m1, m2, r));
                lemma_walks_kept_trans(m0, m1, m2, r);
            }
            s0.lemma_views_kept(m0, m2);
        }
        Ok(frame)
    }

    /// Maps the page at `vaddr` in `aspace` to the frame at `paddr` with the
    /// hardware bits that `flags` ask for, making the missing tables on the
    /// way from frames of `pt_alloc`.
    ///
    /// Fails with `Unaligned` when either address is not page-aligned, with
    /// `InvalidArgs` when `vaddr` is not canonical, with `AlreadyMapped` when
    /// the page has a present leaf entry, and with `OutOfMemory` when more
    /// tables are missing on the walk than the frame source has frames to
    /// supply. In every other case it succeeds. On failure every view stays
    /// as it was, though tables that were made before the source ran out
    /// stay in place. On success the page enters the view with its entry and
    /// every other page keeps its entry; when the page lies in the user
    /// half, the views of all other address spaces stay as they were.
    pub fn map_4k<A: PageTableFrameAlloc>(
        &mut self,
        mem: &mut PhysMemory,
        pt_alloc: &mut A,
        aspace: &AddressSpace,
        vaddr: VirtAddr,
        paddr: PhysAddr,
        flags: MapFlags,
    ) -> (r: Result<(), MapError>)
        requires
            old(self).wf(old(mem)@),
            old(self).fed_by(old(mem)@, old(pt_alloc)),
            old(self).is_live(*aspace),
        ensures
            final(mem).follows(old(mem)),
            final(self).wf(final(mem)@),
            final(self).fed_by(final(mem)@, final(pt_alloc)),
            final(self).same_registry(old(self)),
            final(pt_alloc).handed_back() == old(pt_alloc).handed_back(),
            final(self).table_frames() == old(self).table_frames().union(
                taken(old(pt_alloc).free_frames(), final(pt_alloc).free_frames()),
            ),
            final(pt_alloc).free_frames().subset_of(old(pt_alloc).free_frames()),
            final(mem)@.len() == old(mem)@.len(),
            match r {
                Ok(()) => {
                    &&& spec_aligned_4k(vaddr.0)
                    &&& spec_aligned_4k(paddr.0)
                    &&& spec_is_canonical(vaddr.0)
                    &&& !old(self).view_of(old(mem)@, *aspace).dom().contains(vpn(vaddr.0))
                    &&& old(self).view_of(final(mem)@, *aspace) == old(self).view_of(
                        old(mem)@,
                        *aspace,
                    ).insert(
                        vpn(vaddr.0),
                        pte_addr(paddr.0) | spec_flags_to_pte(flags, old(self).nxe_enabled()),
                    )
                },
                Err(e) => {
                    &&& old(self).views_kept(old(mem)@, final(mem)@)
                    &&& e == if !spec_aligned_4k(vaddr.0) || !spec_aligned_4k(paddr.0) {
                        MapError::Unaligned
                    } else if !spec_is_canonical(vaddr.0) {
                        MapError::InvalidArgs
                    } else if old(self).view_of(old(mem)@, *aspace).dom().contains(
                        vpn(vaddr.0),
                    ) {
                        MapError::AlreadyMapped
                    } else {
                        MapError::OutOfMemory
                    }
                    &&& e == MapError::OutOfMemory ==> !old(self).has_leaf_table(
                        old(mem)@,
                        *aspace,
                        vaddr.0,
                    )
                    &&& e != MapError::OutOfMemory ==> final(mem)@ == old(mem)@
                        && final(pt_alloc).free_frames() == old(pt_alloc).free_frames()
                },
            },
            forall|other: AddressSpace|
                old(self).is_live(other) && old(self).root_of(other) != old(self).root_of(*aspace)
                    && spec_pml4_index(vaddr.0) < 256 ==> #[trigger] old(self).view_of(
                    final(mem)@,
                    other,
                ) == old(self).view_of(old(mem)@, other),
            r is Ok <==> spec_aligned_4k(vaddr.0) && spec_aligned_4k(paddr.0) && spec_is_canonical(
                vaddr.0,
            ) && !old(self).view_of(old(mem)@, *aspace).dom().contains(vpn(vaddr.0)) && old(
                pt_alloc,
            ).supply() >= missing_tables(old(mem)@, old(self).root_of(*aspace), vaddr.0),
            r is Ok ==> final(pt_alloc).supply() == old(pt_alloc).supply() - missing_tables(
                old(mem)@,
                old(self).root_of(*aspace),
                vaddr.0,
            ),
            final(pt_alloc).supply() <= old(pt_alloc).supply(),
            final(self).hw_ops() == if r is Ok {
                old(self).hw_ops().push(HwOp::FlushPage(vaddr))
            } else {
                old(self).hw_ops()
            },
    {
        let ghost m0 = mem@;
        let ghost s0 = *self;
        proof {
            s0.lemma_views_kept(m0, m0);
        }
        if !aligned_4k(vaddr.0) || !aligned_4k(paddr.0) {
            return Err(MapError::Unaligned);
        }
        if !is_canonical(vaddr.0) {
            return Err(MapError::InvalidArgs);
        }
        let user = flags.contains(MapFlags::from_bits_truncate(USER));
        let root = self.root_table(aspace);
        let v = vaddr.0;
        proof {
            s0.lemma_live_root(m0, *aspace);
            lemma_view_at(m0, root.0, v);
        }
        let pt = match self.ensure_leaf_table(mem, pt_alloc, root, v, user) {
            Ok(t) => t,
            Err(e) => {
                proof {
                    s0.lemma_views_kept(m0, mem@);
                }
                return Err(e);
            },
        };
        let ghost m3 = mem@;
        let ghost tags3 = self.tags@;
        proof {
            assert(walks_kept(m0, m3, root.0));
            assert(leaf_entry(m3, root.0, v) == leaf_entry(m0, root.0, v));
            lemma_walk_tags(m3, tags3, root.0, v);
            s0.lemma_views_kept(m0, m3);
        }
        let idx = pt_index(v);
        if (mem.read_entry(pt, idx) & PTE_P) != 0 {
            return Err(MapError::AlreadyMapped);
        }
        let new_entry = (paddr.0 & ADDR_MASK) | flags_to_pte(flags, self.nxe);
        proof {
            lemma_pte_addr(paddr.0);
            lemma_leaf_bits(pte_addr(paddr.0), flags, self.nxe);
            lemma_leaf_write_view(m3, tags3, root.0, v, new_entry);
            self.lemma_others_kept(m3, *aspace, v, new_entry);
            lemma_walks_kept_view(m0, m3, root.0);
        }
        mem.write_entry(pt, idx, new_entry);
        proof {
            let m4 = mem@;
            assert forall|other: AddressSpace|
                s0.is_live(other) && s0.root_of(other) != s0.root_of(*aspace) && spec_pml4_index(v)
                    < 256 implies #[trigger] s0.view_of(m4, other) == s0.view_of(m0, other) by {
                assert(self.view_of(m4, other) == self.view_of(m3, other));
                assert(s0.view_of(m3, other) == s0.view_of(m0, other));
            }
        }
        self.pending.push(HwOp::FlushPage(vaddr));
        Ok(())
    }

    /// Walks the three upper levels for `v` from `root` and makes each
    /// missing table from a frame of the source, in walk order. Returns the
    /// table of leaf entries.
    fn ensure_leaf_table<A: PageTableFrameAlloc>(
        &mut self,
        mem: &mut PhysMemory,
        pt_alloc: &mut A,
        root: PhysAddr,
        v: u64,
        user: bool,
    ) -> (r: Result<PhysAddr, MapError>)
        requires
            old(self).wf(old(mem)@),
            old(self).fed_by(old(mem)@, old(pt_alloc)),
            is_root(old(self).tags@, root.0),
        ensures
            final(mem).follows(old(mem)),
            final(self).wf(final(mem)@),
            final(self).fed_by(final(mem)@, final(pt_alloc)),
            final(self).same_registry(old(self)),
            final(self).hw_ops() == old(self).hw_ops(),
            final(pt_alloc).handed_back() == old(pt_alloc).handed_back(),
            final(self).table_frames() == old(self).table_frames().union(
                taken(old(pt_alloc).free_frames(), final(pt_alloc).free_frames()),
            ),
            final(pt_alloc).free_frames().subset_of(old(pt_alloc).free_frames()),
            final(mem)@.len() == old(mem)@.len(),
            is_root(final(self).tags@, root.0),
            forall|r: u64|
                is_root(old(self).tags@, r) ==> #[trigger] walks_kept(
                    old(mem)@,
                    final(mem)@,
                    r,
                ),
            pt_of(old(mem)@, root.0, v) is Some ==> final(mem)@ == old(mem)@
                && final(pt_alloc).free_frames() == old(pt_alloc).free_frames(),
            match r {
                Ok(t) => pt_of(final(mem)@, root.0, v) == Some(t.0),
                Err(e) => e == MapError::OutOfMemory && pt_of(old(mem)@, root.0, v) is None,
            },
            r is Ok <==> old(pt_alloc).supply() >= missing_tables(old(mem)@, root.0, v),
            final(pt_alloc).supply() == if r is Ok {
                old(pt_alloc).supply() - missing_tables(old(mem)@, root.0, v)
            } else {
                0
            },
    {
        let ghost m0 = mem@;
        let ghost tags0 = self.tags@;
        proof {
            crate::tables::lemma_zero_absent();
            lemma_index_bounds(v);
            lemma_walk_tags(m0, tags0, root.0, v);
        }
        // level 4
        let pdpt = match self.ensure_table(mem, pt_alloc, root, pml4_index(v), user) {
            Ok(t) => t,
            Err(e) => {
                proof {
                }
                return Err(e);
            },
        };
        let ghost m1 = mem@;
        let ghost tags1 = self.tags@;
        proof {
            lemma_walk_tags(m1, tags1, root.0, v);
            assert(walks_kept(m0, m1, root.0));
            assert(leaf_entry(m1, root.0, v) == leaf_entry(m0, root.0, v));
            assert(pte_present(entry(m1, pdpt.0, spec_pdpt_index(v))) == (pd_of(m0, root.0, v)
                is Some));
        }
        // level 3
        let pd = match self.ensure_table(mem, pt_alloc, pdpt, pdpt_index(v), user) {
            Ok(t) => t,
            Err(e) => {
                proof {
                    assert(walks_kept(m0, m1, root.0));
                }
                return Err(e);
            },
        };
        let ghost m2 = mem@;
        let ghost tags2 = self.tags@;
        proof {
            assert(walks_kept(m1, m2, root.0));
            assert(leaf_entry(m2, root.0, v) == leaf_entry(m1, root.0, v));
            lemma_walk_tags(m2, tags2, root.0, v);
            assert forall|r: u64| is_root(tags0, r) implies #[trigger] walks_kept(m0, m2, r) by {
                assert(walks_kept(m0, m1, r));
                assert(walks_kept(m1, m2, r));
                lemma_walks_kept_trans(m0, m1, m2, r);
            }
            assert(walks_kept(m0, m1, root.0));
            assert(pte_present(entry(m2, pd.0, spec_pd_index(v))) == (pt_of(m0, root.0, v)
                is Some));
        }
        // level 2
        let pt = match self.ensure_table(mem, pt_alloc, pd, pd_index(v), user) {
            Ok(t) => t,
            Err(e) => {
                proof {
                    assert(walks_kept(m0, m2, root.0));
                }
                return Err(e);
            },
        };
        proof {
            let m3 = mem@;
            assert(walks_kept(m2, m3, root.0));
            assert(leaf_entry(m3, root.0, v) == leaf_entry(m2, root.0, v));
            assert forall|r: u64| is_root(tags0, r) implies #[trigger] walks_kept(m0, m3, r) by {
                assert(walks_kept(m0, m2, r));
                assert(walks_kept(m2, m3, r));
                lemma_walks_kept_trans(m0, m2, m3, r);
            }
        }
        Ok(pt)
    }

    /// Computes the control-register values that turn on write protection
    /// and global pages, and no-execute when it is asked for and supported,
    /// and records whether no-execute is on.
    pub fn init_features(
        &mut self,
        enable_nx: bool,
        has_nx: bool,
        cr0: u64,
        cr4: u64,
        efer: u64,
    ) -> (r: FeatureRegs)
        ensures
            r.cr0 == cr0 | CR0_WP,
            r.cr4 == cr4 | CR4_PGE,
            r.efer == if enable_nx && has_nx {
                Some(efer | EFER_NXE)
            } else {
                None
            },
            final(self).nxe_enabled() == (enable_nx && has_nx),
            final(self).kernel_root() == old(self).kernel_root(),
            final(self).current_space() == old(self).current_space(),
            final(self).table_frames() == old(self).table_frames(),
            final(self).hw_ops() == old(self).hw_ops(),
            forall|i: int| final(self).slot_used(i) == old(self).slot_used(i),
            forall|i: int| final(self).slot_root(i) == old(self).slot_root(i),
            forall|m: Seq<u64>| final(self).wf(m) == old(self).wf(m),
    {
        let mut nxe = false;
        let mut new_efer: Option<u64> = None;
        if enable_nx && has_nx {
            new_efer = Some(efer | EFER_NXE);
            nxe = true;
        }
        self.nxe = nxe;
        FeatureRegs { cr0: cr0 | CR0_WP, cr4: cr4 | CR4_PGE, efer: new_efer }
    }

    /// Establishes the kernel address space on first use, with tables that
    /// avoid the frames in `avoid`.
    pub(crate) fn init_kernel_avoiding(
        &mut self,
        mem: &PhysMemory,
        cr3: u64,
        Ghost(avoid): Ghost<Set<u64>>,
    ) -> (r: Result<AddressSpace, MapError>)
        requires
            old(self).wf(mem@),
            old(self).kernel_root() is None && pte_addr(cr3) != 0 ==> boot_tables_ok(
                mem@,
                pte_addr(cr3),
                avoid,
            ),
        ensures
            final(self).wf(mem@),
            final(self).hw_ops() == old(self).hw_ops(),
            match r {
                Ok(h) => {
                    &&& h.id() == KERNEL_SPACE_ID
                    &&& final(self).is_live(h)
                    &&& old(self).kernel_root() is Some ==> *final(self) == *old(self)
                    &&& old(self).kernel_root() is None ==> {
                        &&& pte_addr(cr3) != 0
                        &&& final(self).kernel_root() == Some(pte_addr(cr3))
                        &&& final(self).current_space() == Some(h)
                        &&& final(self).nxe_enabled() == old(self).nxe_enabled()
                        &&& forall|i: int| !final(self).slot_used(i)
                        &&& final(self).same_slots(old(self))
                        &&& final(self).table_frames().disjoint(avoid)
                    }
                },
                Err(e) => {
                    &&& e == MapError::InvalidArgs
                    &&& old(self).kernel_root() is None
                    &&& pte_addr(cr3) == 0
                    &&& *final(self) == *old(self)
                },
            },
    {
        if self.kernel.is_some() {
            return Ok(AddressSpace::from_ptr(KERNEL_SPACE_ID));
        }
        let root = cr3 & ADDR_MASK;
        if root == 0 {
            return Err(MapError::InvalidArgs);
        }
        let ghost tags = choose|tags: Map<u64, TableTag>|
            tables_wf(mem@, tags) && is_root(tags, root) && #[trigger] tags.dom().disjoint(avoid);
        let h = AddressSpace::from_ptr(KERNEL_SPACE_ID);
        self.kernel = Some(PhysAddr(root));
        self.tags = Ghost(tags);
        self.current = Some(h);
        Ok(h)
    }

    /// Establishes the kernel address space from the root table that `cr3`,
    /// the value of the root-table register, names. Does nothing when the
    /// kernel address space is already established.
    ///
    /// Fails with `InvalidArgs` when no root table is active: the frame
    /// address in `cr3` is zero. The first success also makes the kernel
    /// address space the current one.
    pub fn init_kernel(&mut self, mem: &PhysMemory, cr3: u64) -> (r: Result<AddressSpace, MapError>)
        requires
            old(self).wf(mem@),
            old(self).kernel_root() is None && pte_addr(cr3) != 0 ==> boot_tables_ok(
                mem@,
                pte_addr(cr3),
                Set::empty(),
            ),
        ensures
            final(self).wf(mem@),
            final(self).hw_ops() == old(self).hw_ops(),
            match r {
                Ok(h) => {
                    &&& h.id() == KERNEL_SPACE_ID
                    &&& final(self).is_live(h)
                    &&& old(self).kernel_root() is Some ==> *final(self) == *old(self)
                    &&& old(self).kernel_root() is None ==> {
                        &&& pte_addr(cr3) != 0
                        &&& final(self).kernel_root() == Some(pte_addr(cr3))
                        &&& final(self).current_space() == Some(h)
                        &&& final(self).nxe_enabled() == old(self).nxe_enabled()
                        &&& forall|i: int| !final(self).slot_used(i)
                    }
                },
                Err(e) => {
                    &&& e == MapError::InvalidArgs
                    &&& old(self).kernel_root() is None
                    &&& pte_addr(cr3) == 0
                    &&& *final(self) == *old(self)
                },
            },
    {
        self.init_kernel_avoiding(mem, cr3, Ghost(Set::empty()))
    }

    /// Makes `aspace` the current address space and records that the
    /// root-table register is to be loaded with the frame address of its
    /// root.
    pub fn activate(&mut self, aspace: &AddressSpace)
        requires
            old(self).is_live(*aspace),
        ensures
            final(self).current_space() == Some(*aspace),
            final(self).hw_ops() == old(self).hw_ops().push(
                HwOp::LoadRoot(pte_addr(old(self).root_of(*aspace))),
            ),
            final(self).kernel_root() == old(self).kernel_root(),
            final(self).nxe_enabled() == old(self).nxe_enabled(),
            final(self).table_frames() == old(self).table_frames(),
            final(self).same_slots(old(self)),
            forall|i: int| final(self).slot_used(i) == old(self).slot_used(i),
            forall|i: int| final(self).slot_root(i) == old(self).slot_root(i),
            forall|m: Seq<u64>| final(self).wf(m) == old(self).wf(m),
    {
        let root = self.root_table(aspace).0;
        let cr3 = root & ADDR_MASK;
        self.pending.push(HwOp::LoadRoot(cr3));
        self.current = Some(*aspace);
    }

    /// Whether this engine differs from `before` at most in the hardware
    /// operations it has recorded.
    pub closed spec fn same_but_ops(&self, before: &X86Mmu) -> bool {
        &&& self.kernel == before.kernel
        &&& self.current == before.current
        &&& self.slots@ == before.slots@
        &&& self.nxe == before.nxe
        &&& self.tags@ == before.tags@
    }

    /// An engine that differs at most in its recorded hardware operations is
    /// valid for the same memories and has the same registry and tables.
    pub proof fn lemma_same_but_ops(&self, before: &X86Mmu)
        requires
            self.same_but_ops(before),
        ensures
            self.same_registry(before),
            self.same_slots(before),
            self.table_frames() == before.table_frames(),
            forall|m: Seq<u64>| self.wf(m) == before.wf(m),
    {
    }

    /// Records that the translation of the page at `vaddr` is to be
    /// invalidated on this processor.
    pub fn flush_tlb_page(&mut self, vaddr: VirtAddr)
        ensures
            final(self).hw_ops() == old(self).hw_ops().push(HwOp::FlushPage(vaddr)),
            final(self).same_but_ops(old(self)),
    {
        self.pending.push(HwOp::FlushPage(vaddr));
    }

    /// Records that all translations are to be invalidated on this
    /// processor.
    pub fn flush_tlb_all(&mut self)
        ensures
            final(self).hw_ops() == old(self).hw_ops().push(HwOp::FlushAll),
            final(self).same_but_ops(old(self)),
    {
        self.pending.push(HwOp::FlushAll);
    }

    /// Asks for the translation of the page at `vaddr` to be invalidated on
    /// all processors. Only this processor is reached: the request is the
    /// local flush.
    pub fn shootdown_tlb_page(&mut self, vaddr: VirtAddr)
        ensures
            final(self).hw_ops() == old(self).hw_ops().push(HwOp::FlushPage(vaddr)),
            final(self).same_but_ops(old(self)),
    {
        self.flush_tlb_page(vaddr);
    }

    /// Asks for all translations to be invalidated on all processors. Only
    /// this processor is reached: the request is the local flush.
    pub fn shootdown_tlb_all(&mut self)
        ensures
            final(self).hw_ops() == old(self).hw_ops().push(HwOp::FlushAll),
            final(self).same_but_ops(old(self)),
    {
        self.flush_tlb_all();
    }

    /// Takes the recorded hardware operations, oldest first, to carry them
    /// out. None stays recorded.
    pub fn take_hw_ops(&mut self) -> (r: Vec<HwOp>)
        ensures
            r@ == old(self).hw_ops(),
            final(self).hw_ops() == Seq::<HwOp>::empty(),
            final(self).same_but_ops(old(self)),
    {
        let mut out: Vec<HwOp> = Vec::new();
        std::mem::swap(&mut out, &mut self.pending);
        out
    }

    /// The address space that was activated last. There must be one.
    pub fn current(&self) -> (r: AddressSpace)
        requires
            self.current_space() is Some,
        ensures
            Some(r) == self.current_space(),
    {
        self.current.unwrap()
    }

    /// Takes the first unused slot of the registry for the root table `root`.
    fn alloc_slot(&mut self, root: PhysAddr) -> (r: Result<AddressSpace, MapError>)
        requires
            old(self).slots@.len() == MAX_ADDRESS_SPACES,
        ensures
            final(self).kernel == old(self).kernel,
            final(self).current == old(self).current,
            final(self).nxe == old(self).nxe,
            final(self).pending == old(self).pending,
            final(self).tags == old(self).tags,
            final(self).slots@.len() == MAX_ADDRESS_SPACES,
            match r {
                Ok(h) => {
                    &&& 0 <= h.id() < MAX_ADDRESS_SPACES
                    &&& !old(self).slots@[h.id() as int].used
                    &&& forall|j: int| 0 <= j < h.id() ==> (#[trigger] old(self).slots@[j]).used
                    &&& final(self).slots@ == old(self).slots@.update(
                        h.id() as int,
                        AddressSpaceSlot { used: true, root, handle: h },
                    )
                },
                Err(e) => {
                    &&& e == MapError::OutOfMemory
                    &&& forall|j: int|
                        0 <= j < MAX_ADDRESS_SPACES ==> (#[trigger] old(self).slots@[j]).used
                    &&& final(self).slots@ == old(self).slots@
                },
            },
    {
        let mut i: usize = 0;
        while i < MAX_ADDRESS_SPACES
            invariant
                i <= MAX_ADDRESS_SPACES,
                *self == *old(self),
                self.slots@.len() == MAX_ADDRESS_SPACES,
                forall|j: int| 0 <= j < i ==> (#[trigger] self.slots@[j]).used,
            decreases MAX_ADDRESS_SPACES - i,
        {
            if !self.slots[i].used {
                let h = AddressSpace::from_ptr(i);
                self.slots[i] = AddressSpaceSlot { used: true, root, handle: h };
                return Ok(h);
            }
            i = i + 1;
        }
        Err(MapError::OutOfMemory)
    }

    /// Makes the frame that a frame source returned the root table of a new
    /// address space: fills its user half with zeroes, copies the kernel
    /// half of the kernel's root table into it and registers it.
    ///
    /// Succeeds exactly when there is a frame and the registry has an unused
    /// slot; otherwise fails with `OutOfMemory`. The new address space takes
    /// the first unused slot and shows the kernel half of the kernel's view.
    /// The views of the existing address spaces stay as they were.
    pub fn address_space_with_root(
        &mut self,
        mem: &mut PhysMemory,
        frame: Option<PhysAddr>,
    ) -> (r: Result<AddressSpace, MapError>)
        requires
            old(self).wf(old(mem)@),
            old(self).kernel_root() is Some,
            frame matches Some(p) ==> frame_in(old(mem)@, p.0)
                && !old(self).table_frames().contains(
                p.0,
            ),
        ensures
            final(mem).follows(old(mem)),
            final(self).wf(final(mem)@),
            final(mem)@.len() == old(mem)@.len(),
            final(self).kernel_root() == old(self).kernel_root(),
            final(self).current_space() == old(self).current_space(),
            final(self).nxe_enabled() == old(self).nxe_enabled(),
            final(self).hw_ops() == old(self).hw_ops(),
            old(self).views_kept(old(mem)@, final(mem)@),
            frame is None ==> final(mem)@ == old(mem)@,
            frame matches Some(p) ==> final(mem)@ == with_new_root(
                old(mem)@,
                old(self).kernel_root().unwrap(),
                p.0,
            ),
            match r {
                Ok(h) => {
                    &&& frame is Some
                    &&& 0 <= h.id() < MAX_ADDRESS_SPACES
                    &&& !old(self).slot_used(h.id() as int)
                    &&& forall|j: int| 0 <= j < h.id() ==> old(self).slot_used(j)
                    &&& final(self).slot_used(h.id() as int)
                    &&& final(self).used_slots() == old(self).used_slots() + 1
                    &&& final(self).slot_root(h.id() as int) == frame.unwrap().0
                    &&& forall|j: int|
                        j != h.id() ==> final(self).slot_used(j)
                            == old(self).slot_used(j) && final(self).slot_root(j)
                                == old(self).slot_root(j)
                    &&& final(self).table_frames() == old(self).table_frames().insert(
                        frame.unwrap().0,
                    )
                    &&& final(self).view_of(final(mem)@, h) == kernel_half(
                        space_view(old(mem)@, old(self).kernel_root().unwrap()),
                    )
                },
                Err(e) => {
                    &&& e == MapError::OutOfMemory
                    &&& frame is None || old(self).registry_full()
                    &&& final(self).used_slots() == old(self).used_slots()
                    &&& final(self).table_frames() == old(self).table_frames()
                    &&& forall|j: int|
                        final(self).slot_used(j) == old(self).slot_used(j)
                            && final(self).slot_root(j) == old(self).slot_root(j)
                },
            },
    {
        let ghost m0 = mem@;
        let ghost tags0 = self.tags@;
        let ghost s0 = *self;
        let kernel_root = self.kernel.unwrap();
        let pml4 = match frame {
            Some(p) => p,
            None => {
                proof {
                    s0.lemma_views_kept(m0, m0);
                }
                return Err(MapError::OutOfMemory);
            },
        };
        proof {
            lemma_new_root(m0, tags0, kernel_root.0, pml4.0);
            lemma_zero_fresh(m0, tags0, pml4.0);
        }
        mem.zero_frame(pml4);
        mem.copy_entries(kernel_root, pml4, KERNEL_PML4_START, ENTRY_COUNT - KERNEL_PML4_START);
        proof {
            s0.lemma_views_kept(m0, mem@);
        }
        match self.alloc_slot(pml4) {
            Ok(h) => {
                self.tags = Ghost(tags0.insert(pml4.0, root_tag(pml4.0)));
                proof {
                    let i = h.id() as int;
                    assert(self.slots@[i].used);
                    assert forall|j: int|
                        0 <= j < MAX_ADDRESS_SPACES && (#[trigger] self.slots@[j]).used implies {
                        &&& is_root(self.tags@, self.slots@[j].root.0)
                        &&& self.slots@[j].handle.id() == j
                        &&& self.kernel != Some(self.slots@[j].root)
                    } by {
                        if j != i {
                            assert(s0.slots@[j].used);
                        }
                    }
                    assert forall|a: int, b: int|
                        0 <= a < MAX_ADDRESS_SPACES && 0 <= b < MAX_ADDRESS_SPACES && a != b && (
                        #[trigger] self.slots@[a]).used && (
                        #[trigger] self.slots@[b]).used implies self.slots@[a].root
                        != self.slots@[b].root by {
                        if a != i {
                            assert(s0.slots@[a].used);
                        }
                        if b != i {
                            assert(s0.slots@[b].used);
                        }
                    }
                    assert forall|j: int| j != i implies self.slot_used(j) == s0.slot_used(j) by {}
                    self.lemma_used_but_one(&s0, i, MAX_ADDRESS_SPACES as int);
                }
                Ok(h)
            },
            Err(e) => {
                proof {
                    assert forall|i: int| 0 <= i < MAX_ADDRESS_SPACES implies s0.slot_used(i) by {
                        assert(s0.slots@[i].used);
                    }
                    assert forall|j: int| j != -1 implies self.slot_used(j) == s0.slot_used(j) by {}
                    self.lemma_used_but_one(&s0, -1, MAX_ADDRESS_SPACES as int);
                }
                Err(e)
            },
        }
    }

    /// Creates an address space that shares the kernel half of the kernel
    /// address space, after establishing the kernel address space from
    /// `cr3` if that was not done before.
    ///
    /// Fails with `InvalidArgs` when the kernel address space cannot be
    /// established, and with `OutOfMemory` when the frame source has no
    /// frame to supply or the registry has no unused slot; in every other
    /// case it succeeds. The frame source is asked before the registry is
    /// looked at, so a frame that finds no slot is lost. The views of the
    /// existing address spaces stay as they were.
    pub fn address_space_new<A: PageTableFrameAlloc>(
        &mut self,
        mem: &mut PhysMemory,
        pt_alloc: &mut A,
        cr3: u64,
    ) -> (r: Result<AddressSpace, MapError>)
        requires
            old(self).wf(old(mem)@),
            old(self).fed_by(old(mem)@, old(pt_alloc)),
            old(self).kernel_root() is None && pte_addr(cr3) != 0 ==> boot_tables_ok(
                old(mem)@,
                pte_addr(cr3),
                old(pt_alloc).free_frames(),
            ),
        ensures
            final(mem).follows(old(mem)),
            final(self).wf(final(mem)@),
            final(self).fed_by(final(mem)@, final(pt_alloc)),
            final(pt_alloc).handed_back() == old(pt_alloc).handed_back(),
            final(mem)@.len() == old(mem)@.len(),
            final(self).nxe_enabled() == old(self).nxe_enabled(),
            final(self).hw_ops() == old(self).hw_ops(),
            old(self).views_kept(old(mem)@, final(mem)@),
            old(self).kernel_root() is Some ==> final(self).kernel_root()
                == old(self).kernel_root() && final(self).current_space()
                == old(self).current_space(),
            match r {
                Ok(h) => {
                    &&& final(self).kernel_root() is Some
                    &&& 0 <= h.id() < MAX_ADDRESS_SPACES
                    &&& !old(self).slot_used(h.id() as int)
                    &&& forall|j: int| 0 <= j < h.id() ==> old(self).slot_used(j)
                    &&& final(self).slot_used(h.id() as int)
                    &&& old(pt_alloc).free_frames().contains(final(self).slot_root(h.id() as int))
                    &&& forall|j: int|
                        j != h.id() ==> final(self).slot_used(j)
                            == old(self).slot_used(j) && final(self).slot_root(j)
                                == old(self).slot_root(j)
                    &&& final(mem)@ == with_new_root(
                        old(mem)@,
                        final(self).kernel_root().unwrap(),
                        final(self).slot_root(h.id() as int),
                    )
                    &&& final(self).view_of(final(mem)@, h) == kernel_half(
                        space_view(old(mem)@, final(self).kernel_root().unwrap()),
                    )
                },
                Err(e) => {
                    &&& e == MapError::InvalidArgs || e == MapError::OutOfMemory
                    &&& e == MapError::InvalidArgs <==> old(self).kernel_root() is None
                        && pte_addr(cr3) == 0
                    &&& e == MapError::InvalidArgs ==> *final(self) == *old(self) && final(mem)@
                        == old(mem)@ && final(pt_alloc).free_frames() == old(pt_alloc).free_frames()
                    &&& forall|j: int|
                        final(self).slot_used(j) == old(self).slot_used(j)
                            && final(self).slot_root(j) == old(self).slot_root(j)
                },
            },
            old(self).registry_full() ==> r is Err,
            final(self).used_slots() == if r is Ok {
                old(self).used_slots() + 1
            } else {
                old(self).used_slots()
            },
            r is Ok <==> !(old(self).kernel_root() is None && pte_addr(cr3) == 0) && old(
                pt_alloc,
            ).supply() > 0 && !old(self).registry_full(),
            final(pt_alloc).supply() <= old(pt_alloc).supply(),
    {
        let ghost m0 = mem@;
        let ghost s0 = *self;
        match self.init_kernel_avoiding(mem, cr3, Ghost(pt_alloc.free_frames())) {
            Ok(_) => {},
            Err(e) => {
                proof {
                    s0.lemma_views_kept(m0, m0);
                }
                return Err(e);
            },
        }
        let ghost s1 = *self;
        proof {
            assert(s1.slots@ == s0.slots@);
            assert forall|j: int| #[trigger]
                s0.slot_used(j) == s1.slot_used(j) && s0.slot_root(j) == s1.slot_root(j) by {}
            assert forall|j: int| #[trigger] s0.slot_root(j) == s1.slot_root(j) by {}
        }
        let frame = pt_alloc.alloc_frame_4k(mem);
        let ghost m1 = mem@;
        proof {
            if frame is Some {
                lemma_zero_fresh(m0, s1.tags@, frame.unwrap().0);
                assert(with_new_root(m1, s1.kernel_root().unwrap(), frame.unwrap().0)
                    == with_new_root(m0, s1.kernel_root().unwrap(), frame.unwrap().0));
            }
        }
        let r = self.address_space_with_root(mem, frame);
        proof {
            assert(s1.slots@ == s0.slots@);
            assert forall|i: int| #[trigger] s1.slot_used(i) == s0.slot_used(i) by {}
            assert(s0.registry_full() == s1.registry_full());
            s1.lemma_used_but_one(&s0, -1, MAX_ADDRESS_SPACES as int);
            assert forall|a: AddressSpace| s0.is_live(a) implies #[trigger] s0.view_of(mem@, a)
                == s0.view_of(m0, a) by {
                assert(s1.is_live(a));
                assert(s1.view_of(mem@, a) == s1.view_of(m1, a));
                if frame is Some {
                    s1.lemma_live_root(m0, a);
                    assert(walks_kept(m0, m1, s1.root_of(a)));
                    lemma_walks_kept_view(m0, m1, s1.root_of(a));
                }
            }
            if frame is Some && r is Ok {
                lemma_walks_kept_view(m0, m1, s1.kernel_root().unwrap());
            }
        }
        r
    }

    /// Releases the slot of the registry that `aspace` names.
    fn free_slot(&mut self, aspace: &AddressSpace)
        requires
            old(self).slots@.len() == MAX_ADDRESS_SPACES,
            0 <= aspace.id() < MAX_ADDRESS_SPACES,
            old(self).slots@[aspace.id() as int].used,
            forall|i: int|
                0 <= i < MAX_ADDRESS_SPACES && (#[trigger] old(self).slots@[i]).used
                    ==> old(self).slots@[i].handle.id() == i,
        ensures
            final(self).kernel == old(self).kernel,
            final(self).current == old(self).current,
            final(self).nxe == old(self).nxe,
            final(self).pending == old(self).pending,
            final(self).tags == old(self).tags,
            final(self).slots@ == old(self).slots@.update(
                aspace.id() as int,
                AddressSpaceSlot {
                    used: false,
                    root: PhysAddr(0),
                    handle: old(self).slots@[aspace.id() as int].handle,
                },
            ),
    {
        let needle = aspace.as_ptr();
        let mut i: usize = 0;
        while i < MAX_ADDRESS_SPACES
            invariant
                i <= MAX_ADDRESS_SPACES,
                *self == *old(self),
                needle == aspace.id(),
                self.slots@.len() == MAX_ADDRESS_SPACES,
                0 <= needle < MAX_ADDRESS_SPACES,
                self.slots@[needle as int].used,
                i <= needle,
                forall|j: int|
                    0 <= j < MAX_ADDRESS_SPACES && (#[trigger] self.slots@[j]).used
                        ==> self.slots@[j].handle.id() == j,
            decreases MAX_ADDRESS_SPACES - i,
        {
            let slot = self.slots[i];
            if slot.used && slot.handle.as_ptr() == needle {
                self.slots[i] = AddressSpaceSlot {
                    used: false,
                    root: PhysAddr(0),
                    handle: slot.handle,
                };
                return;
            }
            i = i + 1;
        }
    }

    /// Hands the tables of leaf entries under the level-2 table `pd` back to
    /// the frame source, skipping entries that map large pages.
    fn free_leaf_tables<A: PageTableFrameAlloc>(
        &self,
        mem: &PhysMemory,
        pt_alloc: &mut A,
        pd: PhysAddr,
        Ghost(r): Ghost<u64>,
        Ghost(free0): Ghost<Set<u64>>,
    )
        requires
            tables_wf(mem@, self.tags@),
            self.tags@.dom().contains(pd.0),
            self.tags@[pd.0].level == 2,
            self.tags@[pd.0].owner == r,
            self.tags@[pd.0].i4 < 256,
            old(pt_alloc).wf(),
            forall|f: u64| free0.contains(f) ==> !self.tags@.dom().contains(f),
            freed_so_far(
                old(pt_alloc).free_frames(),
                free0,
                self.tags@,
                r,
                self.tags@[pd.0].i4,
                self.tags@[pd.0].i3,
                0,
            ),
        ensures
            final(pt_alloc).wf(),
            old(pt_alloc).free_frames().subset_of(final(pt_alloc).free_frames()),
            final(pt_alloc).handed_back() == old(pt_alloc).handed_back() + leaf_tables_upto(
                mem@,
                pd.0,
                512,
            ),
            final(pt_alloc).supply() >= old(pt_alloc).supply(),
            freed_so_far(
                final(pt_alloc).free_frames(),
                free0,
                self.tags@,
                r,
                self.tags@[pd.0].i4,
                self.tags@[pd.0].i3,
                512,
            ),
    {
        let ghost tags = self.tags@;
        let ghost a = tags[pd.0].i4;
        let ghost b = tags[pd.0].i3;
        let mut c: usize = 0;
        proof {
            assert(pt_alloc.handed_back() =~= pt_alloc.handed_back() + leaf_tables_upto(
                mem@,
                pd.0,
                0,
            ));
        }
        while c < ENTRY_COUNT
            invariant
                c <= ENTRY_COUNT,
                tags == self.tags@,
                tables_wf(mem@, tags),
                tags.dom().contains(pd.0),
                tags[pd.0].level == 2,
                tags[pd.0].owner == r,
                tags[pd.0].i4 == a,
                tags[pd.0].i3 == b,
                a < 256,
                pt_alloc.wf(),
                forall|f: u64| free0.contains(f) ==> !tags.dom().contains(f),
                old(pt_alloc).free_frames().subset_of(pt_alloc.free_frames()),
                pt_alloc.handed_back() == old(pt_alloc).handed_back() + leaf_tables_upto(
                    mem@,
                    pd.0,
                    c as int,
                ),
                pt_alloc.supply() >= old(pt_alloc).supply(),
                freed_so_far(pt_alloc.free_frames(), free0, tags, r, a, b, c as int),
            decreases ENTRY_COUNT - c,
        {
            let e3 = mem.read_entry(pd, c);
            let ghost log = pt_alloc.handed_back();
            if (e3 & PTE_P) != 0 && (e3 & PTE_PS) == 0 {
                let pt = PhysAddr(e3 & ADDR_MASK);
                proof {
                    assert(pte_present(entry(mem@, pd.0, c as int)));
                    assert(tags.dom().contains(pt.0));
                }
                pt_alloc.free_frame_4k(pt);
            }
            proof {
                let upto = leaf_tables_upto(mem@, pd.0, c as int);
                if descends(e3) {
                    assert(pt_alloc.handed_back() =~= old(pt_alloc).handed_back() + upto.push(
                        pte_addr(e3),
                    ));
                }
            }
            c = c + 1;
        }
    }

    /// Hands the tables under the level-3 table `pdpt` back to the frame
    /// source: for each level-2 table its tables of leaf entries, then the
    /// level-2 table itself. Entries that map large pages are skipped.
    fn free_pd_tables<A: PageTableFrameAlloc>(
        &self,
        mem: &PhysMemory,
        pt_alloc: &mut A,
        pdpt: PhysAddr,
        Ghost(r): Ghost<u64>,
        Ghost(free0): Ghost<Set<u64>>,
    )
        requires
            tables_wf(mem@, self.tags@),
            self.tags@.dom().contains(pdpt.0),
            self.tags@[pdpt.0].level == 3,
            self.tags@[pdpt.0].owner == r,
            self.tags@[pdpt.0].i4 < 256,
            old(pt_alloc).wf(),
            forall|f: u64| free0.contains(f) ==> !self.tags@.dom().contains(f),
            freed_so_far(
                old(pt_alloc).free_frames(),
                free0,
                self.tags@,
                r,
                self.tags@[pdpt.0].i4,
                0,
                0,
            ),
        ensures
            final(pt_alloc).wf(),
            old(pt_alloc).free_frames().subset_of(final(pt_alloc).free_frames()),
            final(pt_alloc).handed_back() == old(pt_alloc).handed_back() + pd_tables_upto(
                mem@,
                pdpt.0,
                512,
            ),
            final(pt_alloc).supply() >= old(pt_alloc).supply(),
            freed_so_far(
                final(pt_alloc).free_frames(),
                free0,
                self.tags@,
                r,
                self.tags@[pdpt.0].i4,
                512,
                0,
            ),
    {
        let ghost tags = self.tags@;
        let ghost a = tags[pdpt.0].i4;
        let mut b: usize = 0;
        proof {
            assert(pt_alloc.handed_back() =~= pt_alloc.handed_back() + pd_tables_upto(
                mem@,
                pdpt.0,
                0,
            ));
        }
        while b < ENTRY_COUNT
            invariant
                b <= ENTRY_COUNT,
                tags == self.tags@,
                tables_wf(mem@, tags),
                tags.dom().contains(pdpt.0),
                tags[pdpt.0].level == 3,
                tags[pdpt.0].owner == r,
                tags[pdpt.0].i4 == a,
                a < 256,
                pt_alloc.wf(),
                forall|f: u64| free0.contains(f) ==> !tags.dom().contains(f),
                old(pt_alloc).free_frames().subset_of(pt_alloc.free_frames()),
                pt_alloc.handed_back() == old(pt_alloc).handed_back() + pd_tables_upto(
                    mem@,
                    pdpt.0,
                    b as int,
                ),
                pt_alloc.supply() >= old(pt_alloc).supply(),
                freed_so_far(pt_alloc.free_frames(), free0, tags, r, a, b as int, 0),
            decreases ENTRY_COUNT - b,
        {
            let e2 = mem.read_entry(pdpt, b);
            if (e2 & PTE_P) != 0 && (e2 & PTE_PS) == 0 {
                let pd = PhysAddr(e2 & ADDR_MASK);
                proof {
                    assert(pte_present(entry(mem@, pdpt.0, b as int)));
                    assert(tags.dom().contains(pd.0));
                }
                self.free_leaf_tables(mem, pt_alloc, pd, Ghost(r), Ghost(free0));
                pt_alloc.free_frame_4k(pd);
                proof {
                    let upto = pd_tables_upto(mem@, pdpt.0, b as int);
                    assert(pt_alloc.handed_back() =~= old(pt_alloc).handed_back() + (upto
                        + leaf_tables_upto(mem@, pd.0, 512)).push(pd.0));
                }
            }
            b = b + 1;
        }
    }

    /// Destroys the address space `aspace` and hands its page-table frames
    /// back to the frame source. Does nothing for the kernel address space.
    ///
    /// The frames handed back are the tables of the user half, lower levels
    /// first, and then the root; tables behind entries that map large pages
    /// and tables of the kernel half are left alone. The frame source gains
    /// no frame but former tables of this address space. The slot of the
    /// address space becomes unused, and all other address spaces keep their
    /// roots, so that their views stay as they were. Memory is not written.
    pub fn address_space_destroy<A: PageTableFrameAlloc>(
        &mut self,
        mem: &PhysMemory,
        pt_alloc: &mut A,
        aspace: AddressSpace,
    )
        requires
            old(self).wf(mem@),
            old(self).fed_by(mem@, old(pt_alloc)),
            old(self).is_live(aspace),
        ensures
            final(self).wf(mem@),
            final(self).fed_by(mem@, final(pt_alloc)),
            final(self).kernel_root() == old(self).kernel_root(),
            final(self).current_space() == old(self).current_space(),
            final(self).nxe_enabled() == old(self).nxe_enabled(),
            final(self).hw_ops() == old(self).hw_ops(),
            old(pt_alloc).free_frames().subset_of(final(pt_alloc).free_frames()),
            final(pt_alloc).supply() >= old(pt_alloc).supply(),
            final(self).table_frames().subset_of(old(self).table_frames()),
            forall|f: u64| #[trigger]
                final(pt_alloc).free_frames().contains(f) ==> old(pt_alloc).free_frames().contains(
                    f,
                ) || (old(self).table_frames().contains(f) && !final(self).table_frames().contains(
                    f,
                )),
            aspace.id() == KERNEL_SPACE_ID ==> *final(self) == *old(self)
                && final(pt_alloc).free_frames() == old(pt_alloc).free_frames()
                && final(pt_alloc).handed_back() == old(pt_alloc).handed_back(),
            aspace.id() != KERNEL_SPACE_ID ==> final(pt_alloc).handed_back()
                == old(pt_alloc).handed_back() + teardown_order(mem@, old(self).root_of(aspace)),
            aspace.id() != KERNEL_SPACE_ID ==> {
                &&& !final(self).slot_used(aspace.id() as int)
                &&& final(self).used_slots() + 1 == old(self).used_slots()
                &&& final(self).slot_root(aspace.id() as int) == 0
                &&& !final(self).table_frames().contains(old(self).root_of(aspace))
                &&& forall|j: int|
                    j != aspace.id() ==> final(self).slot_used(j)
                        == old(self).slot_used(j) && final(self).slot_root(j)
                            == old(self).slot_root(j)
            },
    {
        if aspace.as_ptr() == KERNEL_SPACE_ID {
            return;
        }
        let ghost tags = self.tags@;
        let ghost free0 = pt_alloc.free_frames();
        let ghost log0 = pt_alloc.handed_back();
        let ghost s0 = *self;
        let root = self.root_table(&aspace);
        let ghost r = root.0;
        proof {
            s0.lemma_live_root(mem@, aspace);
            assert(log0 =~= log0 + user_tables_upto(mem@, r, 0));
        }
        let mut a: usize = 0;
        while a < KERNEL_PML4_START
            invariant
                a <= KERNEL_PML4_START,
                *self == s0,
                tags == self.tags@,
                tables_wf(mem@, tags),
                is_root(tags, r),
                r == root.0,
                pt_alloc.wf(),
                forall|f: u64| free0.contains(f) ==> !tags.dom().contains(f),
                free0.subset_of(pt_alloc.free_frames()),
                pt_alloc.handed_back() == log0 + user_tables_upto(mem@, r, a as int),
                pt_alloc.supply() >= old(pt_alloc).supply(),
                freed_so_far(pt_alloc.free_frames(), free0, tags, r, a as int, 0, 0),
            decreases KERNEL_PML4_START - a,
        {
            let e1 = mem.read_entry(root, a);
            if (e1 & PTE_P) != 0 && (e1 & PTE_PS) == 0 {
                let pdpt = PhysAddr(e1 & ADDR_MASK);
                proof {
                    assert(pte_present(entry(mem@, r, a as int)));
                    assert(tags.dom().contains(pdpt.0));
                }
                self.free_pd_tables(mem, pt_alloc, pdpt, Ghost(r), Ghost(free0));
                pt_alloc.free_frame_4k(pdpt);
                proof {
                    let upto = user_tables_upto(mem@, r, a as int);
                    assert(pt_alloc.handed_back() =~= log0 + (upto + pd_tables_upto(
                        mem@,
                        pdpt.0,
                        512,
                    )).push(pdpt.0));
                }
            }
            a = a + 1;
        }
        pt_alloc.free_frame_4k(root);
        proof {
            assert(pt_alloc.handed_back() =~= log0 + teardown_order(mem@, r));
        }
        proof {
            assert(s0.slots@[aspace.id() as int].used);
            lemma_remove_space(mem@, tags, r);
        }
        self.free_slot(&aspace);
        self.tags = Ghost(tags.remove_keys(space_tables(tags, r)));
        proof {
            let i = aspace.id() as int;
            let tags2 = self.tags@;
            assert forall|j: int|
                0 <= j < MAX_ADDRESS_SPACES && (#[trigger] self.slots@[j]).used implies {
                &&& is_root(tags2, self.slots@[j].root.0)
                &&& self.slots@[j].handle.id() == j
                &&& self.kernel != Some(self.slots@[j].root)
            } by {
                assert(s0.slots@[j].used);
                assert(j != i);
            }
            assert forall|x: int, y: int|
                0 <= x < MAX_ADDRESS_SPACES && 0 <= y < MAX_ADDRESS_SPACES && x != y && (
                #[trigger] self.slots@[x]).used && (
                #[trigger] self.slots@[y]).used implies self.slots@[x].root
                != self.slots@[y].root by {
                assert(s0.slots@[x].used);
                assert(s0.slots@[y].used);
            }
            assert forall|j: int| j != i implies self.slot_used(j) == s0.slot_used(j) by {}
            self.lemma_used_but_one(&s0, i, MAX_ADDRESS_SPACES as int);
        }
    }
}

impl Mmu for X86Mmu {
    open spec fn inv(&self, m: Seq<u64>) -> bool {
        self.wf(m)
    }

    open spec fn live(&self, aspace: AddressSpace) -> bool {
        self.is_live(aspace)
    }

    open spec fn space(&self, m: Seq<u64>, aspace: AddressSpace) -> Map<u64, u64> {
        self.view_of(m, aspace)
    }

    open spec fn tables(&self) -> Set<u64> {
        self.table_frames()
    }

    open spec fn has_kernel(&self) -> bool {
        self.kernel_root() is Some
    }

    open spec fn full(&self) -> bool {
        self.registry_full()
    }

    open spec fn active(&self) -> Option<AddressSpace> {
        self.current_space()
    }

    open spec fn ops(&self) -> Seq<HwOp> {
        self.hw_ops()
    }

    open spec fn accepts(&self, vaddr: u64) -> bool {
        spec_is_canonical(vaddr)
    }

    open spec fn page(&self, vaddr: u64) -> u64 {
        vpn(vaddr)
    }

    open spec fn leaf(&self, paddr: u64, flags: MapFlags) -> u64 {
        pte_addr(paddr) | spec_flags_to_pte(flags, self.nxe_enabled())
    }

    open spec fn relabel(&self, entry: u64, flags: MapFlags) -> u64 {
        pte_addr(entry) | spec_flags_to_pte(flags, self.nxe_enabled())
    }

    open spec fn target(&self, entry: u64, vaddr: u64) -> u64 {
        leaf_target(entry, vaddr)
    }

    open spec fn frames_needed(&self, m: Seq<u64>, aspace: AddressSpace, vaddr: u64) -> int {
        missing_tables(m, self.root_of(aspace), vaddr)
    }

    open spec fn is_kernel_space(&self, aspace: AddressSpace) -> bool {
        aspace.id() == KERNEL_SPACE_ID
    }

    open spec fn released(&self, m: Seq<u64>, aspace: AddressSpace) -> Seq<u64> {
        if aspace.id() == KERNEL_SPACE_ID {
            Seq::empty()
        } else {
            teardown_order(m, self.root_of(aspace))
        }
    }

    open spec fn bootable(&self, m: Seq<u64>, cr3: u64, avoid: Set<u64>) -> bool {
        boot_tables_ok(m, pte_addr(cr3), avoid)
    }

    open spec fn no_root(&self, cr3: u64) -> bool {
        pte_addr(cr3) == 0
    }

    fn init_kernel(&mut self, mem: &PhysMemory, cr3: u64) -> (r: Result<AddressSpace, MapError>) {
        X86Mmu::init_kernel(self, mem, cr3)
    }

    fn address_space_new<A: PageTableFrameAlloc>(
        &mut self,
        mem: &mut PhysMemory,
        pt_alloc: &mut A,
        cr3: u64,
    ) -> (r: Result<AddressSpace, MapError>) {
        let ghost before = *self;
        let ghost m0 = mem@;
        let r = X86Mmu::address_space_new(self, mem, pt_alloc, cr3);
        proof {
            assert forall|a: AddressSpace| #[trigger] before.is_live(a) implies self.is_live(a)
                && self.view_of(mem@, a) == before.view_of(m0, a) by {
                assert(before.view_of(mem@, a) == before.view_of(m0, a));
            }
        }
        r
    }

    fn address_space_destroy<A: PageTableFrameAlloc>(
        &mut self,
        mem: &PhysMemory,
        pt_alloc: &mut A,
        aspace: AddressSpace,
    ) {
        proof {
            if aspace.id() != KERNEL_SPACE_ID {
                assert forall|a: AddressSpace| a.id() == aspace.id() implies a == aspace by {
                    AddressSpace::lemma_same_id(a, aspace);
                }
            }
        }
        X86Mmu::address_space_destroy(self, mem, pt_alloc, aspace)
    }

    fn map_4k<A: PageTableFrameAlloc>(
        &mut self,
        mem: &mut PhysMemory,
        pt_alloc: &mut A,
        aspace: &AddressSpace,
        vaddr: VirtAddr,
        paddr: PhysAddr,
        flags: MapFlags,
    ) -> (r: Result<(), MapError>) {
        let ghost before = *self;
        let ghost m0 = mem@;
        let r = X86Mmu::map_4k(self, mem, pt_alloc, aspace, vaddr, paddr, flags);
        proof {
            self.lemma_same_registry(&before);
            self.lemma_same_views(&before, mem@);
            if r is Err {
                assert forall|a: AddressSpace| #[trigger] before.is_live(a) implies self.view_of(
                    mem@,
                    a,
                ) == before.view_of(m0, a) by {
                    assert(before.view_of(mem@, a) == before.view_of(m0, a));
                }
            }
        }
        r
    }

    fn unmap_4k(
        &mut self,
        mem: &mut PhysMemory,
        aspace: &AddressSpace,
        vaddr: VirtAddr,
    ) -> (r: Result<(), MapError>) {
        let ghost before = *self;
        let r = X86Mmu::unmap_4k(self, mem, aspace, vaddr);
        proof {
            self.lemma_same_registry(&before);
            self.lemma_same_views(&before, mem@);
        }
        r
    }

    fn protect_4k(
        &mut self,
        mem: &mut PhysMemory,
        aspace: &AddressSpace,
        vaddr: VirtAddr,
        flags: MapFlags,
    ) -> (r: Result<(), MapError>) {
        let ghost before = *self;
        let r = X86Mmu::protect_4k(self, mem, aspace, vaddr, flags);
        proof {
            self.lemma_same_registry(&before);
            self.lemma_same_views(&before, mem@);
        }
        r
    }

    fn translate(&self, mem: &PhysMemory, aspace: &AddressSpace, vaddr: VirtAddr) -> (r: Result<
        PhysAddr,
        TranslateError,
    >) {
        X86Mmu::translate(self, mem, aspace, vaddr)
    }

    fn activate(&mut self, aspace: &AddressSpace) {
        let ghost before = *self;
        X86Mmu::activate(self, aspace);
        proof {
            self.lemma_same_slots(&before);
            assert(self.hw_ops().drop_last() =~= before.hw_ops());
            assert forall|m: Seq<u64>, a: AddressSpace| #[trigger]
                self.view_of(m, a) == before.view_of(m, a) by {
                assert(self.root_of(a) == before.root_of(a));
            }
        }
    }

    fn flush_tlb_page(&mut self, vaddr: VirtAddr) {
        let ghost before = *self;
        X86Mmu::flush_tlb_page(self, vaddr);
        proof {
            self.lemma_ops_only(&before);
        }
    }

    fn flush_tlb_all(&mut self) {
        let ghost before = *self;
        X86Mmu::flush_tlb_all(self);
        proof {
            self.lemma_ops_only(&before);
        }
    }

    fn shootdown_tlb_page(&mut self, vaddr: VirtAddr) {
        let ghost before = *self;
        X86Mmu::shootdown_tlb_page(self, vaddr);
        proof {
            self.lemma_ops_only(&before);
        }
    }

    fn shootdown_tlb_all(&mut self) {
        let ghost before = *self;
        X86Mmu::shootdown_tlb_all(self);
        proof {
            self.lemma_ops_only(&before);
        }
    }

    fn current(&self) -> (r: AddressSpace) {
        X86Mmu::current(self)
    }
}

impl X86Mmu {
    /// An engine that differs at most in its recorded hardware operations
    /// has the same live address spaces with the same views.
    pub proof fn lemma_ops_only(&self, before: &X86Mmu)
        requires
            self.same_but_ops(before),
        ensures
            self.table_frames() == before.table_frames(),
            self.current_space() == before.current_space(),
            forall|a: AddressSpace| self.is_live(a) == before.is_live(a),
            forall|m: Seq<u64>| self.wf(m) == before.wf(m),
            forall|m: Seq<u64>, a: AddressSpace|
                #[trigger] self.view_of(m, a) == before.view_of(m, a),
    {
        self.lemma_same_but_ops(before);
        self.lemma_same_registry(before);
        assert forall|m: Seq<u64>, a: AddressSpace| #[trigger]
            self.view_of(m, a) == before.view_of(m, a) by {
            assert(self.root_of(a) == before.root_of(a));
        }
    }
}

} // verus!
