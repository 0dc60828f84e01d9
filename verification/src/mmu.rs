//! Architecture-neutral vocabulary of the memory-management interface:
//! addresses, mapping intents, errors, address-space handles and the frame
//! capability that feeds page-table construction.

use vstd::prelude::*;

use crate::phys_mem::{frame_in, zeroed, PhysMemory};

verus! {

/// A physical address.
#[derive(Clone, Copy, Debug, PartialEq, Eq, Structural)]
pub struct PhysAddr(pub u64);

/// A virtual address.
#[derive(Clone, Copy, Debug, PartialEq, Eq, Structural)]
pub struct VirtAddr(pub u64);

/// A page size in bytes; never zero.
#[derive(Clone, Copy, Debug, PartialEq, Eq, Structural)]
pub struct PageSize(pub u64);

impl PageSize {
    /// A page size is well formed when it is not zero.
    pub open spec fn wf(self) -> bool {
        self.0 != 0
    }

    /// The 4 KiB page, the only size the engine maps.
    pub fn size_4k() -> (r: PageSize)
        ensures
            r.0 == 4096,
            r.wf(),
    {
        PageSize(4096)
    }
}

/// Bit of [`MapFlags`]: the mapping may be read.
pub const READ: u32 = 0x01;

/// Bit of [`MapFlags`]: the mapping may be written.
pub const WRITE: u32 = 0x02;

/// Bit of [`MapFlags`]: instructions may be fetched from the mapping.
pub const EXEC: u32 = 0x04;

/// Bit of [`MapFlags`]: user mode may access the mapping.
pub const USER: u32 = 0x08;

/// Bit of [`MapFlags`]: the mapping survives an address-space switch.
pub const GLOBAL: u32 = 0x10;

/// Bit of [`MapFlags`]: the mapping bypasses the caches.
pub const UNCACHED: u32 = 0x20;

/// Every bit that [`MapFlags`] defines.
pub const ALL_FLAGS: u32 = 0x3f;

/// Architecture-neutral mapping intent: a set of the six flag bits.
///
/// The engine, not the caller, chooses the hardware encoding.
#[derive(Clone, Copy, Debug, PartialEq, Eq, Structural)]
pub struct MapFlags {
    bits: u32,
}

impl MapFlags {
    /// The raw bits of the set.
    pub closed spec fn spec_bits(&self) -> u32 {
        self.bits
    }

    /// Whether every bit of `bit` is in the set.
    pub open spec fn has(self, bit: u32) -> bool {
        self.spec_bits() & bit == bit
    }

    /// Only defined bits are ever set.
    pub open spec fn wf(self) -> bool {
        self.spec_bits() & !ALL_FLAGS == 0
    }

    /// The empty set.
    pub fn empty() -> (r: MapFlags)
        ensures
            r.spec_bits() == 0,
            r.wf(),
    {
        assert(0u32 & !0x3fu32 == 0) by (bit_vector);
        MapFlags { bits: 0 }
    }

    /// The set of all six flags.
    pub fn all() -> (r: MapFlags)
        ensures
            r.spec_bits() == ALL_FLAGS,
            r.wf(),
    {
        assert(0x3fu32 & !0x3fu32 == 0) by (bit_vector);
        MapFlags { bits: ALL_FLAGS }
    }

    /// The raw bits of the set.
    #[verifier::when_used_as_spec(spec_bits)]
    pub fn bits(&self) -> (r: u32)
        ensures
            r == self.spec_bits(),
    {
        self.bits
    }

    /// The set with exactly the given bits, unless one of them is undefined.
    pub fn from_bits(bits: u32) -> (r: Option<MapFlags>)
        ensures
            match r {
                Some(f) => f.spec_bits() == bits && f.wf(),
                None => bits & !ALL_FLAGS != 0,
            },
    {
        if bits & !ALL_FLAGS == 0 {
            Some(MapFlags { bits })
        } else {
            None
        }
    }

    /// The set with the defined bits among `bits`; undefined ones are dropped.
    pub fn from_bits_truncate(bits: u32) -> (r: MapFlags)
        ensures
            r.spec_bits() == bits & ALL_FLAGS,
            r.wf(),
    {
        assert((bits & 0x3fu32) & !0x3fu32 == 0) by (bit_vector);
        MapFlags { bits: bits & ALL_FLAGS }
    }

    /// Whether no flag is set.
    pub fn is_empty(&self) -> (r: bool)
        ensures
            r == (self.spec_bits() == 0),
    {
        self.bits == 0
    }

    /// Whether every flag of `other` is also in `self`.
    pub fn contains(&self, other: MapFlags) -> (r: bool)
        ensures
            r == self.has(other.spec_bits()),
    {
        self.bits & other.bits == other.bits
    }

    /// The flags that are in `self` or in `other`.
    pub fn union(self, other: MapFlags) -> (r: MapFlags)
        requires
            self.wf(),
            other.wf(),
        ensures
            r.spec_bits() == self.spec_bits() | other.spec_bits(),
            r.wf(),
    {
        let a = self.bits;
        let b = other.bits;
        assert((a | b) & !0x3fu32 == 0) by (bit_vector)
            requires
                a & !0x3fu32 == 0,
                b & !0x3fu32 == 0,
        ;
        MapFlags { bits: a | b }
    }
}

/// Why a mapping operation failed.
#[derive(Clone, Copy, Debug, PartialEq, Eq, Structural)]
pub enum MapError {
    /// An address is not a multiple of the page size.
    Unaligned,
    /// The page already has a present leaf entry.
    AlreadyMapped,
    /// Some level of the walk is absent.
    NotMapped,
    /// No frame or no registry slot was left.
    OutOfMemory,
    /// The virtual address is not canonical, or no root table is active.
    InvalidArgs,
}

/// Why a translation failed.
#[derive(Clone, Copy, Debug, PartialEq, Eq, Structural)]
pub enum TranslateError {
    /// Some level of the walk is absent.
    NotMapped,
    /// The virtual address is not canonical.
    InvalidAddress,
}

/// An opaque, copyable handle to an address space.
///
/// The handle carries only the identity of the storage that backs the address
/// space. It owns nothing and is not counted: using it after the address
/// space was destroyed breaks the caller's side of the contract.
#[derive(Clone, Copy, Debug, PartialEq, Eq, Structural)]
pub struct AddressSpace(usize);

impl AddressSpace {
    /// The identity the handle carries.
    pub closed spec fn id(&self) -> usize {
        self.0
    }

    /// Handles with the same identity are the same handle.
    pub proof fn lemma_same_id(a: AddressSpace, b: AddressSpace)
        requires
            a.id() == b.id(),
        ensures
            a == b,
    {
    }

    /// The handle with identity `ptr`.
    pub closed spec fn spec_from_ptr(ptr: usize) -> AddressSpace {
        AddressSpace(ptr)
    }

    /// The handle with identity `ptr` has that identity.
    pub broadcast proof fn lemma_from_ptr_id(ptr: usize)
        ensures
            (#[trigger] AddressSpace::spec_from_ptr(ptr)).id() == ptr,
    {
    }

    /// A handle for the backing storage with identity `ptr`.
    #[verifier::when_used_as_spec(spec_from_ptr)]
    pub fn from_ptr(ptr: usize) -> (r: AddressSpace)
        ensures
            r == AddressSpace::spec_from_ptr(ptr),
            r.id() == ptr,
    {
        AddressSpace(ptr)
    }

    /// The identity of the backing storage.
    #[verifier::when_used_as_spec(id)]
    pub fn as_ptr(&self) -> (r: usize)
        ensures
            r == self.id(),
    {
        self.0
    }
}

/// Something the processor must be made to do for the engine's state to
/// take effect. The engine decides and records; whoever drives the hardware
/// carries the operations out in the order in which they were recorded.
#[derive(Clone, Copy, Debug, PartialEq, Eq, Structural)]
pub enum HwOp {
    /// Invalidate the translation of the page at this address on this
    /// processor.
    FlushPage(VirtAddr),
    /// Invalidate all translations on this processor.
    FlushAll,
    /// Load the root-table register with this frame address.
    LoadRoot(u64),
}

/// A minimal source of 4 KiB frames, used only for page-table memory.
///
/// `free_frames` is the set of frames the source may still hand out. A frame
/// leaves the set when it is allocated and may come back only by being freed,
/// so no frame is handed out twice without a free in between.
pub trait PageTableFrameAlloc {
    /// The invariant of the source.
    spec fn wf(&self) -> bool;

    /// The frames the source may still hand out, by their physical address.
    spec fn free_frames(&self) -> Set<u64>;

    /// Every frame that was handed back to the source so far, oldest first,
    /// whether the source kept it or not.
    spec fn handed_back(&self) -> Seq<u64>;

    /// The number of requests for a frame that the source will answer with a
    /// frame from now on, as long as nothing is handed back to it.
    spec fn supply(&self) -> nat;

    /// Allocates one frame and fills it with zeroes.
    ///
    /// The frame comes from `free_frames` and leaves it; no other word of
    /// memory changes. Every frame the source may hand out must lie in `mem`.
    fn alloc_frame_4k(&mut self, mem: &mut PhysMemory) -> (r: Option<PhysAddr>)
        requires
            old(self).wf(),
            forall|f: u64| #[trigger]
                old(self).free_frames().contains(f) ==> frame_in(old(mem)@, f),
        ensures
            final(mem).follows(old(mem)),
            final(self).wf(),
            final(self).handed_back() == old(self).handed_back(),
            r is Some <==> old(self).supply() > 0,
            final(self).supply() == if r is Some {
                (old(self).supply() - 1) as nat
            } else {
                old(self).supply()
            },
            match r {
                Some(p) => {
                    &&& old(self).free_frames().contains(p.0)
                    &&& final(self).free_frames() == old(self).free_frames().remove(p.0)
                    &&& final(mem)@ == zeroed(old(mem)@, p.0)
                },
                None => {
                    &&& final(self).free_frames() == old(self).free_frames()
                    &&& final(mem)@ == old(mem)@
                },
            },
    ;

    /// Takes back a frame that was allocated for page tables.
    ///
    /// The source may keep the frame for reuse or drop it; it gains no other
    /// frame. The frame must not already be among the free ones.
    fn free_frame_4k(&mut self, paddr: PhysAddr)
        requires
            old(self).wf(),
            !old(self).free_frames().contains(paddr.0),
        ensures
            final(self).wf(),
            final(self).handed_back() == old(self).handed_back().push(paddr.0),
            old(self).supply() <= final(self).supply() <= old(self).supply() + 1,
            old(self).free_frames().subset_of(final(self).free_frames()),
            final(self).free_frames().subset_of(old(self).free_frames().insert(paddr.0)),
    ;
}

/// The frames that left a frame source between the moment its free frames
/// were `before` and the moment they are `after`.
pub open spec fn taken(before: Set<u64>, after: Set<u64>) -> Set<u64> {
    before.difference(after)
}

/// Whether the frame source `a` may feed an engine whose page tables are
/// the frames in `tables`: the source is valid, its free frames lie in
/// memory `m`, and none of them serves as a page table.
pub open spec fn feeds<A: PageTableFrameAlloc>(a: &A, m: Seq<u64>, tables: Set<u64>) -> bool {
    &&& a.wf()
    &&& forall|f: u64| #[trigger] a.free_frames().contains(f) ==> frame_in(m, f)
        && !tables.contains(f)
}

/// What translating `v` gives in an address space with the view `view`, for
/// an engine that accepts `v` or not, numbers its page `page` and reads the
/// physical address `target` from the page's entry.
pub open spec fn translation(
    accepts: bool,
    view: Map<u64, u64>,
    page: u64,
    target: spec_fn(u64) -> u64,
) -> Result<PhysAddr, TranslateError> {
    if !accepts {
        Err(TranslateError::InvalidAddress)
    } else if view.dom().contains(page) {
        Ok(PhysAddr(target(view[page])))
    } else {
        Err(TranslateError::NotMapped)
    }
}

/// The memory-management interface that the kernel programs against. Each
/// architecture has an engine that satisfies it.
///
/// An engine works on the physical memory and the frame source that the
/// caller hands in. It shows every live address space as a view: a map from
/// the numbers of the mapped virtual pages to their entries. What the
/// processor has to do for a change to take effect, it records as hardware
/// operations.
pub trait Mmu {
    /// The engine's invariant with respect to memory `m`.
    spec fn inv(&self, m: Seq<u64>) -> bool;

    /// Whether `aspace` is the kernel address space or one that was created
    /// and not destroyed.
    spec fn live(&self, aspace: AddressSpace) -> bool;

    /// The view of a live address space in memory `m`.
    spec fn space(&self, m: Seq<u64>, aspace: AddressSpace) -> Map<u64, u64>;

    /// The frames that serve as page tables.
    spec fn tables(&self) -> Set<u64>;

    /// Whether the kernel address space is established.
    spec fn has_kernel(&self) -> bool;

    /// Whether every address space that can exist beside the kernel's
    /// exists.
    spec fn full(&self) -> bool;

    /// The address space that was activated last.
    spec fn active(&self) -> Option<AddressSpace>;

    /// The hardware operations that were recorded and not yet taken.
    spec fn ops(&self) -> Seq<HwOp>;

    /// Whether the engine takes `vaddr` as a virtual address.
    spec fn accepts(&self, vaddr: u64) -> bool;

    /// The number of the virtual page that `vaddr` lies in.
    spec fn page(&self, vaddr: u64) -> u64;

    /// The entry that maps a page to the frame at `paddr` with `flags`.
    spec fn leaf(&self, paddr: u64, flags: MapFlags) -> u64;

    /// The entry that maps a page to the frame of `entry` with `flags`.
    spec fn relabel(&self, entry: u64, flags: MapFlags) -> u64;

    /// The physical address that `entry` gives for `vaddr`.
    spec fn target(&self, entry: u64, vaddr: u64) -> u64;

    /// The number of frames that mapping the page of `vaddr` in `aspace`
    /// takes from the frame source.
    spec fn frames_needed(&self, m: Seq<u64>, aspace: AddressSpace, vaddr: u64) -> int;

    /// Whether `aspace` is the kernel address space, which is never
    /// destroyed.
    spec fn is_kernel_space(&self, aspace: AddressSpace) -> bool;

    /// The page-table frames that destroying `aspace` hands back to the
    /// frame source, in the order in which they are handed back. There are
    /// none for the kernel address space.
    spec fn released(&self, m: Seq<u64>, aspace: AddressSpace) -> Seq<u64>;

    /// Whether the root table that the register value `cr3` names is active
    /// and its tables can serve as the kernel address space without a frame
    /// of `avoid`.
    spec fn bootable(&self, m: Seq<u64>, cr3: u64, avoid: Set<u64>) -> bool;

    /// Whether the register value `cr3` names no root table.
    spec fn no_root(&self, cr3: u64) -> bool;

    /// Establishes the kernel address space from the root table that is
    /// already active; does nothing when it is established. Fails with
    /// `InvalidArgs` when no root table is active.
    fn init_kernel(&mut self, mem: &PhysMemory, cr3: u64) -> (r: Result<AddressSpace, MapError>)
        requires
            old(self).inv(mem@),
            !old(self).has_kernel() && !old(self).no_root(cr3) ==> old(self).bootable(
                mem@,
                cr3,
                Set::empty(),
            ),
        ensures
            final(self).inv(mem@),
            final(self).ops() == old(self).ops(),
            match r {
                Ok(h) => final(self).has_kernel() && final(self).live(h)
                    && (old(self).has_kernel() || !old(self).no_root(cr3)),
                Err(e) => e == MapError::InvalidArgs && !old(self).has_kernel()
                    && old(self).no_root(cr3) && !final(self).has_kernel(),
            },
    ;

    /// Creates an address space that inherits the kernel's mappings. Fails
    /// with `InvalidArgs` when the kernel address space cannot be
    /// established and with `OutOfMemory` when no frame or no room for
    /// another address space is left. The existing address spaces keep
    /// their views.
    fn address_space_new<A: PageTableFrameAlloc>(
        &mut self,
        mem: &mut PhysMemory,
        pt_alloc: &mut A,
        cr3: u64,
    ) -> (r: Result<AddressSpace, MapError>)
        requires
            old(self).inv(old(mem)@),
            feeds(old(pt_alloc), old(mem)@, old(self).tables()),
            !old(self).has_kernel() && !old(self).no_root(cr3) ==> old(self).bootable(
                old(mem)@,
                cr3,
                old(pt_alloc).free_frames(),
            ),
        ensures
            final(mem).follows(old(mem)),
            final(self).inv(final(mem)@),
            feeds(final(pt_alloc), final(mem)@, final(self).tables()),
            final(self).ops() == old(self).ops(),
            final(pt_alloc).handed_back() == old(pt_alloc).handed_back(),
            forall|a: AddressSpace| #[trigger]
                old(self).live(a) ==> final(self).live(a) && final(self).space(final(mem)@, a)
                    == old(self).space(old(mem)@, a),
            match r {
                Ok(h) => !old(self).live(h) && final(self).live(h) && !old(self).full(),
                Err(e) => {
                    &&& e == MapError::InvalidArgs || e == MapError::OutOfMemory
                    &&& e == MapError::InvalidArgs <==> !old(self).has_kernel()
                        && old(self).no_root(cr3)
                    &&& old(self).has_kernel() ==> forall|a: AddressSpace|
                        final(self).live(a) == old(self).live(a)
                },
            },
            old(self).full() ==> r is Err,
            r is Ok <==> !(!old(self).has_kernel() && old(self).no_root(cr3))
                && old(pt_alloc).supply() > 0 && !old(self).full(),
    ;

    /// Destroys an address space and hands its page-table frames back, in
    /// the order that `released` gives. Afterwards the address space is not
    /// live any more. Does nothing for the kernel address space, which stays
    /// live. All other address spaces stay live with their views; memory is
    /// not written, and the active address space stays the active one.
    fn address_space_destroy<A: PageTableFrameAlloc>(
        &mut self,
        mem: &PhysMemory,
        pt_alloc: &mut A,
        aspace: AddressSpace,
    )
        requires
            old(self).inv(mem@),
            feeds(old(pt_alloc), mem@, old(self).tables()),
            old(self).live(aspace),
        ensures
            final(self).inv(mem@),
            feeds(final(pt_alloc), mem@, final(self).tables()),
            final(self).ops() == old(self).ops(),
            final(self).active() == old(self).active(),
            final(self).has_kernel() == old(self).has_kernel(),
            final(self).live(aspace) == old(self).is_kernel_space(aspace),
            final(pt_alloc).handed_back() == old(pt_alloc).handed_back()
                + old(self).released(mem@, aspace),
            old(self).is_kernel_space(aspace) ==> {
                &&& old(self).released(mem@, aspace) == Seq::<u64>::empty()
                &&& final(self).tables() == old(self).tables()
                &&& final(pt_alloc).free_frames() == old(pt_alloc).free_frames()
            },
            final(pt_alloc).supply() >= old(pt_alloc).supply(),
            final(self).tables().subset_of(old(self).tables()),
            forall|f: u64| #[trigger]
                final(pt_alloc).free_frames().contains(f) ==> old(pt_alloc).free_frames().contains(
                    f,
                ) || (old(self).tables().contains(f) && !final(self).tables().contains(f)),
            forall|a: AddressSpace| #[trigger]
                final(self).live(a) ==> old(self).live(a) && final(self).space(mem@, a)
                    == old(self).space(mem@, a),
            forall|a: AddressSpace| #[trigger]
                old(self).live(a) && a != aspace ==> final(self).live(a),
    ;

    /// Maps one page. Fails with `Unaligned` when an address is not
    /// page-aligned, with `InvalidArgs` when the engine does not accept the
    /// virtual address, with `AlreadyMapped` when the page is mapped and
    /// with `OutOfMemory` when the mapping needs more frames than the frame
    /// source has to supply; in every other case it succeeds. On success
    /// the page enters the view and its flush is recorded; on failure every
    /// view stays as it was.
    fn map_4k<A: PageTableFrameAlloc>(
        &mut self,
        mem: &mut PhysMemory,
        pt_alloc: &mut A,
        aspace: &AddressSpace,
        vaddr: VirtAddr,
        paddr: PhysAddr,
        flags: MapFlags,
    ) -> (r: Result<(), MapError>)
        requires
            old(self).inv(old(mem)@),
            feeds(old(pt_alloc), old(mem)@, old(self).tables()),
            old(self).live(*aspace),
        ensures
            final(mem).follows(old(mem)),
            final(self).inv(final(mem)@),
            feeds(final(pt_alloc), final(mem)@, final(self).tables()),
            final(pt_alloc).handed_back() == old(pt_alloc).handed_back(),
            final(self).tables() == old(self).tables().union(
                taken(old(pt_alloc).free_frames(), final(pt_alloc).free_frames()),
            ),
            forall|a: AddressSpace| final(self).live(a) == old(self).live(a),
            r is Ok <==> vaddr.0 % 4096 == 0 && paddr.0 % 4096 == 0 && old(self).accepts(vaddr.0)
                && !old(self).space(old(mem)@, *aspace).dom().contains(old(self).page(vaddr.0))
                && old(pt_alloc).supply() >= old(self).frames_needed(
                old(mem)@,
                *aspace,
                vaddr.0,
            ),
            match r {
                Ok(()) => {
                    &&& !old(self).space(old(mem)@, *aspace).dom().contains(
                        old(self).page(vaddr.0),
                    )
                    &&& final(self).space(final(mem)@, *aspace) == old(self).space(
                        old(mem)@,
                        *aspace,
                    ).insert(old(self).page(vaddr.0), old(self).leaf(paddr.0, flags))
                    &&& final(self).ops() == old(self).ops().push(HwOp::FlushPage(vaddr))
                },
                Err(e) => {
                    &&& forall|a: AddressSpace| #[trigger]
                        old(self).live(a) ==> final(self).space(final(mem)@, a)
                            == old(self).space(old(mem)@, a)
                    &&& final(self).ops() == old(self).ops()
                    &&& e == if vaddr.0 % 4096 != 0 || paddr.0 % 4096 != 0 {
                        MapError::Unaligned
                    } else if !old(self).accepts(vaddr.0) {
                        MapError::InvalidArgs
                    } else if old(self).space(old(mem)@, *aspace).dom().contains(
                        old(self).page(vaddr.0),
                    ) {
                        MapError::AlreadyMapped
                    } else {
                        MapError::OutOfMemory
                    }
                },
            },
    ;

    /// Unmaps one page. Fails with `Unaligned`, `InvalidArgs` or, when the
    /// page is not mapped, `NotMapped`; nothing changes then. On success
    /// the page leaves the view and its flush is recorded.
    fn unmap_4k(
        &mut self,
        mem: &mut PhysMemory,
        aspace: &AddressSpace,
        vaddr: VirtAddr,
    ) -> (r: Result<(), MapError>)
        requires
            old(self).inv(old(mem)@),
            old(self).live(*aspace),
        ensures
            final(mem).follows(old(mem)),
            final(self).inv(final(mem)@),
            final(self).tables() == old(self).tables(),
            final(mem)@.len() == old(mem)@.len(),
            forall|a: AddressSpace| final(self).live(a) == old(self).live(a),
            match r {
                Ok(()) => {
                    &&& old(self).space(old(mem)@, *aspace).dom().contains(old(self).page(vaddr.0))
                    &&& final(self).space(final(mem)@, *aspace) == old(self).space(
                        old(mem)@,
                        *aspace,
                    ).remove(old(self).page(vaddr.0))
                    &&& final(self).ops() == old(self).ops().push(HwOp::FlushPage(vaddr))
                },
                Err(e) => {
                    &&& final(mem)@ == old(mem)@
                    &&& final(self).ops() == old(self).ops()
                    &&& e == if vaddr.0 % 4096 != 0 {
                        MapError::Unaligned
                    } else if !old(self).accepts(vaddr.0) {
                        MapError::InvalidArgs
                    } else {
                        MapError::NotMapped
                    }
                    &&& e == MapError::NotMapped ==> !old(self).space(
                        old(mem)@,
                        *aspace,
                    ).dom().contains(old(self).page(vaddr.0))
                },
            },
    ;

    /// Changes the flags of a mapped page and keeps its target. Fails as
    /// `unmap_4k` does; nothing changes then. On success the page's entry
    /// is relabelled and its flush is recorded.
    fn protect_4k(
        &mut self,
        mem: &mut PhysMemory,
        aspace: &AddressSpace,
        vaddr: VirtAddr,
        flags: MapFlags,
    ) -> (r: Result<(), MapError>)
        requires
            old(self).inv(old(mem)@),
            old(self).live(*aspace),
        ensures
            final(mem).follows(old(mem)),
            final(self).inv(final(mem)@),
            final(self).tables() == old(self).tables(),
            final(mem)@.len() == old(mem)@.len(),
            forall|a: AddressSpace| final(self).live(a) == old(self).live(a),
            match r {
                Ok(()) => {
                    &&& old(self).space(old(mem)@, *aspace).dom().contains(old(self).page(vaddr.0))
                    &&& final(self).space(final(mem)@, *aspace) == old(self).space(
                        old(mem)@,
                        *aspace,
                    ).insert(
                        old(self).page(vaddr.0),
                        old(self).relabel(
                            old(self).space(old(mem)@, *aspace)[old(self).page(vaddr.0)],
                            flags,
                        ),
                    )
                    &&& final(self).ops() == old(self).ops().push(HwOp::FlushPage(vaddr))
                },
                Err(e) => {
                    &&& final(mem)@ == old(mem)@
                    &&& final(self).ops() == old(self).ops()
                    &&& e == if vaddr.0 % 4096 != 0 {
                        MapError::Unaligned
                    } else if !old(self).accepts(vaddr.0) {
                        MapError::InvalidArgs
                    } else {
                        MapError::NotMapped
                    }
                    &&& e == MapError::NotMapped ==> !old(self).space(
                        old(mem)@,
                        *aspace,
                    ).dom().contains(old(self).page(vaddr.0))
                },
            },
    ;

    /// Translates a virtual address. Fails with `InvalidAddress` when the
    /// engine does not accept the address and with `NotMapped` when its
    /// page is not mapped. Reads only.
    fn translate(&self, mem: &PhysMemory, aspace: &AddressSpace, vaddr: VirtAddr) -> (r: Result<
        PhysAddr,
        TranslateError,
    >)
        requires
            self.inv(mem@),
            self.live(*aspace),
        ensures
            r == translation(
                self.accepts(vaddr.0),
                self.space(mem@, *aspace),
                self.page(vaddr.0),
                |e: u64| self.target(e, vaddr.0),
            ),
    ;

    /// Makes `aspace` the active address space on this processor.
    fn activate(&mut self, aspace: &AddressSpace)
        requires
            old(self).live(*aspace),
        ensures
            final(self).active() == Some(*aspace),
            final(self).ops().len() == old(self).ops().len() + 1,
            final(self).ops().drop_last() == old(self).ops(),
            final(self).ops().last() is LoadRoot,
            final(self).tables() == old(self).tables(),
            forall|a: AddressSpace| final(self).live(a) == old(self).live(a),
            forall|m: Seq<u64>| final(self).inv(m) == old(self).inv(m),
            forall|m: Seq<u64>, a: AddressSpace|
                #[trigger] final(self).space(m, a) == old(self).space(m, a),
    ;

    /// Records the invalidation of one page's translation on this
    /// processor.
    fn flush_tlb_page(&mut self, vaddr: VirtAddr)
        ensures
            final(self).ops() == old(self).ops().push(HwOp::FlushPage(vaddr)),
            final(self).tables() == old(self).tables(),
            final(self).active() == old(self).active(),
            forall|a: AddressSpace| final(self).live(a) == old(self).live(a),
            forall|m: Seq<u64>| final(self).inv(m) == old(self).inv(m),
            forall|m: Seq<u64>, a: AddressSpace|
                #[trigger] final(self).space(m, a) == old(self).space(m, a),
    ;

    /// Records the invalidation of all translations on this processor.
    fn flush_tlb_all(&mut self)
        ensures
            final(self).ops() == old(self).ops().push(HwOp::FlushAll),
            final(self).tables() == old(self).tables(),
            final(self).active() == old(self).active(),
            forall|a: AddressSpace| final(self).live(a) == old(self).live(a),
            forall|m: Seq<u64>| final(self).inv(m) == old(self).inv(m),
            forall|m: Seq<u64>, a: AddressSpace|
                #[trigger] final(self).space(m, a) == old(self).space(m, a),
    ;

    /// Asks for the invalidation of one page's translation on all
    /// processors. Unless an engine does more, only this processor is
    /// reached.
    fn shootdown_tlb_page(&mut self, vaddr: VirtAddr)
        ensures
            final(self).ops() == old(self).ops().push(HwOp::FlushPage(vaddr)),
            final(self).tables() == old(self).tables(),
            final(self).active() == old(self).active(),
            forall|a: AddressSpace| final(self).live(a) == old(self).live(a),
            forall|m: Seq<u64>| final(self).inv(m) == old(self).inv(m),
            forall|m: Seq<u64>, a: AddressSpace|
                #[trigger] final(self).space(m, a) == old(self).space(m, a),
    {
        self.flush_tlb_page(vaddr);
    }

    /// Asks for the invalidation of all translations on all processors.
    /// Unless an engine does more, only this processor is reached.
    fn shootdown_tlb_all(&mut self)
        ensures
            final(self).ops() == old(self).ops().push(HwOp::FlushAll),
            final(self).tables() == old(self).tables(),
            final(self).active() == old(self).active(),
            forall|a: AddressSpace| final(self).live(a) == old(self).live(a),
            forall|m: Seq<u64>| final(self).inv(m) == old(self).inv(m),
            forall|m: Seq<u64>, a: AddressSpace|
                #[trigger] final(self).space(m, a) == old(self).space(m, a),
    {
        self.flush_tlb_all();
    }

    /// The address space that was activated last. There must be one.
    fn current(&self) -> (r: AddressSpace)
        requires
            self.active() is Some,
        ensures
            Some(r) == self.active(),
    ;
}

} // verus!
