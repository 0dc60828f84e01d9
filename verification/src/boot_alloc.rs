//! The boot-time frame source: a cursor that walks the usable regions of the
//! firmware memory map page by page, and a small stack of frames that were
//! handed back.

use vstd::arithmetic::power2::{lemma2_to64, lemma_pow2_pos, pow2};
use vstd::bits::{lemma_u64_low_bits_mask_is_mod, low_bits_mask};
use vstd::prelude::*;

use crate::bootabi::{BootInfo, MemMapEntry, MemType, MEMMAP_ENTRY_SIZE};
use crate::mmu::{PageTableFrameAlloc, PhysAddr};
use crate::paging::PAGE_SIZE;
use crate::phys_mem::{frame_in, frame_is_zero, zeroed, PhysMemory};

verus! {

/// Capacity of the stack of frames that were handed back.
pub const MAX_FREE_FRAMES: usize = 128;

/// Whether frames may be taken from memory of type `t`: usable memory and
/// memory that the boot loader no longer needs.
pub open spec fn spec_is_usable(t: MemType) -> bool {
    t == MemType::Usable || t == MemType::BootloaderReclaimable
}

/// Whether frames may be taken from memory of type `mem_type`.
#[verifier::when_used_as_spec(spec_is_usable)]
pub fn is_usable(mem_type: MemType) -> (r: bool)
    ensures
        r == spec_is_usable(mem_type),
{
    match mem_type {
        MemType::Usable => true,
        MemType::BootloaderReclaimable => true,
        _ => false,
    }
}

/// Whether `align` is a power of two.
pub open spec fn is_pow2(align: u64) -> bool {
    exists|n: nat| n < 64 && align == #[trigger] pow2(n)
}

/// The least multiple of `align` that is not below `value`.
pub open spec fn spec_align_up(value: u64, align: u64) -> int {
    ((value + align - 1) / (align as int)) * align
}

/// Rounds `value` up to the next multiple of `align`, a power of two. The
/// result must fit 64 bits.
pub fn align_up(value: u64, align: u64) -> (r: u64)
    requires
        is_pow2(align),
        value + align - 1 <= u64::MAX,
    ensures
        r == spec_align_up(value, align),
        r % align == 0,
        value <= r < value + align,
{
    let ghost n = choose|n: nat| n < 64 && align == #[trigger] pow2(n);
    proof {
        lemma_pow2_pos(n);
    }
    let mask: u64 = align - 1;
    let sum: u64 = value + mask;
    let r: u64 = sum & !mask;
    proof {
        assert(mask == low_bits_mask(n));
        lemma_u64_low_bits_mask_is_mod(r, n);
        lemma_u64_low_bits_mask_is_mod(sum, n);
        assert((sum & !mask) & mask == 0) by (bit_vector);
        assert(sum == (sum & !mask) + (sum & mask)) by (bit_vector);
        assert(r % align == 0);
        assert(sum - r == sum % align);
        assert(r == spec_align_up(value, align)) by (nonlinear_arith)
            requires
                r % align == 0,
                r <= sum,
                sum - r < align,
                sum == value + align - 1,
                align > 0,
        {
            let q = r as int / align as int;
            assert(r == q * align);
            assert(q * align <= sum < (q + 1) * align);
            assert(sum as int / align as int == q);
        }
    }
    r
}

/// Where a scan of the memory map ends: the frame it found, if any, and the
/// cursor it leaves behind.
pub struct ScanResult {
    pub frame: Option<u64>,
    pub entry: int,
    pub addr: u64,
}

/// The first byte after region `e`.
pub open spec fn region_end(e: MemMapEntry) -> int {
    e.base.0 + e.len
}

/// The first page boundary at or after `x`.
pub open spec fn page_up(x: u64) -> int {
    ((x + 4095) / 4096) * 4096
}

/// The scan for the next frame, from region `entry` and address `addr` on.
///
/// Regions that are not usable are passed over. In a usable region the
/// candidate is the first page boundary that is neither below the region's
/// base nor below the cursor's address. If the page fits the region, it is
/// the result and the cursor moves behind it. If it does not fit, the
/// region is exhausted and the scan goes on with the next one from address
/// zero. The scan ends without a frame after the last region, and where a
/// region's end or the candidate's end does not fit 64 bits.
pub open spec fn scan(map: Seq<MemMapEntry>, entry: int, addr: u64) -> ScanResult
    decreases map.len() - entry,
{
    if entry < 0 || entry >= map.len() {
        ScanResult { frame: None, entry, addr }
    } else {
        let e = map[entry];
        let start = if addr < e.base.0 {
            e.base.0
        } else {
            addr
        };
        let first = page_up(start);
        if !spec_is_usable(e.mem_type) {
            scan(map, entry + 1, 0)
        } else if region_end(e) > u64::MAX || first + 4096 > u64::MAX {
            ScanResult { frame: None, entry, addr }
        } else if first + 4096 > region_end(e) {
            scan(map, entry + 1, 0)
        } else {
            ScanResult { frame: Some(first as u64), entry, addr: (first + 4096) as u64 }
        }
    }
}

/// Whether the page at `p` lies in usable region `i` of the map, at or after
/// address `lo`.
pub open spec fn in_region(map: Seq<MemMapEntry>, i: int, lo: u64, p: u64) -> bool {
    &&& 0 <= i < map.len()
    &&& spec_is_usable(map[i].mem_type)
    &&& p % 4096 == 0
    &&& map[i].base.0 <= p
    &&& lo <= p
    &&& p + 4096 <= region_end(map[i])
}

/// Whether the page at `p` lies in a usable region behind region `entry`.
pub open spec fn later(map: Seq<MemMapEntry>, entry: int, p: u64) -> bool {
    exists|i: int| entry < i && #[trigger] in_region(map, i, 0, p)
}

/// Whether the cursor at region `entry` and address `addr` has the page at
/// `p` still before it: in its own region at or after `addr`, or in a later
/// region.
pub open spec fn ahead(map: Seq<MemMapEntry>, entry: int, addr: u64, p: u64) -> bool {
    in_region(map, entry, addr, p) || later(map, entry, p)
}

/// Whether the usable regions of the map lie below 2^52 and do not overlap.
pub open spec fn sane_memmap(map: Seq<MemMapEntry>) -> bool {
    &&& forall|i: int|
        0 <= i < map.len() && spec_is_usable((#[trigger] map[i]).mem_type) ==> region_end(map[i])
            <= 0x10_0000_0000_0000
    &&& forall|i: int, j: int|
        0 <= i < j < map.len() && spec_is_usable((#[trigger] map[i]).mem_type) && spec_is_usable(
            (#[trigger] map[j]).mem_type,
        ) ==> region_end(map[i]) <= map[j].base.0 || region_end(map[j]) <= map[i].base.0
}

/// Whether region `i` of the map is usable and ends above 2^52 or overlaps a
/// usable region before it.
pub open spec fn breaks_sanity(map: Seq<MemMapEntry>, i: int) -> bool {
    spec_is_usable(map[i].mem_type) && (region_end(map[i]) > 0x10_0000_0000_0000 || exists|j: int|
        0 <= j < i && spec_is_usable((#[trigger] map[j]).mem_type) && !(region_end(map[j])
            <= map[i].base.0 || region_end(map[i]) <= map[j].base.0))
}

/// Whether usable region `i` overlaps one of the usable regions before
/// region `n`.
fn overlaps_earlier(entries: &Vec<MemMapEntry>, i: usize, n: usize, end: u64) -> (r: bool)
    requires
        n <= i < entries@.len(),
        spec_is_usable(entries@[i as int].mem_type),
        end == region_end(entries@[i as int]),
        forall|j: int|
            0 <= j < i && spec_is_usable((#[trigger] entries@[j]).mem_type) ==> region_end(
                entries@[j],
            ) <= 0x10_0000_0000_0000,
    ensures
        r == exists|j: int|
            0 <= j < n && spec_is_usable((#[trigger] entries@[j]).mem_type) && !(region_end(
                entries@[j],
            ) <= entries@[i as int].base.0 || end <= entries@[j].base.0),
{
    let base = entries[i].base.0;
    let mut j: usize = 0;
    while j < n
        invariant
            j <= n,
            n <= i < entries@.len(),
            base == entries@[i as int].base.0,
            forall|k: int|
                0 <= k < i && spec_is_usable((#[trigger] entries@[k]).mem_type) ==> region_end(
                    entries@[k],
                ) <= 0x10_0000_0000_0000,
            forall|k: int|
                0 <= k < j && spec_is_usable((#[trigger] entries@[k]).mem_type) ==> region_end(
                    entries@[k],
                ) <= base || end <= entries@[k].base.0,
        decreases n - j,
    {
        let other = entries[j];
        if is_usable(other.mem_type) {
            let other_end = other.base.0 + other.len;
            if !(other_end <= base || end <= other.base.0) {
                return true;
            }
        }
        j = j + 1;
    }
    false
}

/// Whether the usable regions of the map lie below 2^52 and do not overlap.
pub fn check_memmap(entries: &Vec<MemMapEntry>) -> (r: bool)
    ensures
        r == sane_memmap(entries@),
{
    let mut i: usize = 0;
    while i < entries.len()
        invariant
            i <= entries@.len(),
            forall|k: int| 0 <= k < i ==> !breaks_sanity(entries@, k),
        decreases entries@.len() - i,
    {
        let e = entries[i];
        if is_usable(e.mem_type) {
            let end = match e.base.0.checked_add(e.len) {
                Some(x) => x,
                None => {
                    assert(breaks_sanity(entries@, i as int));
                    return false;
                },
            };
            if end > 0x10_0000_0000_0000 {
                assert(breaks_sanity(entries@, i as int));
                return false;
            }
            assert forall|j: int|
                0 <= j < i && spec_is_usable((#[trigger] entries@[j]).mem_type) implies region_end(
                entries@[j],
            ) <= 0x10_0000_0000_0000 by {
                assert(!breaks_sanity(entries@, j));
            }
            if overlaps_earlier(entries, i, i, end) {
                assert(breaks_sanity(entries@, i as int));
                return false;
            }
        }
        i = i + 1;
    }
    proof {
        let map = entries@;
        assert forall|k: int|
            0 <= k < map.len() && spec_is_usable((#[trigger] map[k]).mem_type) implies region_end(
            map[k],
        ) <= 0x10_0000_0000_0000 by {
            assert(!breaks_sanity(map, k));
        }
        assert forall|a: int, b: int|
            0 <= a < b < map.len() && spec_is_usable((#[trigger] map[a]).mem_type)
                && spec_is_usable((#[trigger] map[b]).mem_type) implies region_end(map[a])
            <= map[b].base.0 || region_end(map[b]) <= map[a].base.0 by {
            assert(!breaks_sanity(map, b));
        }
    }
    true
}

/// A page lies behind region `entry` when it lies in the next region or
/// behind that.
pub proof fn lemma_later_step(map: Seq<MemMapEntry>, entry: int, p: u64)
    ensures
        later(map, entry, p) <==> in_region(map, entry + 1, 0, p) || later(map, entry + 1, p),
{
    if later(map, entry, p) {
        let i = choose|i: int| entry < i && #[trigger] in_region(map, i, 0, p);
        if i != entry + 1 {
            assert(entry + 1 < i && in_region(map, i, 0, p));
        }
    }
    if later(map, entry + 1, p) {
        let i = choose|i: int| entry + 1 < i && #[trigger] in_region(map, i, 0, p);
        assert(entry < i && in_region(map, i, 0, p));
    }
    if in_region(map, entry + 1, 0, p) {
        assert(entry < entry + 1 && in_region(map, entry + 1, 0, p));
    }
}

/// On a sane map a scan finds a page that was ahead of the cursor, and
/// leaves ahead of the new cursor exactly the other pages that were ahead.
/// A scan that finds nothing leaves ahead what was ahead.
pub proof fn lemma_scan_ahead(map: Seq<MemMapEntry>, entry: int, addr: u64)
    requires
        sane_memmap(map),
        0 <= entry <= map.len(),
        addr <= 0x10_0000_0000_0000,
    ensures
        ({
            let s = scan(map, entry, addr);
            &&& entry <= s.entry <= map.len()
            &&& s.addr <= 0x10_0000_0000_0000
            &&& s.frame matches Some(p) ==> ahead(map, entry, addr, p) && in_region(
                map,
                s.entry,
                0,
                p,
            ) && s.addr == p + 4096
            &&& forall|f: u64|
                ahead(map, s.entry, s.addr, f) <==> #[trigger] ahead(map, entry, addr, f)
                    && s.frame != Some(f)
        }),
    decreases map.len() - entry,
{
    let s = scan(map, entry, addr);
    if entry >= map.len() {
        assert forall|f: u64| !(#[trigger] ahead(map, entry, addr, f)) by {
            if later(map, entry, f) {
                let i = choose|i: int| entry < i && #[trigger] in_region(map, i, 0, f);
            }
        }
    } else {
        let e = map[entry];
        let start = if addr < e.base.0 {
            e.base.0
        } else {
            addr
        };
        let first = page_up(start);
        assert(first % 4096 == 0 && start <= first < start + 4096);
        if !spec_is_usable(e.mem_type) || first + 4096 > region_end(e) {
            // the region gives nothing: the scan goes on behind it
            lemma_scan_ahead(map, entry + 1, 0);
            assert(s == scan(map, entry + 1, 0));
            assert forall|f: u64| ahead(map, entry + 1, 0, f) == #[trigger] ahead(
                map,
                entry,
                addr,
                f,
            ) by {
                lemma_later_step(map, entry, f);
                if in_region(map, entry, addr, f) {
                    assert(f % 4096 == 0 && f >= start);
                    assert(f as int >= first);
                }
            }
            assert forall|f: u64|
                ahead(map, s.entry, s.addr, f) <==> #[trigger] ahead(map, entry, addr, f)
                    && s.frame != Some(f) by {
                assert(ahead(map, entry + 1, 0, f) == ahead(map, entry, addr, f));
            }
            if s.frame is Some {
                let p = s.frame.unwrap();
                assert(ahead(map, entry + 1, 0, p) == ahead(map, entry, addr, p));
            }
        } else {
            let p = first as u64;
            assert(s.frame == Some(p));
            assert(in_region(map, entry, addr, p));
            assert(in_region(map, entry, 0, p));
            assert forall|f: u64|
                ahead(map, s.entry, s.addr, f) <==> #[trigger] ahead(map, entry, addr, f) && f
                    != p by {
                if later(map, entry, f) && f == p {
                    let i = choose|i: int| entry < i && #[trigger] in_region(map, i, 0, f);
                    assert(spec_is_usable(map[entry].mem_type));
                    assert(spec_is_usable(map[i].mem_type));
                }
                if in_region(map, entry, addr, f) && f != p {
                    assert(f % 4096 == 0 && f >= start);
                    assert(f as int >= first);
                    assert(f >= p + 4096);
                }
            }
        }
    }
}

/// A scan moves the cursor forward only, and where it finds a frame it
/// leaves the cursor within the map and behind the frame.
pub proof fn lemma_scan_progress(map: Seq<MemMapEntry>, entry: int, addr: u64)
    requires
        0 <= entry <= map.len(),
    ensures
        ({
            let s = scan(map, entry, addr);
            &&& entry <= s.entry <= map.len()
            &&& s.frame is Some ==> s.entry < map.len() && (s.entry > entry || s.addr > addr)
            &&& s.frame is None ==> scan(map, s.entry, s.addr).frame is None
        }),
    decreases map.len() - entry,
{
    if entry < map.len() {
        let e = map[entry];
        let start = if addr < e.base.0 {
            e.base.0
        } else {
            addr
        };
        let first = page_up(start);
        assert(start <= first);
        if !spec_is_usable(e.mem_type) {
            lemma_scan_progress(map, entry + 1, 0);
        } else if region_end(e) > u64::MAX || first + 4096 > u64::MAX {
        } else if first + 4096 > region_end(e) {
            lemma_scan_progress(map, entry + 1, 0);
        }
    }
}

/// The number of frames that the cursor at region `entry` and address
/// `addr` still finds in the map, scan after scan.
pub open spec fn frames_ahead(map: Seq<MemMapEntry>, entry: int, addr: u64) -> nat
    decreases map.len() - entry, u64::MAX - addr,
    when 0 <= entry <= map.len()
    via frames_ahead_decreases
{
    let s = scan(map, entry, addr);
    if s.frame is Some {
        1 + frames_ahead(map, s.entry, s.addr)
    } else {
        0
    }
}

#[via_fn]
proof fn frames_ahead_decreases(map: Seq<MemMapEntry>, entry: int, addr: u64) {
    lemma_scan_progress(map, entry, addr);
}

/// The boot-time frame source.
pub struct BootPtAlloc {
    entries: Vec<MemMapEntry>,
    entries_ptr: u64,
    entry_count: usize,
    cur_entry: usize,
    cur_addr: u64,
    hhdm_offset: u64,
    free_list: Vec<PhysAddr>,
    returned: Ghost<Seq<u64>>,
}

impl BootPtAlloc {
    /// The firmware memory map.
    pub closed spec fn memmap(&self) -> Seq<MemMapEntry> {
        self.entries@
    }

    /// The region that the cursor stands in.
    pub closed spec fn cursor_entry(&self) -> int {
        self.cur_entry as int
    }

    /// The address in its region that the cursor has reached.
    pub closed spec fn cursor_addr(&self) -> u64 {
        self.cur_addr
    }

    /// The offset of the higher-half direct map.
    pub closed spec fn hhdm(&self) -> u64 {
        self.hhdm_offset
    }

    /// The frames that were handed back and not handed out again, oldest
    /// first.
    pub closed spec fn free_list(&self) -> Seq<u64> {
        Seq::new(self.free_list@.len(), |i: int| self.free_list@[i].0)
    }

    /// The shape of the source: the cursor lies within the map and the stack
    /// within its capacity.
    pub closed spec fn shape_ok(&self) -> bool {
        &&& self.entry_count == self.entries@.len()
        &&& self.cur_entry <= self.entry_count
        &&& self.free_list@.len() <= MAX_FREE_FRAMES
    }

    /// Whether the frame at `f` is free: on the stack, or still ahead of the
    /// cursor.
    pub open spec fn is_free(&self, f: u64) -> bool {
        self.free_list().contains(f) || ahead(
            self.memmap(),
            self.cursor_entry(),
            self.cursor_addr(),
            f,
        )
    }

    /// What makes the source hand out no frame twice: a sane memory map, a
    /// cursor below 2^52 and a stack that holds no frame twice and none that
    /// is still ahead of the cursor.
    pub open spec fn no_frame_twice(&self) -> bool {
        &&& self.shape_ok()
        &&& sane_memmap(self.memmap())
        &&& self.cursor_addr() <= 0x10_0000_0000_0000
        &&& self.free_list().no_duplicates()
        &&& forall|i: int|
            0 <= i < self.free_list().len() ==> !ahead(
                self.memmap(),
                self.cursor_entry(),
                self.cursor_addr(),
                #[trigger] self.free_list()[i],
            )
    }

    /// A frame source over the memory map `entries` that `boot` describes.
    ///
    /// There is none when the direct-map offset is zero, when the memory
    /// map is missing or empty, or when its records do not have the
    /// expected size. A new source starts before the first region with an
    /// empty stack.
    pub fn new(boot: &BootInfo, entries: Vec<MemMapEntry>) -> (r: Option<BootPtAlloc>)
        requires
            entries@.len() == boot.mem.entry_count,
        ensures
            r is None <==> boot.hhdm_offset == 0 || boot.mem.entries_ptr == 0
                || boot.mem.entry_count == 0 || boot.mem.entry_size != MEMMAP_ENTRY_SIZE,
            r matches Some(a) ==> {
                &&& a.shape_ok()
                &&& a.memmap() == entries@
                &&& a.cursor_entry() == 0
                &&& a.cursor_addr() == 0
                &&& a.hhdm() == boot.hhdm_offset
                &&& a.free_list() == Seq::<u64>::empty()
                &&& a.handed_back() == Seq::<u64>::empty()
                &&& a.no_frame_twice() == sane_memmap(entries@)
            },
    {
        if boot.hhdm_offset == 0 {
            return None;
        }
        if boot.mem.entries_ptr == 0 || boot.mem.entry_count == 0 {
            return None;
        }
        if boot.mem.entry_size != MEMMAP_ENTRY_SIZE {
            return None;
        }
        let a = BootPtAlloc {
            entries,
            entries_ptr: boot.mem.entries_ptr,
            entry_count: boot.mem.entry_count as usize,
            cur_entry: 0,
            cur_addr: 0,
            hhdm_offset: boot.hhdm_offset,
            free_list: Vec::new(),
            returned: Ghost(Seq::empty()),
        };
        assert(a.free_list() =~= Seq::<u64>::empty());
        Some(a)
    }

    /// The record of region `idx`, if the map has one.
    pub fn entry_at(&self, idx: usize) -> (r: Option<MemMapEntry>)
        requires
            self.shape_ok(),
        ensures
            r == if idx < self.memmap().len() {
                Some(self.memmap()[idx as int])
            } else {
                None
            },
    {
        if idx >= self.entry_count {
            return None;
        }
        Some(self.entries[idx])
    }

    /// Takes the next frame from the memory map and moves the cursor behind
    /// it: the result and the new cursor are those of `scan`.
    pub fn next_from_map(&mut self) -> (r: Option<PhysAddr>)
        requires
            old(self).shape_ok(),
        ensures
            final(self).shape_ok(),
            ({
                let s = scan(old(self).memmap(), old(self).cursor_entry(), old(self).cursor_addr());
                &&& r == match s.frame {
                    Some(p) => Some(PhysAddr(p)),
                    None => None,
                }
                &&& final(self).cursor_entry() == s.entry
                &&& final(self).cursor_addr() == s.addr
            }),
            final(self).memmap() == old(self).memmap(),
            final(self).free_list() == old(self).free_list(),
            final(self).handed_back() == old(self).handed_back(),
            final(self).hhdm() == old(self).hhdm(),
    {
        while self.cur_entry < self.entry_count
            invariant
                self.shape_ok(),
                self.entries == old(self).entries,
                self.free_list == old(self).free_list,
                self.returned == old(self).returned,
                self.hhdm_offset == old(self).hhdm_offset,
                scan(self.entries@, self.cur_entry as int, self.cur_addr) == scan(
                    old(self).entries@,
                    old(self).cur_entry as int,
                    old(self).cur_addr,
                ),
            decreases self.entry_count - self.cur_entry,
        {
            let entry = match self.entry_at(self.cur_entry) {
                Some(e) => e,
                None => {
                    return None;
                },
            };
            if !is_usable(entry.mem_type) {
                self.cur_entry += 1;
                self.cur_addr = 0;
                continue ;
            }
            let base = entry.base.0;
            let end = match base.checked_add(entry.len) {
                Some(x) => x,
                None => {
                    return None;
                },
            };
            let mut addr = if self.cur_addr < base {
                base
            } else {
                self.cur_addr
            };
            if addr > u64::MAX - (PAGE_SIZE - 1) {
                assert(page_up(addr) + 4096 > u64::MAX);
                return None;
            }
            proof {
                lemma2_to64();
                assert(PAGE_SIZE == pow2(12));
            }
            addr = align_up(addr, PAGE_SIZE);
            let next = match addr.checked_add(PAGE_SIZE) {
                Some(x) => x,
                None => {
                    return None;
                },
            };
            if next > end {
                self.cur_entry += 1;
                self.cur_addr = 0;
                continue ;
            }
            self.cur_addr = addr + PAGE_SIZE;
            return Some(PhysAddr(addr));
        }
        None
    }
}

impl BootPtAlloc {
    /// The frame that the next allocation hands out: the frame that was
    /// handed back last, or with an empty stack the next frame of the memory
    /// map.
    pub open spec fn next_frame(&self) -> Option<u64> {
        if self.free_list().len() > 0 {
            Some(self.free_list().last())
        } else {
            scan(self.memmap(), self.cursor_entry(), self.cursor_addr()).frame
        }
    }

    /// The next allocation hands out a frame exactly when the source has a
    /// supply.
    pub proof fn lemma_next_frame_supply(&self)
        requires
            self.shape_ok(),
        ensures
            self.next_frame() is Some <==> self.supply() > 0,
    {
        lemma_scan_progress(self.memmap(), self.cursor_entry(), self.cursor_addr());
    }

    /// Fills the frame at `paddr` with zeroes.
    pub fn zero_frame(&self, mem: &mut PhysMemory, paddr: PhysAddr)
        requires
            frame_in(old(mem)@, paddr.0),
        ensures
            final(mem).follows(old(mem)),
            final(mem)@ == zeroed(old(mem)@, paddr.0),
            frame_is_zero(final(mem)@, paddr.0),
    {
        mem.zero_frame(paddr);
        assert forall|i: int| 0 <= i < 512 implies #[trigger] crate::phys_mem::entry(
            mem@,
            paddr.0,
            i,
        ) == 0 by {}
    }
}

impl PageTableFrameAlloc for BootPtAlloc {
    open spec fn wf(&self) -> bool {
        self.no_frame_twice()
    }

    open spec fn free_frames(&self) -> Set<u64> {
        Set::new(|f: u64| self.is_free(f))
    }

    closed spec fn handed_back(&self) -> Seq<u64> {
        self.returned@
    }

    open spec fn supply(&self) -> nat {
        self.free_list().len() + frames_ahead(
            self.memmap(),
            self.cursor_entry(),
            self.cursor_addr(),
        )
    }

    /// Hands out the frame that was handed back last, or with an empty stack
    /// the next frame of the memory map, filled with zeroes. There is no
    /// frame when the stack is empty and the scan of the map finds none.
    fn alloc_frame_4k(&mut self, mem: &mut PhysMemory) -> (r: Option<PhysAddr>)
        ensures
            r == match old(self).next_frame() {
                Some(p) => Some(PhysAddr(p)),
                None => None,
            },
            r matches Some(p) ==> frame_is_zero(final(mem)@, p.0),
            final(self).memmap() == old(self).memmap(),
            final(self).hhdm() == old(self).hhdm(),
            old(self).free_list().len() > 0 ==> {
                &&& final(self).free_list() == old(self).free_list().drop_last()
                &&& final(self).cursor_entry() == old(self).cursor_entry()
                &&& final(self).cursor_addr() == old(self).cursor_addr()
            },
            old(self).free_list().len() == 0 ==> {
                &&& final(self).free_list() == old(self).free_list()
                &&& final(self).cursor_entry() == scan(
                    old(self).memmap(),
                    old(self).cursor_entry(),
                    old(self).cursor_addr(),
                ).entry
                &&& final(self).cursor_addr() == scan(
                    old(self).memmap(),
                    old(self).cursor_entry(),
                    old(self).cursor_addr(),
                ).addr
            },
    {
        let ghost list0 = self.free_list();
        let ghost map = self.memmap();
        let ghost ce = self.cursor_entry();
        let ghost ca = self.cursor_addr();
        let paddr = if self.free_list.len() > 0 {
            let p = self.free_list.pop().unwrap();
            proof {
                let list1 = self.free_list();
                assert(list1 =~= list0.drop_last());
                assert(list0.last() == p.0);
                assert(list0.contains(p.0));
                assert forall|f: u64| self.is_free(f) == (old(self).is_free(f) && f != p.0) by {
                    if list1.contains(f) {
                        let i = choose|i: int| 0 <= i < list1.len() && list1[i] == f;
                        assert(list0[i] == f);
                    }
                    if list0.contains(f) && f != p.0 {
                        let i = choose|i: int| 0 <= i < list0.len() && list0[i] == f;
                        assert(list1[i] == f);
                    }
                    assert(!ahead(map, ce, ca, list0[list0.len() - 1]));
                }
                assert forall|i: int| 0 <= i < list1.len() implies !ahead(
                    map,
                    ce,
                    ca,
                    #[trigger] list1[i],
                ) by {
                    assert(list1[i] == list0[i]);
                }
                assert(self.free_frames() =~= old(self).free_frames().remove(p.0));
            }
            p
        } else {
            proof {
                lemma_scan_ahead(map, ce, ca);
                lemma_scan_progress(map, ce, ca);
            }
            let found = self.next_from_map();
            proof {
                let s = scan(map, ce, ca);
                assert forall|f: u64| self.is_free(f) == (old(self).is_free(f) && s.frame != Some(
                    f,
                )) by {
                    assert(ahead(map, s.entry, s.addr, f) <==> ahead(map, ce, ca, f) && s.frame
                        != Some(f));
                    if list0.contains(f) {
                        let i = choose|i: int| 0 <= i < list0.len() && list0[i] == f;
                    }
                }
                assert forall|i: int| 0 <= i < list0.len() implies !ahead(
                    map,
                    s.entry,
                    s.addr,
                    #[trigger] list0[i],
                ) by {
                    assert(ahead(map, s.entry, s.addr, list0[i]) <==> ahead(map, ce, ca, list0[i])
                        && s.frame != Some(list0[i]));
                }
                if s.frame is Some {
                    assert(self.free_frames() =~= old(self).free_frames().remove(
                        s.frame.unwrap(),
                    ));
                } else {
                    assert(self.free_frames() =~= old(self).free_frames());
                }
            }
            match found {
                Some(p) => p,
                None => {
                    return None;
                },
            }
        };
        proof {
            assert(old(self).free_frames().contains(paddr.0));
        }
        self.zero_frame(mem, paddr);
        Some(paddr)
    }

    /// Takes a frame back: puts it on the stack if the stack has room, and
    /// forgets it otherwise.
    fn free_frame_4k(&mut self, paddr: PhysAddr)
        ensures
            final(self).free_list() == if old(self).free_list().len() < MAX_FREE_FRAMES {
                old(self).free_list().push(paddr.0)
            } else {
                old(self).free_list()
            },
            final(self).memmap() == old(self).memmap(),
            final(self).hhdm() == old(self).hhdm(),
            final(self).cursor_entry() == old(self).cursor_entry(),
            final(self).cursor_addr() == old(self).cursor_addr(),
    {
        let ghost list0 = self.free_list();
        self.returned = Ghost(self.returned@.push(paddr.0));
        if self.free_list.len() < MAX_FREE_FRAMES {
            self.free_list.push(paddr);
            proof {
                let list1 = self.free_list();
                assert(list1 =~= list0.push(paddr.0));
                assert(!old(self).is_free(paddr.0));
                assert forall|i: int, j: int|
                    0 <= i < list1.len() && 0 <= j < list1.len() && i != j implies list1[i]
                    != list1[j] by {
                    if i < list0.len() {
                        assert(list0[i] == list1[i]);
                        assert(list0.contains(list0[i]));
                    }
                    if j < list0.len() {
                        assert(list0[j] == list1[j]);
                        assert(list0.contains(list0[j]));
                    }
                }
                assert forall|i: int| 0 <= i < list1.len() implies !ahead(
                    self.memmap(),
                    self.cursor_entry(),
                    self.cursor_addr(),
                    #[trigger] list1[i],
                ) by {
                    if i < list0.len() {
                        assert(list0[i] == list1[i]);
                    }
                }
                assert forall|f: u64|
                    old(self).free_frames().contains(f) implies self.free_frames().contains(f) by {
                    if list0.contains(f) {
                        let i = choose|i: int| 0 <= i < list0.len() && list0[i] == f;
                        assert(list1[i] == f);
                    }
                }
                assert forall|f: u64| self.free_frames().contains(f)
                    implies old(self).free_frames().insert(paddr.0).contains(f) by {
                    if list1.contains(f) {
                        let i = choose|i: int| 0 <= i < list1.len() && list1[i] == f;
                        if i < list0.len() {
                            assert(list0[i] == f);
                        }
                    }
                }
            }
        }
    }
}

} // verus!
