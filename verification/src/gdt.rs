//! The global descriptor table of long mode: a null entry, kernel code and
//! kernel data, and behind them the descriptor of the task-state segment.

use vstd::prelude::*;

use crate::paging::{is_canonical, spec_is_canonical};
use crate::tss::TSS_SIZE;

verus! {

/// Selector of the kernel's code segment.
pub const KERNEL_CS: u16 = 0x08;

/// Selector of the kernel's data segment.
pub const KERNEL_DS: u16 = 0x10;

/// Selector of the task-state segment.
pub const TSS_SEL: u16 = 0x18;

/// Limit of the whole table: three entries of 8 bytes and one descriptor of
/// 16 bytes, less one.
pub const GDT_LIMIT: u16 = 39;

/// The descriptor of a system segment, 16 bytes in two words.
#[derive(Clone, Copy, Debug, PartialEq, Eq, Structural)]
pub struct TssDesc {
    pub lo: u64,
    pub hi: u64,
}

/// The descriptor of the 64-bit code segment: present, ring 0, executable,
/// readable, long mode.
pub fn gdt_code64() -> (r: u64)
    ensures
        r == 0x00af_9a00_0000_ffff,
{
    0x00AF9A000000FFFF
}

/// The descriptor of the data segment: present, ring 0, writable.
pub fn gdt_data() -> (r: u64)
    ensures
        r == 0x00cf_9200_0000_ffff,
{
    0x00CF92000000FFFF
}

/// The base address that descriptor `d` holds.
pub open spec fn desc_base(d: TssDesc) -> u64 {
    ((d.lo >> 16) & 0xff_ffff) | (((d.lo >> 56) & 0xff) << 24) | (d.hi << 32)
}

/// The 20-bit limit that descriptor `d` holds.
pub open spec fn desc_limit(d: TssDesc) -> u64 {
    (d.lo & 0xffff) | (((d.lo >> 48) & 0xf) << 16)
}

/// The access byte of descriptor `d`: type and present bit.
pub open spec fn desc_access(d: TssDesc) -> u64 {
    (d.lo >> 40) & 0xff
}

/// The flag bits of descriptor `d`.
pub open spec fn desc_flags(d: TssDesc) -> u64 {
    (d.lo >> 52) & 0xf
}

/// The descriptor of an available task-state segment of `tss_len` bytes at
/// `tss_addr`: its base is the address, its limit the length less one as far
/// as 20 bits hold it, its access byte says present and available, and all
/// other bits are zero.
pub fn make_tss_desc(tss_addr: u64, tss_len: u32) -> (r: TssDesc)
    requires
        tss_len >= 1,
    ensures
        desc_base(r) == tss_addr,
        desc_limit(r) == (tss_len - 1) % 0x10_0000,
        desc_access(r) == 0x89,
        desc_flags(r) == 0,
        r.hi == tss_addr / 0x1_0000_0000,
{
    let limit = (tss_len - 1) as u64;
    let mut lo: u64 = 0;
    lo |= limit & 0xFFFF;
    lo |= (tss_addr & 0xFFFF) << 16;
    lo |= ((tss_addr >> 16) & 0xFF) << 32;
    lo |= 0x89u64 << 40;
    lo |= (limit & 0xF0000) << 32;
    lo |= ((tss_addr >> 24) & 0xFF) << 56;
    let hi = tss_addr >> 32;
    assert((((lo >> 16) & 0xff_ffff) | (((lo >> 56) & 0xff) << 24) | (hi << 32)) == tss_addr && ((lo
        & 0xffff) | (((lo >> 48) & 0xf) << 16)) == limit % 0x10_0000 && (lo >> 40) & 0xff == 0x89
        && (lo >> 52) & 0xf == 0 && hi == tss_addr / 0x1_0000_0000) by (bit_vector)
        requires
            limit < 0x1_0000_0000,
            hi == tss_addr >> 32,
            lo == 0 | (limit & 0xFFFF) | ((tss_addr & 0xFFFF) << 16) | (((tss_addr >> 16) & 0xFF)
                << 32) | (0x89u64 << 40) | ((limit & 0xF0000) << 32) | (((tss_addr >> 24) & 0xFF)
                << 56),
    ;
    TssDesc { lo, hi }
}

/// The tables that the processor is pointed at: the three segment entries
/// and the descriptor of the task-state segment, first apart as they are
/// built, then together as they are loaded.
#[derive(Clone, Copy, Debug)]
pub struct GdtTables {
    pub gdt: [u64; 3],
    pub tss_desc: TssDesc,
    pub full_gdt: [u64; 3],
    pub full_tss: TssDesc,
}

impl GdtTables {
    /// Tables of zeroes.
    pub fn new() -> (r: GdtTables)
        ensures
            forall|i: int| 0 <= i < 3 ==> r.gdt@[i] == 0 && r.full_gdt@[i] == 0,
            r.tss_desc == (TssDesc { lo: 0, hi: 0 }),
            r.full_tss == (TssDesc { lo: 0, hi: 0 }),
    {
        GdtTables {
            gdt: [0;3],
            tss_desc: TssDesc { lo: 0, hi: 0 },
            full_gdt: [0;3],
            full_tss: TssDesc { lo: 0, hi: 0 },
        }
    }

    /// Fills in the code and the data entry; the null entry stays.
    pub fn build_gdt_entries_only(&mut self)
        ensures
            final(self).gdt@ == old(self).gdt@.update(1, 0x00af_9a00_0000_ffffu64).update(
                2,
                0x00cf_9200_0000_ffffu64,
            ),
            final(self).tss_desc == old(self).tss_desc,
            final(self).full_gdt == old(self).full_gdt,
            final(self).full_tss == old(self).full_tss,
    {
        let mut gdt = self.gdt;
        gdt[1] = gdt_code64();
        gdt[2] = gdt_data();
        self.gdt = gdt;
    }

    /// Makes the descriptor of the task-state segment at `tss_addr`. An
    /// address that is not canonical is left out and the descriptor stays.
    pub fn build_tss_desc(&mut self, tss_addr: u64)
        ensures
            spec_is_canonical(tss_addr) ==> desc_base(final(self).tss_desc) == tss_addr
                && desc_limit(final(self).tss_desc) == TSS_SIZE - 1 && desc_access(
                final(self).tss_desc,
            ) == 0x89 && desc_flags(final(self).tss_desc) == 0,
            !spec_is_canonical(tss_addr) ==> final(self).tss_desc == old(self).tss_desc,
            final(self).gdt == old(self).gdt,
            final(self).full_gdt == old(self).full_gdt,
            final(self).full_tss == old(self).full_tss,
    {
        if !is_canonical(tss_addr) {
            return ;
        }
        self.tss_desc = make_tss_desc(tss_addr, TSS_SIZE as u32);
    }

    /// Copies the entries and the descriptor into the table that is loaded.
    pub fn build_full_table(&mut self)
        ensures
            final(self).full_gdt@ == old(self).gdt@,
            final(self).full_tss == old(self).tss_desc,
            final(self).gdt == old(self).gdt,
            final(self).tss_desc == old(self).tss_desc,
    {
        let mut full = self.full_gdt;
        full[0] = self.gdt[0];
        full[1] = self.gdt[1];
        full[2] = self.gdt[2];
        self.full_gdt = full;
        self.full_tss = self.tss_desc;
        assert(self.full_gdt@ =~= self.gdt@);
    }
}

} // verus!
