//! Model-specific registers: their numbers, and how a 64-bit value travels
//! through the two 32-bit registers of the access instructions.

use vstd::prelude::*;

verus! {

pub const IA32_TSC_DEADLINE: u32 = 0x0000_06e0;

pub const IA32_APIC_BASE: u32 = 0x1b;

pub const IA32_EFER: u32 = 0xc000_0080;

pub const IA32_STAR: u32 = 0xc000_0081;

pub const IA32_LSTAR: u32 = 0xc000_0082;

pub const IA32_FMASK: u32 = 0xc000_0084;

pub const IA32_FS_BASE: u32 = 0xc000_0100;

pub const IA32_GS_BASE: u32 = 0xc000_0101;

pub const IA32_KERNEL_GS_BASE: u32 = 0xc000_0102;

/// The value that the low half `lo` and the high half `hi` make.
pub open spec fn spec_msr_value(lo: u32, hi: u32) -> u64 {
    ((hi as u64) << 32) | (lo as u64)
}

/// The value that a read left in the low and the high register.
#[verifier::when_used_as_spec(spec_msr_value)]
pub fn msr_value(lo: u32, hi: u32) -> (r: u64)
    ensures
        r == spec_msr_value(lo, hi),
{
    ((hi as u64) << 32) | (lo as u64)
}

/// The low and the high half of `val`, as a write wants them in its two
/// registers. The halves make `val` again.
pub fn msr_halves(val: u64) -> (r: (u32, u32))
    ensures
        r.0 == val % 0x1_0000_0000,
        r.1 == val / 0x1_0000_0000,
        spec_msr_value(r.0, r.1) == val,
{
    let lo = val as u32;
    let hi = (val >> 32) as u32;
    assert(lo == val % 0x1_0000_0000 && hi == val / 0x1_0000_0000 && ((hi as u64) << 32) | (
    lo as u64) == val) by (bit_vector)
        requires
            lo == val as u32,
            hi == (val >> 32) as u32,
    ;
    (lo, hi)
}

} // verus!
