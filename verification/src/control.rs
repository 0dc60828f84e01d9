//! Control registers: the bits that switch the floating-point and vector
//! unit on.

use vstd::prelude::*;

verus! {

/// Bit MP of CR0: the wait instruction honours the task-switched flag.
pub const CR0_MP: u64 = 0x2;

/// Bit EM of CR0: floating-point instructions are emulated.
pub const CR0_EM: u64 = 0x4;

/// Bit TS of CR0: a task switch happened since the unit was used.
pub const CR0_TS: u64 = 0x8;

/// Bit NE of CR0: floating-point errors are reported as exceptions.
pub const CR0_NE: u64 = 0x20;

/// Bit OSFXSR of CR4: the kernel saves and restores the vector registers.
pub const CR4_OSFXSR: u64 = 0x200;

/// Bit OSXMMEXCPT of CR4: the kernel handles vector exceptions.
pub const CR4_OSXMMEXCPT: u64 = 0x400;

/// The values of CR0 and CR4 that switch the floating-point and vector unit
/// on: emulation and the task-switched flag are cleared, monitoring, native
/// errors and the two operating-system bits are set. All other bits stay.
pub fn enable_sse(cr0: u64, cr4: u64) -> (r: (u64, u64))
    ensures
        r.0 == (cr0 & !(CR0_EM | CR0_TS)) | CR0_MP | CR0_NE,
        r.1 == cr4 | CR4_OSFXSR | CR4_OSXMMEXCPT,
{
    let mut cr0 = cr0;
    let mut cr4 = cr4;
    let start = cr0;
    cr0 &= !(1 << 2);
    cr0 &= !(1 << 3);
    cr0 |= 1 << 1;
    cr0 |= 1 << 5;
    assert(((((start & !(1u64 << 2)) & !(1u64 << 3)) | (1u64 << 1)) | (1u64 << 5)) == (start & !(
    0x4u64 | 0x8u64)) | 0x2u64 | 0x20u64) by (bit_vector);
    let before = cr4;
    cr4 |= 1 << 9;
    cr4 |= 1 << 10;
    assert(((before | (1u64 << 9)) | (1u64 << 10)) == before | 0x200u64 | 0x400u64)
        by (bit_vector);
    (cr0, cr4)
}

} // verus!
