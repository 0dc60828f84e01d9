//! The local interrupt controller: the decisions of its bring-up and the
//! values that are written to it. The register accesses themselves belong to
//! whoever drives the hardware.

use vstd::prelude::*;

use crate::interrupt::TIMER_VEC;

verus! {

/// Bit of the controller's base register: the controller is enabled.
pub const APIC_BASE_ENABLE: u64 = 0x800;

/// Bit of the controller's base register: the controller is in x2 mode.
pub const APIC_BASE_X2APIC: u64 = 0x400;

/// Bit of the controller's base register: this is the bootstrap processor.
pub const APIC_BASE_BSP: u64 = 0x100;

pub const LAPIC_ID: u32 = 0x020;

pub const LAPIC_EOI: u32 = 0x0b0;

pub const LAPIC_SVR: u32 = 0x0f0;

pub const LAPIC_LVT_TIMER: u32 = 0x320;

pub const LAPIC_TIMER_DIV: u32 = 0x3e0;

pub const LAPIC_ICR_LOW: u32 = 0x300;

pub const LAPIC_ICR_HIGH: u32 = 0x310;

/// Bit of the spurious-vector register: the controller delivers interrupts.
pub const SVR_APIC_ENABLE: u32 = 0x100;

/// Bit of a local vector entry: the interrupt is masked.
pub const LVT_MASKED: u32 = 0x1_0000;

/// Timer mode of a local vector entry: fire at a time-stamp deadline.
pub const LVT_MODE_TSC_DEADLINE: u32 = 0x4_0000;

/// Bit of the command register: the last command is still being delivered.
pub const ICR_DELIVERY_PENDING: u32 = 0x1000;

/// Destination shorthand of the command register: all processors but this one.
pub const ICR_ALL_OTHERS: u32 = 0xc_0000;

/// How the controller is reached.
#[derive(Clone, Copy, Debug, PartialEq, Eq, Structural)]
pub enum ApicMode {
    /// Not brought up.
    Off,
    /// Through memory, at the controller's base address.
    XApic,
    /// Through model-specific registers.
    X2Apic,
}

/// The model-specific register that stands for the controller register at
/// offset `off` in x2 mode.
pub fn apic_msr(off: u32) -> (r: u32)
    ensures
        r == 0x800 + off / 16,
{
    assert(off >> 4 == off / 16) by (bit_vector);
    0x800 + (off >> 4)
}

/// What the bring-up of the controller decides.
#[derive(Clone, Copy, Debug, PartialEq, Eq, Structural)]
pub struct ApicSetup {
    pub mode: ApicMode,
    /// The new value of the controller's base register.
    pub base: u64,
    /// The virtual address of the controller's registers; 0 in x2 mode.
    pub lapic_virt: u64,
    /// The value of the spurious-vector register.
    pub svr: u32,
    /// The value of the timer's divide register.
    pub timer_div: u32,
    /// The value of the timer's local vector entry.
    pub lvt_timer: u32,
}

/// The physical address of the controller's registers that the base
/// register value `apic_base` holds.
pub open spec fn apic_phys(apic_base: u64) -> u64 {
    apic_base & 0xffff_f000
}

/// Decides how to bring the controller up, from whether the processor
/// supports x2 mode, the value of the controller's base register and the
/// offset of the direct map.
///
/// With x2 support the controller is enabled in x2 mode. Without it the
/// controller is enabled in memory mode, and its registers lie at their
/// physical address plus the offset, wrapping at 64 bits. Either way
/// interrupts are delivered with spurious vector 0xff, the timer divides by
/// one and fires the timer vector at a time-stamp deadline.
pub fn apic_setup(x2apic: bool, apic_base: u64, hhdm_offset: u64) -> (r: ApicSetup)
    ensures
        r.mode == if x2apic {
            ApicMode::X2Apic
        } else {
            ApicMode::XApic
        },
        r.base == if x2apic {
            apic_base | APIC_BASE_ENABLE | APIC_BASE_X2APIC
        } else {
            apic_base | APIC_BASE_ENABLE
        },
        r.lapic_virt == if x2apic {
            0
        } else {
            ((apic_phys(apic_base) + hhdm_offset) % 0x1_0000_0000_0000_0000) as u64
        },
        r.svr == 0x1ff,
        r.timer_div == 0xb,
        r.lvt_timer == 0x4_00e0,
{
    let svr = SVR_APIC_ENABLE | 0xff;
    let lvt = (TIMER_VEC as u32) | LVT_MODE_TSC_DEADLINE;
    assert(0x100u32 | 0xffu32 == 0x1ff && 0xe0u32 | 0x4_0000u32 == 0x4_00e0) by (bit_vector);
    if x2apic {
        ApicSetup {
            mode: ApicMode::X2Apic,
            base: apic_base | APIC_BASE_ENABLE | APIC_BASE_X2APIC,
            lapic_virt: 0,
            svr,
            timer_div: 0b1011,
            lvt_timer: lvt,
        }
    } else {
        let phys = apic_base & 0xffff_f000;
        ApicSetup {
            mode: ApicMode::XApic,
            base: apic_base | APIC_BASE_ENABLE,
            lapic_virt: phys.wrapping_add(hhdm_offset),
            svr,
            timer_div: 0b1011,
            lvt_timer: lvt,
        }
    }
}

/// The identity of this processor, from the controller's mode and the value
/// of its identity register: the top byte in memory mode, the whole value in
/// x2 mode, and 0 while the controller is off.
pub fn cpu_id(mode: ApicMode, id: u32) -> (r: u32)
    ensures
        r == match mode {
            ApicMode::XApic => id / 0x100_0000,
            ApicMode::X2Apic => id,
            ApicMode::Off => 0,
        },
{
    assert(id >> 24 == id / 0x100_0000) by (bit_vector);
    match mode {
        ApicMode::XApic => id >> 24,
        ApicMode::X2Apic => id,
        ApicMode::Off => 0,
    }
}

/// The command that sends `vector` to all processors but this one, if the
/// controller is up.
pub fn ipi_all_others(mode: ApicMode, vector: u8) -> (r: Option<u32>)
    ensures
        r == if mode == ApicMode::Off {
            None
        } else {
            Some((vector + 0xc_0000) as u32)
        },
{
    if mode == ApicMode::Off {
        return None;
    }
    let v = vector as u32;
    assert(v | 0xc_0000u32 == v + 0xc_0000) by (bit_vector)
        requires
            v < 256,
    ;
    Some(v | ICR_ALL_OTHERS)
}

} // verus!
