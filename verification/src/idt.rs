//! The interrupt descriptor table: 256 gates, each with the address of its
//! handler split over three fields.

use vstd::prelude::*;

use crate::gdt::KERNEL_CS;
use crate::interrupt::{TIMER_VEC, TLB_SHOOTDOWN_VEC};

verus! {

/// Number of gates in the table.
pub const IDT_ENTRIES: usize = 256;

/// Limit of the table: 256 gates of 16 bytes, less one.
pub const IDT_LIMIT: u16 = 4095;

/// Type and attributes of a present interrupt gate of ring 0.
pub const GATE_INTERRUPT: u8 = 0x8e;

/// One gate of the table.
#[derive(Clone, Copy, Debug, PartialEq, Eq, Structural)]
pub struct IdtEntry {
    pub offset_lo: u16,
    pub selector: u16,
    pub ist: u8,
    pub type_attr: u8,
    pub offset_mid: u16,
    pub offset_hi: u32,
    pub zero: u32,
}

impl IdtEntry {
    /// The entry that is not present: every field zero.
    pub open spec fn spec_missing() -> IdtEntry {
        IdtEntry {
            offset_lo: 0,
            selector: 0,
            ist: 0,
            type_attr: 0,
            offset_mid: 0,
            offset_hi: 0,
            zero: 0,
        }
    }

    /// The entry that is not present.
    #[verifier::when_used_as_spec(spec_missing)]
    pub fn missing() -> (r: IdtEntry)
        ensures
            r == IdtEntry::spec_missing(),
    {
        IdtEntry {
            offset_lo: 0,
            selector: 0,
            ist: 0,
            type_attr: 0,
            offset_mid: 0,
            offset_hi: 0,
            zero: 0,
        }
    }

    /// The address of the handler that the entry holds.
    pub open spec fn handler(&self) -> u64 {
        (self.offset_lo as u64) | ((self.offset_mid as u64) << 16) | ((self.offset_hi as u64)
            << 32)
    }

    /// Whether the entry is an interrupt gate of the kernel for `handler`
    /// with the interrupt stack `ist`, of which only the low three bits
    /// count.
    pub open spec fn is_gate(&self, handler: u64, ist: u8) -> bool {
        &&& self.handler() == handler
        &&& self.selector == KERNEL_CS
        &&& self.ist == ist % 8
        &&& self.type_attr == GATE_INTERRUPT
        &&& self.zero == 0
    }

    /// The interrupt gate of the kernel for `handler` with the interrupt
    /// stack `ist`.
    pub fn gate(handler: u64, ist: u8) -> (r: IdtEntry)
        ensures
            r.is_gate(handler, ist),
    {
        let offset_lo = handler as u16;
        let offset_mid = (handler >> 16) as u16;
        let offset_hi = (handler >> 32) as u32;
        assert(((offset_lo as u64) | ((offset_mid as u64) << 16) | ((offset_hi as u64) << 32))
            == handler && ist & 0x7 == ist % 8) by (bit_vector)
            requires
                offset_lo == handler as u16,
                offset_mid == (handler >> 16) as u16,
                offset_hi == (handler >> 32) as u32,
        ;
        IdtEntry {
            offset_lo,
            selector: KERNEL_CS,
            ist: ist & 0x7,
            type_attr: GATE_INTERRUPT,
            offset_mid,
            offset_hi,
            zero: 0,
        }
    }
}

/// The interrupt stack of exception vector `vec`: the double fault, vector
/// 8, runs on the first interrupt stack, everything else on the stack at
/// hand.
pub open spec fn exception_ist(vec: int) -> u8 {
    if vec == 8 {
        1
    } else {
        0
    }
}

/// The table.
pub struct Idt {
    entries: Vec<IdtEntry>,
}

impl Idt {
    /// The gates of the table, by vector.
    pub closed spec fn gates(&self) -> Seq<IdtEntry> {
        self.entries@
    }

    /// The table has its 256 gates.
    pub open spec fn wf(&self) -> bool {
        self.gates().len() == IDT_ENTRIES
    }

    /// A table in which no gate is present.
    pub fn new() -> (r: Idt)
        ensures
            r.wf(),
            forall|v: int| 0 <= v < 256 ==> #[trigger] r.gates()[v] == IdtEntry::missing(),
    {
        let mut entries: Vec<IdtEntry> = Vec::new();
        let mut i: usize = 0;
        while i < IDT_ENTRIES
            invariant
                i <= IDT_ENTRIES,
                entries@.len() == i,
                forall|v: int| 0 <= v < i ==> #[trigger] entries@[v] == IdtEntry::missing(),
            decreases IDT_ENTRIES - i,
        {
            entries.push(IdtEntry::missing());
            i = i + 1;
        }
        Idt { entries }
    }

    /// The entry of vector `vec`.
    pub fn entry(&self, vec: u8) -> (r: IdtEntry)
        requires
            self.wf(),
        ensures
            r == self.gates()[vec as int],
    {
        self.entries[vec as usize]
    }

    /// Makes the entry of vector `vec` an interrupt gate for `handler` with
    /// the interrupt stack `ist`. No other gate changes.
    pub fn set_gate(&mut self, vec: u8, handler: u64, ist: u8)
        requires
            old(self).wf(),
        ensures
            final(self).wf(),
            final(self).gates()[vec as int].is_gate(handler, ist),
            final(self).gates() == old(self).gates().update(
                vec as int,
                final(self).gates()[vec as int],
            ),
    {
        let g = IdtEntry::gate(handler, ist);
        self.entries[vec as usize] = g;
    }

    /// Fills the table: the 32 exception vectors with the handlers of
    /// `isr_stubs`, vectors 32 to 47 with those of `irq_stubs`, and the
    /// timer and the shootdown vector with their handlers. The double
    /// fault gets the first interrupt stack. All other gates stay.
    pub fn init_idt(
        &mut self,
        isr_stubs: &[u64; 32],
        irq_stubs: &[u64; 16],
        timer_handler: u64,
        shootdown_handler: u64,
    )
        requires
            old(self).wf(),
        ensures
            final(self).wf(),
            forall|v: int|
                0 <= v < 32 ==> (#[trigger] final(self).gates()[v]).is_gate(
                    isr_stubs@[v],
                    exception_ist(v),
                ),
            forall|v: int|
                32 <= v < 48 ==> (#[trigger] final(self).gates()[v]).is_gate(irq_stubs@[v - 32], 0),
            final(self).gates()[TIMER_VEC as int].is_gate(timer_handler, 0),
            final(self).gates()[TLB_SHOOTDOWN_VEC as int].is_gate(shootdown_handler, 0),
            forall|v: int|
                48 <= v < 256 && v != TIMER_VEC && v != TLB_SHOOTDOWN_VEC
                    ==> #[trigger] final(self).gates()[v] == old(self).gates()[v],
    {
        let mut vec: usize = 0;
        while vec < 32
            invariant
                vec <= 32,
                self.wf(),
                forall|v: int|
                    0 <= v < vec ==> (#[trigger] self.gates()[v]).is_gate(
                        isr_stubs@[v],
                        exception_ist(v),
                    ),
                forall|v: int| 32 <= v < 256 ==> #[trigger] self.gates()[v] == old(self).gates()[v],
            decreases 32 - vec,
        {
            let handler = isr_stubs[vec];
            let ist: u8 = if vec == 8 {
                1
            } else {
                0
            };
            self.set_gate(vec as u8, handler, ist);
            vec = vec + 1;
        }
        let mut i: usize = 0;
        while i < 16
            invariant
                i <= 16,
                self.wf(),
                forall|v: int|
                    0 <= v < 32 ==> (#[trigger] self.gates()[v]).is_gate(
                        isr_stubs@[v],
                        exception_ist(v),
                    ),
                forall|v: int|
                    32 <= v < 32 + i ==> (#[trigger] self.gates()[v]).is_gate(
                        irq_stubs@[v - 32],
                        0,
                    ),
                forall|v: int| 48 <= v < 256 ==> #[trigger] self.gates()[v] == old(self).gates()[v],
            decreases 16 - i,
        {
            let handler = irq_stubs[i];
            self.set_gate((32 + i) as u8, handler, 0);
            i = i + 1;
        }
        self.set_gate(TIMER_VEC, timer_handler, 0);
        self.set_gate(TLB_SHOOTDOWN_VEC, shootdown_handler, 0);
    }
}

} // verus!
