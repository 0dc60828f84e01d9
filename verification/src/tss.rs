//! The task-state segment of long mode: the stack pointers that the
//! processor loads on a change of privilege or for an interrupt with its own
//! stack.

use vstd::prelude::*;

verus! {

/// Size of the task-state segment in bytes, as the kernel lays it out.
pub const TSS_SIZE: u16 = 112;

/// Size of the stack for double faults in bytes.
pub const IST_STACK_SIZE: u64 = 16384;

/// The task-state segment.
#[derive(Clone, Copy, Debug)]
pub struct Tss64 {
    /// Reserved; zero.
    pub _rsv0: u32,
    pub rsp0: u64,
    pub rsp1: u64,
    pub rsp2: u64,
    /// Reserved; zero.
    pub _rsv1: u64,
    pub ist: [u64; 7],
    /// Reserved; zero.
    pub _rsv2: u64,
    /// Reserved; zero.
    pub _rsv3: u16,
    pub iopb_offset: u16,
}

impl Tss64 {
    /// Whether every reserved field is zero.
    pub open spec fn reserved_clear(&self) -> bool {
        self._rsv0 == 0 && self._rsv1 == 0 && self._rsv2 == 0 && self._rsv3 == 0
    }

    /// A segment with no stack set and no input/output bitmap: the bitmap's
    /// offset is the size of the segment.
    pub fn new() -> (r: Tss64)
        ensures
            r.rsp0 == 0,
            r.rsp1 == 0,
            r.rsp2 == 0,
            forall|i: int| 0 <= i < 7 ==> r.ist@[i] == 0,
            r.iopb_offset == TSS_SIZE,
            r.reserved_clear(),
    {
        Tss64 {
            _rsv0: 0,
            rsp0: 0,
            rsp1: 0,
            rsp2: 0,
            _rsv3: 0,
            ist: [0;7],
            _rsv1: 0,
            _rsv2: 0,
            iopb_offset: TSS_SIZE,
        }
    }

    /// Sets the kernel stack to `rsp0_top` and the first interrupt stack, the
    /// one for double faults, to `df_stack_top`, and rules out an
    /// input/output bitmap. Everything else stays.
    pub fn init_tss(&mut self, rsp0_top: u64, df_stack_top: u64)
        ensures
            final(self).rsp0 == rsp0_top,
            final(self).ist@ == old(self).ist@.update(0, df_stack_top),
            final(self).iopb_offset == TSS_SIZE,
            final(self).rsp1 == old(self).rsp1,
            final(self).rsp2 == old(self).rsp2,
            final(self).reserved_clear() == old(self).reserved_clear(),
    {
        self.rsp0 = rsp0_top;
        let mut ist = self.ist;
        ist[0] = df_stack_top;
        self.ist = ist;
        self.iopb_offset = TSS_SIZE;
    }
}

/// The top of the double-fault stack that starts at `base`.
pub fn stack_top(base: u64) -> (r: u64)
    requires
        base + IST_STACK_SIZE <= u64::MAX,
    ensures
        r == base + IST_STACK_SIZE,
{
    base + IST_STACK_SIZE
}

} // verus!
