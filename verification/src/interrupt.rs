//! Interrupts as the kernel sees them: the kinds of interrupt and fault, the
//! frame that describes one, the handler capability, and the decoding of
//! processor vectors into frames.

use vstd::prelude::*;

use crate::time::{on_timer_tick, TimerOps, TICK_NS};
use crate::tsc::ticks_in;

verus! {

/// Why the processor interrupted.
#[derive(Clone, Copy, Debug, PartialEq, Eq, Structural)]
pub enum IrqKind {
    Fault,
    Timer,
    External,
    Spurious,
    Unknown,
}

/// Which fault the processor raised.
#[derive(Clone, Copy, Debug, PartialEq, Eq, Structural)]
pub enum FaultKind {
    NoFault,
    PageFault,
    GeneralProtection,
    InvalidOpcode,
    DivideByZero,
    DoubleFault,
    Unknown,
}

/// One interrupt, described for the kernel.
#[derive(Clone, Copy, Debug, PartialEq, Eq, Structural)]
pub struct IrqFrame {
    pub kind: IrqKind,
    pub fault_kind: FaultKind,
    /// The line of an external interrupt, 0 otherwise.
    pub irq: u16,
    pub error_code: u64,
    /// The address that a page fault was raised for, 0 otherwise.
    pub fault_addr: u64,
}

/// The registers that the entry stubs save, with the vector and the error
/// code that the processor or the stub pushed.
#[derive(Clone, Copy, Debug)]
pub struct ExceptionContext {
    pub r15: u64,
    pub r14: u64,
    pub r13: u64,
    pub r12: u64,
    pub r11: u64,
    pub r10: u64,
    pub r9: u64,
    pub r8: u64,
    pub rdi: u64,
    pub rsi: u64,
    pub rbp: u64,
    pub rdx: u64,
    pub rcx: u64,
    pub rbx: u64,
    pub rax: u64,
    pub vector: u64,
    pub error_code: u64,
    pub rip: u64,
    pub cs: u64,
    pub rflags: u64,
    pub rsp: u64,
    pub ss: u64,
}

/// Vector of the timer interrupt.
pub const TIMER_VEC: u8 = 0xe0;

/// Vector of the request to invalidate translations.
pub const TLB_SHOOTDOWN_VEC: u8 = 0xe1;

/// A receiver of interrupts.
pub trait InterruptHandler {
    /// Every interrupt that the handler received so far, oldest first.
    spec fn received(&self) -> Seq<IrqFrame>;

    /// Receives one interrupt.
    fn on_interrupt(&mut self, frame: IrqFrame)
        ensures
            final(self).received() == old(self).received().push(frame),
    ;
}

/// Hands `frame` to the registered handler. Without a handler the interrupt
/// is dropped.
pub fn dispatch<H: InterruptHandler>(handler: &mut Option<H>, frame: IrqFrame)
    ensures
        match *old(handler) {
            Some(h) => *final(handler) matches Some(g) && g.received() == h.received().push(
                frame,
            ),
            None => *final(handler) is None,
        },
{
    match handler {
        Some(h) => h.on_interrupt(frame),
        None => {},
    }
}

/// The fault that exception vector `vec` stands for.
pub open spec fn spec_decode_fault_kind(vec: u8) -> FaultKind {
    if vec == 0 {
        FaultKind::DivideByZero
    } else if vec == 6 {
        FaultKind::InvalidOpcode
    } else if vec == 8 {
        FaultKind::DoubleFault
    } else if vec == 13 {
        FaultKind::GeneralProtection
    } else if vec == 14 {
        FaultKind::PageFault
    } else {
        FaultKind::Unknown
    }
}

/// The fault that exception vector `vec` stands for.
#[verifier::when_used_as_spec(spec_decode_fault_kind)]
pub fn decode_fault_kind(vec: u8) -> (r: FaultKind)
    ensures
        r == spec_decode_fault_kind(vec),
{
    match vec {
        0 => FaultKind::DivideByZero,
        6 => FaultKind::InvalidOpcode,
        8 => FaultKind::DoubleFault,
        13 => FaultKind::GeneralProtection,
        14 => FaultKind::PageFault,
        _ => FaultKind::Unknown,
    }
}

/// The interrupt line of vector `vec`: vectors 32 to 47 are lines 0 to 15,
/// every other vector counts as line 0.
pub open spec fn spec_irq_line(vec: u8) -> u16 {
    if 32 <= vec < 48 {
        (vec - 32) as u16
    } else {
        0
    }
}

/// The interrupt line of vector `vec`.
#[verifier::when_used_as_spec(spec_irq_line)]
pub fn irq_line(vec: u8) -> (r: u16)
    ensures
        r == spec_irq_line(vec),
{
    if vec >= 32 && vec < 48 {
        (vec - 32) as u16
    } else {
        0
    }
}

/// Whether the fault address register is to be read for the exception in
/// `ctx`: only a page fault has a fault address.
pub fn wants_fault_addr(ctx: &ExceptionContext) -> (r: bool)
    ensures
        r == (spec_decode_fault_kind(ctx.vector as u8) == FaultKind::PageFault),
{
    decode_fault_kind(ctx.vector as u8) == FaultKind::PageFault
}

/// The frame for the exception in `ctx`, with `cr2` the fault address
/// register as read for a page fault.
pub fn exception_frame(ctx: &ExceptionContext, cr2: u64) -> (r: IrqFrame)
    ensures
        r == (IrqFrame {
            kind: IrqKind::Fault,
            fault_kind: spec_decode_fault_kind(ctx.vector as u8),
            irq: 0,
            error_code: ctx.error_code,
            fault_addr: if spec_decode_fault_kind(ctx.vector as u8) == FaultKind::PageFault {
                cr2
            } else {
                0
            },
        }),
{
    let vec = ctx.vector as u8;
    let fault_kind = decode_fault_kind(vec);
    let fault_addr = if fault_kind == FaultKind::PageFault {
        cr2
    } else {
        0
    };
    IrqFrame { kind: IrqKind::Fault, fault_kind, irq: 0, error_code: ctx.error_code, fault_addr }
}

/// What an interrupt request asks for.
#[derive(Clone, Copy, Debug, PartialEq, Eq, Structural)]
pub enum IrqAction {
    /// Invalidate translations on this processor.
    TlbShootdown,
    /// Hand the frame to the kernel.
    Deliver(IrqFrame),
}

/// What the interrupt request in `ctx` asks for. The shootdown vector asks
/// for an invalidation; every other vector is delivered, the timer vector as
/// a timer interrupt and the rest as external interrupts with their line.
pub fn irq_action(ctx: &ExceptionContext) -> (r: IrqAction)
    ensures
        r == if ctx.vector as u8 == TLB_SHOOTDOWN_VEC {
            IrqAction::TlbShootdown
        } else {
            IrqAction::Deliver(
                IrqFrame {
                    kind: if ctx.vector as u8 == TIMER_VEC {
                        IrqKind::Timer
                    } else {
                        IrqKind::External
                    },
                    fault_kind: FaultKind::NoFault,
                    irq: spec_irq_line(ctx.vector as u8),
                    error_code: ctx.error_code,
                    fault_addr: 0,
                },
            )
        },
{
    let vec = ctx.vector as u8;
    if vec == TLB_SHOOTDOWN_VEC {
        return IrqAction::TlbShootdown;
    }
    let kind = if vec == TIMER_VEC {
        IrqKind::Timer
    } else {
        IrqKind::External
    };
    IrqAction::Deliver(
        IrqFrame {
            kind,
            fault_kind: FaultKind::NoFault,
            irq: irq_line(vec),
            error_code: ctx.error_code,
            fault_addr: 0,
        },
    )
}

/// The kernel's handler: timer interrupts arm the next tick, and a fault is
/// fatal. The first fatal fault is kept for whoever ends the execution.
pub struct KernelInterrupts<T: TimerOps> {
    pub timer: T,
    pub fatal: Option<IrqFrame>,
    pub log: Ghost<Seq<IrqFrame>>,
}

impl<T: TimerOps> KernelInterrupts<T> {
    /// A handler over `timer` that has received nothing.
    pub fn new(timer: T) -> (r: KernelInterrupts<T>)
        ensures
            r.timer == timer,
            r.fatal is None,
            r.received() == Seq::<IrqFrame>::empty(),
    {
        KernelInterrupts { timer, fatal: None, log: Ghost(Seq::empty()) }
    }
}

impl<T: TimerOps> InterruptHandler for KernelInterrupts<T> {
    open spec fn received(&self) -> Seq<IrqFrame> {
        self.log@
    }

    fn on_interrupt(&mut self, frame: IrqFrame)
        ensures
            final(self).timer.hz() == old(self).timer.hz(),
            final(self).fatal == if frame.kind == IrqKind::Fault && old(self).fatal is None {
                Some(frame)
            } else {
                old(self).fatal
            },
            frame.kind != IrqKind::Timer ==> final(self).timer == old(self).timer,
            frame.kind == IrqKind::Timer && old(self).timer.hz() != 0 && ticks_in(
                TICK_NS,
                old(self).timer.hz(),
            ) != 0 ==> final(self).timer.armed() is Some,
    {
        self.log = Ghost(self.log@.push(frame));
        match frame.kind {
            IrqKind::Timer => on_timer_tick(&mut self.timer),
            IrqKind::Fault => {
                if self.fatal.is_none() {
                    self.fatal = Some(frame);
                }
            },
            IrqKind::External => {},
            IrqKind::Spurious => {},
            IrqKind::Unknown => {},
        }
    }
}

} // verus!
