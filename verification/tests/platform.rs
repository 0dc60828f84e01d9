use kernel_vm::apic::{apic_msr, apic_setup, cpu_id, ipi_all_others, ApicMode, ApicSetup};
use kernel_vm::control::enable_sse;
use kernel_vm::gdt::{
    gdt_code64, gdt_data, make_tss_desc, GdtTables, TssDesc, GDT_LIMIT, KERNEL_CS, KERNEL_DS,
    TSS_SEL,
};
use kernel_vm::idt::{Idt, IdtEntry, IDT_LIMIT};
use kernel_vm::interrupt::{
    decode_fault_kind, dispatch, exception_frame, irq_action, irq_line, wants_fault_addr,
    ExceptionContext, FaultKind, InterruptHandler, IrqAction, IrqFrame, IrqKind, KernelInterrupts,
    TIMER_VEC, TLB_SHOOTDOWN_VEC,
};
use kernel_vm::msr::{msr_halves, msr_value, IA32_APIC_BASE, IA32_EFER, IA32_TSC_DEADLINE};
use kernel_vm::time::ManualTimer;
use kernel_vm::tss::{stack_top, Tss64, IST_STACK_SIZE, TSS_SIZE};

fn context(vector: u64, error_code: u64) -> ExceptionContext {
    ExceptionContext {
        r15: 0,
        r14: 0,
        r13: 0,
        r12: 0,
        r11: 0,
        r10: 0,
        r9: 0,
        r8: 0,
        rdi: 0,
        rsi: 0,
        rbp: 0,
        rdx: 0,
        rcx: 0,
        rbx: 0,
        rax: 0,
        vector,
        error_code,
        rip: 0x1000,
        cs: 8,
        rflags: 2,
        rsp: 0x8000,
        ss: 0x10,
    }
}

#[test]
fn exception_vectors_decode_to_faults() {
    assert_eq!(decode_fault_kind(0), FaultKind::DivideByZero);
    assert_eq!(decode_fault_kind(6), FaultKind::InvalidOpcode);
    assert_eq!(decode_fault_kind(8), FaultKind::DoubleFault);
    assert_eq!(decode_fault_kind(13), FaultKind::GeneralProtection);
    assert_eq!(decode_fault_kind(14), FaultKind::PageFault);
    assert_eq!(decode_fault_kind(1), FaultKind::Unknown);
    assert_eq!(decode_fault_kind(255), FaultKind::Unknown);
}

#[test]
fn irq_lines_cover_vectors_32_to_47() {
    assert_eq!(irq_line(31), 0);
    assert_eq!(irq_line(32), 0);
    assert_eq!(irq_line(33), 1);
    assert_eq!(irq_line(47), 15);
    assert_eq!(irq_line(48), 0);
    assert_eq!(irq_line(0xe0), 0);
}

#[test]
fn only_page_faults_carry_an_address() {
    assert!(wants_fault_addr(&context(14, 0)));
    assert!(!wants_fault_addr(&context(13, 0)));
    assert_eq!(
        exception_frame(&context(14, 2), 0xdead_b000),
        IrqFrame {
            kind: IrqKind::Fault,
            fault_kind: FaultKind::PageFault,
            irq: 0,
            error_code: 2,
            fault_addr: 0xdead_b000
        }
    );
    assert_eq!(
        exception_frame(&context(13, 0x18), 0xdead_b000),
        IrqFrame {
            kind: IrqKind::Fault,
            fault_kind: FaultKind::GeneralProtection,
            irq: 0,
            error_code: 0x18,
            fault_addr: 0
        }
    );
    // only the low byte of the vector counts
    assert_eq!(exception_frame(&context(0x10e, 0), 7).fault_kind, FaultKind::PageFault);
}

#[test]
fn interrupt_requests_are_sorted_by_vector() {
    assert_eq!(TIMER_VEC, 0xe0);
    assert_eq!(TLB_SHOOTDOWN_VEC, 0xe1);
    assert_eq!(irq_action(&context(0xe1, 0)), IrqAction::TlbShootdown);
    assert_eq!(
        irq_action(&context(0xe0, 0)),
        IrqAction::Deliver(IrqFrame {
            kind: IrqKind::Timer,
            fault_kind: FaultKind::NoFault,
            irq: 0,
            error_code: 0,
            fault_addr: 0
        })
    );
    assert_eq!(
        irq_action(&context(36, 9)),
        IrqAction::Deliver(IrqFrame {
            kind: IrqKind::External,
            fault_kind: FaultKind::NoFault,
            irq: 4,
            error_code: 9,
            fault_addr: 0
        })
    );
}

#[test]
fn the_kernel_handler_ticks_and_keeps_the_first_fault() {
    let timer = ManualTimer { hz: 1_000_000_000, now: 100, deadline: None };
    let mut handler = Some(KernelInterrupts::new(timer));
    let tick = IrqFrame {
        kind: IrqKind::Timer,
        fault_kind: FaultKind::NoFault,
        irq: 0,
        error_code: 0,
        fault_addr: 0,
    };
    dispatch(&mut handler, tick);
    assert_eq!(handler.as_ref().unwrap().timer.deadline, Some(10_000_100));
    assert_eq!(handler.as_ref().unwrap().fatal, None);
    let fault = exception_frame(&context(14, 2), 0x4000);
    let later = exception_frame(&context(13, 0), 0);
    dispatch(&mut handler, fault);
    dispatch(&mut handler, later);
    assert_eq!(handler.as_ref().unwrap().fatal, Some(fault));
    let external = IrqFrame { kind: IrqKind::External, ..tick };
    handler.as_mut().unwrap().on_interrupt(external);
    handler.as_mut().unwrap().on_interrupt(IrqFrame { kind: IrqKind::Spurious, ..tick });
    handler.as_mut().unwrap().on_interrupt(IrqFrame { kind: IrqKind::Unknown, ..tick });
    assert_eq!(handler.as_ref().unwrap().timer.deadline, Some(10_000_100));
    let mut nobody: Option<KernelInterrupts<ManualTimer>> = None;
    dispatch(&mut nobody, tick);
    assert!(nobody.is_none());
}

#[test]
fn msr_values_split_and_join() {
    assert_eq!(msr_halves(0x1234_5678_9abc_def0), (0x9abc_def0, 0x1234_5678));
    assert_eq!(msr_halves(0), (0, 0));
    assert_eq!(msr_halves(u64::MAX), (u32::MAX, u32::MAX));
    assert_eq!(msr_value(0x9abc_def0, 0x1234_5678), 0x1234_5678_9abc_def0);
    assert_eq!(msr_value(1, 0), 1);
    assert_eq!(msr_value(0, 1), 0x1_0000_0000);
    assert_eq!(IA32_EFER, 0xc000_0080);
    assert_eq!(IA32_APIC_BASE, 0x1b);
    assert_eq!(IA32_TSC_DEADLINE, 0x6e0);
}

#[test]
fn apic_registers_and_setup() {
    assert_eq!(apic_msr(0x020), 0x802);
    assert_eq!(apic_msr(0x0b0), 0x80b);
    assert_eq!(apic_msr(0x300), 0x830);
    assert_eq!(apic_msr(0x3e0), 0x83e);
    assert_eq!(
        apic_setup(true, 0xfee0_0100, 0xffff_8000_0000_0000),
        ApicSetup {
            mode: ApicMode::X2Apic,
            base: 0xfee0_0d00,
            lapic_virt: 0,
            svr: 0x1ff,
            timer_div: 0xb,
            lvt_timer: 0x4_00e0
        }
    );
    assert_eq!(
        apic_setup(false, 0xfee0_0100, 0xffff_8000_0000_0000),
        ApicSetup {
            mode: ApicMode::XApic,
            base: 0xfee0_0900,
            lapic_virt: 0xffff_8000_fee0_0000,
            svr: 0x1ff,
            timer_div: 0xb,
            lvt_timer: 0x4_00e0
        }
    );
    // the address wraps
    assert_eq!(apic_setup(false, 0x2000, u64::MAX).lapic_virt, 0x1fff);
    assert_eq!(cpu_id(ApicMode::XApic, 0x0300_0000), 3);
    assert_eq!(cpu_id(ApicMode::X2Apic, 0x0300_0000), 0x0300_0000);
    assert_eq!(cpu_id(ApicMode::Off, 0x0300_0000), 0);
    assert_eq!(ipi_all_others(ApicMode::Off, 0xe1), None);
    assert_eq!(ipi_all_others(ApicMode::XApic, 0xe1), Some(0xc_00e1));
    assert_eq!(ipi_all_others(ApicMode::X2Apic, 0), Some(0xc_0000));
}

#[test]
fn the_task_state_segment_starts_empty() {
    let mut tss = Tss64::new();
    assert_eq!(tss.rsp0, 0);
    assert_eq!(tss.ist, [0; 7]);
    assert_eq!(tss.iopb_offset, 112);
    assert_eq!(TSS_SIZE, 112);
    tss.rsp1 = 5;
    tss.ist[3] = 9;
    tss.iopb_offset = 0;
    tss.init_tss(0xffff_8000_0001_0000, stack_top(0x7000));
    assert_eq!(tss.rsp0, 0xffff_8000_0001_0000);
    assert_eq!(tss.ist, [0x7000 + 16384, 0, 0, 9, 0, 0, 0]);
    assert_eq!(tss.rsp1, 5);
    assert_eq!(tss.iopb_offset, 112);
    assert_eq!(IST_STACK_SIZE, 16 * 1024);
}

#[test]
fn segment_descriptors() {
    assert_eq!(gdt_code64(), 0x00AF_9A00_0000_FFFF);
    assert_eq!(gdt_data(), 0x00CF_9200_0000_FFFF);
    assert_eq!((KERNEL_CS, KERNEL_DS, TSS_SEL, GDT_LIMIT), (0x08, 0x10, 0x18, 39));
    assert_eq!(
        make_tss_desc(0xffff_8000_1234_5678, 112),
        TssDesc { lo: 0x1200_8934_5678_006f, hi: 0xffff_8000 }
    );
    // bits 16 to 19 of the limit go to bits 48 to 51
    assert_eq!(make_tss_desc(0, 0x000a_0001), TssDesc { lo: 0x000a_8900_0000_0000, hi: 0 });
    assert_eq!(make_tss_desc(0, 1), TssDesc { lo: 0x0000_8900_0000_0000, hi: 0 });
}

#[test]
fn the_loaded_table_is_a_copy_of_the_built_one() {
    let mut t = GdtTables::new();
    t.build_gdt_entries_only();
    assert_eq!(t.gdt, [0, 0x00AF_9A00_0000_FFFF, 0x00CF_9200_0000_FFFF]);
    assert_eq!(t.full_gdt, [0, 0, 0]);
    // an address that is not canonical is left out
    t.build_tss_desc(0x0001_0000_0000_0000);
    assert_eq!(t.tss_desc, TssDesc { lo: 0, hi: 0 });
    t.build_tss_desc(0x2000);
    assert_eq!(t.tss_desc, TssDesc { lo: 0x0000_8900_2000_006f, hi: 0 });
    t.build_full_table();
    assert_eq!(t.full_gdt, t.gdt);
    assert_eq!(t.full_tss, t.tss_desc);
}

#[test]
fn gates_hold_their_handler_in_three_parts() {
    assert_eq!(IDT_LIMIT, 4095);
    let g = IdtEntry::gate(0xffff_8000_1234_5678, 9);
    assert_eq!(
        g,
        IdtEntry {
            offset_lo: 0x5678,
            selector: 0x08,
            ist: 1,
            type_attr: 0x8e,
            offset_mid: 0x1234,
            offset_hi: 0xffff_8000,
            zero: 0
        }
    );
    let mut idt = Idt::new();
    assert_eq!(idt.entry(0), IdtEntry::missing());
    assert_eq!(idt.entry(255), IdtEntry::missing());
    idt.set_gate(200, 0x1000, 0);
    assert_eq!(idt.entry(200), IdtEntry::gate(0x1000, 0));
    assert_eq!(idt.entry(199), IdtEntry::missing());
    let mut isr = [0u64; 32];
    let mut irq = [0u64; 16];
    let mut i = 0;
    while i < 32 {
        isr[i] = 0x10_0000 + (i as u64) * 16;
        i += 1;
    }
    let mut i = 0;
    while i < 16 {
        irq[i] = 0x20_0000 + (i as u64) * 16;
        i += 1;
    }
    idt.init_idt(&isr, &irq, 0x30_0000, 0x30_0010);
    assert_eq!(idt.entry(0), IdtEntry::gate(0x10_0000, 0));
    assert_eq!(idt.entry(8), IdtEntry::gate(0x10_0080, 1));
    assert_eq!(idt.entry(31), IdtEntry::gate(0x10_01f0, 0));
    assert_eq!(idt.entry(32), IdtEntry::gate(0x20_0000, 0));
    assert_eq!(idt.entry(47), IdtEntry::gate(0x20_00f0, 0));
    assert_eq!(idt.entry(48), IdtEntry::missing());
    assert_eq!(idt.entry(0xe0), IdtEntry::gate(0x30_0000, 0));
    assert_eq!(idt.entry(0xe1), IdtEntry::gate(0x30_0010, 0));
    assert_eq!(idt.entry(200), IdtEntry::gate(0x1000, 0));
}

#[test]
fn the_vector_unit_is_switched_on() {
    // EM and TS go, MP and NE come, the rest stays
    assert_eq!(enable_sse(0x8000_001d, 0x20), (0x8000_0033, 0x620));
    assert_eq!(enable_sse(0, 0), (0x22, 0x600));
    assert_eq!(enable_sse(u64::MAX, u64::MAX), (u64::MAX & !0xc, u64::MAX));
}
