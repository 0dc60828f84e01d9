use kernel_vm::cpuid::{
    cpuid, has_invariant_tsc, has_leaf, has_x2apic, invariant_tsc_in, leaf_within, tsc_hz,
    tsc_hz_from_base, tsc_hz_from_crystal, x2apic_in,
};
use kernel_vm::serial::{write_str, LogSink, Serial, SerialBuffer, SerialWriter};
use kernel_vm::time::{arm_next_tick, next_deadline, on_timer_tick, ManualTimer, TimerOps, TICK_NS};
use kernel_vm::tsc::{init_time_source, saturating_product, ticks_from_ns, TscTimer};

#[test]
fn cpuid_answers_for_the_basic_leaf() {
    let (max, _, _, _) = cpuid(0, 0);
    assert!(has_leaf(0));
    assert_eq!(has_leaf(max), true);
    if max < u32::MAX {
        assert!(!has_leaf(max + 1));
    }
    // whatever the machine says, the answers are stable
    assert_eq!(has_x2apic(), has_x2apic());
    assert_eq!(has_invariant_tsc(), has_invariant_tsc());
    assert_eq!(tsc_hz(), tsc_hz());
}

#[test]
fn feature_bits_are_read_from_the_right_place() {
    assert!(leaf_within(0x15, 0x16));
    assert!(leaf_within(0x16, 0x16));
    assert!(!leaf_within(0x17, 0x16));
    assert!(invariant_tsc_in(0x8000_0007, 1 << 8));
    assert!(invariant_tsc_in(0x8000_0008, 0xffff_ffff));
    assert!(!invariant_tsc_in(0x8000_0006, 1 << 8));
    assert!(!invariant_tsc_in(0x8000_0008, !(1 << 8)));
    assert!(x2apic_in(1 << 21));
    assert!(!x2apic_in(!(1 << 21)));
}

#[test]
fn tsc_frequency_from_the_leaves() {
    // 24 MHz crystal, ratio 176/2
    assert_eq!(tsc_hz_from_crystal(2, 176, 24_000_000), Some(2_112_000_000));
    assert_eq!(tsc_hz_from_crystal(3, 10, 10), Some(33));
    assert_eq!(tsc_hz_from_crystal(0, 176, 24_000_000), None);
    assert_eq!(tsc_hz_from_crystal(2, 0, 24_000_000), None);
    assert_eq!(tsc_hz_from_crystal(2, 176, 0), None);
    assert_eq!(
        tsc_hz_from_crystal(1, 0xffff_ffff, 0xffff_ffff),
        Some(0xffff_fffe_0000_0001)
    );
    assert_eq!(tsc_hz_from_base(3000), Some(3_000_000_000));
    assert_eq!(tsc_hz_from_base(0), None);
}

#[test]
fn time_source_configuration() {
    let mut t = TscTimer::new();
    assert_eq!(t.hz(), None);
    assert_eq!(ticks_from_ns(&t, 1_000), None);
    assert!(t.configure(true, Some(2_000_000_000)));
    assert_eq!(t.hz(), Some(2_000_000_000));
    assert_eq!(ticks_from_ns(&t, 1_000), Some(2_000));
    assert_eq!(ticks_from_ns(&t, 1), Some(2));
    assert_eq!(ticks_from_ns(&t, 0), Some(0));
    // the product saturates before the division
    assert_eq!(ticks_from_ns(&t, u64::MAX), Some(u64::MAX / 1_000_000_000));
    assert!(t.configure(true, None));
    assert_eq!(t.hz(), None);
    assert!(t.configure(true, Some(0)));
    assert_eq!(t.hz(), None);
    assert!(t.configure(true, Some(5)));
    assert!(!t.configure(false, Some(7)));
    assert_eq!(t.hz(), None);
    assert_eq!(saturating_product(3, 4), 12);
    assert_eq!(saturating_product(1 << 32, 1 << 32), u64::MAX);
    let mut probe = TscTimer::new();
    let found = init_time_source(&mut probe);
    assert!(found || probe.hz().is_none());
}

#[test]
fn the_next_tick_is_one_tick_length_ahead() {
    assert_eq!(TICK_NS, 10_000_000);
    assert_eq!(next_deadline(1_000_000_000, 500), Some(10_000_500));
    assert_eq!(next_deadline(100, 7), Some(8));
    assert_eq!(next_deadline(99, 7), None);
    assert_eq!(next_deadline(0, 7), None);
    assert_eq!(next_deadline(1_000_000_000, u64::MAX), Some(9_999_999));
    assert_eq!(next_deadline(u64::MAX, 0), Some(u64::MAX / 1_000_000_000));
}

#[test]
fn ticks_arm_the_timer() {
    let mut t = ManualTimer { hz: 3_000_000_000, now: 1_000, deadline: None };
    assert_eq!(t.frequency_hz(), 3_000_000_000);
    assert_eq!(t.now_ticks(), 1_000);
    kernel_vm::time::init(&mut t);
    assert_eq!(t.deadline, Some(30_001_000));
    t.now = 30_001_000;
    on_timer_tick(&mut t);
    assert_eq!(t.deadline, Some(60_001_000));
    let mut unknown = ManualTimer { hz: 0, now: 5, deadline: Some(77) };
    arm_next_tick(&mut unknown);
    assert_eq!(unknown.deadline, Some(77));
    let mut slow = ManualTimer { hz: 50, now: 5, deadline: None };
    on_timer_tick(&mut slow);
    assert_eq!(slow.deadline, None);
    t.arm_one_shot(9);
    assert_eq!(t.deadline, Some(9));
}

#[test]
fn line_feeds_get_a_carriage_return() {
    let mut line = SerialBuffer::new();
    write_str(&mut line, "ab\ncd\n\n");
    assert_eq!(line.bytes, b"ab\r\ncd\r\n\r\n".to_vec());
    write_str(&mut line, "");
    write_str(&mut line, "\r\n");
    assert_eq!(line.bytes, b"ab\r\ncd\r\n\r\n\r\r\n".to_vec());
    line.write_byte(b'\n');
    assert_eq!(line.bytes.last(), Some(&b'\n'));
    assert_eq!(line.bytes.len(), 14);
}

#[test]
fn the_console_greets_and_logs() {
    let mut console = Serial::new(SerialBuffer::new());
    console.init();
    assert!(console.line.bytes.is_empty());
    console.write_raw(b'\n');
    assert_eq!(console.line.bytes, vec![b'\n']);
    console.write_str("x\n");
    assert_eq!(console.line.bytes, b"\nx\r\n".to_vec());
}

#[test]
fn the_console_comes_up_with_a_greeting() {
    let mut console = Serial::new(SerialBuffer::new());
    let boot = kernel_vm::bootloader::minimal_bootinfo(kernel_vm::bootabi::Arch::X86_64, 1);
    kernel_vm::serial::init(&mut console, &boot);
    assert_eq!(console.line.bytes, b"OK\n".to_vec());
}
