//! The virtual-memory core of a small kernel for x86-64, with machine-checked
//! contracts: page tables, address spaces and the frame source that feeds
//! their construction before any other allocator exists.
//!
//! The core works on values. `phys_mem` is its picture of physical memory,
//! `paging` and `walk` say what the processor reads from it, and `tables`
//! holds the invariant that makes page tables a forest. `mmu` has the
//! vocabulary and the two capabilities, the frame source and the engine's
//! interface. `x86_mmu` is the engine with its registry of address spaces,
//! `boot_alloc` the frame source over the firmware's memory map, and `vm`
//! the service that owns all three. `boot_check` tests the page tables that
//! the boot stage leaves behind, and `laws` states what follows when the
//! operations are used one after another.
//!
//! Around the core stand the parts of the kernel that it is brought up
//! with, as far as they decide anything: the boot information and its
//! assembly from the boot loader's answers, processor identification,
//! control registers, descriptor tables, the interrupt controller,
//! interrupts, the tick timer and the serial console. What they decide is
//! carried out elsewhere.

pub mod apic;
pub mod boot_alloc;
pub mod boot_check;
pub mod bootabi;
pub mod bootinfo;
pub mod bootloader;
pub mod control;
pub mod cpuid;
pub mod gdt;
pub mod idt;
pub mod interrupt;
pub mod laws;
pub mod mmu;
pub mod msr;
pub mod paging;
pub mod phys_mem;
pub mod serial;
pub mod tables;
pub mod time;
pub mod tsc;
pub mod tss;
pub mod vm;
pub mod walk;
pub mod x86_mmu;
