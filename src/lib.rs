//! Verified core of a higher-half x86_64 kernel: physical frame accounting,
//! page-table mapping, address spaces, interrupt plumbing and round-robin
//! scheduling, each stated over a mathematical model.
use vstd::prelude::*;

pub mod address_space;
pub mod bits;
pub mod control;
pub mod cpu;
pub mod exceptions;
pub mod frame_bits;
pub mod gdt;
pub mod hhdm;
pub mod idt;
pub mod interrupts;
pub mod irq;
pub mod kalloc;
pub mod kernel_memory;
pub mod local_state;
pub mod local_timer;
pub mod mapper;
pub mod msr;
pub mod paging;
pub mod params;
pub mod pmm;
pub mod rand;
pub mod scheduling;
pub mod stopwatch;
pub mod syscall;
pub mod task;
pub mod tss;
pub mod walker;
pub mod x2apic;

verus! {

/// Bytes in one page (and one frame).
pub const PAGE_SIZE: usize = 4096;

} // verus!
