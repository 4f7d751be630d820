//! Tasks and the saved CPU context that preemption captures and restores.
use vstd::prelude::*;

verus! {

/// The frame that the CPU pushes on an interrupt.
#[derive(Debug, Clone, Copy, PartialEq, Eq, Structural)]
pub struct InterruptStackFrame {
    pub instruction_pointer: u64,
    pub code_segment: u64,
    pub cpu_flags: u64,
    pub stack_pointer: u64,
    pub stack_segment: u64,
}

/// The general-purpose registers that an entry stub pushes.
#[derive(Debug, Clone, Copy, PartialEq, Eq, Structural)]
pub struct Registers {
    pub rax: usize,
    pub rbx: usize,
    pub rcx: usize,
    pub rdx: usize,
    pub rdi: usize,
    pub rsi: usize,
    pub rbp: usize,
    pub r8: usize,
    pub r9: usize,
    pub r10: usize,
    pub r11: usize,
    pub r12: usize,
    pub r13: usize,
    pub r14: usize,
    pub r15: usize,
}

impl Registers {
    pub open spec fn zeroed() -> Registers {
        Registers {
            rax: 0,
            rbx: 0,
            rcx: 0,
            rdx: 0,
            rdi: 0,
            rsi: 0,
            rbp: 0,
            r8: 0,
            r9: 0,
            r10: 0,
            r11: 0,
            r12: 0,
            r13: 0,
            r14: 0,
            r15: 0,
        }
    }

    /// All registers zero.
    pub fn empty() -> (r: Registers)
        ensures
            r == Registers::zeroed(),
    {
        Registers {
            rax: 0,
            rbx: 0,
            rcx: 0,
            rdx: 0,
            rdi: 0,
            rsi: 0,
            rbp: 0,
            r8: 0,
            r9: 0,
            r10: 0,
            r11: 0,
            r12: 0,
            r13: 0,
            r14: 0,
            r15: 0,
        }
    }
}

/// A schedulable task: its identity, its saved context and the root frame of
/// the address space it runs in.
#[derive(Debug, Clone, Copy, PartialEq, Eq, Structural)]
pub struct Task {
    pub id: u64,
    /// Reserved; the scheduler does not honour it.
    pub priority: u8,
    pub isf: InterruptStackFrame,
    pub regs: Registers,
    pub address_space_root: usize,
}

impl Task {
    pub fn new(id: u64, isf: InterruptStackFrame, regs: Registers, address_space_root: usize) -> (r:
        Task)
        ensures
            r.id == id,
            r.priority == 0,
            r.isf == isf,
            r.regs == regs,
            r.address_space_root == address_space_root,
    {
        Task { id, priority: 0, isf, regs, address_space_root }
    }

    pub fn id(&self) -> (r: u64)
        ensures
            r == self.id,
    {
        self.id
    }
}

} // verus!
