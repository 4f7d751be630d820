//! The IRQ handler: dispatches the timer and the system call vector, writes
//! system call results to the ABI registers, and always ends with an EOI.
use vstd::prelude::*;
use std::collections::VecDeque;
use crate::interrupts::{Vector as IrqVector, vector_byte};
use crate::scheduling::{Scheduler, Switch, preempt, resumed_frame, rotate};
use crate::syscall::{
    Error, Level, Vector, decode, error_code, klog_level, log_level, result_registers, vector_number,
};
use crate::task::{InterruptStackFrame, Registers, Task};
use crate::x2apic::x2Apic;

verus! {

/// What an IRQ led to, beyond the EOI.
#[derive(Debug, Clone, Copy, PartialEq, Eq, Structural)]
pub enum IrqOutcome {
    /// A task switch; the caller loads the root and arms the timer.
    Switched(Switch),
    /// A kernel log call whose buffer is to be demand-mapped, read and
    /// logged; its result goes back through [`complete_syscall`].
    Klog { level: Level, ptr: u64, len: u64 },
    /// Nothing more to do.
    Done,
}

/// `regs` with the result of a system call in `rdi` and `rsi`.
pub open spec fn with_result(regs: Registers, r: Result<(), Error>) -> Registers {
    match r {
        Ok(()) => Registers { rdi: 0, rsi: 0, ..regs },
        Err(e) => Registers { rdi: 1, rsi: error_code(e) as usize, ..regs },
    }
}

/// Writes a system call's result to `rdi` and `rsi`.
pub fn complete_syscall(regs: &mut Registers, r: Result<(), Error>)
    ensures
        *final(regs) == with_result(*old(regs), r),
{
    let (primary, secondary) = result_registers(r);
    regs.rdi = primary as usize;
    regs.rsi = secondary as usize;
}

/// Handles IRQ `vector`. The timer preempts the running task. The system
/// call vector decodes `rax`: yield saves the task with a success result
/// and switches, exit drops it and switches, a log call is handed back,
/// anything else gets its error in `rdi`/`rsi`. Every path writes the EOI.
pub fn handle_irq(
    vector: u8,
    scheduler: &mut Scheduler,
    processes: &mut VecDeque<Task>,
    isf: &mut InterruptStackFrame,
    regs: &mut Registers,
    apic: &mut x2Apic,
    current_root: usize,
    idle_ip: u64,
) -> (r: IrqOutcome)
    ensures
        *final(apic) == (x2Apic { eoi_register: 0, ..*old(apic) }),
        vector == vector_byte(IrqVector::Timer) ==> {
            &&& r is Switched
            &&& (final(scheduler).running(), final(processes)@, (*final(isf), *final(regs)))
                == preempt(
                old(scheduler).running(),
                old(processes)@,
                (*old(isf), *old(regs)),
                idle_ip,
                old(scheduler).idle_sp(),
            )
        },
        vector != vector_byte(IrqVector::Timer) && vector != vector_byte(IrqVector::Syscall) ==> {
            &&& r == IrqOutcome::Done
            &&& final(scheduler).running() == old(scheduler).running()
            &&& final(processes)@ == old(processes)@
            &&& *final(isf) == *old(isf)
            &&& *final(regs) == *old(regs)
        },
        vector == vector_byte(IrqVector::Syscall) ==> {
            let call = old(regs).rax as u64;
            let unchanged = final(scheduler).running() == old(scheduler).running()
                && final(processes)@ == old(processes)@ && *final(isf) == *old(isf);
            &&& (forall|v: Vector| vector_number(v) != call) ==> unchanged && r == IrqOutcome::Done
                && *final(regs) == with_result(*old(regs), Err(Error::InvalidVector))
            &&& (call == vector_number(Vector::TaskYield) || call == vector_number(Vector::TaskExit))
                && old(scheduler).running() is None ==> unchanged && r == IrqOutcome::Done
                && *final(regs) == with_result(*old(regs), Err(Error::NoActiveTask))
            &&& call == vector_number(Vector::TaskYield) && old(scheduler).running() is Some ==> {
                &&& r is Switched
                &&& (final(scheduler).running(), final(processes)@, (*final(isf), *final(regs)))
                    == preempt(
                    old(scheduler).running(),
                    old(processes)@,
                    (*old(isf), with_result(*old(regs), Ok(()))),
                    idle_ip,
                    old(scheduler).idle_sp(),
                )
            }
            &&& call == vector_number(Vector::TaskExit) && old(scheduler).running() is Some ==> {
                &&& r is Switched
                &&& (final(scheduler).running(), final(processes)@) == rotate(None, old(processes)@)
                &&& (*final(isf), *final(regs)) == resumed_frame(
                    final(scheduler).running(),
                    (*old(isf), *old(regs)),
                    idle_ip,
                    old(scheduler).idle_sp(),
                )
            }
            &&& forall|v: Vector|
                vector_number(v) == call && log_level(v) is Some ==> unchanged && *final(regs)
                    == *old(regs) && r == (IrqOutcome::Klog {
                    level: log_level(v).unwrap(),
                    ptr: old(regs).rdi as u64,
                    len: old(regs).rsi as u64,
                })
        },
{
    let mut out = IrqOutcome::Done;
    if vector == 0x21 {
        let switch = scheduler.interrupt_task(processes, isf, regs, current_root, idle_ip);
        out = IrqOutcome::Switched(switch);
    } else if vector == 0x80 {
        let call = regs.rax as u64;
        let decoded = decode(call);
        match decoded {
            Err(e) => {
                complete_syscall(regs, Err(e));
            },
            Ok(Vector::TaskYield) => {
                if scheduler.process().is_none() {
                    complete_syscall(regs, Err(Error::NoActiveTask));
                } else {
                    complete_syscall(regs, Ok(()));
                    let switch = scheduler.yield_task(processes, isf, regs, current_root, idle_ip);
                    out = IrqOutcome::Switched(switch);
                }
            },
            Ok(Vector::TaskExit) => {
                if scheduler.process().is_none() {
                    complete_syscall(regs, Err(Error::NoActiveTask));
                } else {
                    let switch = scheduler.kill_task(processes, isf, regs, current_root, idle_ip);
                    out = IrqOutcome::Switched(switch);
                }
            },
            Ok(v) => {
                let level = match klog_level(v) {
                    Some(l) => l,
                    None => Level::Info,
                };
                out = IrqOutcome::Klog { level, ptr: regs.rdi as u64, len: regs.rsi as u64 };
            },
        }
    }
    apic.end_of_interrupt();
    out
}

} // verus!
