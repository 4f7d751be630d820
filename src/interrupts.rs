//! Interrupt vectors that the kernel assigns, and how an IRQ is routed.
use vstd::prelude::*;

verus! {

/// Vectors with a fixed meaning to the kernel; any other byte is `Unknown`.
#[derive(Debug, Clone, Copy, PartialEq, Eq, Structural)]
pub enum Vector {
    Watchdog,
    Timer,
    Error,
    PerformanceCounter,
    ThermalSensor,
    CMCI,
    External,
    Syscall,
    Spurious,
    Unknown,
}

/// The byte that stands for each vector.
pub open spec fn vector_byte(v: Vector) -> u8 {
    match v {
        Vector::Watchdog => 0x20,
        Vector::Timer => 0x21,
        Vector::Error => 0x22,
        Vector::PerformanceCounter => 0x23,
        Vector::ThermalSensor => 0x24,
        Vector::CMCI => 0x25,
        Vector::External => 0x26,
        Vector::Syscall => 0x80,
        Vector::Spurious => 0xFF,
        Vector::Unknown => 0,
    }
}

impl Vector {
    /// The vector that `value` stands for; `Unknown` for any other byte.
    pub fn from_u8(value: u8) -> (r: Vector)
        ensures
            r != Vector::Unknown ==> vector_byte(r) == value,
            r == Vector::Unknown <==> forall|v: Vector|
                v != Vector::Unknown ==> vector_byte(v) != value,
    {
        let r = match value {
            0x20 => Vector::Watchdog,
            0x21 => Vector::Timer,
            0x22 => Vector::Error,
            0x23 => Vector::PerformanceCounter,
            0x24 => Vector::ThermalSensor,
            0x25 => Vector::CMCI,
            0x26 => Vector::External,
            0x80 => Vector::Syscall,
            0xFF => Vector::Spurious,
            _ => Vector::Unknown,
        };
        proof {
            if r != Vector::Unknown {
                assert(vector_byte(r) == value);
            }
        }
        r
    }

    pub fn as_u8(self) -> (r: u8)
        ensures
            r == vector_byte(self),
    {
        match self {
            Vector::Watchdog => 0x20,
            Vector::Timer => 0x21,
            Vector::Error => 0x22,
            Vector::PerformanceCounter => 0x23,
            Vector::ThermalSensor => 0x24,
            Vector::CMCI => 0x25,
            Vector::External => 0x26,
            Vector::Syscall => 0x80,
            Vector::Spurious => 0xFF,
            Vector::Unknown => 0,
        }
    }
}

/// What the IRQ handler does for a vector.
#[derive(Debug, Clone, Copy, PartialEq, Eq, Structural)]
pub enum IrqRoute {
    /// Preempt the running task.
    Preempt,
    /// Decode and run a system call.
    Syscall,
    /// Nothing to do but acknowledge.
    Acknowledge,
}

/// Routes an IRQ: the timer preempts, the syscall vector enters the system call handler,
/// every other vector is only acknowledged. Every path ends with an
/// end-of-interrupt.
pub fn route_irq(vector: u8) -> (r: IrqRoute)
    ensures
        vector == vector_byte(Vector::Timer) ==> r == IrqRoute::Preempt,
        vector == vector_byte(Vector::Syscall) ==> r == IrqRoute::Syscall,
        vector != vector_byte(Vector::Timer) && vector != vector_byte(Vector::Syscall) ==> r
            == IrqRoute::Acknowledge,
{
    match Vector::from_u8(vector) {
        Vector::Timer => IrqRoute::Preempt,
        Vector::Syscall => IrqRoute::Syscall,
        _ => IrqRoute::Acknowledge,
    }
}

} // verus!
