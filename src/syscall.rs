//! The system call entry point: vector decoding, the pages that a user buffer
//! covers, demand mapping of those pages, and the result registers.
use vstd::prelude::*;
use crate::address_space::{AddressSpace, DEFAULT_USERSPACE_SIZE, Error as SpaceError, MmapPermissions};
use crate::mapper::Error as MapperError;
use crate::pmm::PhysicalMemoryManager;
use crate::scheduling::{Scheduler, Switch, preempt, resumed_frame, rotate};
use crate::task::{InterruptStackFrame, Registers, Task};
use std::collections::VecDeque;

verus! {

/// Bytes in one page.
pub const PAGE_BYTES: u64 = 0x1000;

/// System calls, by the number passed in `rax`.
#[derive(Debug, Clone, Copy, PartialEq, Eq, Structural)]
pub enum Vector {
    KlogInfo,
    KlogError,
    KlogDebug,
    KlogTrace,
    TaskExit,
    TaskYield,
}

pub open spec fn vector_number(v: Vector) -> u64 {
    match v {
        Vector::KlogInfo => 0x100,
        Vector::KlogError => 0x101,
        Vector::KlogDebug => 0x102,
        Vector::KlogTrace => 0x103,
        Vector::TaskExit => 0x200,
        Vector::TaskYield => 0x201,
    }
}

/// Errors that a system call returns to its caller.
#[derive(Debug, Clone, Copy, PartialEq, Eq, Structural)]
pub enum Error {
    InvalidVector,
    NoActiveTask,
    UnmappedMemory,
    BadUtf8,
}

pub open spec fn error_code(e: Error) -> u64 {
    match e {
        Error::InvalidVector => 1,
        Error::NoActiveTask => 2,
        Error::UnmappedMemory => 3,
        Error::BadUtf8 => 4,
    }
}

/// Severity of a kernel log message.
#[derive(Debug, Clone, Copy, PartialEq, Eq, Structural)]
pub enum Level {
    Info,
    Error,
    Debug,
    Trace,
}

/// Decodes the vector in `rax`.
pub fn decode(vector: u64) -> (r: Result<Vector, Error>)
    ensures
        r matches Ok(v) ==> vector_number(v) == vector,
        r is Err <==> forall|v: Vector| vector_number(v) != vector,
        r is Err ==> r == Err::<Vector, Error>(Error::InvalidVector),
{
    let r = if vector == 0x100 {
        Ok(Vector::KlogInfo)
    } else if vector == 0x101 {
        Ok(Vector::KlogError)
    } else if vector == 0x102 {
        Ok(Vector::KlogDebug)
    } else if vector == 0x103 {
        Ok(Vector::KlogTrace)
    } else if vector == 0x200 {
        Ok(Vector::TaskExit)
    } else if vector == 0x201 {
        Ok(Vector::TaskYield)
    } else {
        Err(Error::InvalidVector)
    };
    proof {
        if let Ok(v) = r {
            assert(vector_number(v) == vector);
        }
    }
    r
}

/// The severity that a log vector asks for.
pub open spec fn log_level(v: Vector) -> Option<Level> {
    match v {
        Vector::KlogInfo => Some(Level::Info),
        Vector::KlogError => Some(Level::Error),
        Vector::KlogDebug => Some(Level::Debug),
        Vector::KlogTrace => Some(Level::Trace),
        _ => None,
    }
}

/// The severity that a log vector asks for.
pub fn klog_level(v: Vector) -> (r: Option<Level>)
    ensures
        r == log_level(v),
{
    match v {
        Vector::KlogInfo => Some(Level::Info),
        Vector::KlogError => Some(Level::Error),
        Vector::KlogDebug => Some(Level::Debug),
        Vector::KlogTrace => Some(Level::Trace),
        _ => None,
    }
}

/// The result registers (`rdi`, `rsi`): `(0, 0)` for success, `(1, code)`
/// for an error.
pub fn result_registers(r: Result<(), Error>) -> (out: (u64, u64))
    ensures
        out == match r {
            Ok(()) => (0u64, 0u64),
            Err(e) => (1u64, error_code(e)),
        },
{
    match r {
        Ok(()) => (0, 0),
        Err(Error::InvalidVector) => (1, 1),
        Err(Error::NoActiveTask) => (1, 2),
        Err(Error::UnmappedMemory) => (1, 3),
        Err(Error::BadUtf8) => (1, 4),
    }
}

/// The first page of `[ptr, ptr + len)` and how many pages the range
/// covers; no pages for an empty range.
pub open spec fn covered(ptr: u64, len: u64) -> (int, int) {
    let first = ptr as int / PAGE_BYTES as int * PAGE_BYTES as int;
    if len == 0 {
        (first, 0)
    } else {
        let last = (ptr + len - 1) / PAGE_BYTES as int * PAGE_BYTES as int;
        (first, (last - first) / PAGE_BYTES as int + 1)
    }
}

/// The pages that `[ptr, ptr + len)` touches, lowest first.
pub fn covered_pages(ptr: u64, len: u64) -> (r: Vec<u64>)
    requires
        ptr + len <= u64::MAX,
    ensures
        r@.len() == covered(ptr, len).1,
        forall|k: int| 0 <= k < r@.len() ==> r@[k] == covered(ptr, len).0 + k * PAGE_BYTES,
{
    let mut r: Vec<u64> = Vec::new();
    if len == 0 {
        return r;
    }
    let first = ptr / PAGE_BYTES * PAGE_BYTES;
    let last = (ptr + len - 1) / PAGE_BYTES * PAGE_BYTES;
    assert(first <= last && (last - first) % 4096 == 0) by (nonlinear_arith)
        requires
            first == ptr / 4096 * 4096,
            last == (ptr + len - 1) / 4096 * 4096,
            len > 0,
    ;
    let n = (last - first) / PAGE_BYTES + 1;
    let mut k: u64 = 0;
    while k < n
        invariant
            n == (last - first) / 4096 + 1,
            first <= last,
            (last - first) % 4096 == 0,
            k <= n,
            r@.len() == k,
            forall|j: int| 0 <= j < k ==> r@[j] == first + j * PAGE_BYTES,
        decreases n - k,
    {
        assert(first + k * PAGE_BYTES <= last) by (nonlinear_arith)
            requires
                k < n,
                n == (last - first) / 4096 + 1,
                (last - first) % 4096 == 0,
                first <= last,
        ;
        r.push(first + k * PAGE_BYTES);
        k = k + 1;
    }
    r
}

/// Demand-maps, read-write, every page that `[ptr, ptr + len)` touches in
/// the running task's space; a page already mapped is accepted as it is.
pub fn demand_map_buffer(
    space: &mut AddressSpace,
    pmm: &mut PhysicalMemoryManager,
    ptr: u64,
    len: u64,
) -> (r: Result<(), Error>)
    requires
        old(pmm).wf(),
        old(space).wf(),
    ensures
        final(pmm).wf(),
        final(space).wf(),
        ptr + len > u64::MAX ==> r == Err::<(), Error>(Error::UnmappedMemory),
        r is Err ==> r == Err::<(), Error>(Error::UnmappedMemory),
        r is Ok ==> forall|k: int|
            0 <= k < covered(ptr, len).1 ==> #[trigger] final(space).mapper_spec().lookup(
                (covered(ptr, len).0 + k * PAGE_BYTES) as u64,
                0,
            ) is Some,
        ptr + len <= u64::MAX && (forall|k: int|
            0 <= k < covered(ptr, len).1 ==> covered(ptr, len).0 + k * PAGE_BYTES + PAGE_BYTES
                <= DEFAULT_USERSPACE_SIZE && #[trigger] old(space).mapper_spec().lookup(
                (covered(ptr, len).0 + k * PAGE_BYTES) as u64,
                0,
            ) is Some) ==> r is Ok && final(space).mapper_spec() == old(space).mapper_spec(),
{
    let ghost owed = ptr + len <= u64::MAX && (forall|k: int|
        0 <= k < covered(ptr, len).1 ==> covered(ptr, len).0 + k * PAGE_BYTES + PAGE_BYTES
            <= DEFAULT_USERSPACE_SIZE && #[trigger] old(space).mapper_spec().lookup(
            (covered(ptr, len).0 + k * PAGE_BYTES) as u64,
            0,
        ) is Some);
    if len > u64::MAX - ptr {
        return Err(Error::UnmappedMemory);
    }
    let pages = covered_pages(ptr, len);
    let mut i: usize = 0;
    while i < pages.len()
        invariant
            pmm.wf(),
            space.wf(),
            i <= pages@.len(),
            pages@.len() == covered(ptr, len).1,
            forall|k: int| 0 <= k < pages@.len() ==> pages@[k] == covered(ptr, len).0 + k * PAGE_BYTES,
            owed == (ptr + len <= u64::MAX && (forall|k: int|
                0 <= k < covered(ptr, len).1 ==> covered(ptr, len).0 + k * PAGE_BYTES + PAGE_BYTES
                    <= DEFAULT_USERSPACE_SIZE && #[trigger] old(space).mapper_spec().lookup(
                    (covered(ptr, len).0 + k * PAGE_BYTES) as u64,
                    0,
                ) is Some)),
            owed ==> space.mapper_spec() == old(space).mapper_spec(),
        decreases pages@.len() - i,
    {
        let page = pages[i];
        proof {
            if owed {
                let c = covered(ptr, len).0;
                assert(c % 4096 == 0) by (nonlinear_arith)
                    requires c == ptr as int / 4096 * 4096;
                assert((c + i * PAGE_BYTES) % 4096 == 0) by (nonlinear_arith)
                    requires c % 4096 == 0;
                assert(old(space).mapper_spec().lookup((c + i * PAGE_BYTES) as u64, 0) is Some);
                assert(page as int == c + i * PAGE_BYTES);
                assert(page == (page + 0 * PAGE_BYTES) as u64);
                assert(space.mapper_spec().lookup((page + 0 * PAGE_BYTES) as u64, 0) is Some);
                assert(exists|k: int|
                    0 <= k < 1 && #[trigger] space.mapper_spec().lookup((page + k * PAGE_BYTES) as u64, 0)
                        is Some);
            }
        }
        let mapped = space.mmap(pmm, Some(page), 1, MmapPermissions::ReadWrite);
        let accepted = match mapped {
            Ok(_) => true,
            Err(SpaceError::Mapper(MapperError::AlreadyMapped)) => true,
            Err(_) => false,
        };
        if !accepted {
            return Err(Error::UnmappedMemory);
        }
        i = i + 1;
    }
    let mut i: usize = 0;
    while i < pages.len()
        invariant
            pmm.wf(),
            space.wf(),
            i <= pages@.len(),
            pages@.len() == covered(ptr, len).1,
            forall|k: int| 0 <= k < pages@.len() ==> pages@[k] == covered(ptr, len).0 + k * PAGE_BYTES,
            forall|k: int|
                0 <= k < i ==> #[trigger] space.mapper_spec().lookup(
                    (covered(ptr, len).0 + k * PAGE_BYTES) as u64,
                    0,
                ) is Some,
            owed == (ptr + len <= u64::MAX && (forall|k: int|
                0 <= k < covered(ptr, len).1 ==> covered(ptr, len).0 + k * PAGE_BYTES + PAGE_BYTES
                    <= DEFAULT_USERSPACE_SIZE && #[trigger] old(space).mapper_spec().lookup(
                    (covered(ptr, len).0 + k * PAGE_BYTES) as u64,
                    0,
                ) is Some)),
            owed ==> space.mapper_spec() == old(space).mapper_spec(),
        decreases pages@.len() - i,
    {
        proof {
            if owed {
                assert(pages@[i as int] as int == covered(ptr, len).0 + i * PAGE_BYTES);
                assert(old(space).mapper_spec().lookup((covered(ptr, len).0 + i * PAGE_BYTES) as u64, 0)
                    is Some);
            }
        }
        if !space.is_mmapped(pages[i]) {
            return Err(Error::UnmappedMemory);
        }
        i = i + 1;
    }
    Ok(())
}

/// Whether `b` is well-formed UTF-8, as `core::str::from_utf8` decides.
pub uninterp spec fn utf8_valid(b: Seq<u8>) -> bool;

/// Relies on `core::str::from_utf8`: it accepts exactly the well-formed
/// UTF-8 byte strings, and the result depends on the bytes alone.
#[verifier::external_body]
fn check_utf8(bytes: &Vec<u8>) -> (r: bool)
    ensures
        r == utf8_valid(bytes@),
{
    core::str::from_utf8(bytes.as_slice()).is_ok()
}

/// The bytes of the prefix that every kernel log line starts with.
pub open spec fn klog_prefix() -> Seq<u8> {
    seq![0x5Bu8, 0x4Bu8, 0x4Cu8, 0x4Fu8, 0x47u8, 0x5Du8, 0x3Au8, 0x20u8]
}

/// The log line for a message whose UTF-8 check gave `valid`: the prefix
/// `[KLOG]: ` and the message, or `BadUtf8`.
pub fn klog_line_checked(message: &Vec<u8>, valid: bool) -> (r: Result<Vec<u8>, Error>)
    ensures
        !valid ==> r == Err::<Vec<u8>, Error>(Error::BadUtf8),
        valid ==> (r matches Ok(line) && line@ == klog_prefix() + message@),
{
    if !valid {
        return Err(Error::BadUtf8);
    }
    let mut line: Vec<u8> = vec![0x5Bu8, 0x4Bu8, 0x4Cu8, 0x4Fu8, 0x47u8, 0x5Du8, 0x3Au8, 0x20u8];
    assert(line@ =~= klog_prefix());
    let mut i: usize = 0;
    while i < message.len()
        invariant
            i <= message@.len(),
            line@ == klog_prefix() + message@.subrange(0, i as int),
        decreases message@.len() - i,
    {
        line.push(message[i]);
        i = i + 1;
        assert(line@ =~= klog_prefix() + message@.subrange(0, i as int));
    }
    assert(message@.subrange(0, message@.len() as int) =~= message@);
    Ok(line)
}

/// The outcome of a log call once its buffer was demand-mapped (`mapped`,
/// from [`demand_map_buffer`]) and read (`message`): the mapping error, or
/// the `[KLOG]: ` line, or `BadUtf8`. Its `Ok`/`Err` part is the result that
/// goes back to the task.
pub fn klog_outcome(mapped: Result<(), Error>, message: &Vec<u8>) -> (r: Result<Vec<u8>, Error>)
    ensures
        mapped matches Err(e) ==> r == Err::<Vec<u8>, Error>(e),
        mapped is Ok && !utf8_valid(message@) ==> r == Err::<Vec<u8>, Error>(Error::BadUtf8),
        mapped is Ok && utf8_valid(message@) ==> (r matches Ok(line) && line@ == klog_prefix()
            + message@),
{
    match mapped {
        Err(e) => Err(e),
        Ok(()) => klog_line(message),
    }
}

/// The log line for `message`, or `BadUtf8` when it is not UTF-8.
pub fn klog_line(message: &Vec<u8>) -> (r: Result<Vec<u8>, Error>)
    ensures
        !utf8_valid(message@) ==> r == Err::<Vec<u8>, Error>(Error::BadUtf8),
        utf8_valid(message@) ==> (r matches Ok(line) && line@ == klog_prefix() + message@),
{
    let valid = check_utf8(message);
    klog_line_checked(message, valid)
}

/// What a system call led to.
#[derive(Debug, Clone, Copy, PartialEq, Eq, Structural)]
pub enum Dispatch {
    /// Log the `len` bytes at `ptr` at `level`, once they are demand-mapped.
    Klog { level: Level, ptr: u64, len: u64 },
    /// The running task was switched out.
    Switched(Switch),
}

/// Runs the system call in `vector` with arguments `arg0` and `arg1`. Log
/// calls are handed back with their buffer; yield re-queues the running
/// task and exit drops it, each resuming the next one.
pub fn process(
    vector: u64,
    arg0: u64,
    arg1: u64,
    scheduler: &mut Scheduler,
    processes: &mut VecDeque<Task>,
    isf: &mut InterruptStackFrame,
    regs: &mut Registers,
    current_root: usize,
    idle_ip: u64,
) -> (r: Result<Dispatch, Error>)
    ensures
        (forall|v: Vector| vector_number(v) != vector) ==> r == Err::<Dispatch, Error>(
            Error::InvalidVector,
        ),
        r is Err || (r matches Ok(Dispatch::Klog { .. })) ==> {
            &&& final(scheduler).running() == old(scheduler).running()
            &&& final(processes)@ == old(processes)@
            &&& *final(isf) == *old(isf)
            &&& *final(regs) == *old(regs)
        },
        vector == vector_number(Vector::KlogInfo) ==> r == Ok::<Dispatch, Error>(
            Dispatch::Klog { level: Level::Info, ptr: arg0, len: arg1 },
        ),
        vector == vector_number(Vector::KlogError) ==> r == Ok::<Dispatch, Error>(
            Dispatch::Klog { level: Level::Error, ptr: arg0, len: arg1 },
        ),
        vector == vector_number(Vector::KlogDebug) ==> r == Ok::<Dispatch, Error>(
            Dispatch::Klog { level: Level::Debug, ptr: arg0, len: arg1 },
        ),
        vector == vector_number(Vector::KlogTrace) ==> r == Ok::<Dispatch, Error>(
            Dispatch::Klog { level: Level::Trace, ptr: arg0, len: arg1 },
        ),
        (vector == vector_number(Vector::TaskYield) || vector == vector_number(Vector::TaskExit))
            && old(scheduler).running() is None ==> r == Err::<Dispatch, Error>(Error::NoActiveTask),
        vector == vector_number(Vector::TaskYield) && old(scheduler).running() is Some ==> {
            &&& r is Ok
            &&& (final(scheduler).running(), final(processes)@, (*final(isf), *final(regs)))
                == preempt(
                old(scheduler).running(),
                old(processes)@,
                (*old(isf), *old(regs)),
                idle_ip,
                old(scheduler).idle_sp(),
            )
        },
        vector == vector_number(Vector::TaskExit) && old(scheduler).running() is Some ==> {
            &&& r is Ok
            &&& (final(scheduler).running(), final(processes)@) == rotate(None, old(processes)@)
            &&& (*final(isf), *final(regs)) == resumed_frame(
                final(scheduler).running(),
                (*old(isf), *old(regs)),
                idle_ip,
                old(scheduler).idle_sp(),
            )
        },
{
    match decode(vector) {
        Err(e) => Err(e),
        Ok(Vector::TaskYield) => {
            if scheduler.process().is_none() {
                return Err(Error::NoActiveTask);
            }
            Ok(Dispatch::Switched(scheduler.yield_task(processes, isf, regs, current_root, idle_ip)))
        },
        Ok(Vector::TaskExit) => {
            if scheduler.process().is_none() {
                return Err(Error::NoActiveTask);
            }
            Ok(Dispatch::Switched(scheduler.kill_task(processes, isf, regs, current_root, idle_ip)))
        },
        Ok(v) => {
            let level = match klog_level(v) {
                Some(l) => l,
                None => Level::Info,
            };
            Ok(Dispatch::Klog { level, ptr: arg0, len: arg1 })
        },
    }
}

} // verus!
