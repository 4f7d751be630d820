//! CPU exceptions: decoding their error codes and deciding what a page
//! fault leads to.
use vstd::prelude::*;

verus! {

/// Why a page fault was raised.
#[derive(Debug, Clone, Copy, PartialEq, Eq, Structural)]
pub enum PageFaultReason {
    /// The page is present but the access was not allowed.
    BadPermissions,
    /// The page is not present.
    NotMapped,
}

/// The bits of a page fault's error code.
#[derive(Debug, Clone, Copy, PartialEq, Eq, Structural)]
pub struct PageFaultError {
    pub present: bool,
    pub write: bool,
    pub user: bool,
    pub reserved_write: bool,
    pub instruction_fetch: bool,
    pub protection_key: bool,
    pub shadow_stack: bool,
}

impl PageFaultError {
    /// Bits 0 to 6 of the error code.
    pub fn decode(code: u64) -> (r: PageFaultError)
        ensures
            r.present == (code % 2 == 1),
            r.write == ((code / 2) % 2 == 1),
            r.user == ((code / 4) % 2 == 1),
            r.reserved_write == ((code / 8) % 2 == 1),
            r.instruction_fetch == ((code / 16) % 2 == 1),
            r.protection_key == ((code / 32) % 2 == 1),
            r.shadow_stack == ((code / 64) % 2 == 1),
    {
        PageFaultError {
            present: code % 2 == 1,
            write: (code / 2) % 2 == 1,
            user: (code / 4) % 2 == 1,
            reserved_write: (code / 8) % 2 == 1,
            instruction_fetch: (code / 16) % 2 == 1,
            protection_key: (code / 32) % 2 == 1,
            shadow_stack: (code / 64) % 2 == 1,
        }
    }

    pub fn reason(&self) -> (r: PageFaultReason)
        ensures
            r == if self.present {
                PageFaultReason::BadPermissions
            } else {
                PageFaultReason::NotMapped
            },
    {
        if self.present {
            PageFaultReason::BadPermissions
        } else {
            PageFaultReason::NotMapped
        }
    }
}

/// Which descriptor table a selector error code refers to.
#[derive(Debug, Clone, Copy, PartialEq, Eq, Structural)]
pub enum DescriptorTable {
    Gdt,
    Idt,
    Ldt,
}

/// A selector error code: external bit, table, index.
#[derive(Debug, Clone, Copy, PartialEq, Eq, Structural)]
pub struct SelectorErrorCode {
    pub external: bool,
    pub table: DescriptorTable,
    pub index: u64,
}

impl SelectorErrorCode {
    /// Bit 0 external, bits 1..3 the table (`0b01` and `0b11` both the
    /// IDT), bits 3..16 the index.
    pub fn decode(code: u64) -> (r: SelectorErrorCode)
        ensures
            r.external == (code % 2 == 1),
            r.table == match (code / 2) % 4 {
                0 => DescriptorTable::Gdt,
                2 => DescriptorTable::Ldt,
                _ => DescriptorTable::Idt,
            },
            r.index == (code / 8) % 0x2000,
    {
        let t = (code / 2) % 4;
        let table = if t == 0 {
            DescriptorTable::Gdt
        } else if t == 2 {
            DescriptorTable::Ldt
        } else {
            DescriptorTable::Idt
        };
        SelectorErrorCode { external: code % 2 == 1, table, index: (code / 8) % 0x2000 }
    }
}

/// An exception that a guarded kernel probe caught.
#[derive(Debug, Clone, Copy, PartialEq, Eq, Structural)]
pub enum ExceptionKind {
    PageFault { address: u64, reason: PageFaultReason },
}

#[derive(Debug, Clone, Copy, PartialEq, Eq, Structural)]
pub struct Exception {
    pub kind: ExceptionKind,
    pub ip: u64,
    pub sp: u64,
}

impl Exception {
    pub fn new(kind: ExceptionKind, ip: u64, sp: u64) -> (r: Exception)
        ensures
            r.kind == kind,
            r.ip == ip,
            r.sp == sp,
    {
        Exception { kind, ip, sp }
    }
}

/// What the page-fault handler does.
#[derive(Debug, Clone, Copy, PartialEq, Eq, Structural)]
pub enum PageFaultAction {
    /// Back the page at this address with a fresh frame.
    DemandMap(u64),
    /// Nothing backs the fault: it is fatal.
    Fatal(PageFaultReason),
}

/// A fault on a page that is not present and that the running task has a
/// lazy mapping for is demand-mapped (at the page's base); any other fault
/// is fatal.
pub fn page_fault_action(code: u64, address: u64, lazily_mapped: bool) -> (r: PageFaultAction)
    ensures
        code % 2 == 0 && lazily_mapped ==> r == PageFaultAction::DemandMap(
            (address / 4096 * 4096) as u64,
        ),
        code % 2 == 1 ==> r == PageFaultAction::Fatal(PageFaultReason::BadPermissions),
        code % 2 == 0 && !lazily_mapped ==> r == PageFaultAction::Fatal(PageFaultReason::NotMapped),
{
    let e = PageFaultError::decode(code);
    let reason = e.reason();
    match reason {
        PageFaultReason::NotMapped => if lazily_mapped {
            PageFaultAction::DemandMap(address / 4096 * 4096)
        } else {
            PageFaultAction::Fatal(reason)
        },
        PageFaultReason::BadPermissions => PageFaultAction::Fatal(reason),
    }
}

} // verus!
