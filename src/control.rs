//! Per-thread control-register configuration, decided from the features
//! that CPUID reports.
use vstd::prelude::*;

verus! {

pub const CR0_PE: u64 = 0x1;
pub const CR0_MP: u64 = 0x2;
pub const CR0_ET: u64 = 0x10;
pub const CR0_NE: u64 = 0x20;
pub const CR0_WP: u64 = 0x1_0000;
pub const CR0_PG: u64 = 0x8000_0000;

pub const CR4_DE: u64 = 0x8;
pub const CR4_PAE: u64 = 0x20;
pub const CR4_MCE: u64 = 0x40;
pub const CR4_PGE: u64 = 0x80;
pub const CR4_OSFXSR: u64 = 0x200;
pub const CR4_OSXMMEXCPT: u64 = 0x400;
pub const CR4_UMIP: u64 = 0x800;
pub const CR4_FSGSBASE: u64 = 0x1_0000;
pub const CR4_PCIDE: u64 = 0x2_0000;
pub const CR4_SMEP: u64 = 0x10_0000;
pub const CR4_SMAP: u64 = 0x20_0000;

/// The features that decide the control registers, as CPUID reports them.
#[derive(Debug, Clone, Copy, PartialEq, Eq, Structural)]
pub struct CpuFeatures {
    pub de: bool,
    pub fxsave_fxrstor: bool,
    pub mce: bool,
    pub pcid: bool,
    pub umip: bool,
    pub fsgsbase: bool,
    pub smep: bool,
    pub smap: bool,
    pub execute_disable: bool,
}

pub open spec fn flag(present: bool, bit: u64) -> int {
    if present {
        bit as int
    } else {
        0
    }
}

/// CR0: protected mode, monitor coprocessor, extension type, native FPU
/// errors, write protection and paging.
pub fn cr0_flags() -> (r: u64)
    ensures
        r == CR0_PE + CR0_MP + CR0_ET + CR0_NE + CR0_WP + CR0_PG,
{
    CR0_PE + CR0_MP + CR0_ET + CR0_NE + CR0_WP + CR0_PG
}

/// CR4: PAE, global pages and SIMD exceptions always; each optional
/// feature exactly when the CPU advertises it.
pub fn cr4_flags(f: CpuFeatures) -> (r: u64)
    ensures
        r == CR4_PAE + CR4_PGE + CR4_OSXMMEXCPT + flag(f.de, CR4_DE) + flag(f.fxsave_fxrstor, CR4_OSFXSR)
            + flag(f.mce, CR4_MCE) + flag(f.pcid, CR4_PCIDE) + flag(f.umip, CR4_UMIP) + flag(
            f.fsgsbase,
            CR4_FSGSBASE,
        ) + flag(f.smep, CR4_SMEP) + flag(f.smap, CR4_SMAP),
{
    let mut r: u64 = CR4_PAE + CR4_PGE + CR4_OSXMMEXCPT;
    if f.de {
        r = r + CR4_DE;
    }
    if f.fxsave_fxrstor {
        r = r + CR4_OSFXSR;
    }
    if f.mce {
        r = r + CR4_MCE;
    }
    if f.pcid {
        r = r + CR4_PCIDE;
    }
    if f.umip {
        r = r + CR4_UMIP;
    }
    if f.fsgsbase {
        r = r + CR4_FSGSBASE;
    }
    if f.smep {
        r = r + CR4_SMEP;
    }
    if f.smap {
        r = r + CR4_SMAP;
    }
    r
}

/// Whether to set EFER.NXE: exactly when execute-disable is advertised.
pub fn enable_no_execute(f: CpuFeatures) -> (r: bool)
    ensures
        r == f.execute_disable,
{
    f.execute_disable
}

/// The value of CR0.
#[derive(Debug, Clone, Copy, PartialEq, Eq, Structural)]
pub struct CR0 {
    pub value: u64,
}

/// The value of CR4.
#[derive(Debug, Clone, Copy, PartialEq, Eq, Structural)]
pub struct CR4 {
    pub value: u64,
}

/// The value of CR3: the root frame and the low flag bits.
#[derive(Debug, Clone, Copy, PartialEq, Eq, Structural)]
pub struct CR3 {
    pub value: u64,
}

/// The stack pointer.
#[derive(Debug, Clone, Copy, PartialEq, Eq, Structural)]
pub struct RSP {
    pub value: u64,
}

impl CR0 {
    pub fn enable(&mut self, flags: u64)
        ensures
            final(self).value == old(self).value | flags,
    {
        self.value = self.value | flags;
    }

    pub fn disable(&mut self, flags: u64)
        ensures
            final(self).value == old(self).value & !flags,
    {
        self.value = self.value & !flags;
    }
}

impl CR4 {
    pub fn enable(&mut self, flags: u64)
        ensures
            final(self).value == old(self).value | flags,
    {
        self.value = self.value | flags;
    }

    pub fn disable(&mut self, flags: u64)
        ensures
            final(self).value == old(self).value & !flags,
    {
        self.value = self.value & !flags;
    }
}

impl CR3 {
    /// The value that installs `root_frame` with `flags`.
    pub fn new(root_frame: u64, flags: u64) -> (r: CR3)
        ensures
            r.value == (root_frame & 0x000F_FFFF_FFFF_F000u64) | (flags & 0x18u64),
    {
        CR3 { value: (root_frame & 0x000F_FFFF_FFFF_F000u64) | (flags & 0x18u64) }
    }

    /// The root frame.
    pub fn frame(&self) -> (r: u64)
        ensures
            r == self.value & 0x000F_FFFF_FFFF_F000u64,
    {
        self.value & 0x000F_FFFF_FFFF_F000u64
    }
}

} // verus!
