//! Values of the model-specific registers that the kernel programs; the
//! caller moves them to and from the hardware with `rdmsr` and `wrmsr`.
use vstd::prelude::*;
use crate::bits::{bit_of, get_bit, set_bit, with_bit};
use crate::gdt::SegmentSelector;

verus! {

/// Base of the per-thread local state, swapped in by `swapgs`.
#[allow(non_camel_case_types)]
#[derive(Debug, Clone, Copy, PartialEq, Eq, Structural)]
pub struct IA32_KERNEL_GS_BASE {
    pub value: u64,
}

impl IA32_KERNEL_GS_BASE {
    /// The register's MSR address.
    pub fn address() -> (r: u32)
        ensures
            r == 0xC000_0102,
    {
        0xC000_0102
    }

    pub fn from_value(value: u64) -> (r: IA32_KERNEL_GS_BASE)
        ensures
            r.value == value,
    {
        IA32_KERNEL_GS_BASE { value }
    }
}

/// Base address and mode of the local APIC.
#[allow(non_camel_case_types)]
#[derive(Debug, Clone, Copy, PartialEq, Eq, Structural)]
pub struct IA32_APIC_BASE {
    pub value: u64,
}

impl IA32_APIC_BASE {
    /// The register's MSR address.
    pub fn address() -> (r: u32)
        ensures
            r == 0x1B,
    {
        0x1B
    }

    pub fn from_value(value: u64) -> (r: IA32_APIC_BASE)
        ensures
            r.value == value,
    {
        IA32_APIC_BASE { value }
    }
}

/// Extended feature enables.
#[allow(non_camel_case_types)]
#[derive(Debug, Clone, Copy, PartialEq, Eq, Structural)]
pub struct IA32_EFER {
    pub value: u64,
}

impl IA32_EFER {
    /// The register's MSR address.
    pub fn address() -> (r: u32)
        ensures
            r == 0xC000_0080,
    {
        0xC000_0080
    }

    pub fn from_value(value: u64) -> (r: IA32_EFER)
        ensures
            r.value == value,
    {
        IA32_EFER { value }
    }
}

/// Segment selectors of `syscall` and `sysret`.
#[allow(non_camel_case_types)]
#[derive(Debug, Clone, Copy, PartialEq, Eq, Structural)]
pub struct IA32_STAR {
    pub value: u64,
}

impl IA32_STAR {
    /// The register's MSR address.
    pub fn address() -> (r: u32)
        ensures
            r == 0xC000_0081,
    {
        0xC000_0081
    }

    pub fn from_value(value: u64) -> (r: IA32_STAR)
        ensures
            r.value == value,
    {
        IA32_STAR { value }
    }
}

/// Entry point of `syscall` in long mode.
#[allow(non_camel_case_types)]
#[derive(Debug, Clone, Copy, PartialEq, Eq, Structural)]
pub struct IA32_LSTAR {
    pub value: u64,
}

impl IA32_LSTAR {
    /// The register's MSR address.
    pub fn address() -> (r: u32)
        ensures
            r == 0xC000_0082,
    {
        0xC000_0082
    }

    pub fn from_value(value: u64) -> (r: IA32_LSTAR)
        ensures
            r.value == value,
    {
        IA32_LSTAR { value }
    }
}

/// Entry point of `syscall` in compatibility mode.
#[allow(non_camel_case_types)]
#[derive(Debug, Clone, Copy, PartialEq, Eq, Structural)]
pub struct IA32_CSTAR {
    pub value: u64,
}

impl IA32_CSTAR {
    /// The register's MSR address.
    pub fn address() -> (r: u32)
        ensures
            r == 0xC000_0083,
    {
        0xC000_0083
    }

    pub fn from_value(value: u64) -> (r: IA32_CSTAR)
        ensures
            r.value == value,
    {
        IA32_CSTAR { value }
    }
}

/// Flags that `syscall` clears.
#[allow(non_camel_case_types)]
#[derive(Debug, Clone, Copy, PartialEq, Eq, Structural)]
pub struct IA32_FMASK {
    pub value: u64,
}

impl IA32_FMASK {
    /// The register's MSR address.
    pub fn address() -> (r: u32)
        ensures
            r == 0xC000_0084,
    {
        0xC000_0084
    }

    pub fn from_value(value: u64) -> (r: IA32_FMASK)
        ensures
            r.value == value,
    {
        IA32_FMASK { value }
    }
}

/// TSC value at which the deadline timer fires.
#[allow(non_camel_case_types)]
#[derive(Debug, Clone, Copy, PartialEq, Eq, Structural)]
pub struct IA32_TSC_DEADLINE {
    pub value: u64,
}

impl IA32_TSC_DEADLINE {
    /// The register's MSR address.
    pub fn address() -> (r: u32)
        ensures
            r == 0x6E0,
    {
        0x6E0
    }

    pub fn from_value(value: u64) -> (r: IA32_TSC_DEADLINE)
        ensures
            r.value == value,
    {
        IA32_TSC_DEADLINE { value }
    }
}

impl IA32_KERNEL_GS_BASE {
    pub fn read(&self) -> (r: u64)
        ensures
            r == self.value,
    {
        self.value
    }

    pub fn write(&mut self, address: u64)
        ensures
            final(self).value == address,
    {
        self.value = address;
    }
}

impl IA32_APIC_BASE {
    /// Bit 8: this is the bootstrap processor.
    pub fn get_is_bsp(&self) -> (r: bool)
        ensures
            r == bit_of(self.value, 8),
    {
        get_bit(self.value, 8)
    }

    /// Bit 10: x2APIC mode is on.
    pub fn get_is_x2apic_mode(&self) -> (r: bool)
        ensures
            r == bit_of(self.value, 10),
    {
        get_bit(self.value, 10)
    }

    /// Bit 11: the APIC is enabled in hardware.
    pub fn get_hw_enabled(&self) -> (r: bool)
        ensures
            r == bit_of(self.value, 11),
    {
        get_bit(self.value, 11)
    }

    pub fn set_hw_enabled(&mut self, enable: bool)
        ensures
            final(self).value == with_bit(old(self).value, 11, enable),
    {
        self.value = set_bit(self.value, 11, enable);
    }

    /// Bits 12..52: the frame of the APIC's registers.
    pub fn get_base_address(&self) -> (r: u64)
        ensures
            r == self.value & 0x000F_FFFF_FFFF_F000u64,
    {
        self.value & 0x000F_FFFF_FFFF_F000u64
    }
}

impl IA32_EFER {
    /// Bit 0: `syscall` is enabled.
    pub fn set_sycall_enable(&mut self, enable: bool)
        ensures
            final(self).value == with_bit(old(self).value, 0, enable),
    {
        self.value = set_bit(self.value, 0, enable);
    }

    /// Bit 8: long mode is enabled.
    pub fn set_long_mode_enable(&mut self, enable: bool)
        ensures
            final(self).value == with_bit(old(self).value, 8, enable),
    {
        self.value = set_bit(self.value, 8, enable);
    }

    /// Bit 10: long mode is active.
    pub fn get_long_mode_active(&self) -> (r: bool)
        ensures
            r == bit_of(self.value, 10),
    {
        get_bit(self.value, 10)
    }

    /// Bit 11: no-execute pages are enabled.
    pub fn get_no_execute_enable(&self) -> (r: bool)
        ensures
            r == bit_of(self.value, 11),
    {
        get_bit(self.value, 11)
    }

    pub fn set_no_execute_enable(&mut self, enable: bool)
        ensures
            final(self).value == with_bit(old(self).value, 11, enable),
    {
        self.value = set_bit(self.value, 11, enable);
    }
}

impl IA32_STAR {
    /// Kernel code selector in bits 32..48, the selector base of `sysret`
    /// in bits 48..64.
    pub fn set_selectors(&mut self, kcode: SegmentSelector, kdata: SegmentSelector)
        ensures
            final(self).value == kdata.value() as u64 * 0x1_0000_0000_0000 + kcode.value() as u64
                * 0x1_0000_0000,
    {
        let kc = kcode.as_u16() as u64;
        let kd = kdata.as_u16() as u64;
        self.value = kd * 0x1_0000_0000_0000 + kc * 0x1_0000_0000;
    }
}

impl IA32_LSTAR {
    /// The address that `syscall` jumps to.
    pub fn set_syscall(&mut self, entry: u64)
        ensures
            final(self).value == entry,
    {
        self.value = entry;
    }
}

impl IA32_FMASK {
    /// The flags that `syscall` clears.
    pub fn set(&mut self, rflags: u64)
        ensures
            final(self).value == rflags,
    {
        self.value = rflags;
    }
}

impl IA32_TSC_DEADLINE {
    pub fn set(&mut self, value: u64)
        ensures
            final(self).value == value,
    {
        self.value = value;
    }
}

} // verus!
