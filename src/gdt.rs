//! The global descriptor table: segment selectors and descriptors.
use vstd::prelude::*;

verus! {

#[derive(Debug, Clone, Copy, PartialEq, Eq, Structural)]
pub enum PrivilegeLevel {
    Ring0,
    Ring1,
    Ring2,
    Ring3,
}

pub open spec fn ring_code(p: PrivilegeLevel) -> u16 {
    match p {
        PrivilegeLevel::Ring0 => 0,
        PrivilegeLevel::Ring1 => 1,
        PrivilegeLevel::Ring2 => 2,
        PrivilegeLevel::Ring3 => 3,
    }
}

impl PrivilegeLevel {
    pub fn code(self) -> (r: u16)
        ensures
            r == ring_code(self),
    {
        match self {
            PrivilegeLevel::Ring0 => 0,
            PrivilegeLevel::Ring1 => 1,
            PrivilegeLevel::Ring2 => 2,
            PrivilegeLevel::Ring3 => 3,
        }
    }

    /// The level with code `c`, which must be below 4.
    pub fn from_code(c: u16) -> (r: PrivilegeLevel)
        requires
            c < 4,
        ensures
            ring_code(r) == c,
    {
        if c == 0 {
            PrivilegeLevel::Ring0
        } else if c == 1 {
            PrivilegeLevel::Ring1
        } else if c == 2 {
            PrivilegeLevel::Ring2
        } else {
            PrivilegeLevel::Ring3
        }
    }
}

/// A selector: table index in bits 3..16, requested privilege in 0..2.
#[derive(Debug, Clone, Copy, PartialEq, Eq, Structural)]
pub struct SegmentSelector {
    raw: u16,
}

impl SegmentSelector {
    pub closed spec fn value(&self) -> u16 {
        self.raw
    }

    pub fn new(index: u16, rpl: PrivilegeLevel) -> (r: SegmentSelector)
        requires
            index < 0x2000,
        ensures
            r.value() == index * 8 + ring_code(rpl),
    {
        SegmentSelector { raw: index * 8 + rpl.code() }
    }

    pub fn as_u16(self) -> (r: u16)
        ensures
            r == self.value(),
    {
        self.raw
    }

    pub fn gdt_index(self) -> (r: u16)
        ensures
            r == self.value() / 8,
    {
        self.raw / 8
    }

    pub fn privilege_level(self) -> (r: PrivilegeLevel)
        ensures
            ring_code(r) == self.value() % 4,
    {
        PrivilegeLevel::from_code(self.raw % 4)
    }
}

/// Present, 4 KiB granularity, limit 0xFFFFF.
pub const COMMON_BITS: u64 = 0x008F_8000_0000_FFFF;

/// Accessed, read/write and non-system bits.
pub const SEGMENT_BITS: u64 = 0x0000_1300_0000_0000;

/// Executable and long-mode bits of a code segment.
pub const CODE_BITS: u64 = 0x0020_0800_0000_0000;

/// 32-bit-size bit of a data segment.
pub const DATA_BITS: u64 = 0x0040_0000_0000_0000;

/// A code or data segment descriptor.
#[derive(Debug, Clone, Copy, PartialEq, Eq, Structural)]
pub struct GenericSegmentDescriptor {
    pub raw: u64,
}

pub open spec fn generic_descriptor(is_code: bool, dpl: PrivilegeLevel) -> u64 {
    (COMMON_BITS + SEGMENT_BITS + (if is_code {
        CODE_BITS
    } else {
        DATA_BITS
    }) + ring_code(dpl) * 0x2000_0000_0000) as u64
}

impl GenericSegmentDescriptor {
    fn new(is_code: bool, dpl: PrivilegeLevel) -> (r: GenericSegmentDescriptor)
        ensures
            r.raw == generic_descriptor(is_code, dpl),
    {
        let kind = if is_code {
            CODE_BITS
        } else {
            DATA_BITS
        };
        GenericSegmentDescriptor {
            raw: COMMON_BITS + SEGMENT_BITS + kind + dpl.code() as u64 * 0x2000_0000_0000,
        }
    }

    pub fn kernel_code() -> (r: GenericSegmentDescriptor)
        ensures
            r.raw == 0x00AF_9B00_0000_FFFF,
    {
        GenericSegmentDescriptor::new(true, PrivilegeLevel::Ring0)
    }

    pub fn kernel_data() -> (r: GenericSegmentDescriptor)
        ensures
            r.raw == 0x00CF_9300_0000_FFFF,
    {
        GenericSegmentDescriptor::new(false, PrivilegeLevel::Ring0)
    }

    pub fn user_code() -> (r: GenericSegmentDescriptor)
        ensures
            r.raw == 0x00AF_FB00_0000_FFFF,
    {
        GenericSegmentDescriptor::new(true, PrivilegeLevel::Ring3)
    }

    pub fn user_data() -> (r: GenericSegmentDescriptor)
        ensures
            r.raw == 0x00CF_F300_0000_FFFF,
    {
        GenericSegmentDescriptor::new(false, PrivilegeLevel::Ring3)
    }

    /// Bits 45..47.
    pub fn privilege_level(&self) -> (r: PrivilegeLevel)
        ensures
            ring_code(r) == (self.raw / 0x2000_0000_0000) % 4,
    {
        PrivilegeLevel::from_code(((self.raw / 0x2000_0000_0000) % 4) as u16)
    }
}

/// The two-word descriptor of a task state segment.
#[derive(Debug, Clone, Copy, PartialEq, Eq, Structural)]
pub struct SystemSegmentDescriptor {
    pub low: u64,
    pub high: u64,
}

impl SystemSegmentDescriptor {
    /// The descriptor of an available 64-bit TSS at `base` whose last byte
    /// is at offset `limit`: base and limit spread over both words, type 9,
    /// present.
    pub fn from_tss(base: u64, limit: u16) -> (r: SystemSegmentDescriptor)
        ensures
            r.low == limit as int + (base % 0x100_0000) * 0x1_0000 + 0x8900_0000_0000 + ((base
                / 0x100_0000) % 0x100) * 0x100_0000_0000_0000,
            r.high == base / 0x1_0000_0000,
    {
        let low = limit as u64 + (base % 0x100_0000) * 0x1_0000 + 0x8900_0000_0000 + ((base
            / 0x100_0000) % 0x100) * 0x100_0000_0000_0000;
        SystemSegmentDescriptor { low, high: base / 0x1_0000_0000 }
    }
}

/// Selectors of the standard table: null, kernel code, kernel data, user
/// data, user code (the order that `sysret` needs).
pub fn standard_selectors() -> (r: (SegmentSelector, SegmentSelector, SegmentSelector, SegmentSelector))
    ensures
        r.0.value() == 0x08,
        r.1.value() == 0x10,
        r.2.value() == 0x1B,
        r.3.value() == 0x23,
{
    (
        SegmentSelector::new(1, PrivilegeLevel::Ring0),
        SegmentSelector::new(2, PrivilegeLevel::Ring0),
        SegmentSelector::new(3, PrivilegeLevel::Ring3),
        SegmentSelector::new(4, PrivilegeLevel::Ring3),
    )
}

/// A descriptor table being built.
pub struct GlobalDescriptorTable {
    table: Vec<u64>,
}

impl GlobalDescriptorTable {
    pub closed spec fn entries(&self) -> Seq<u64> {
        self.table@
    }

    /// A table holding the null descriptor only.
    pub fn new() -> (r: GlobalDescriptorTable)
        ensures
            r.entries() == seq![0u64],
    {
        let mut table: Vec<u64> = Vec::new();
        table.push(0);
        GlobalDescriptorTable { table }
    }

    /// Appends a code or data descriptor; returns its selector.
    pub fn append_segment(&mut self, d: GenericSegmentDescriptor) -> (r: SegmentSelector)
        requires
            old(self).entries().len() < 0x2000,
        ensures
            final(self).entries() == old(self).entries().push(d.raw),
            r.value() == old(self).entries().len() * 8 + (d.raw / 0x2000_0000_0000) % 4,
    {
        let index = self.table.len() as u16;
        let dpl = d.privilege_level();
        self.table.push(d.raw);
        SegmentSelector::new(index, dpl)
    }

    /// Appends a task state segment's two words; returns its selector.
    pub fn append_system_segment(&mut self, d: SystemSegmentDescriptor) -> (r: SegmentSelector)
        requires
            old(self).entries().len() < 0x2000,
        ensures
            final(self).entries() == old(self).entries().push(d.low).push(d.high),
            r.value() == old(self).entries().len() * 8,
    {
        let index = self.table.len() as u16;
        self.table.push(d.low);
        self.table.push(d.high);
        SegmentSelector::new(index, PrivilegeLevel::Ring0)
    }

    /// The descriptor words.
    pub fn as_words(&self) -> (r: &Vec<u64>)
        ensures
            r@ == self.entries(),
    {
        &self.table
    }
}

} // verus!
