//! Page-table entries: a frame address in bits 12..52 and attribute flags
//! in the rest.
use vstd::prelude::*;

verus! {

pub const PRESENT: u64 = 0x1;
pub const WRITE: u64 = 0x2;
pub const USER: u64 = 0x4;
pub const WRITE_THROUGH: u64 = 0x8;
pub const CACHE_DISABLE: u64 = 0x10;
pub const ACCESSED: u64 = 0x20;
pub const DIRTY: u64 = 0x40;
pub const HUGE: u64 = 0x80;
pub const GLOBAL: u64 = 0x100;
pub const NO_EXECUTE: u64 = 0x8000_0000_0000_0000;

/// Read-only, not executable.
pub const RO: u64 = 0x8000_0000_0000_0001;
/// Read-write, not executable.
pub const RW: u64 = 0x8000_0000_0000_0003;
/// Read and execute.
pub const RX: u64 = 0x1;
pub const USER_RO: u64 = 0x8000_0000_0000_0005;
pub const USER_RW: u64 = 0x8000_0000_0000_0007;
pub const USER_RX: u64 = 0x5;

/// Bits of an entry that hold the frame address.
pub const ADDRESS_MASK: u64 = 0x000F_FFFF_FFFF_F000u64;

/// How new attributes combine with the old ones.
#[derive(Debug, Clone, Copy, PartialEq, Eq, Structural)]
pub enum FlagsModify {
    Replace,
    Insert,
    Remove,
    Toggle,
}

pub open spec fn modify_spec(old_flags: u64, flags: u64, mode: FlagsModify) -> u64 {
    match mode {
        FlagsModify::Replace => flags,
        FlagsModify::Insert => old_flags | flags,
        FlagsModify::Remove => old_flags & !flags,
        FlagsModify::Toggle => old_flags ^ flags,
    }
}

/// Combines attribute sets as `mode` says.
pub fn modify_flags(old_flags: u64, flags: u64, mode: FlagsModify) -> (r: u64)
    ensures
        r == modify_spec(old_flags, flags, mode),
{
    match mode {
        FlagsModify::Replace => flags,
        FlagsModify::Insert => old_flags | flags,
        FlagsModify::Remove => old_flags & !flags,
        FlagsModify::Toggle => old_flags ^ flags,
    }
}

pub open spec fn is_present(e: u64) -> bool {
    e & PRESENT == PRESENT
}

pub open spec fn is_huge(e: u64) -> bool {
    e & HUGE == HUGE
}

pub open spec fn frame_of(e: u64) -> u64 {
    e & ADDRESS_MASK
}

pub open spec fn attributes_of(e: u64) -> u64 {
    e & !ADDRESS_MASK
}

/// A frame address fits the address bits.
pub open spec fn is_frame_address(f: u64) -> bool {
    f & !ADDRESS_MASK == 0
}

/// Attributes leave the address bits clear.
pub open spec fn is_attribute_set(a: u64) -> bool {
    a & ADDRESS_MASK == 0
}

/// One page-table entry.
#[derive(Debug, Clone, Copy, PartialEq, Eq, Structural)]
pub struct PageTableEntry {
    pub raw: u64,
}

impl PageTableEntry {
    /// The entry for `frame` with `attributes`.
    pub fn new(frame: u64, attributes: u64) -> (r: PageTableEntry)
        requires
            is_frame_address(frame),
            is_attribute_set(attributes),
        ensures
            r.raw == frame | attributes,
            frame_of(r.raw) == frame,
            attributes_of(r.raw) == attributes,
    {
        proof {
            lemma_entry_parts(frame, attributes);
        }
        PageTableEntry { raw: frame | attributes }
    }

    pub fn is_present(&self) -> (r: bool)
        ensures
            r == is_present(self.raw),
    {
        self.raw & PRESENT == PRESENT
    }

    pub fn get_frame(&self) -> (r: u64)
        ensures
            r == frame_of(self.raw),
            is_frame_address(r),
    {
        let raw = self.raw;
        assert(is_frame_address(raw & ADDRESS_MASK)) by (bit_vector);
        raw & ADDRESS_MASK
    }

    pub fn get_attributes(&self) -> (r: u64)
        ensures
            r == attributes_of(self.raw),
            is_attribute_set(r),
    {
        let raw = self.raw;
        assert(is_attribute_set(raw & !ADDRESS_MASK)) by (bit_vector);
        raw & !ADDRESS_MASK
    }

    /// Combines the attributes as `mode` says; the address bits are kept.
    pub fn set_attributes(&mut self, attributes: u64, mode: FlagsModify)
        ensures
            final(self).raw == frame_of(old(self).raw) | (modify_spec(
                attributes_of(old(self).raw),
                attributes,
                mode,
            ) & !ADDRESS_MASK),
    {
        let raw = self.raw;
        let a = modify_flags(raw & !ADDRESS_MASK, attributes, mode);
        self.raw = (raw & ADDRESS_MASK) | (a & !ADDRESS_MASK);
    }
}

pub proof fn lemma_entry_parts(frame: u64, attributes: u64)
    requires
        is_frame_address(frame),
        is_attribute_set(attributes),
    ensures
        frame_of(frame | attributes) == frame,
        attributes_of(frame | attributes) == attributes,
        is_present(frame | attributes) == (attributes & PRESENT == PRESENT),
        is_huge(frame | attributes) == (attributes & HUGE == HUGE),
{
    assert((frame & !0x000F_FFFF_FFFF_F000u64) == 0 && (attributes & 0x000F_FFFF_FFFF_F000u64) == 0
        ==> ((frame | attributes) & 0x000F_FFFF_FFFF_F000u64) == frame && ((frame | attributes)
        & !0x000F_FFFF_FFFF_F000u64) == attributes && (((frame | attributes) & 1u64 == 1u64) == (
    attributes & 1u64 == 1u64)) && (((frame | attributes) & 0x80u64 == 0x80u64) == (attributes
        & 0x80u64 == 0x80u64))) by (bit_vector);
}

} // verus!
