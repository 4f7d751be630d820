//! Single bits and bit ranges of register values.
use vstd::prelude::*;

verus! {

pub open spec fn bit_of(x: u64, i: u64) -> bool {
    (x >> i) & 1 == 1
}

pub open spec fn with_bit(x: u64, i: u64, v: bool) -> u64 {
    if v {
        x | (1u64 << i)
    } else {
        x & !(1u64 << i)
    }
}

/// Bits `lo..lo + width` of `x`, as a number.
pub open spec fn field_of(x: u64, lo: u64, width: u64) -> u64 {
    (x >> lo) & (0xFFFF_FFFF_FFFF_FFFFu64 >> ((64 - width) as u64))
}

/// `x` with bits `lo..lo + width` replaced by `v`.
pub open spec fn with_field(x: u64, lo: u64, width: u64, v: u64) -> u64 {
    (x & !(((0xFFFF_FFFF_FFFF_FFFFu64 >> ((64 - width) as u64))) << lo)) | ((v & (0xFFFF_FFFF_FFFF_FFFFu64 >> ((64 - width) as u64))) << lo)
}

/// Bit `i` of `x`.
pub fn get_bit(x: u64, i: u64) -> (r: bool)
    requires
        i < 64,
    ensures
        r == bit_of(x, i),
{
    (x >> i) & 1 == 1
}

/// `x` with bit `i` set to `v`.
pub fn set_bit(x: u64, i: u64, v: bool) -> (r: u64)
    requires
        i < 64,
    ensures
        r == with_bit(x, i, v),
{
    if v {
        x | (1u64 << i)
    } else {
        x & !(1u64 << i)
    }
}

/// Bits `lo..lo + width` of `x`.
pub fn get_bits(x: u64, lo: u64, width: u64) -> (r: u64)
    requires
        1 <= width < 64,
        lo < 64,
    ensures
        r == field_of(x, lo, width),
{
    (x >> lo) & (0xFFFF_FFFF_FFFF_FFFFu64 >> (64 - width))
}

/// `x` with bits `lo..lo + width` replaced by the low bits of `v`.
pub fn set_bits(x: u64, lo: u64, width: u64, v: u64) -> (r: u64)
    requires
        1 <= width < 64,
        lo < 64,
    ensures
        r == with_field(x, lo, width, v),
{
    let mask: u64 = 0xFFFF_FFFF_FFFF_FFFFu64 >> (64 - width);
    (x & !(mask << lo)) | ((v & mask) << lo)
}

} // verus!
