//! The frame table's storage: a bit vector of the `bitvec` crate, one bit
//! per frame.
use vstd::prelude::*;
use bitvec::vec::BitVec;

verus! {

/// A `bitvec` bit vector. Verus cannot take `BitVec` itself (its type
/// parameters are bound by `bitvec`'s traits), so it is held here, out of
/// Verus's sight, and reached through the functions below.
#[verifier::external_body]
pub struct FrameBits {
    bits: BitVec,
}

/// The bits that a frame table holds, in order.
pub uninterp spec fn frame_bits(t: FrameBits) -> Seq<bool>;

/// Relies on `BitVec::repeat`: `len` bits, each `bit`. Its capacity check
/// refuses more than `usize::MAX >> 3` bits.
#[verifier::external_body]
pub(crate) fn bits_repeat(bit: bool, len: usize) -> (r: FrameBits)
    requires
        len <= usize::MAX / 8,
    ensures
        frame_bits(r) == Seq::new(len as nat, |i: int| bit),
{
    FrameBits { bits: BitVec::repeat(bit, len) }
}

/// Relies on `BitVec::len`: the number of bits.
#[verifier::external_body]
pub(crate) fn bits_len(t: &FrameBits) -> (r: usize)
    ensures
        r == frame_bits(*t).len(),
{
    t.bits.len()
}

/// Relies on `BitSlice` indexing: the bit at `index`; it panics out of
/// bounds.
#[verifier::external_body]
pub(crate) fn bits_get(t: &FrameBits, index: usize) -> (r: bool)
    requires
        index < frame_bits(*t).len(),
    ensures
        r == frame_bits(*t)[index as int],
{
    t.bits[index]
}

/// Relies on `BitSlice::set`: writes one bit; it panics out of bounds.
#[verifier::external_body]
pub(crate) fn bits_set(t: &mut FrameBits, index: usize, value: bool)
    requires
        index < frame_bits(*old(t)).len(),
    ensures
        frame_bits(*final(t)) == frame_bits(*old(t)).update(index as int, value),
{
    t.bits.set(index, value)
}

/// Relies on `BitSlice::first_zero`: the index of the first clear bit.
#[verifier::external_body]
pub(crate) fn bits_first_zero(t: &FrameBits) -> (r: Option<usize>)
    ensures
        match r {
            Some(i) => i < frame_bits(*t).len() && !frame_bits(*t)[i as int] && forall|j: int|
                0 <= j < i ==> frame_bits(*t)[j],
            None => forall|j: int| 0 <= j < frame_bits(*t).len() ==> frame_bits(*t)[j],
        },
{
    t.bits.first_zero()
}

/// Relies on `BitSlice::not_any`: no bit of `[start, start + count)` is
/// set.
#[verifier::external_body]
pub(crate) fn bits_none_set(t: &FrameBits, start: usize, count: usize) -> (r: bool)
    requires
        start + count <= frame_bits(*t).len(),
    ensures
        r == forall|j: int| start <= j < start + count ==> !frame_bits(*t)[j],
{
    t.bits[start..start + count].not_any()
}


} // verus!
