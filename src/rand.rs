//! The kernel's pseudo-random numbers: a PCG generator of the `rand_pcg`
//! crate, seeded from two timestamp-counter readings.
use vstd::prelude::*;
use rand_pcg::Mcg128Xsl64;
use rand_pcg::rand_core::RngCore;

verus! {

#[verifier::external_type_specification]
#[verifier::external_body]
pub struct ExMcg128Xsl64(Mcg128Xsl64);

/// Relies on `Mcg128Xsl64::new`: a generator from `state`; it never fails.
#[verifier::external_body]
fn pcg_new(state: u128) -> (r: Mcg128Xsl64) {
    Mcg128Xsl64::new(state)
}

/// Relies on `Mcg128Xsl64::next_u64`: the next output; the generator
/// advances.
#[verifier::external_body]
fn pcg_next_u64(rng: &mut Mcg128Xsl64) -> (r: u64) {
    rng.next_u64()
}

/// Relies on `Mcg128Xsl64::next_u32`: the next output, cut to 32 bits; the
/// generator advances.
#[verifier::external_body]
fn pcg_next_u32(rng: &mut Mcg128Xsl64) -> (r: u32) {
    rng.next_u32()
}

/// The seed of two timestamp-counter readings: the first in the low half,
/// the second in the high half.
pub fn seed_of(tsc_low: u64, tsc_high: u64) -> (r: u128)
    ensures
        r == tsc_low + tsc_high * 0x1_0000_0000_0000_0000,
{
    tsc_low as u128 + tsc_high as u128 * 0x1_0000_0000_0000_0000u128
}

/// The kernel's generator.
pub struct Prng {
    pcg: Mcg128Xsl64,
}

impl Prng {
    /// A generator seeded from two timestamp-counter readings.
    pub fn new(tsc_low: u64, tsc_high: u64) -> (r: Prng) {
        Prng { pcg: pcg_new(seed_of(tsc_low, tsc_high)) }
    }
}

/// The next 32 random bits.
pub fn next_u32(rng: &mut Prng) -> (r: u32) {
    pcg_next_u32(&mut rng.pcg)
}

/// The next 64 random bits.
pub fn next_u64(rng: &mut Prng) -> (r: u64) {
    pcg_next_u64(&mut rng.pcg)
}

} // verus!
