//! The higher-half direct map: every physical byte is mirrored at a fixed
//! virtual offset.
use vstd::prelude::*;

verus! {

/// The virtual base at which all physical memory is mirrored.
#[derive(Debug, Clone, Copy, PartialEq, Eq)]
pub struct HigherHalfDirectMap {
    base_address: usize,
}

impl HigherHalfDirectMap {
    pub closed spec fn base(&self) -> nat {
        self.base_address as nat
    }

    pub closed spec fn wf(&self) -> bool {
        self.base_address != 0
    }

    /// Builds the map from the base that the bootloader reported; a zero base
    /// is invalid.
    pub fn new(base_address: usize) -> (r: Option<Self>)
        ensures
            base_address == 0 <==> r is None,
            r matches Some(m) ==> m.wf() && m.base() == base_address,
    {
        if base_address == 0 {
            None
        } else {
            Some(HigherHalfDirectMap { base_address })
        }
    }

    pub fn base_address(&self) -> (r: usize)
        ensures
            r == self.base(),
    {
        self.base_address
    }

    /// Physical to virtual. The sum must neither overflow nor be zero.
    pub fn offset(&self, address: usize) -> (r: usize)
        requires
            self.base() + address <= usize::MAX,
            self.base() + address != 0,
        ensures
            r == self.base() + address,
            r != 0,
    {
        self.base_address + address
    }

    /// Virtual to physical. The address must lie above the base.
    pub fn negative_offset(&self, address: usize) -> (r: usize)
        requires
            self.base() < address,
        ensures
            r == address - self.base(),
            r != 0,
    {
        address - self.base_address
    }

    /// The checked form of [`Self::offset`]: `None` where the sum overflows
    /// or is zero.
    pub fn physical_to_virtual(&self, address: usize) -> (r: Option<usize>)
        ensures
            r is Some <==> (self.base() + address <= usize::MAX && self.base() + address != 0),
            r matches Some(v) ==> v == self.base() + address,
    {
        match self.base_address.checked_add(address) {
            Some(v) => if v == 0 { None } else { Some(v) },
            None => None,
        }
    }

    /// The checked form of [`Self::negative_offset`]: `None` where the address
    /// does not lie above the base.
    pub fn virtual_to_physical(&self, address: usize) -> (r: Option<usize>)
        ensures
            r is Some <==> self.base() < address,
            r matches Some(p) ==> p == address - self.base(),
    {
        if self.base_address < address {
            Some(address - self.base_address)
        } else {
            None
        }
    }
}

} // verus!
