use super::errors::{LayoutError, LayoutErrorView};
use vstd::prelude::*;
use vstd::string::StringExecFns;

verus! {

/// The width of the addresses of a memory.
#[derive(Debug, Clone, Copy, PartialEq, Eq, Structural)]
pub enum AddressWidth {
    Bits16,
    Bits32,
    Bits64,
}

/// The size of the smallest unit that a memory can address.
#[derive(Debug, Clone, Copy, PartialEq, Eq, Structural)]
pub enum MemoryUnitSize {
    Bytes1,
    Bytes2,
    Bytes4,
    Bytes8,
}

impl MemoryUnitSize {
    /// The number of bytes of the unit.
    pub open spec fn bytes(self) -> nat {
        match self {
            MemoryUnitSize::Bytes1 => 1,
            MemoryUnitSize::Bytes2 => 2,
            MemoryUnitSize::Bytes4 => 4,
            MemoryUnitSize::Bytes8 => 8,
        }
    }

    /// The unit of so many bytes: 1, 2, 4 or 8.
    pub fn from_bytes(bytes: usize) -> (r: Result<Self, LayoutError>)
        ensures
            match r {
                Ok(unit) => unit.bytes() == bytes,
                Err(e) => bytes != 1 && bytes != 2 && bytes != 4 && bytes != 8 && e@
                    == LayoutErrorView::MiscError("Invalid unit size"@),
            },
    {
        if bytes == 1 {
            Ok(MemoryUnitSize::Bytes1)
        } else if bytes == 2 {
            Ok(MemoryUnitSize::Bytes2)
        } else if bytes == 4 {
            Ok(MemoryUnitSize::Bytes4)
        } else if bytes == 8 {
            Ok(MemoryUnitSize::Bytes8)
        } else {
            Err(LayoutError::MiscError(String::from_str("Invalid unit size")))
        }
    }

    /// The number of bytes of the unit.
    pub fn as_bytes(self) -> (bytes: usize)
        ensures
            bytes == self.bytes(),
    {
        match self {
            MemoryUnitSize::Bytes1 => 1,
            MemoryUnitSize::Bytes2 => 2,
            MemoryUnitSize::Bytes4 => 4,
            MemoryUnitSize::Bytes8 => 8,
        }
    }

    /// `size` rounded up to a whole number of units.
    pub fn align_size(self, size: usize) -> (aligned: usize)
        requires
            size + self.bytes() - 1 <= usize::MAX,
        ensures
            aligned as int % self.bytes() as int == 0,
            size <= aligned < size + self.bytes(),
    {
        let unit = self.as_bytes();
        let whole = (size + (unit - 1)) / unit;
        proof {
            vstd::arithmetic::div_mod::lemma_fundamental_div_mod(
                (size + unit - 1) as int,
                unit as int,
            );
            vstd::arithmetic::div_mod::lemma_mod_multiples_basic(whole as int, unit as int);
            assert(whole * unit == unit * whole) by (nonlinear_arith);
        }
        whole * unit
    }
}

} // verus!
