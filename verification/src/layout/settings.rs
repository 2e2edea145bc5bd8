use super::conversions::{endian_bytes, modulus, pattern_bytes, pattern_of};
use vstd::prelude::*;

verus! {

/// Byte order of every multi-byte value and of the CRC bytes.
#[derive(Debug, Clone, Copy, PartialEq, Eq, Structural)]
pub enum Endianness {
    Little,
    Big,
}

/// What the CRC is computed over.
#[derive(Debug, Clone, Copy, PartialEq, Eq, Structural)]
pub enum CrcArea {
    /// The payload bytes only.
    Data,
    /// The whole declared block, with the CRC slot zeroed.
    Block,
}

/// Parameters of the 32-bit CRC.
#[derive(Debug, Clone, Copy, PartialEq, Eq, Structural)]
pub struct CrcData {
    pub polynomial: u32,
    pub start: u32,
    pub xor_out: u32,
    pub ref_in: bool,
    pub ref_out: bool,
    pub area: CrcArea,
}

/// Settings shared by every block of one layout.
#[derive(Debug, Clone, Copy, PartialEq, Eq, Structural)]
pub struct Settings {
    pub endianness: Endianness,
    /// Added to every emitted address, not to offsets inside the block.
    pub virtual_offset: u32,
    pub byte_swap: bool,
    pub pad_to_end: bool,
    pub crc: CrcData,
}

/// The virtual offset of a layout that names none.
pub fn default_offset() -> (offset: u32)
    ensures
        offset == 0,
{
    0
}

/// A number that can be written out as bytes in either byte order.
pub trait EndianBytes: Sized {
    /// The size of the number in bytes.
    spec fn byte_width() -> nat;

    /// The bit pattern of the number: for a negative number its two's
    /// complement.
    spec fn bit_pattern(self) -> nat;

    /// The bytes of the number in the given byte order.
    fn to_endian_bytes(self, endianness: &Endianness) -> (bytes: Vec<u8>)
        ensures
            bytes@ == endian_bytes(self.bit_pattern(), Self::byte_width(), *endianness),
    ;
}

impl EndianBytes for u8 {
    open spec fn byte_width() -> nat {
        1
    }

    open spec fn bit_pattern(self) -> nat {
        (self as int % modulus(1)) as nat
    }

    fn to_endian_bytes(self, endianness: &Endianness) -> (bytes: Vec<u8>) {
        pattern_bytes(pattern_of(self as i128, 1), 1, endianness)
    }
}

impl EndianBytes for u16 {
    open spec fn byte_width() -> nat {
        2
    }

    open spec fn bit_pattern(self) -> nat {
        (self as int % modulus(2)) as nat
    }

    fn to_endian_bytes(self, endianness: &Endianness) -> (bytes: Vec<u8>) {
        pattern_bytes(pattern_of(self as i128, 2), 2, endianness)
    }
}

impl EndianBytes for u32 {
    open spec fn byte_width() -> nat {
        4
    }

    open spec fn bit_pattern(self) -> nat {
        (self as int % modulus(4)) as nat
    }

    fn to_endian_bytes(self, endianness: &Endianness) -> (bytes: Vec<u8>) {
        pattern_bytes(pattern_of(self as i128, 4), 4, endianness)
    }
}

impl EndianBytes for u64 {
    open spec fn byte_width() -> nat {
        8
    }

    open spec fn bit_pattern(self) -> nat {
        (self as int % modulus(8)) as nat
    }

    fn to_endian_bytes(self, endianness: &Endianness) -> (bytes: Vec<u8>) {
        pattern_bytes(pattern_of(self as i128, 8), 8, endianness)
    }
}

impl EndianBytes for i8 {
    open spec fn byte_width() -> nat {
        1
    }

    open spec fn bit_pattern(self) -> nat {
        (self as int % modulus(1)) as nat
    }

    fn to_endian_bytes(self, endianness: &Endianness) -> (bytes: Vec<u8>) {
        pattern_bytes(pattern_of(self as i128, 1), 1, endianness)
    }
}

impl EndianBytes for i16 {
    open spec fn byte_width() -> nat {
        2
    }

    open spec fn bit_pattern(self) -> nat {
        (self as int % modulus(2)) as nat
    }

    fn to_endian_bytes(self, endianness: &Endianness) -> (bytes: Vec<u8>) {
        pattern_bytes(pattern_of(self as i128, 2), 2, endianness)
    }
}

impl EndianBytes for i32 {
    open spec fn byte_width() -> nat {
        4
    }

    open spec fn bit_pattern(self) -> nat {
        (self as int % modulus(4)) as nat
    }

    fn to_endian_bytes(self, endianness: &Endianness) -> (bytes: Vec<u8>) {
        pattern_bytes(pattern_of(self as i128, 4), 4, endianness)
    }
}

impl EndianBytes for i64 {
    open spec fn byte_width() -> nat {
        8
    }

    open spec fn bit_pattern(self) -> nat {
        (self as int % modulus(8)) as nat
    }

    fn to_endian_bytes(self, endianness: &Endianness) -> (bytes: Vec<u8>) {
        pattern_bytes(pattern_of(self as i128, 8), 8, endianness)
    }
}

} // verus!
