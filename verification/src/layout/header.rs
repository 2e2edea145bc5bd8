use vstd::prelude::*;

verus! {

/// Where the CRC of a block is stored.
#[derive(Debug, Clone)]
pub enum CrcLocation {
    /// A symbolic place; `"end"` is right after the payload, 4-byte aligned.
    Keyword(String),
    /// An absolute address inside the block.
    Address(u32),
}

/// The mathematical content of a [`CrcLocation`].
pub enum CrcLocationView {
    Keyword(Seq<char>),
    Address(u32),
}

impl View for CrcLocation {
    type V = CrcLocationView;

    open spec fn view(&self) -> CrcLocationView {
        match self {
            CrcLocation::Keyword(k) => CrcLocationView::Keyword(k@),
            CrcLocation::Address(a) => CrcLocationView::Address(*a),
        }
    }
}

/// Placement of a block in memory.
#[derive(Debug, Clone)]
pub struct Header {
    pub start_address: u32,
    /// The allocation ceiling: payload, CRC and padding never exceed it.
    pub length: u32,
    pub crc_location: CrcLocation,
    /// The byte that fills every gap.
    pub padding: u8,
}

/// The mathematical content of a [`Header`].
pub struct HeaderView {
    pub start_address: u32,
    pub length: u32,
    pub crc_location: CrcLocationView,
    pub padding: u8,
}

impl View for Header {
    type V = HeaderView;

    open spec fn view(&self) -> HeaderView {
        HeaderView {
            start_address: self.start_address,
            length: self.length,
            crc_location: self.crc_location@,
            padding: self.padding,
        }
    }
}

/// The padding byte of a header that names none.
pub fn default_padding() -> (padding: u8)
    ensures
        padding == 0xFF,
{
    0xFF
}

} // verus!
