//! The address-indexed byte store behind the record emitter.

use bin_file::BinFile;
use vstd::prelude::*;

verus! {

/// `bin_file::BinFile`: bytes by address, taken as it is.
#[verifier::external_type_specification]
#[verifier::external_body]
pub struct ExBinFile(bin_file::BinFile);

/// `bin_file::Error`: what the store refuses with, taken as it is.
#[verifier::external_type_specification]
#[verifier::external_body]
pub struct ExBinFileError(bin_file::Error);

/// The bytes that a store holds, by address.
pub uninterp spec fn store_contents(store: bin_file::BinFile) -> Map<int, u8>;

/// Whether a store holds bytes only, every stretch of them in one piece: no
/// header text, no start address, no piece without bytes.
pub uninterp spec fn store_is_plain(store: bin_file::BinFile) -> bool;

/// The text of the error with which a plain store of these contents refuses
/// `data` at `address`, or none where it takes the data.
pub uninterp spec fn store_refusal(
    contents: Map<int, u8>,
    address: int,
    data: Seq<u8>,
    overwrite: bool,
) -> Option<Seq<char>>;

/// The highest end of a span of bytes that the store is given.
pub open spec fn store_limit() -> int {
    if usize::MAX < 0x7FFF_FFFF_FFFF_FFFF {
        usize::MAX as int
    } else {
        0x7FFF_FFFF_FFFF_FFFF
    }
}

/// The store's answer to data that it takes.
pub open spec fn taken() -> Option<Seq<char>> {
    None
}

/// The store's answer to data that it refuses with `error`.
pub open spec fn refused(error: bin_file::Error) -> Option<Seq<char>> {
    Some(store_error_text(error))
}

/// The text that an error of the store displays.
pub uninterp spec fn store_error_text(error: bin_file::Error) -> Seq<char>;

/// The Intel HEX records of a plain store with `width` data bytes per
/// record, with extended linear addresses if `wide`, else with segment
/// addresses; or the text of the error that refuses them.
pub uninterp spec fn intel_hex_lines(contents: Map<int, u8>, width: int, wide: bool) -> Result<
    Seq<Seq<char>>,
    Seq<char>,
>;

/// The S-records of a plain store with `width` data bytes per record and
/// addresses of `address_bytes` bytes; or the text of the error that refuses
/// them.
pub uninterp spec fn s_record_lines(
    contents: Map<int, u8>,
    width: int,
    address_bytes: int,
) -> Result<Seq<Seq<char>>, Seq<char>>;

/// The width of the addresses of S-records.
#[derive(Debug, Clone, Copy, PartialEq, Eq, Structural)]
pub enum AddressLength {
    Bits16,
    Bits24,
    Bits32,
}

impl AddressLength {
    /// The number of bytes of an address.
    pub open spec fn bytes(self) -> int {
        match self {
            AddressLength::Bits16 => 2,
            AddressLength::Bits24 => 3,
            AddressLength::Bits32 => 4,
        }
    }

    /// The largest address at which S-records of this width may end.
    pub open spec fn reach(self) -> int {
        match self {
            AddressLength::Bits16 => 0xFFFF,
            AddressLength::Bits24 => 0xFF_FFFF,
            AddressLength::Bits32 => 0xFFFF_FFFF,
        }
    }
}

/// A store without bytes.
pub open spec fn no_bytes() -> Map<int, u8> {
    Map::empty()
}

/// Whether `contents` holds no byte at the `count` addresses from `address`
/// on.
pub open spec fn vacant(contents: Map<int, u8>, address: int, count: int) -> bool {
    forall|a: int| address <= a < address + count ==> !contents.dom().contains(a)
}

/// Whether every byte of `contents` lies below the address `limit`.
pub open spec fn below(contents: Map<int, u8>, limit: int) -> bool {
    forall|a: int| contents.dom().contains(a) ==> a < limit
}

/// The first address that Intel HEX records cannot hold for certain: 16-bit
/// records hold the first 64 KiB, 32-bit records the whole 32-bit space.
pub open spec fn intel_hex_reach(wide: bool) -> int {
    if wide {
        0x1_0000_0000
    } else {
        0x1_0000
    }
}

/// The record that ends every Intel HEX text.
pub open spec fn end_of_file_line() -> Seq<char> {
    ":00000001FF"@
}

/// The records that were handed out, as the store's answer.
pub open spec fn answer_lines(lines: Vec<String>) -> Result<Seq<Seq<char>>, Seq<char>> {
    Ok(lines_view(lines@))
}

/// The refusal that was handed out, as the store's answer.
pub open spec fn answer_refusal(error: bin_file::Error) -> Result<Seq<Seq<char>>, Seq<char>> {
    Err(store_error_text(error))
}

/// `contents` with `data` written from `address` on, over what was there.
pub open spec fn written(contents: Map<int, u8>, address: int, data: Seq<u8>) -> Map<int, u8> {
    Map::new(
        |a: int| contents.dom().contains(a) || address <= a < address + data.len(),
        |a: int|
            if address <= a < address + data.len() {
                data[a - address]
            } else {
                contents[a]
            },
    )
}

/// The texts of a list of lines.
pub open spec fn lines_view(lines: Seq<String>) -> Seq<Seq<char>> {
    Seq::new(lines.len(), |i: int| lines[i]@)
}

/// `BinFile::new`: a store without bytes, header or start address.
#[verifier::external_body]
pub(crate) fn store_new() -> (store: BinFile)
    ensures
        store_contents(store) == no_bytes(),
        store_is_plain(store),
{
    bin_file::BinFile::new()
}

/// `BinFile::add_bytes`: writes `data` from `address` on. Where the call
/// succeeds, the new bytes stand over whatever was there; where it fails,
/// the store is as it was. Whether a plain store takes the data depends on
/// its bytes, the address, the data and `overwrite` alone. With `overwrite`
/// the call never fails, nor does it where the store holds no byte at the
/// addresses of the data; without `overwrite` the call may refuse data
/// that meets bytes already stored.
#[verifier::external_body]
pub(crate) fn store_add_bytes(
    store: &mut bin_file::BinFile,
    data: &[u8],
    address: usize,
    overwrite: bool,
) -> (r: Result<(), bin_file::Error>)
    requires
        store_is_plain(*old(store)),
        data@.len() > 0,
        address + data@.len() <= store_limit(),
    ensures
        store_is_plain(*final(store)),
        match r {
            Ok(()) => store_refusal(store_contents(*old(store)), address as int, data@, overwrite)
                == taken() && store_contents(*final(store)) == written(
                store_contents(*old(store)),
                address as int,
                data@,
            ),
            Err(e) => store_refusal(store_contents(*old(store)), address as int, data@, overwrite)
                == refused(e) && store_contents(*final(store)) == store_contents(*old(store)),
        },
        overwrite ==> r is Ok,
        vacant(store_contents(*old(store)), address as int, data@.len() as int) ==> r is Ok,
{
    store.add_bytes(data, Some(address), overwrite)
}

/// `BinFile::to_ihex`: the Intel HEX records of the store, or its refusal.
/// What comes back depends on the bytes of a plain store, on the width and
/// on the kind of addressing alone. The call refuses only a record that
/// starts at an address which the kind of addressing cannot hold, so bytes
/// that all lie below that address are never refused. The last record is
/// the end-of-file record.
#[verifier::external_body]
pub(crate) fn store_to_ihex(store: &bin_file::BinFile, width: usize, wide: bool) -> (r: Result<
    Vec<String>,
    bin_file::Error,
>)
    requires
        store_is_plain(*store),
        1 <= width <= 255,
    ensures
        match r {
            Ok(lines) => intel_hex_lines(store_contents(*store), width as int, wide)
                == answer_lines(lines),
            Err(e) => intel_hex_lines(store_contents(*store), width as int, wide)
                == answer_refusal(e),
        },
        below(store_contents(*store), intel_hex_reach(wide)) ==> r is Ok,
        r matches Ok(lines) ==> lines@.len() > 0 && lines@.last()@ == end_of_file_line(),
{
    let format = if wide {
        bin_file::IHexFormat::IHex32
    } else {
        bin_file::IHexFormat::IHex16
    };
    store.to_ihex(Some(width), format)
}

/// `BinFile::to_srec`: the S-records of the store, or its refusal. What
/// comes back depends on the bytes of a plain store, on the width and on the
/// width of the addresses alone. The call refuses only a store whose bytes
/// end above the largest address of that width.
#[verifier::external_body]
pub(crate) fn store_to_srec(
    store: &bin_file::BinFile,
    width: usize,
    address_length: AddressLength,
) -> (r: Result<Vec<String>, bin_file::Error>)
    requires
        store_is_plain(*store),
        1 <= width <= 250,
    ensures
        match r {
            Ok(lines) => s_record_lines(
                store_contents(*store),
                width as int,
                address_length.bytes(),
            ) == answer_lines(lines),
            Err(e) => s_record_lines(store_contents(*store), width as int, address_length.bytes())
                == answer_refusal(e),
        },
        below(store_contents(*store), address_length.reach()) ==> r is Ok,
{
    let length = match address_length {
        AddressLength::Bits16 => bin_file::SRecordAddressLength::Length16,
        AddressLength::Bits24 => bin_file::SRecordAddressLength::Length24,
        AddressLength::Bits32 => bin_file::SRecordAddressLength::Length32,
    };
    store.to_srec(Some(width), length)
}

/// `<bin_file::Error as Display>::fmt`: the text that an error of the store
/// displays.
#[verifier::external_body]
pub(crate) fn store_error_message(error: &bin_file::Error) -> (text: String)
    ensures
        text@ == store_error_text(*error),
{
    format!("{}", error)
}

} // verus!
