pub mod args;
pub mod checksum;
pub mod combined;
pub mod errors;
pub mod store;

use crate::layout::conversions::{endian_bytes, pattern_bytes};
use crate::layout::entry::{pad_to, padded};
use crate::layout::header::{CrcLocation, CrcLocationView, Header, HeaderView};
use crate::layout::settings::{CrcArea, Settings};
use checksum::{calculate_crc, crc_of};
use args::OutputFormat;
use errors::{OutputError, OutputErrorView};
use store::{
    below,
    end_of_file_line,
    intel_hex_lines,
    lines_view,
    s_record_lines,
    store_add_bytes,
    store_contents,
    store_error_message,
    store_error_text,
    store_is_plain,
    store_limit,
    store_new,
    store_refusal,
    store_to_ihex,
    store_to_srec,
    vacant,
    written,
    AddressLength,
};
use vstd::prelude::*;
use vstd::string::StringExecFns;

verus! {

/// One assembled block: its payload and its CRC, each with its address.
#[derive(Debug, Clone)]
pub struct DataRange {
    pub start_address: u32,
    pub bytestream: Vec<u8>,
    pub crc_address: u32,
    pub crc_bytestream: Vec<u8>,
    pub used_size: u32,
    pub allocated_size: u32,
}

/// The mathematical content of a [`DataRange`].
pub struct DataRangeView {
    pub start_address: u32,
    pub bytestream: Seq<u8>,
    pub crc_address: u32,
    pub crc_bytestream: Seq<u8>,
    pub used_size: u32,
    pub allocated_size: u32,
}

impl View for DataRange {
    type V = DataRangeView;

    open spec fn view(&self) -> DataRangeView {
        DataRangeView {
            start_address: self.start_address,
            bytestream: self.bytestream@,
            crc_address: self.crc_address,
            crc_bytestream: self.crc_bytestream@,
            used_size: self.used_size,
            allocated_size: self.allocated_size,
        }
    }
}

/// `bytes` with the two bytes of every adjacent pair exchanged; a last byte
/// without a partner stays.
pub open spec fn swap_pairs(bytes: Seq<u8>) -> Seq<u8> {
    Seq::new(
        bytes.len(),
        |i: int|
            if i % 2 == 1 {
                bytes[i - 1]
            } else if i + 1 < bytes.len() {
                bytes[i + 1]
            } else {
                bytes[i]
            },
    )
}

/// `bytes` brought to an even length with one padding byte.
pub open spec fn evened(bytes: Seq<u8>, padding: u8) -> Seq<u8> {
    if bytes.len() % 2 == 0 {
        bytes
    } else {
        bytes.push(padding)
    }
}

/// `len` rounded up to a multiple of 4.
pub open spec fn round_up_4(len: nat) -> nat {
    ((len + 3) / 4 * 4) as nat
}

pub open spec fn hex_error(message: Seq<char>) -> OutputErrorView {
    OutputErrorView::HexOutputError(message)
}

/// The offset of the CRC in a block whose payload has `len` bytes: right
/// behind the payload on a 4-byte boundary, or where the header says, which
/// may not be inside the payload. The four bytes of the CRC end inside the
/// block.
pub open spec fn crc_offset(len: nat, header: HeaderView) -> Result<nat, OutputErrorView> {
    let offset: Result<nat, OutputErrorView> = match header.crc_location {
        CrcLocationView::Address(address) => if address < header.start_address {
            Err(hex_error("CRC address before block start."@))
        } else if address - header.start_address < len {
            Err(hex_error("CRC overlaps with payload."@))
        } else {
            Ok((address - header.start_address) as nat)
        },
        CrcLocationView::Keyword(word) => if word == "end"@ {
            Ok(round_up_4(len))
        } else {
            Err(hex_error("Invalid CRC location: "@ + word))
        },
    };
    match offset {
        Err(e) => Err(e),
        Ok(at) => if header.length < at + 4 {
            Err(hex_error("CRC location would overrun block."@))
        } else {
            Ok(at)
        },
    }
}

/// `bytes` with the four bytes from `at` on set to zero.
pub open spec fn zeroed_slot(bytes: Seq<u8>, at: int) -> Seq<u8> {
    Seq::new(
        bytes.len(),
        |i: int|
            if at <= i < at + 4 {
                0u8
            } else {
                bytes[i]
            },
    )
}

/// A count of bytes held inside 32 bits, plus the four bytes of the CRC,
/// minus the padding that alignment brought in.
pub open spec fn used_bytes(len: nat, padding_bytes: u32) -> u32 {
    let with_crc: int = if len + 4 > u32::MAX {
        u32::MAX as int
    } else {
        (len + 4) as int
    };
    if with_crc < padding_bytes {
        0
    } else {
        (with_crc - padding_bytes) as u32
    }
}

/// The block assembled from its bytes. The bytes may not be more than the
/// block is long. With `byte_swap` they are brought to an even length and
/// swapped in pairs. Where the CRC follows the payload, the payload is padded
/// up to it. The CRC is taken over the payload, or over the whole block with
/// the CRC slot zeroed; its four bytes are in the byte order of the
/// settings, and swapped in pairs with `byte_swap`. With `pad_to_end` the
/// bytes are filled up to the length of the block.
#[verifier::opaque]
pub open spec fn assembled(
    bytes: Seq<u8>,
    header: HeaderView,
    settings: Settings,
    byte_swap: bool,
    pad_to_end: bool,
    padding_bytes: u32,
) -> Result<DataRangeView, OutputErrorView> {
    if bytes.len() > header.length {
        Err(hex_error("Bytestream length exceeds block length."@))
    } else {
        let payload = if byte_swap {
            swap_pairs(evened(bytes, header.padding))
        } else {
            bytes
        };
        match crc_offset(payload.len(), header) {
            Err(e) => Err(e),
            Ok(at) => if header.start_address + settings.virtual_offset + at > u32::MAX {
                Err(hex_error("Block lies outside the 32-bit address space."@))
            } else {
                let reached = if header.crc_location is Keyword {
                    padded(payload, at as int, header.padding)
                } else {
                    payload
                };
                let covered = if settings.crc.area == CrcArea::Block {
                    zeroed_slot(padded(reached, header.length as int, header.padding), at as int)
                } else {
                    reached
                };
                let crc_bytes = endian_bytes(
                    crc_of(covered, settings.crc) as nat,
                    4,
                    settings.endianness,
                );
                Ok(
                    DataRangeView {
                        start_address: (header.start_address + settings.virtual_offset) as u32,
                        bytestream: if pad_to_end {
                            padded(covered, header.length as int, header.padding)
                        } else {
                            covered
                        },
                        crc_address: (header.start_address + settings.virtual_offset + at) as u32,
                        crc_bytestream: if byte_swap {
                            swap_pairs(crc_bytes)
                        } else {
                            crc_bytes
                        },
                        used_size: used_bytes(payload.len(), padding_bytes),
                        allocated_size: header.length,
                    },
                )
            },
        }
    }
}

fn hex_output_error(message: &str) -> (e: OutputError)
    ensures
        e@ == hex_error(message@),
{
    OutputError::HexOutputError(String::from_str(message))
}

/// Exchanges the two bytes of every adjacent pair.
pub fn byte_swap_inplace(bytes: &mut Vec<u8>)
    ensures
        final(bytes)@ == swap_pairs(old(bytes)@),
{
    let ghost start = bytes@;
    let n = bytes.len();
    let mut i: usize = 0;
    while i + 1 < n
        invariant
            n == start.len(),
            bytes@.len() == n,
            i % 2 == 0,
            i <= n,
            forall|k: int| 0 <= k < i ==> bytes@[k] == swap_pairs(start)[k],
            forall|k: int| i <= k < n ==> bytes@[k] == start[k],
        decreases n - i,
    {
        let first = bytes[i];
        let second = bytes[i + 1];
        bytes.set(i, second);
        bytes.set(i + 1, first);
        i = i + 2;
    }
    assert(bytes@ =~= swap_pairs(start));
}

fn is_end_keyword(word: &String) -> (r: bool)
    ensures
        r == (word@ == "end"@),
{
    let end = String::from_str("end");
    *word == end
}

/// Finds the offset of the CRC in a block whose payload has `length` bytes.
pub fn validate_crc_location(length: usize, header: &Header) -> (r: Result<u32, OutputError>)
    ensures
        match r {
            Ok(at) => crc_offset(length as nat, header@) == Ok::<nat, OutputErrorView>(at as nat),
            Err(e) => crc_offset(length as nat, header@) == Err::<nat, OutputErrorView>(e@),
        },
{
    let offset: u64 = match &header.crc_location {
        CrcLocation::Address(address) => {
            if *address < header.start_address {
                return Err(hex_output_error("CRC address before block start."));
            }
            let offset = *address - header.start_address;
            if (offset as u64) < length as u64 {
                return Err(hex_output_error("CRC overlaps with payload."));
            }
            offset as u64
        },
        CrcLocation::Keyword(option) => {
            if is_end_keyword(option) {
                if length as u64 > 0xFFFF_FFFF {
                    return Err(hex_output_error("CRC location would overrun block."));
                }
                (length as u64 + 3) / 4 * 4
            } else {
                let mut text = String::from_str("Invalid CRC location: ");
                text.append(option.as_str());
                return Err(OutputError::HexOutputError(text));
            }
        },
    };
    if (header.length as u64) < offset + 4 {
        return Err(hex_output_error("CRC location would overrun block."));
    }
    Ok(offset as u32)
}

/// Sets the four bytes from `at` on to zero.
fn zero_slot(bytes: &mut Vec<u8>, at: usize)
    requires
        at + 4 <= old(bytes)@.len(),
    ensures
        final(bytes)@ == zeroed_slot(old(bytes)@, at as int),
{
    let ghost start = bytes@;
    let n = bytes.len();
    let mut k: usize = 0;
    while k < 4
        invariant
            k <= 4,
            at + 4 <= n,
            n == start.len(),
            bytes@.len() == start.len(),
            forall|i: int|
                0 <= i < start.len() ==> bytes@[i] == if at <= i < at + k {
                    0u8
                } else {
                    start[i]
                },
        decreases 4 - k,
    {
        bytes.set(at + k, 0);
        k = k + 1;
    }
    assert(bytes@ =~= zeroed_slot(start, at as int));
}

/// Assembles a block from the bytes of its fields: checks them against the
/// length of the block, swaps bytes if asked to, places the CRC, computes it
/// over the payload or over the whole block, and pads to the end if asked
/// to. `padding_bytes` is what alignment brought in; it does not count as
/// used.
pub fn bytestream_to_datarange(
    bytestream: Vec<u8>,
    header: &Header,
    settings: &Settings,
    byte_swap: bool,
    pad_to_end: bool,
    padding_bytes: u32,
) -> (r: Result<DataRange, OutputError>)
    ensures
        match r {
            Ok(range) => assembled(
                bytestream@,
                header@,
                *settings,
                byte_swap,
                pad_to_end,
                padding_bytes,
            ) == Ok::<DataRangeView, OutputErrorView>(range@),
            Err(e) => assembled(
                bytestream@,
                header@,
                *settings,
                byte_swap,
                pad_to_end,
                padding_bytes,
            ) == Err::<DataRangeView, OutputErrorView>(e@),
        },
{
    reveal(assembled);
    let mut bytestream = bytestream;
    if bytestream.len() as u64 > header.length as u64 {
        return Err(hex_output_error("Bytestream length exceeds block length."));
    }
    if byte_swap {
        if bytestream.len() % 2 != 0 {
            bytestream.push(header.padding);
        }
        byte_swap_inplace(&mut bytestream);
    }
    let crc_location = match validate_crc_location(bytestream.len(), header) {
        Err(e) => {
            return Err(e);
        },
        Ok(at) => at,
    };
    let crc_start: u64 = header.start_address as u64 + settings.virtual_offset as u64
        + crc_location as u64;
    if crc_start > 0xFFFF_FFFF {
        return Err(hex_output_error("Block lies outside the 32-bit address space."));
    }
    let ghost payload = bytestream@;
    let with_crc: u32 = if bytestream.len() as u64 + 4 > u32::MAX as u64 {
        u32::MAX
    } else {
        (bytestream.len() + 4) as u32
    };
    let used_size = if with_crc < padding_bytes {
        0
    } else {
        with_crc - padding_bytes
    };
    let allocated_size = header.length;
    match &header.crc_location {
        CrcLocation::Keyword(_) => {
            pad_to(&mut bytestream, crc_location as usize, header.padding);
        },
        CrcLocation::Address(_) => {},
    }
    match settings.crc.area {
        CrcArea::Block => {
            pad_to(&mut bytestream, header.length as usize, header.padding);
            zero_slot(&mut bytestream, crc_location as usize);
        },
        CrcArea::Data => {},
    }
    let crc_val = calculate_crc(bytestream.as_slice(), &settings.crc);
    let mut crc_bytes = pattern_bytes(crc_val as u64, 4, &settings.endianness);
    if byte_swap {
        byte_swap_inplace(&mut crc_bytes);
    }
    if pad_to_end {
        pad_to(&mut bytestream, header.length as usize, header.padding);
    }
    Ok(
        DataRange {
            start_address: header.start_address + settings.virtual_offset,
            bytestream,
            crc_address: header.start_address + settings.virtual_offset + crc_location,
            crc_bytestream: crc_bytes,
            used_size,
            allocated_size,
        },
    )
}

/// The contents of the ranges of a list.
pub open spec fn ranges_view(ranges: Seq<DataRange>) -> Seq<DataRangeView> {
    Seq::new(ranges.len(), |i: int| ranges[i]@)
}

/// The bytes that the first `upto` ranges put into the store: of each range
/// its payload and then its CRC, later bytes over earlier ones.
pub open spec fn stored(ranges: Seq<DataRangeView>, upto: int) -> Map<int, u8>
    decreases upto,
{
    if upto <= 0 || upto > ranges.len() {
        Map::empty()
    } else {
        let range = ranges[upto - 1];
        written(
            written(stored(ranges, upto - 1), range.start_address as int, range.bytestream),
            range.crc_address as int,
            range.crc_bytestream,
        )
    }
}

/// The largest end address among the payloads and CRCs of the first `upto`
/// ranges.
pub open spec fn max_end(ranges: Seq<DataRangeView>, upto: int) -> int
    decreases upto,
{
    if upto <= 0 || upto > ranges.len() {
        0
    } else {
        let range = ranges[upto - 1];
        let before = max_end(ranges, upto - 1);
        let payload_end = range.start_address + range.bytestream.len();
        let crc_end = range.crc_address + range.crc_bytestream.len();
        let first = if payload_end > before {
            payload_end
        } else {
            before
        };
        if crc_end > first {
            crc_end
        } else {
            first
        }
    }
}

/// The first `upto` lines with a line feed between each two.
pub open spec fn joined_lines(lines: Seq<Seq<char>>, upto: int) -> Seq<char>
    decreases upto,
{
    if upto <= 0 || upto > lines.len() {
        Seq::empty()
    } else if upto == 1 {
        lines[0]
    } else {
        joined_lines(lines, upto - 1) + seq!['\n'] + lines[upto - 1]
    }
}

/// The narrowest width of addresses that reaches `end`: an end address is
/// itself one that the width must hold.
pub open spec fn address_length_for(end: int) -> AddressLength {
    if end <= 0xFFFF {
        AddressLength::Bits16
    } else if end <= 0xFF_FFFF {
        AddressLength::Bits24
    } else {
        AddressLength::Bits32
    }
}

/// The records of the ranges in the given format, whose address width is
/// the narrowest that covers the largest end address.
pub open spec fn record_lines(
    ranges: Seq<DataRangeView>,
    record_width: int,
    format: OutputFormat,
) -> Result<Seq<Seq<char>>, Seq<char>> {
    let contents = stored(ranges, ranges.len() as int);
    let end = max_end(ranges, ranges.len() as int);
    match format {
        OutputFormat::Hex => intel_hex_lines(contents, record_width, end > 0x1_0000),
        OutputFormat::Mot => s_record_lines(contents, record_width, address_length_for(end).bytes()),
    }
}

pub open spec fn record_width_message() -> Seq<char> {
    "Record width must be between 1 and 128"@
}

/// The text of the output for records that the store has or has not given.
pub open spec fn output_text(lines: Result<Seq<Seq<char>>, Seq<char>>, format: OutputFormat) -> Result<
    Seq<char>,
    OutputErrorView,
> {
    match lines {
        Ok(lines) => Ok(joined_lines(lines, lines.len() as int)),
        Err(text) => Err(
            hex_error(
                match format {
                    OutputFormat::Hex => "Failed to generate Intel HEX: "@ + text,
                    OutputFormat::Mot => "Failed to generate S-Record: "@ + text,
                },
            ),
        ),
    }
}

/// Joins the lines with line feeds.
fn join_lines(lines: &Vec<String>) -> (text: String)
    ensures
        text@ == joined_lines(lines_view(lines@), lines@.len() as int),
{
    let mut text = String::new();
    let mut i: usize = 0;
    let ghost views = lines_view(lines@);
    proof {
        reveal_strlit("\n");
    }
    while i < lines.len()
        invariant
            i <= lines.len(),
            views == lines_view(lines@),
            "\n"@ == seq!['\n'],
            text@ == joined_lines(views, i as int),
        decreases lines.len() - i,
    {
        if i > 0 {
            text.append("\n");
        }
        text.append(lines[i].as_str());
        proof {
            if i == 0 {
                assert(Seq::<char>::empty() + views[0] =~= views[0]);
            }
        }
        i = i + 1;
    }
    text
}

/// Turns the records that the store has given, or its refusal, into the
/// text of the output or the error of the emitter.
pub fn finish_output(lines: Result<Vec<String>, bin_file::Error>, format: OutputFormat) -> (r:
    Result<String, OutputError>)
    ensures
        match r {
            Ok(text) => lines matches Ok(found) && text@ == joined_lines(
                lines_view(found@),
                found@.len() as int,
            ),
            Err(e) => lines matches Err(refusal) && e@ == hex_error(
                match format {
                    OutputFormat::Hex => "Failed to generate Intel HEX: "@ + store_error_text(
                        refusal,
                    ),
                    OutputFormat::Mot => "Failed to generate S-Record: "@ + store_error_text(
                        refusal,
                    ),
                },
            ),
        },
{
    match lines {
        Ok(found) => Ok(join_lines(&found)),
        Err(refusal) => {
            let mut text = match format {
                OutputFormat::Hex => String::from_str("Failed to generate Intel HEX: "),
                OutputFormat::Mot => String::from_str("Failed to generate S-Record: "),
            };
            let reason = store_error_message(&refusal);
            text.append(reason.as_str());
            Err(OutputError::HexOutputError(text))
        },
    }
}

pub open spec fn span_range_message() -> Seq<char> {
    "Failed to add bytes: address out of range"@
}

/// The error with which a span of bytes does not get into a store of these
/// contents, or none where it does. An empty span stores nothing; a span
/// that ends above what the store can count is refused; a span that may
/// overwrite, or that meets no byte already stored, is taken; every other
/// span is for the store to take or to refuse.
pub open spec fn span_error(
    contents: Map<int, u8>,
    address: int,
    data: Seq<u8>,
    overwrite: bool,
) -> Option<OutputErrorView> {
    if data.len() == 0 {
        None
    } else if address + data.len() > store_limit() {
        Some(hex_error(span_range_message()))
    } else if overwrite || vacant(contents, address, data.len() as int) {
        None
    } else {
        match store_refusal(contents, address, data, overwrite) {
            Some(text) => Some(hex_error("Failed to add bytes: "@ + text)),
            None => None,
        }
    }
}

/// The first error that comes up while the first `upto` ranges are put into
/// the store: of each range first its payload, which may not meet bytes
/// already stored, then its CRC, which is written over them.
pub open spec fn fill_error(ranges: Seq<DataRangeView>, upto: int) -> Option<OutputErrorView>
    decreases upto,
{
    if upto <= 0 || upto > ranges.len() {
        None
    } else {
        match fill_error(ranges, upto - 1) {
            Some(e) => Some(e),
            None => {
                let range = ranges[upto - 1];
                let before = stored(ranges, upto - 1);
                match span_error(before, range.start_address as int, range.bytestream, false) {
                    Some(e) => Some(e),
                    None => span_error(
                        written(before, range.start_address as int, range.bytestream),
                        range.crc_address as int,
                        range.crc_bytestream,
                        true,
                    ),
                }
            },
        }
    }
}

/// The text that the ranges are written out as, or the error that stops
/// them: a record width outside `1..=128`, a span that the store does not
/// take, or records that the store cannot give.
pub open spec fn emitted(ranges: Seq<DataRangeView>, record_width: usize, format: OutputFormat) -> Result<
    Seq<char>,
    OutputErrorView,
> {
    if !(1 <= record_width <= 128) {
        Err(hex_error(record_width_message()))
    } else {
        match fill_error(ranges, ranges.len() as int) {
            Some(e) => Err(e),
            None => output_text(record_lines(ranges, record_width as int, format), format),
        }
    }
}

/// Whether a range keeps its payload and its CRC inside the memory that it
/// is allocated.
pub open spec fn kept_inside(range: DataRangeView) -> bool {
    &&& range.bytestream.len() <= range.allocated_size
    &&& range.start_address <= range.crc_address
    &&& range.crc_address + range.crc_bytestream.len() <= range.start_address
        + range.allocated_size
    &&& range.start_address + range.allocated_size <= store_limit()
}

/// Whether no two ranges are allocated the same address.
pub open spec fn ranges_apart(ranges: Seq<DataRangeView>) -> bool {
    forall|i: int, j: int|
        0 <= i < j < ranges.len() ==> {
            ||| (#[trigger] ranges[i]).start_address + ranges[i].allocated_size <= (
            #[trigger] ranges[j]).start_address
            ||| ranges[j].start_address + ranges[j].allocated_size <= ranges[i].start_address
        }
}

/// Whether address `a` is allocated to one of the first `upto` ranges.
pub open spec fn allocated_in(ranges: Seq<DataRangeView>, upto: int, a: int) -> bool {
    exists|k: int|
        0 <= k < upto && k < ranges.len() && (#[trigger] ranges[k]).start_address <= a
            < ranges[k].start_address + ranges[k].allocated_size
}

/// Ranges that keep inside their memory and share no address all get into
/// the store: none of them is refused, whether or not two of them touch.
pub proof fn lemma_ranges_apart_are_stored(ranges: Seq<DataRangeView>, upto: int)
    requires
        0 <= upto <= ranges.len(),
        ranges_apart(ranges),
        forall|k: int| 0 <= k < ranges.len() ==> kept_inside(#[trigger] ranges[k]),
    ensures
        fill_error(ranges, upto) is None,
        forall|a: int| #[trigger]
            stored(ranges, upto).dom().contains(a) ==> allocated_in(ranges, upto, a),
    decreases upto,
{
    if upto > 0 {
        lemma_ranges_apart_are_stored(ranges, upto - 1);
        let range = ranges[upto - 1];
        let before = stored(ranges, upto - 1);
        assert(kept_inside(range));
        assert(vacant(before, range.start_address as int, range.bytestream.len() as int)) by {
            assert forall|a: int|
                range.start_address <= a < range.start_address
                    + range.bytestream.len() implies !before.dom().contains(a) by {
                if before.dom().contains(a) {
                    assert(allocated_in(ranges, upto - 1, a));
                    let k = choose|k: int|
                        0 <= k < upto - 1 && k < ranges.len() && (#[trigger] ranges[k]).start_address
                            <= a < ranges[k].start_address + ranges[k].allocated_size;
                    assert(ranges[k].start_address + ranges[k].allocated_size
                        <= ranges[upto - 1].start_address || ranges[upto - 1].start_address
                        + ranges[upto - 1].allocated_size <= ranges[k].start_address);
                }
            }
        }
        assert forall|a: int| #[trigger]
            stored(ranges, upto).dom().contains(a) implies allocated_in(ranges, upto, a) by {
            if before.dom().contains(a) {
                assert(allocated_in(ranges, upto - 1, a));
                let k = choose|k: int|
                    0 <= k < upto - 1 && k < ranges.len() && (#[trigger] ranges[k]).start_address
                        <= a < ranges[k].start_address + ranges[k].allocated_size;
                assert(ranges[k].start_address <= a < ranges[k].start_address
                    + ranges[k].allocated_size);
            } else {
                assert(ranges[upto - 1].start_address <= a < ranges[upto - 1].start_address
                    + ranges[upto - 1].allocated_size);
            }
        }
    }
}

/// Whether the records of the ranges can hold every address: Intel HEX
/// reaches the end of the 32-bit space, S-records one address short of it.
pub open spec fn records_fit(ranges: Seq<DataRangeView>, format: OutputFormat) -> bool {
    let end = max_end(ranges, ranges.len() as int);
    match format {
        OutputFormat::Hex => end <= 0x1_0000_0000,
        OutputFormat::Mot => end <= 0xFFFF_FFFF,
    }
}

/// Every byte that the first `upto` ranges store lies below their largest
/// end address.
pub proof fn lemma_stored_below_end(ranges: Seq<DataRangeView>, upto: int)
    requires
        0 <= upto <= ranges.len(),
    ensures
        below(stored(ranges, upto), max_end(ranges, upto)),
    decreases upto,
{
    if upto > 0 {
        lemma_stored_below_end(ranges, upto - 1);
    }
}

/// Ranges that keep inside their memory, and whose memory ends inside the
/// 32-bit space, end inside it too: Intel HEX records hold them all.
pub proof fn lemma_end_inside_space(ranges: Seq<DataRangeView>, upto: int)
    requires
        0 <= upto <= ranges.len(),
        forall|k: int|
            0 <= k < ranges.len() ==> kept_inside(#[trigger] ranges[k]) && ranges[k].start_address
                + ranges[k].allocated_size <= u32::MAX,
    ensures
        max_end(ranges, upto) <= u32::MAX,
    decreases upto,
{
    if upto > 0 {
        lemma_end_inside_space(ranges, upto - 1);
        assert(kept_inside(ranges[upto - 1]));
    }
}

/// An error among the first ranges is the error of every longer run.
proof fn lemma_fill_error_stays(ranges: Seq<DataRangeView>, bad: int, upto: int)
    requires
        0 <= bad <= upto <= ranges.len(),
        fill_error(ranges, bad) is Some,
    ensures
        fill_error(ranges, upto) == fill_error(ranges, bad),
    decreases upto,
{
    if upto > bad {
        lemma_fill_error_stays(ranges, bad, upto - 1);
    }
}

/// Puts one span of bytes into the store; an empty span stores nothing.
fn add_span(store: &mut bin_file::BinFile, data: &Vec<u8>, address: u32, overwrite: bool) -> (r:
    Result<(), OutputError>)
    requires
        store_is_plain(*old(store)),
    ensures
        store_is_plain(*final(store)),
        match r {
            Ok(()) => {
                &&& span_error(store_contents(*old(store)), address as int, data@, overwrite)
                    is None
                &&& store_contents(*final(store)) == written(
                    store_contents(*old(store)),
                    address as int,
                    data@,
                )
                &&& address + data@.len() <= usize::MAX
            },
            Err(e) => span_error(store_contents(*old(store)), address as int, data@, overwrite)
                == Some(e@),
        },
{
    if data.len() == 0 {
        assert(written(store_contents(*store), address as int, data@) =~= store_contents(*store));
        return Ok(());
    }
    let end: u128 = address as u128 + data.len() as u128;
    if end > usize::MAX as u128 || end > 0x7FFF_FFFF_FFFF_FFFF {
        return Err(hex_output_error("Failed to add bytes: address out of range"));
    }
    match store_add_bytes(store, data.as_slice(), address as usize, overwrite) {
        Ok(()) => Ok(()),
        Err(refusal) => {
            let mut text = String::from_str("Failed to add bytes: ");
            let reason = store_error_message(&refusal);
            text.append(reason.as_str());
            Err(OutputError::HexOutputError(text))
        },
    }
}

/// Whether `text` ends with `tail`.
pub open spec fn ends_with(text: Seq<char>, tail: Seq<char>) -> bool {
    tail.len() <= text.len() && text.subrange(text.len() - tail.len(), text.len() as int) == tail
}

/// Lines that are joined end with the last of them.
proof fn lemma_joined_lines_end(lines: Seq<Seq<char>>)
    requires
        lines.len() > 0,
    ensures
        ends_with(joined_lines(lines, lines.len() as int), lines.last()),
{
    let text = joined_lines(lines, lines.len() as int);
    let last = lines.last();
    if lines.len() == 1 {
        assert(text.subrange(0, text.len() as int) =~= last);
    } else {
        let head = joined_lines(lines, lines.len() - 1) + seq!['\n'];
        assert(text == head + last);
        assert(text.subrange(text.len() - last.len(), text.len() as int) =~= last);
    }
}

/// Writes the ranges out as text records, one record per line. A record
/// width outside `1..=128` is refused. Every range puts its payload and its
/// CRC into an address-indexed store, and the store gives the records: Intel
/// HEX with 32-bit addressing once an end address lies above `0x10000`, or
/// S-records with the narrowest addresses that cover every end address.
/// The store cuts a run of bytes into records by the record width alone: a
/// record holds at most that many bytes, and one that starts below a 64 KiB
/// boundary may reach across it. Intel HEX text ends with the end-of-file
/// record.
pub fn emit_hex(ranges: &[DataRange], record_width: usize, format: OutputFormat) -> (r: Result<
    String,
    OutputError,
>)
    ensures
        match r {
            Ok(text) => emitted(ranges_view(ranges@), record_width, format) == Ok::<
                Seq<char>,
                OutputErrorView,
            >(text@),
            Err(e) => emitted(ranges_view(ranges@), record_width, format) == Err::<
                Seq<char>,
                OutputErrorView,
            >(e@),
        },
        (1 <= record_width <= 128 && fill_error(ranges_view(ranges@), ranges@.len() as int) is None
            && records_fit(ranges_view(ranges@), format)) ==> r is Ok,
        (format is Hex && r is Ok) ==> ends_with(r->Ok_0@, end_of_file_line()),
{
    if !(1 <= record_width && record_width <= 128) {
        return Err(hex_output_error("Record width must be between 1 and 128"));
    }
    let mut store = store_new();
    let mut end: usize = 0;
    let ghost views = ranges_view(ranges@);
    let mut i: usize = 0;
    while i < ranges.len()
        invariant
            i <= ranges.len(),
            1 <= record_width <= 128,
            views == ranges_view(ranges@),
            store_is_plain(store),
            store_contents(store) == stored(views, i as int),
            fill_error(views, i as int) is None,
            end == max_end(views, i as int),
        decreases ranges.len() - i,
    {
        let range = &ranges[i];
        proof {
            assert(views[i as int] == range@);
        }
        match add_span(&mut store, &range.bytestream, range.start_address, false) {
            Err(e) => {
                proof {
                    lemma_fill_error_stays(views, i + 1, views.len() as int);
                }
                return Err(e);
            },
            Ok(()) => {},
        }
        match add_span(&mut store, &range.crc_bytestream, range.crc_address, true) {
            Err(e) => {
                proof {
                    lemma_fill_error_stays(views, i + 1, views.len() as int);
                }
                return Err(e);
            },
            Ok(()) => {},
        }
        let payload_end = range.start_address as usize + range.bytestream.len();
        if payload_end > end {
            end = payload_end;
        }
        let crc_end = range.crc_address as usize + range.crc_bytestream.len();
        if crc_end > end {
            end = crc_end;
        }
        i = i + 1;
    }
    proof {
        lemma_stored_below_end(views, views.len() as int);
    }
    let lines = match format {
        OutputFormat::Hex => store_to_ihex(&store, record_width, end > 0x1_0000),
        OutputFormat::Mot => {
            let length = if end <= 0xFFFF {
                AddressLength::Bits16
            } else if end <= 0xFF_FFFF {
                AddressLength::Bits24
            } else {
                AddressLength::Bits32
            };
            store_to_srec(&store, record_width, length)
        },
    };
    proof {
        if format is Hex && lines is Ok {
            let found = lines->Ok_0;
            assert(lines_view(found@).last() == found@.last()@);
            lemma_joined_lines_end(lines_view(found@));
        }
    }
    finish_output(lines, format)
}

/// The CRC value of a block that assembles: the checksum of its payload,
/// padded up to the place of the CRC where that place follows the payload,
/// or of the whole block with the CRC slot zeroed.
pub open spec fn checksum(bytes: Seq<u8>, header: HeaderView, settings: Settings, byte_swap: bool) -> u32 {
    let payload = if byte_swap {
        swap_pairs(evened(bytes, header.padding))
    } else {
        bytes
    };
    let at = crc_offset(payload.len(), header)->Ok_0;
    let reached = if header.crc_location is Keyword {
        padded(payload, at as int, header.padding)
    } else {
        payload
    };
    crc_of(
        if settings.crc.area == CrcArea::Block {
            zeroed_slot(padded(reached, header.length as int, header.padding), at as int)
        } else {
            reached
        },
        settings.crc,
    )
}

/// The CRC bytes of an assembled block are the four bytes of its CRC value
/// in the byte order of the settings, swapped in pairs with `byte_swap`.
pub proof fn lemma_assembled_crc_bytes(
    bytes: Seq<u8>,
    header: HeaderView,
    settings: Settings,
    byte_swap: bool,
    pad_to_end: bool,
    padding_bytes: u32,
)
    ensures
        assembled(bytes, header, settings, byte_swap, pad_to_end, padding_bytes) matches Ok(
            range,
        ) ==> range.crc_bytestream == if byte_swap {
            swap_pairs(
                endian_bytes(
                    checksum(bytes, header, settings, byte_swap) as nat,
                    4,
                    settings.endianness,
                ),
            )
        } else {
            endian_bytes(checksum(bytes, header, settings, byte_swap) as nat, 4, settings.endianness)
        },
{
    reveal(assembled);
}

/// Every assembled block starts at the biased start address of its header,
/// is allocated the length of its header, and has a CRC of four bytes whose
/// place lies inside the block and behind the start.
pub proof fn lemma_assembled_shape(
    bytes: Seq<u8>,
    header: HeaderView,
    settings: Settings,
    byte_swap: bool,
    pad_to_end: bool,
    padding_bytes: u32,
)
    ensures
        assembled(bytes, header, settings, byte_swap, pad_to_end, padding_bytes) matches Ok(
            range,
        ) ==> {
            &&& range.crc_bytestream.len() == 4
            &&& range.allocated_size == header.length
            &&& range.start_address == header.start_address + settings.virtual_offset
            &&& range.start_address <= range.crc_address
            &&& range.crc_address - range.start_address + 4 <= header.length
            &&& range.bytestream.len() <= header.length
            &&& pad_to_end ==> range.bytestream.len() == header.length
            &&& (settings.crc.area == CrcArea::Data && !pad_to_end) ==> range.bytestream.len()
                <= range.crc_address - range.start_address
            &&& (header.crc_location is Keyword || settings.crc.area == CrcArea::Block
                || pad_to_end) ==> range.crc_address - range.start_address
                <= range.bytestream.len()
        },
{
    reveal(assembled);
    if assembled(bytes, header, settings, byte_swap, pad_to_end, padding_bytes) is Ok {
        let payload = if byte_swap {
            swap_pairs(evened(bytes, header.padding))
        } else {
            bytes
        };
        let at = crc_offset(payload.len(), header)->Ok_0;
        assert(payload.len() <= at);
    }
}

/// A block assembles where its CRC follows the payload, the block has room
/// for the payload rounded up to four and the four bytes of the CRC, and the
/// CRC starts inside the 32-bit space.
pub proof fn lemma_block_with_room_assembles(
    bytes: Seq<u8>,
    header: HeaderView,
    settings: Settings,
    byte_swap: bool,
    pad_to_end: bool,
    padding_bytes: u32,
)
    requires
        header.crc_location == CrcLocationView::Keyword("end"@),
        round_up_4(bytes.len()) + 4 <= header.length,
        header.start_address + settings.virtual_offset + round_up_4(bytes.len()) <= u32::MAX,
    ensures
        assembled(bytes, header, settings, byte_swap, pad_to_end, padding_bytes) is Ok,
{
    let payload = if byte_swap {
        swap_pairs(evened(bytes, header.padding))
    } else {
        bytes
    };
    lemma_round_up_4(bytes.len());
    lemma_round_up_4(payload.len());
    assert(round_up_4(payload.len()) == round_up_4(bytes.len()));
    assert(crc_offset(payload.len(), header) == Ok::<nat, OutputErrorView>(
        round_up_4(bytes.len()),
    ));
    reveal(assembled);
}

/// A block that is padded to its end is exactly as long as its header says.
/// Without that padding, a block whose CRC follows its payload and covers
/// the payload alone ends where the CRC begins: payload and CRC together
/// take the length of the payload rounded up to four, plus four.
pub proof fn lemma_assembled_length(
    bytes: Seq<u8>,
    header: HeaderView,
    settings: Settings,
    byte_swap: bool,
    pad_to_end: bool,
    padding_bytes: u32,
)
    requires
        assembled(bytes, header, settings, byte_swap, pad_to_end, padding_bytes) is Ok,
    ensures
        pad_to_end ==> assembled(
            bytes,
            header,
            settings,
            byte_swap,
            pad_to_end,
            padding_bytes,
        )->Ok_0.bytestream.len() == header.length,
        !pad_to_end && header.crc_location is Keyword && settings.crc.area == CrcArea::Data ==> {
            let range = assembled(
                bytes,
                header,
                settings,
                byte_swap,
                pad_to_end,
                padding_bytes,
            )->Ok_0;
            range.bytestream.len() + range.crc_bytestream.len() == round_up_4(bytes.len()) + 4
        },
{
    let payload = if byte_swap {
        swap_pairs(evened(bytes, header.padding))
    } else {
        bytes
    };
    lemma_round_up_4(bytes.len());
    lemma_round_up_4(payload.len());
    assert(round_up_4(payload.len()) == round_up_4(bytes.len()));
    assert(assembled(bytes, header, settings, byte_swap, pad_to_end, padding_bytes) is Ok ==> (
    crc_offset(payload.len(), header) matches Ok(at) && payload.len() <= at)) by {
        reveal(assembled);
    }
    let at = crc_offset(payload.len(), header)->Ok_0;
    let reached = if header.crc_location is Keyword {
        padded(payload, at as int, header.padding)
    } else {
        payload
    };
    assert(header.crc_location is Keyword ==> at == round_up_4(bytes.len()) && reached.len() == at);
    reveal(assembled);
}

/// Rounding up to four gives no less, and the same for a length and for
/// the even length that follows it.
proof fn lemma_round_up_4(len: nat)
    ensures
        len <= round_up_4(len) < len + 4,
        round_up_4(len) % 4 == 0,
        len % 2 == 1 ==> round_up_4(len + 1) == round_up_4(len),
{
}

/// Swapping the pairs twice gives the bytes back.
pub proof fn lemma_swap_pairs_twice(bytes: Seq<u8>)
    ensures
        swap_pairs(swap_pairs(bytes)) == bytes,
{
    assert(swap_pairs(swap_pairs(bytes)) =~= bytes);
}

/// Swapping exchanges the bytes of every adjacent pair and leaves the
/// length alone.
pub proof fn lemma_swap_pairs_exchanges(bytes: Seq<u8>, k: int)
    requires
        0 <= k,
        2 * k + 1 < bytes.len(),
    ensures
        swap_pairs(bytes).len() == bytes.len(),
        swap_pairs(bytes)[2 * k] == bytes[2 * k + 1],
        swap_pairs(bytes)[2 * k + 1] == bytes[2 * k],
{
}

/// Padding and swapping can change places: the padded bytes swapped are the
/// evened bytes swapped and then padded.
pub proof fn lemma_swap_pairs_of_padded(bytes: Seq<u8>, total: int, padding: u8)
    requires
        evened(bytes, padding).len() <= total,
    ensures
        swap_pairs(padded(bytes, total, padding)) == padded(
            swap_pairs(evened(bytes, padding)),
            total,
            padding,
        ),
{
    assert(swap_pairs(padded(bytes, total, padding)) =~= padded(
        swap_pairs(evened(bytes, padding)),
        total,
        padding,
    ));
}

/// With the byte swap switched on, a block whose CRC follows its payload
/// and covers the payload alone holds the bytes of the unswapped block with
/// every adjacent pair exchanged. Its CRC is that of the swapped bytes, and
/// the CRC bytes are exchanged in pairs as well.
pub proof fn lemma_byte_swap_of_block(
    bytes: Seq<u8>,
    header: HeaderView,
    settings: Settings,
    pad_to_end: bool,
    padding_bytes: u32,
)
    requires
        header.crc_location is Keyword,
        settings.crc.area == CrcArea::Data,
        assembled(bytes, header, settings, true, pad_to_end, padding_bytes) is Ok,
        assembled(bytes, header, settings, false, pad_to_end, padding_bytes) is Ok,
    ensures
        ({
            let swapped = assembled(bytes, header, settings, true, pad_to_end, padding_bytes)->Ok_0;
            let plain = assembled(bytes, header, settings, false, pad_to_end, padding_bytes)->Ok_0;
            let at = swapped.crc_address - swapped.start_address;
            &&& swapped.bytestream == swap_pairs(plain.bytestream)
            &&& swapped.crc_address == plain.crc_address
            &&& swapped.crc_bytestream == swap_pairs(
                endian_bytes(
                    crc_of(swapped.bytestream.take(at), settings.crc) as nat,
                    4,
                    settings.endianness,
                ),
            )
            &&& plain.crc_bytestream == endian_bytes(
                crc_of(plain.bytestream.take(at), settings.crc) as nat,
                4,
                settings.endianness,
            )
        }),
{
    reveal(assembled);
    let even = evened(bytes, header.padding);
    let at = round_up_4(bytes.len()) as int;
    assert(round_up_4(swap_pairs(even).len()) == at);
    lemma_swap_pairs_of_padded(bytes, at, header.padding);
    let plain_reached = padded(bytes, at, header.padding);
    let swapped_reached = padded(swap_pairs(even), at, header.padding);
    assert(plain_reached.len() == at);
    assert(swapped_reached.len() == at);
    if pad_to_end {
        lemma_swap_pairs_of_padded(plain_reached, header.length as int, header.padding);
        assert(evened(plain_reached, header.padding) == plain_reached);
        assert(padded(plain_reached, header.length as int, header.padding).take(at)
            =~= plain_reached);
        assert(padded(swapped_reached, header.length as int, header.padding).take(at)
            =~= swapped_reached);
    } else {
        assert(plain_reached.take(at) =~= plain_reached);
        assert(swapped_reached.take(at) =~= swapped_reached);
    }
}

} // verus!
