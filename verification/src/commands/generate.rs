use crate::commands::stats::BlockStat;
use crate::error::{NvmError, NvmErrorView};
use crate::layout::args::BlockNames;
use crate::layout::block::{Block, Config};
use crate::layout::conversions::{byte_at, endian_bytes};
use crate::layout::entry::sheet_value;
use crate::layout::errors::LayoutErrorView;
use crate::layout::settings::{Endianness, Settings};
use crate::output::args::OutputFormat;
use crate::output::store::store_limit;
use crate::output::{
    assembled,
    byte_swap_inplace,
    bytestream_to_datarange,
    checksum,
    emit_hex,
    emitted,
    kept_inside,
    lemma_assembled_crc_bytes,
    lemma_end_inside_space,
    lemma_ranges_apart_are_stored,
    lemma_swap_pairs_twice,
    output_text,
    ranges_view,
    record_lines,
    swap_pairs,
    DataRange,
    DataRangeView,
};
use crate::variant::DataSheet;
use vstd::arithmetic::power2::{lemma2_to64, pow2};
use vstd::prelude::*;

verus! {

/// The number whose four bytes in the given byte order are `bytes`.
pub open spec fn number_of_bytes(bytes: Seq<u8>, endianness: Endianness) -> u32 {
    match endianness {
        Endianness::Little => (bytes[0] as nat + bytes[1] as nat * 0x100 + bytes[2] as nat
            * 0x1_0000 + bytes[3] as nat * 0x100_0000) as u32,
        Endianness::Big => (bytes[3] as nat + bytes[2] as nat * 0x100 + bytes[1] as nat * 0x1_0000
            + bytes[0] as nat * 0x100_0000) as u32,
    }
}

/// Reads four bytes as a number in the given byte order.
pub fn read_number(bytes: &Vec<u8>, endianness: Endianness) -> (value: u32)
    requires
        bytes@.len() >= 4,
    ensures
        value == number_of_bytes(bytes@, endianness),
{
    let b0 = bytes[0] as u32;
    let b1 = bytes[1] as u32;
    let b2 = bytes[2] as u32;
    let b3 = bytes[3] as u32;
    match endianness {
        Endianness::Little => b0 + b1 * 0x100 + b2 * 0x1_0000 + b3 * 0x100_0000,
        Endianness::Big => b3 + b2 * 0x100 + b1 * 0x1_0000 + b0 * 0x100_0000,
    }
}

/// The range that a block is built and assembled into.
pub open spec fn block_range(
    block: Block,
    data_sheet: Option<DataSheet>,
    settings: Settings,
    strict: bool,
) -> Result<DataRangeView, NvmErrorView> {
    match block.bytestream(data_sheet, settings, strict) {
        Err(e) => Err(NvmErrorView::Layout(e)),
        Ok((bytes, padding)) => match assembled(
            bytes,
            block.header@,
            settings,
            settings.byte_swap,
            settings.pad_to_end,
            padding,
        ) {
            Err(e) => Err(NvmErrorView::Output(e)),
            Ok(range) => Ok(range),
        },
    }
}

/// Builds a block and assembles it with the settings of its layout.
pub fn build_range(
    block: &Block,
    data_sheet: Option<&DataSheet>,
    settings: &Settings,
    strict: bool,
) -> (r: Result<DataRange, NvmError>)
    ensures
        match r {
            Ok(range) => block_range(*block, sheet_value(data_sheet), *settings, strict) == Ok::<
                DataRangeView,
                NvmErrorView,
            >(range@),
            Err(e) => block_range(*block, sheet_value(data_sheet), *settings, strict) == Err::<
                DataRangeView,
                NvmErrorView,
            >(e@),
        },
{
    let (bytestream, padding_bytes) = match block.build_bytestream(data_sheet, settings, strict) {
        Err(e) => {
            return Err(NvmError::Layout(e));
        },
        Ok(built) => built,
    };
    match bytestream_to_datarange(
        bytestream,
        &block.header,
        settings,
        settings.byte_swap,
        settings.pad_to_end,
        padding_bytes,
    ) {
        Err(e) => Err(NvmError::Output(e)),
        Ok(range) => Ok(range),
    }
}

/// The CRC value that the CRC bytes hold: the bytes with the byte swap
/// undone, read in the byte order of the settings.
pub open spec fn reported_crc(crc_bytes: Seq<u8>, settings: Settings) -> u32 {
    number_of_bytes(
        if settings.byte_swap {
            swap_pairs(crc_bytes)
        } else {
            crc_bytes
        },
        settings.endianness,
    )
}

/// Reads the CRC value back out of the CRC bytes of a range.
pub fn crc_value_of(crc_bytes: &Vec<u8>, settings: &Settings) -> (value: u32)
    requires
        crc_bytes@.len() >= 4,
    ensures
        value == reported_crc(crc_bytes@, *settings),
{
    let mut bytes = crate::hex::copy_span(crc_bytes, 0, crc_bytes.len());
    assert(bytes@ =~= crc_bytes@);
    if settings.byte_swap {
        byte_swap_inplace(&mut bytes);
    }
    read_number(&bytes, settings.endianness)
}

/// What the statistics keep of an assembled block: its name, where it
/// starts, what it is allocated and what it uses, and its CRC value.
pub open spec fn stat_of(name: Seq<char>, range: DataRangeView, settings: Settings) -> (
    Seq<char>,
    u32,
    u32,
    u32,
    u32,
) {
    (
        name,
        range.start_address,
        range.allocated_size,
        range.used_size,
        reported_crc(range.crc_bytestream, settings),
    )
}

/// The fields of a block's statistics.
pub open spec fn stat_view(stat: BlockStat) -> (Seq<char>, u32, u32, u32, u32) {
    (stat.name@, stat.start_address, stat.allocated_size, stat.used_size, stat.crc_value)
}

/// `error` with the names of the block and of the layout file of `input`.
pub open spec fn in_block_of(input: BlockNames, error: NvmErrorView) -> NvmErrorView {
    NvmErrorView::InBlock {
        block_name: input.name@,
        layout_file: input.file@,
        source: Box::new(error),
    }
}

/// What the build of the block that `input` names gives: the text of its
/// records and its statistics, or the error that stops it, with the names of
/// the block and of the layout file. The layout must have the block, the
/// block must build and assemble, and its range must be written out.
pub open spec fn single_result(
    input: BlockNames,
    layout: Config,
    data_sheet: Option<DataSheet>,
    strict: bool,
    record_width: usize,
    format: OutputFormat,
) -> Result<(Seq<char>, (Seq<char>, u32, u32, u32, u32)), NvmErrorView> {
    match layout.block_at(input.name@) {
        None => Err(
            in_block_of(input, NvmErrorView::Layout(LayoutErrorView::BlockNotFound(input.name@))),
        ),
        Some(block) => match block_range(block, data_sheet, layout.settings, strict) {
            Err(e) => Err(in_block_of(input, e)),
            Ok(range) => match emitted(seq![range], record_width, format) {
                Err(o) => Err(in_block_of(input, NvmErrorView::Output(o))),
                Ok(text) => Ok((text, stat_of(input.name@, range, layout.settings))),
            },
        },
    }
}

/// Whether the build of the block that `input` names is bound to succeed:
/// the layout has the block, the block builds, assembles and ends inside the
/// 32-bit space, and the record width is one of `1..=128`.
pub open spec fn single_build_is_owed(
    input: BlockNames,
    layout: Config,
    data_sheet: Option<DataSheet>,
    strict: bool,
    record_width: usize,
) -> bool {
    &&& 1 <= record_width <= 128
    &&& layout.block_at(input.name@) matches Some(block) && block_range(
        block,
        data_sheet,
        layout.settings,
        strict,
    ) matches Ok(range) && range.start_address + range.allocated_size <= u32::MAX
}

/// Builds one block of a layout and gives the text of its output file and
/// its statistics. An error names the block and the layout file.
pub fn build_block_single(
    input: &BlockNames,
    layout: &Config,
    data_sheet: Option<&DataSheet>,
    strict: bool,
    record_width: usize,
    format: OutputFormat,
) -> (r: Result<(String, BlockStat), NvmError>)
    ensures
        match r {
            Ok((text, stat)) => single_result(
                *input,
                *layout,
                sheet_value(data_sheet),
                strict,
                record_width,
                format,
            ) == Ok::<(Seq<char>, (Seq<char>, u32, u32, u32, u32)), NvmErrorView>(
                (text@, stat_view(stat)),
            ),
            Err(e) => single_result(
                *input,
                *layout,
                sheet_value(data_sheet),
                strict,
                record_width,
                format,
            ) == Err::<(Seq<char>, (Seq<char>, u32, u32, u32, u32)), NvmErrorView>(e@),
        },
        single_build_is_owed(*input, *layout, sheet_value(data_sheet), strict, record_width)
            ==> r is Ok,
{
    let block = match layout.block(input.name.as_str()) {
        Err(e) => {
            return Err(NvmError::in_block(&input.name, &input.file, NvmError::Layout(e)));
        },
        Ok(block) => block,
    };
    let data_range = match build_range(block, data_sheet, &layout.settings, strict) {
        Err(e) => {
            return Err(NvmError::in_block(&input.name, &input.file, e));
        },
        Ok(range) => range,
    };
    proof {
        lemma_block_range_shape(*block, sheet_value(data_sheet), layout.settings, strict);
    }
    let crc_value = crc_value_of(&data_range.crc_bytestream, &layout.settings);
    let stat = BlockStat {
        name: input.name.clone(),
        start_address: data_range.start_address,
        allocated_size: data_range.allocated_size,
        used_size: data_range.used_size,
        crc_value,
    };
    let mut ranges: Vec<DataRange> = Vec::new();
    ranges.push(data_range);
    assert(ranges_view(ranges@) =~= seq![ranges@[0]@]);
    proof {
        let views = ranges_view(ranges@);
        if views[0].start_address + views[0].allocated_size <= u32::MAX {
            assert(kept_inside(views[0]));
            lemma_ranges_apart_are_stored(views, 1);
            lemma_end_inside_space(views, 1);
        }
    }
    match emit_hex(ranges.as_slice(), record_width, format) {
        Err(e) => Err(NvmError::in_block(&input.name, &input.file, NvmError::Output(e))),
        Ok(text) => Ok((text, stat)),
    }
}

/// The range of a block starts at the biased start address of its header,
/// is allocated the length of its header, and has a CRC of four bytes; its
/// payload and its CRC lie inside the memory that it is allocated.
pub proof fn lemma_block_range_shape(
    block: Block,
    data_sheet: Option<DataSheet>,
    settings: Settings,
    strict: bool,
)
    ensures
        block_range(block, data_sheet, settings, strict) matches Ok(range) ==> {
            &&& range.crc_bytestream.len() == 4
            &&& range.allocated_size == block.header.length
            &&& range.start_address == block.header.start_address + settings.virtual_offset
            &&& range.bytestream.len() <= range.allocated_size
            &&& range.start_address <= range.crc_address
            &&& range.crc_address + 4 <= range.start_address + range.allocated_size
        },
{
    match block.bytestream(data_sheet, settings, strict) {
        Ok((bytes, padding)) => {
            crate::output::lemma_assembled_shape(
                bytes,
                block.header@,
                settings,
                settings.byte_swap,
                settings.pad_to_end,
                padding,
            );
        },
        Err(_) => {},
    }
}

/// A block that builds, and that ends where the store can still count, is
/// written out: a single block meets no bytes of another, so the store takes
/// it, and the outcome is that of the records.
pub proof fn lemma_single_block_is_written(
    block: Block,
    data_sheet: Option<DataSheet>,
    settings: Settings,
    strict: bool,
    record_width: usize,
    format: OutputFormat,
)
    requires
        1 <= record_width <= 128,
        block_range(block, data_sheet, settings, strict) matches Ok(range) && range.start_address
            + range.allocated_size <= store_limit(),
    ensures
        ({
            let ranges = seq![block_range(block, data_sheet, settings, strict)->Ok_0];
            emitted(ranges, record_width, format) == output_text(
                record_lines(ranges, record_width as int, format),
                format,
            )
        }),
{
    lemma_block_range_shape(block, data_sheet, settings, strict);
    let ranges = seq![block_range(block, data_sheet, settings, strict)->Ok_0];
    assert(kept_inside(ranges[0]));
    lemma_ranges_apart_are_stored(ranges, 1);
}

/// Byte `k` of a number by the power of two that stands before it.
proof fn lemma_byte_at(pattern: nat, k: nat, weight: nat)
    requires
        weight == pow2(8 * k),
    ensures
        byte_at(pattern, k) == (pattern / weight) % 256,
{
}

/// The four bytes of a number, read back in the same byte order, give the
/// number.
pub proof fn lemma_number_reads_back(value: u32, endianness: Endianness)
    ensures
        number_of_bytes(endian_bytes(value as nat, 4, endianness), endianness) == value,
{
    lemma2_to64();
    let v = value as nat;
    assert(pow2(0) == 1 && pow2(8) == 0x100 && pow2(16) == 0x1_0000 && pow2(24) == 0x100_0000);
    lemma_byte_at(v, 0, 1);
    lemma_byte_at(v, 1, 0x100);
    lemma_byte_at(v, 2, 0x1_0000);
    lemma_byte_at(v, 3, 0x100_0000);
    assert(v % 256 + ((v / 0x100) % 256) * 0x100 + ((v / 0x1_0000) % 256) * 0x1_0000 + ((v
        / 0x100_0000) % 256) * 0x100_0000 == v);
}

/// The statistics of a block report its CRC value, whether or not the
/// bytes of the block are swapped in pairs.
pub proof fn lemma_statistics_report_the_checksum(
    name: Seq<char>,
    block: Block,
    data_sheet: Option<DataSheet>,
    settings: Settings,
    strict: bool,
)
    requires
        block_range(block, data_sheet, settings, strict) is Ok,
    ensures
        stat_of(name, block_range(block, data_sheet, settings, strict)->Ok_0, settings).4
            == checksum(
            block.bytestream(data_sheet, settings, strict)->Ok_0.0,
            block.header@,
            settings,
            settings.byte_swap,
        ),
{
    let (bytes, padding) = block.bytestream(data_sheet, settings, strict)->Ok_0;
    let value = checksum(bytes, block.header@, settings, settings.byte_swap);
    let written = endian_bytes(value as nat, 4, settings.endianness);
    lemma_assembled_crc_bytes(
        bytes,
        block.header@,
        settings,
        settings.byte_swap,
        settings.pad_to_end,
        padding,
    );
    lemma_swap_pairs_twice(written);
    lemma_number_reads_back(value, settings.endianness);
}

/// Two blocks of the same content give the same range, and with it the
/// same text or the same error: what is emitted depends on the header and on
/// the tree of fields alone, not on how they were written down.
pub proof fn lemma_same_content_same_output(
    one: Block,
    other: Block,
    data_sheet: Option<DataSheet>,
    settings: Settings,
    strict: bool,
    record_width: usize,
    format: OutputFormat,
)
    requires
        one.header@ == other.header@,
        one.data@ == other.data@,
    ensures
        block_range(one, data_sheet, settings, strict) == block_range(
            other,
            data_sheet,
            settings,
            strict,
        ),
        block_range(one, data_sheet, settings, strict) matches Ok(range) ==> emitted(
            seq![range],
            record_width,
            format,
        ) == emitted(
            seq![block_range(other, data_sheet, settings, strict)->Ok_0],
            record_width,
            format,
        ),
{
    crate::layout::block::lemma_same_content_same_bytes(one, other, data_sheet, settings, strict);
}

/// Whether two layouts have the same settings and, under `name`, blocks of
/// the same content, or both none.
pub open spec fn same_content(one: Config, other: Config, name: Seq<char>) -> bool {
    &&& one.settings == other.settings
    &&& match (one.block_at(name), other.block_at(name)) {
        (Some(a), Some(b)) => a.header@ == b.header@ && a.data@ == b.data@,
        (None, None) => true,
        _ => false,
    }
}

/// Two layouts of the same content give the same build of a block: both
/// succeed with the same text and the same statistics, or both fail with
/// the same error, however the layouts were written down.
pub proof fn lemma_same_content_same_build(
    input: BlockNames,
    one: Config,
    other: Config,
    data_sheet: Option<DataSheet>,
    strict: bool,
    record_width: usize,
    format: OutputFormat,
)
    requires
        same_content(one, other, input.name@),
    ensures
        single_result(input, one, data_sheet, strict, record_width, format) == single_result(
            input,
            other,
            data_sheet,
            strict,
            record_width,
            format,
        ),
{
    match (one.block_at(input.name@), other.block_at(input.name@)) {
        (Some(a), Some(b)) => {
            lemma_same_content_same_output(
                a,
                b,
                data_sheet,
                one.settings,
                strict,
                record_width,
                format,
            );
        },
        _ => {},
    }
}

} // verus!
