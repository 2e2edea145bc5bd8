pub mod generate;
pub mod stats;

use crate::error::{NvmError, NvmErrorView};
use crate::layout::args::BlockNames;
use crate::layout::block::Config;
use crate::layout::errors::{LayoutError, LayoutErrorView};
use crate::layout::settings::Settings;
use crate::layout::text::{decimal, push_decimal};
use crate::output::args::OutputFormat;
use crate::output::errors::{OutputError, OutputErrorView};
use crate::output::{
    emit_hex,
    emitted,
    fill_error,
    hex_error,
    kept_inside,
    lemma_end_inside_space,
    lemma_ranges_apart_are_stored,
    max_end,
    ranges_apart,
    ranges_view,
    DataRange,
};
use crate::variant::DataSheet;
use crate::visuals::formatters::{hex_digits, push_hex};
use crate::layout::entry::sheet_value;
use crate::output::DataRangeView;
use generate::{
    block_range,
    build_range,
    crc_value_of,
    in_block_of,
    lemma_block_range_shape,
    stat_of,
    stat_view,
};
use stats::{duration_nanos, BlockStat, BuildStats};
use vstd::prelude::*;
use vstd::string::StringExecFns;

verus! {

/// The memory that a block claims: from `start` up to, not including, `end`.
#[derive(Debug, Clone)]
pub struct BlockSpan {
    pub name: String,
    pub start: u32,
    pub end: u32,
}

/// The mathematical content of a [`BlockSpan`].
pub struct SpanView {
    pub name: Seq<char>,
    pub start: u32,
    pub end: u32,
}

impl View for BlockSpan {
    type V = SpanView;

    open spec fn view(&self) -> SpanView {
        SpanView { name: self.name@, start: self.start, end: self.end }
    }
}

/// The contents of a list of spans.
pub open spec fn spans_view(spans: Seq<BlockSpan>) -> Seq<SpanView> {
    Seq::new(spans.len(), |i: int| spans[i]@)
}

/// Whether two spans share an address.
pub open spec fn spans_overlap(a: SpanView, b: SpanView) -> bool {
    let first = if a.start > b.start {
        a.start
    } else {
        b.start
    };
    let last = if a.end < b.end {
        a.end
    } else {
        b.end
    };
    first < last
}

/// Whether no two of the spans share an address.
pub open spec fn disjoint(spans: Seq<SpanView>) -> bool {
    forall|i: int, j: int| 0 <= i < j < spans.len() ==> !spans_overlap(spans[i], spans[j])
}

/// Whether the pair `(i, j)` is the first pair of overlapping spans, going
/// through the spans in order and holding each against those after it.
pub open spec fn first_overlap(spans: Seq<SpanView>, i: int, j: int) -> bool {
    &&& 0 <= i < j < spans.len()
    &&& spans_overlap(spans[i], spans[j])
    &&& forall|k: int, l: int|
        0 <= k < l < spans.len() && (k < i || (k == i && l < j)) ==> !spans_overlap(
            spans[k],
            spans[l],
        )
}

/// An address as the overlap message shows it.
pub open spec fn shown(address: int) -> Seq<char> {
    "0x"@ + hex_digits(address as nat, 8)
}

/// The message for two spans that overlap.
pub open spec fn overlap_message(a: SpanView, b: SpanView) -> Seq<char> {
    let first = if a.start > b.start {
        a.start
    } else {
        b.start
    };
    let last = if a.end < b.end {
        a.end
    } else {
        b.end
    };
    "Block '"@ + a.name + "' ("@ + shown(a.start as int) + "-"@ + shown(a.end - 1)
        + ") overlaps with block '"@ + b.name + "' ("@ + shown(b.start as int) + "-"@ + shown(
        b.end - 1,
    ) + "). Overlap: "@ + shown(first as int) + "-"@ + shown(last - 1) + " ("@ + decimal(
        (last - first) as nat,
    ) + " bytes)"@
}

fn push_address(out: &mut String, address: u32)
    ensures
        final(out)@ == old(out)@ + shown(address as int),
{
    out.append("0x");
    push_hex(out, address, 8);
    assert(final(out)@ =~= old(out)@ + shown(address as int));
}

/// The message for two spans that overlap.
fn overlap_text(a: &BlockSpan, b: &BlockSpan) -> (text: String)
    requires
        spans_overlap(a@, b@),
    ensures
        text@ == overlap_message(a@, b@),
{
    let first = if a.start > b.start {
        a.start
    } else {
        b.start
    };
    let last = if a.end < b.end {
        a.end
    } else {
        b.end
    };
    let mut text = String::from_str("Block '");
    text.append(a.name.as_str());
    text.append("' (");
    push_address(&mut text, a.start);
    text.append("-");
    push_address(&mut text, a.end - 1);
    text.append(") overlaps with block '");
    text.append(b.name.as_str());
    text.append("' (");
    push_address(&mut text, b.start);
    text.append("-");
    push_address(&mut text, b.end - 1);
    text.append("). Overlap: ");
    push_address(&mut text, first);
    text.append("-");
    push_address(&mut text, last - 1);
    text.append(" (");
    push_decimal(&mut text, (last - first) as u64);
    text.append(" bytes)");
    text
}

/// Whether `e` is the error for the first two spans that overlap.
pub open spec fn overlap_refusal(e: OutputErrorView, spans: Seq<SpanView>) -> bool {
    exists|i: int, j: int| #[trigger]
        first_overlap(spans, i, j) && e == OutputErrorView::BlockOverlapError(
            overlap_message(spans[i], spans[j]),
        )
}

/// Checks that no two blocks claim the same memory. The error names the
/// first two that do, with the addresses they share.
pub fn check_overlaps(spans: &Vec<BlockSpan>) -> (r: Result<(), OutputError>)
    ensures
        match r {
            Ok(()) => disjoint(spans_view(spans@)),
            Err(e) => !disjoint(spans_view(spans@)) && overlap_refusal(e@, spans_view(spans@)),
        },
{
    let ghost views = spans_view(spans@);
    let n = spans.len();
    let mut i: usize = 0;
    while i < n
        invariant
            i <= n,
            n == spans@.len(),
            views == spans_view(spans@),
            forall|k: int, l: int| 0 <= k < l < n && k < i ==> !spans_overlap(views[k], views[l]),
        decreases n - i,
    {
        let mut j: usize = i + 1;
        while j < n
            invariant
                i < j <= n,
                n == spans@.len(),
                views == spans_view(spans@),
                forall|k: int, l: int|
                    0 <= k < l < n && k < i ==> !spans_overlap(views[k], views[l]),
                forall|l: int| i < l < j ==> !spans_overlap(views[i as int], views[l]),
            decreases n - j,
        {
            let a = &spans[i];
            let b = &spans[j];
            proof {
                assert(views[i as int] == a@ && views[j as int] == b@);
            }
            let overlap_start = if a.start > b.start {
                a.start
            } else {
                b.start
            };
            let overlap_end = if a.end < b.end {
                a.end
            } else {
                b.end
            };
            if overlap_start < overlap_end {
                let text = overlap_text(a, b);
                assert(first_overlap(views, i as int, j as int));
                return Err(OutputError::BlockOverlapError(text));
            }
            j = j + 1;
        }
        i = i + 1;
    }
    Ok(())
}

/// Whether two layouts may go into one combined output: they agree on byte
/// order, byte swap, padding to the end and the CRC.
pub open spec fn settings_agree(a: Settings, b: Settings) -> bool {
    &&& a.endianness == b.endianness
    &&& a.byte_swap == b.byte_swap
    &&& a.pad_to_end == b.pad_to_end
    &&& a.crc == b.crc
}

/// Whether all layouts agree with the first in their settings.
pub open spec fn settings_shared(layouts: Seq<Config>) -> bool {
    forall|i: int|
        0 <= i < layouts.len() ==> settings_agree(
            layouts[0].settings,
            (#[trigger] layouts[i]).settings,
        )
}

pub open spec fn settings_message() -> Seq<char> {
    "Blocks of a combined output must share their settings"@
}

/// Whether two settings agree.
fn same_settings(first: &Settings, other: &Settings) -> (same: bool)
    ensures
        same == settings_agree(*first, *other),
{
    first.endianness == other.endianness && first.byte_swap == other.byte_swap && first.pad_to_end
        == other.pad_to_end && first.crc == other.crc
}

fn settings_error() -> (e: OutputError)
    ensures
        e@ == hex_error(settings_message()),
{
    OutputError::HexOutputError(
        String::from_str("Blocks of a combined output must share their settings"),
    )
}

/// Checks that all layouts of a combined output agree in their settings.
pub fn check_shared_settings(layouts: &Vec<Config>) -> (r: Result<(), OutputError>)
    ensures
        match r {
            Ok(()) => settings_shared(layouts@),
            Err(e) => !settings_shared(layouts@) && e@ == hex_error(settings_message()),
        },
{
    let mut i: usize = 1;
    while i < layouts.len()
        invariant
            1 <= i,
            forall|k: int|
                0 <= k < i && k < layouts@.len() ==> settings_agree(
                    layouts@[0].settings,
                    (#[trigger] layouts@[k]).settings,
                ),
        decreases layouts.len() - i,
    {
        if !same_settings(&layouts[0].settings, &layouts[i].settings) {
            assert(!settings_agree(layouts@[0].settings, layouts@[i as int].settings));
            return Err(settings_error());
        }
        i = i + 1;
    }
    Ok(())
}

/// The layouts of a list of blocks.
pub open spec fn layouts_of(blocks: Seq<(BlockNames, Config)>) -> Seq<Config> {
    Seq::new(blocks.len(), |i: int| blocks[i].1)
}

/// Checks that the layouts of all blocks agree in their settings.
fn check_block_settings(blocks: &Vec<(BlockNames, Config)>) -> (r: Result<(), OutputError>)
    ensures
        match r {
            Ok(()) => settings_shared(layouts_of(blocks@)),
            Err(e) => !settings_shared(layouts_of(blocks@)) && e@ == hex_error(settings_message()),
        },
{
    let ghost layouts = layouts_of(blocks@);
    let mut i: usize = 1;
    while i < blocks.len()
        invariant
            1 <= i,
            layouts == layouts_of(blocks@),
            forall|k: int|
                0 <= k < i && k < layouts.len() ==> settings_agree(
                    layouts[0].settings,
                    (#[trigger] layouts[k]).settings,
                ),
        decreases blocks.len() - i,
    {
        if !same_settings(&blocks[0].1.settings, &blocks[i].1.settings) {
            assert(layouts[0] == blocks@[0].1 && layouts[i as int] == blocks@[i as int].1);
            assert(!settings_agree(layouts[0].settings, layouts[i as int].settings));
            return Err(settings_error());
        }
        i = i + 1;
    }
    Ok(())
}

/// A block as the combined build has it: its range, what the statistics
/// keep of it, and the memory it claims.
pub struct Built {
    pub range: DataRangeView,
    pub stat: (Seq<char>, u32, u32, u32, u32),
    pub span: SpanView,
}

pub open spec fn span_message() -> Seq<char> {
    "start + length overflow"@
}

pub open spec fn statistics_message() -> Seq<char> {
    "Block sizes exceed what the statistics can count"@
}

/// What the combined build makes of the block that `input` names: the
/// layout must have the block, the block must build and assemble, and it
/// must end at or before the last address.
pub open spec fn combined_block(
    input: BlockNames,
    layout: Config,
    data_sheet: Option<DataSheet>,
    strict: bool,
) -> Result<Built, NvmErrorView> {
    match layout.block_at(input.name@) {
        None => Err(
            in_block_of(input, NvmErrorView::Layout(LayoutErrorView::BlockNotFound(input.name@))),
        ),
        Some(block) => match block_range(block, data_sheet, layout.settings, strict) {
            Err(e) => Err(in_block_of(input, e)),
            Ok(range) => if range.start_address + range.allocated_size > u32::MAX {
                Err(
                    in_block_of(
                        input,
                        NvmErrorView::Layout(
                            LayoutErrorView::InvalidBlockArgument(span_message()),
                        ),
                    ),
                )
            } else {
                Ok(
                    Built {
                        range,
                        stat: stat_of(input.name@, range, layout.settings),
                        span: SpanView {
                            name: input.name@,
                            start: range.start_address,
                            end: (range.start_address + range.allocated_size) as u32,
                        },
                    },
                )
            },
        },
    }
}

/// The sum of the allocated sizes of the first `upto` blocks.
pub open spec fn allocated_total(items: Seq<Built>, upto: int) -> nat
    decreases upto,
{
    if upto <= 0 || upto > items.len() {
        0
    } else {
        allocated_total(items, upto - 1) + items[upto - 1].stat.2 as nat
    }
}

/// The sum of the used sizes of the first `upto` blocks.
pub open spec fn used_total(items: Seq<Built>, upto: int) -> nat
    decreases upto,
{
    if upto <= 0 || upto > items.len() {
        0
    } else {
        used_total(items, upto - 1) + items[upto - 1].stat.3 as nat
    }
}

/// Whether the statistics cannot count `item` on top of `items`.
pub open spec fn uncountable(items: Seq<Built>, item: Built) -> bool {
    ||| items.len() >= usize::MAX
    ||| allocated_total(items, items.len() as int) + item.stat.2 > usize::MAX
    ||| used_total(items, items.len() as int) + item.stat.3 > usize::MAX
}

/// The first `upto` blocks as the combined build has them, or the first
/// error: that of a block that cannot be built, or that of the statistics,
/// which cannot count a block.
pub open spec fn combined_blocks(
    blocks: Seq<(BlockNames, Config)>,
    data_sheet: Option<DataSheet>,
    strict: bool,
    upto: int,
) -> Result<Seq<Built>, NvmErrorView>
    decreases upto,
{
    if upto <= 0 || upto > blocks.len() {
        Ok(Seq::empty())
    } else {
        match combined_blocks(blocks, data_sheet, strict, upto - 1) {
            Err(e) => Err(e),
            Ok(items) => match combined_block(
                blocks[upto - 1].0,
                blocks[upto - 1].1,
                data_sheet,
                strict,
            ) {
                Err(e) => Err(e),
                Ok(item) => if uncountable(items, item) {
                    Err(NvmErrorView::Output(hex_error(statistics_message())))
                } else {
                    Ok(items.push(item))
                },
            },
        }
    }
}

/// The ranges of the blocks.
pub open spec fn ranges_of(items: Seq<Built>) -> Seq<DataRangeView> {
    Seq::new(items.len(), |i: int| items[i].range)
}

/// The spans of the blocks.
pub open spec fn spans_of(items: Seq<Built>) -> Seq<SpanView> {
    Seq::new(items.len(), |i: int| items[i].span)
}

/// What the statistics keep of the blocks.
pub open spec fn stats_of(items: Seq<Built>) -> Seq<(Seq<char>, u32, u32, u32, u32)> {
    Seq::new(items.len(), |i: int| items[i].stat)
}

/// The statistics of a list of blocks, field by field.
pub open spec fn stats_view(stats: Seq<BlockStat>) -> Seq<(Seq<char>, u32, u32, u32, u32)> {
    Seq::new(stats.len(), |i: int| stat_view(stats[i]))
}

/// Whether `r` is what the combined build of the blocks gives. The layouts
/// must agree in their settings; every block must build and be counted; no
/// two blocks may claim the same memory; and the ranges must be written out.
/// The first of these that fails gives the error, and where none fails the
/// build gives the text and the statistics of every block in order.
pub open spec fn is_combined_result(
    r: Result<(Seq<char>, Seq<(Seq<char>, u32, u32, u32, u32)>), NvmErrorView>,
    blocks: Seq<(BlockNames, Config)>,
    data_sheet: Option<DataSheet>,
    strict: bool,
    record_width: usize,
    format: OutputFormat,
) -> bool {
    if !settings_shared(layouts_of(blocks)) {
        r == Err::<(Seq<char>, Seq<(Seq<char>, u32, u32, u32, u32)>), NvmErrorView>(
            NvmErrorView::Output(hex_error(settings_message())),
        )
    } else {
        match combined_blocks(blocks, data_sheet, strict, blocks.len() as int) {
            Err(e) => r == Err::<(Seq<char>, Seq<(Seq<char>, u32, u32, u32, u32)>), NvmErrorView>(
                e,
            ),
            Ok(items) => if !disjoint(spans_of(items)) {
                r matches Err(NvmErrorView::Output(e)) && overlap_refusal(e, spans_of(items))
            } else {
                match emitted(ranges_of(items), record_width, format) {
                    Err(e) => r == Err::<
                        (Seq<char>, Seq<(Seq<char>, u32, u32, u32, u32)>),
                        NvmErrorView,
                    >(NvmErrorView::Output(e)),
                    Ok(text) => r == Ok::<
                        (Seq<char>, Seq<(Seq<char>, u32, u32, u32, u32)>),
                        NvmErrorView,
                    >((text, stats_of(items))),
                }
            },
        }
    }
}

/// The outcome of a combined build with its texts as sequences.
pub open spec fn combined_view(r: Result<(String, BuildStats), NvmError>) -> Result<
    (Seq<char>, Seq<(Seq<char>, u32, u32, u32, u32)>),
    NvmErrorView,
> {
    match r {
        Ok((text, stats)) => Ok((text@, stats_view(stats.block_stats@))),
        Err(e) => Err(e@),
    }
}

/// Builds the block that `input` names in `layout`, and accounts for it.
pub fn build_combined_block(
    input: &BlockNames,
    layout: &Config,
    data_sheet: Option<&DataSheet>,
    strict: bool,
) -> (r: Result<(DataRange, BlockStat, BlockSpan), NvmError>)
    ensures
        match r {
            Ok((range, stat, span)) => combined_block(
                *input,
                *layout,
                sheet_value(data_sheet),
                strict,
            ) == Ok::<Built, NvmErrorView>(
                (Built { range: range@, stat: stat_view(stat), span: span@ }),
            ),
            Err(e) => combined_block(*input, *layout, sheet_value(data_sheet), strict) == Err::<
                Built,
                NvmErrorView,
            >(e@),
        },
{
    let block = match layout.block(input.name.as_str()) {
        Err(e) => {
            return Err(NvmError::in_block(&input.name, &input.file, NvmError::Layout(e)));
        },
        Ok(block) => block,
    };
    let range = match build_range(block, data_sheet, &layout.settings, strict) {
        Err(e) => {
            return Err(NvmError::in_block(&input.name, &input.file, e));
        },
        Ok(range) => range,
    };
    proof {
        lemma_block_range_shape(*block, sheet_value(data_sheet), layout.settings, strict);
    }
    let crc_value = crc_value_of(&range.crc_bytestream, &layout.settings);
    let stat = BlockStat {
        name: input.name.clone(),
        start_address: range.start_address,
        allocated_size: range.allocated_size,
        used_size: range.used_size,
        crc_value,
    };
    let start = range.start_address;
    if block.header.length > u32::MAX - start {
        return Err(
            NvmError::in_block(
                &input.name,
                &input.file,
                NvmError::Layout(
                    LayoutError::InvalidBlockArgument(String::from_str("start + length overflow")),
                ),
            ),
        );
    }
    let span = BlockSpan { name: input.name.clone(), start, end: start + block.header.length };
    Ok((range, stat, span))
}

/// The totals over the blocks are the totals that the statistics keep.
proof fn lemma_totals(items: Seq<Built>, stats: Seq<BlockStat>, upto: int)
    requires
        0 <= upto <= items.len(),
        items.len() == stats.len(),
        forall|k: int| 0 <= k < items.len() ==> (#[trigger] items[k]).stat == stat_view(stats[k]),
    ensures
        allocated_total(items, upto) == stats::allocated_sum(stats, upto),
        used_total(items, upto) == stats::used_sum(stats, upto),
    decreases upto,
{
    if upto > 0 {
        lemma_totals(items, stats, upto - 1);
        assert(items[upto - 1].stat == stat_view(stats[upto - 1]));
    }
}

/// The blocks of a combined build are what `combined_block` makes of the
/// inputs, one by one.
proof fn lemma_combined_items(
    blocks: Seq<(BlockNames, Config)>,
    data_sheet: Option<DataSheet>,
    strict: bool,
    upto: int,
)
    requires
        0 <= upto <= blocks.len(),
        combined_blocks(blocks, data_sheet, strict, upto) is Ok,
    ensures
        ({
            let items = combined_blocks(blocks, data_sheet, strict, upto)->Ok_0;
            &&& items.len() == upto
            &&& forall|k: int|
                0 <= k < upto ==> combined_block(blocks[k].0, blocks[k].1, data_sheet, strict) == Ok::<
                    Built,
                    NvmErrorView,
                >(#[trigger] items[k])
        }),
    decreases upto,
{
    if upto > 0 {
        lemma_combined_items(blocks, data_sheet, strict, upto - 1);
    }
}

/// Blocks that build and share no address all get into the store, whether
/// or not two of them touch, and none of them ends outside the 32-bit space.
pub proof fn lemma_blocks_apart_are_stored(
    blocks: Seq<(BlockNames, Config)>,
    data_sheet: Option<DataSheet>,
    strict: bool,
)
    requires
        combined_blocks(blocks, data_sheet, strict, blocks.len() as int) matches Ok(items)
            && disjoint(spans_of(items)),
    ensures
        ({
            let items = combined_blocks(
                blocks,
                data_sheet,
                strict,
                blocks.len() as int,
            )->Ok_0;
            &&& fill_error(ranges_of(items), items.len() as int) is None
            &&& max_end(ranges_of(items), items.len() as int) <= u32::MAX
        }),
{
    let items = combined_blocks(blocks, data_sheet, strict, blocks.len() as int)->Ok_0;
    let ranges = ranges_of(items);
    let spans = spans_of(items);
    lemma_combined_items(blocks, data_sheet, strict, blocks.len() as int);
    assert forall|k: int| 0 <= k < ranges.len() implies kept_inside(#[trigger] ranges[k]) && spans[k]
        == (SpanView {
        name: blocks[k].0.name@,
        start: ranges[k].start_address,
        end: (ranges[k].start_address + ranges[k].allocated_size) as u32,
    }) && ranges[k].start_address + ranges[k].allocated_size <= u32::MAX
        && ranges[k].allocated_size >= 4 by {
        assert(combined_block(blocks[k].0, blocks[k].1, data_sheet, strict) == Ok::<
            Built,
            NvmErrorView,
        >(items[k]));
        let block = blocks[k].1.block_at(blocks[k].0.name@)->Some_0;
        lemma_block_range_shape(block, data_sheet, blocks[k].1.settings, strict);
    }
    assert(ranges_apart(ranges)) by {
        assert forall|i: int, j: int| 0 <= i < j < ranges.len() implies (#[trigger] ranges[i]).start_address
            + ranges[i].allocated_size <= (#[trigger] ranges[j]).start_address
            || ranges[j].start_address + ranges[j].allocated_size <= ranges[i].start_address by {
            assert(kept_inside(ranges[i]) && kept_inside(ranges[j]));
            assert(!spans_overlap(spans[i], spans[j]));
        }
    }
    lemma_ranges_apart_are_stored(ranges, ranges.len() as int);
    lemma_end_inside_space(ranges, ranges.len() as int);
}

/// Whether the combined build of the blocks is bound to succeed: the
/// layouts agree in their settings, every block builds and is counted, no
/// two blocks share an address, and the record width is one of `1..=128`.
pub open spec fn combined_build_is_owed(
    blocks: Seq<(BlockNames, Config)>,
    data_sheet: Option<DataSheet>,
    strict: bool,
    record_width: usize,
) -> bool {
    &&& settings_shared(layouts_of(blocks))
    &&& 1 <= record_width <= 128
    &&& combined_blocks(blocks, data_sheet, strict, blocks.len() as int) matches Ok(items)
        && disjoint(spans_of(items))
}

/// Builds the blocks, each named in its own layout, and writes
/// them out as one text. The layouts agree in their settings, no two blocks
/// claim the same memory, and the statistics count every block; the time
/// that the build took is for the caller to measure, and stays at zero.
#[verifier::loop_isolation(false)]
pub fn build_single_file(
    blocks: &Vec<(BlockNames, Config)>,
    data_sheet: Option<&DataSheet>,
    strict: bool,
    record_width: usize,
    format: OutputFormat,
) -> (r: Result<(String, BuildStats), NvmError>)
    ensures
        is_combined_result(
            combined_view(r),
            blocks@,
            sheet_value(data_sheet),
            strict,
            record_width,
            format,
        ),
        r matches Ok(done) ==> done.1.consistent() && duration_nanos(done.1.total_duration) == 0,
        combined_build_is_owed(blocks@, sheet_value(data_sheet), strict, record_width) ==> r is Ok,
{
    match check_block_settings(blocks) {
        Err(e) => {
            return Err(NvmError::Output(e));
        },
        Ok(()) => {},
    }
    let mut ranges: Vec<DataRange> = Vec::new();
    let mut spans: Vec<BlockSpan> = Vec::new();
    let mut stats = BuildStats::new();
    let ghost mut items: Seq<Built> = Seq::empty();
    let mut i: usize = 0;
    while i < blocks.len()
        invariant
            i <= blocks@.len(),
            ranges@.len() == i,
            spans@.len() == i,
            stats.block_stats@.len() == i,
            items.len() == i,
            stats.consistent(),
            duration_nanos(stats.total_duration) == 0,
            combined_blocks(blocks@, sheet_value(data_sheet), strict, i as int) == Ok::<
                Seq<Built>,
                NvmErrorView,
            >(items),
            forall|k: int|
                0 <= k < i ==> (#[trigger] items[k]) == (Built {
                    range: ranges@[k]@,
                    stat: stat_view(stats.block_stats@[k]),
                    span: spans@[k]@,
                }),
        decreases blocks@.len() - i,
    {
        let (range, stat, span) = match build_combined_block(
            &blocks[i].0,
            &blocks[i].1,
            data_sheet,
            strict,
        ) {
            Err(e) => {
                proof {
                    lemma_combined_blocks_error(
                        blocks@,
                        sheet_value(data_sheet),
                        strict,
                        i + 1,
                        blocks@.len() as int,
                    );
                }
                return Err(e);
            },
            Ok(built) => built,
        };
        let ghost item = Built { range: range@, stat: stat_view(stat), span: span@ };
        proof {
            lemma_totals(items, stats.block_stats@, i as int);
        }
        if stats.blocks_processed == usize::MAX || stat.allocated_size as usize > usize::MAX
            - stats.total_allocated || stat.used_size as usize > usize::MAX - stats.total_used {
            proof {
                assert(uncountable(items, item));
                lemma_combined_blocks_error(
                    blocks@,
                    sheet_value(data_sheet),
                    strict,
                    i + 1,
                    blocks@.len() as int,
                );
            }
            return Err(
                NvmError::Output(
                    OutputError::HexOutputError(
                        String::from_str("Block sizes exceed what the statistics can count"),
                    ),
                ),
            );
        }
        stats.add_block(stat);
        ranges.push(range);
        spans.push(span);
        proof {
            items = items.push(item);
        }
        i = i + 1;
    }
    proof {
        assert(spans_of(items) =~= spans_view(spans@));
        assert(ranges_of(items) =~= ranges_view(ranges@));
        assert(stats_of(items) =~= stats_view(stats.block_stats@));
    }
    match check_overlaps(&spans) {
        Err(e) => {
            return Err(NvmError::Output(e));
        },
        Ok(()) => {},
    }
    proof {
        lemma_blocks_apart_are_stored(blocks@, sheet_value(data_sheet), strict);
    }
    match emit_hex(ranges.as_slice(), record_width, format) {
        Err(e) => Err(NvmError::Output(e)),
        Ok(text) => Ok((text, stats)),
    }
}

/// An error among the first blocks is the error of every longer run.
proof fn lemma_combined_blocks_error(
    blocks: Seq<(BlockNames, Config)>,
    data_sheet: Option<DataSheet>,
    strict: bool,
    bad: int,
    upto: int,
)
    requires
        0 <= bad <= upto <= blocks.len(),
        combined_blocks(blocks, data_sheet, strict, bad) is Err,
    ensures
        combined_blocks(blocks, data_sheet, strict, upto) == combined_blocks(
            blocks,
            data_sheet,
            strict,
            bad,
        ),
    decreases upto,
{
    if upto > bad {
        lemma_combined_blocks_error(blocks, data_sheet, strict, bad, upto - 1);
    }
}

} // verus!
