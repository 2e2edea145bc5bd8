//! A checksum over bytes that several blocks hold.

use super::checksum::{calculate_crc, crc_of};
use super::{byte_swap_inplace, ranges_view, stored, swap_pairs, DataRange, DataRangeView};
use crate::layout::conversions::{endian_bytes, pattern_bytes};
use crate::layout::settings::Settings;
use vstd::prelude::*;

verus! {

/// The addresses from `start` up to, not including, `end`.
#[derive(Debug, Clone, Copy, PartialEq, Eq, Structural)]
pub struct AddressRange {
    pub start: u32,
    pub end: u32,
}

/// Whether one of the spans holds `address`.
pub open spec fn in_spans(spans: Seq<AddressRange>, address: int) -> bool {
    exists|i: int| 0 <= i < spans.len() && (#[trigger] spans[i]).start <= address < spans[i].end
}

/// The bytes that `contents` holds at the addresses of the spans between
/// `from` and `to`, in ascending order of address.
pub open spec fn gathered(contents: Map<int, u8>, spans: Seq<AddressRange>, from: int, to: int) -> Seq<
    u8,
>
    decreases to - from,
{
    if from >= to {
        Seq::empty()
    } else if in_spans(spans, to - 1) && contents.dom().contains(to - 1) {
        gathered(contents, spans, from, to - 1).push(contents[to - 1])
    } else {
        gathered(contents, spans, from, to - 1)
    }
}

/// The range that carries the combined CRC: no payload, and at `destination`
/// the CRC of the bytes that the assembled blocks hold at the addresses of
/// the spans, taken in ascending order of address. Where blocks share an
/// address, the later block counts.
pub open spec fn combined_range(
    ranges: Seq<DataRangeView>,
    spans: Seq<AddressRange>,
    destination: u32,
    settings: Settings,
) -> DataRangeView {
    let bytes = gathered(stored(ranges, ranges.len() as int), spans, 0, 0x1_0000_0000);
    let crc_bytes = endian_bytes(crc_of(bytes, settings.crc) as nat, 4, settings.endianness);
    DataRangeView {
        start_address: destination,
        bytestream: Seq::empty(),
        crc_address: destination,
        crc_bytestream: if settings.byte_swap {
            swap_pairs(crc_bytes)
        } else {
            crc_bytes
        },
        used_size: 0,
        allocated_size: 0,
    }
}

/// Nothing is gathered where no span lies.
proof fn lemma_gathered_outside(
    contents: Map<int, u8>,
    spans: Seq<AddressRange>,
    from: int,
    to: int,
)
    requires
        forall|a: int| from <= a < to ==> !in_spans(spans, a),
    ensures
        gathered(contents, spans, from, to) == Seq::<u8>::empty(),
    decreases to - from,
{
    if from < to {
        lemma_gathered_outside(contents, spans, from, to - 1);
    }
}

/// What is gathered over two stretches of addresses is what is gathered
/// over the first, then the second.
proof fn lemma_gathered_split(
    contents: Map<int, u8>,
    spans: Seq<AddressRange>,
    from: int,
    mid: int,
    to: int,
)
    requires
        from <= mid <= to,
    ensures
        gathered(contents, spans, from, to) == gathered(contents, spans, from, mid) + gathered(
            contents,
            spans,
            mid,
            to,
        ),
    decreases to - mid,
{
    if mid < to {
        lemma_gathered_split(contents, spans, from, mid, to - 1);
        let head = gathered(contents, spans, from, mid);
        let tail = gathered(contents, spans, mid, to - 1);
        if in_spans(spans, to - 1) && contents.dom().contains(to - 1) {
            assert((head + tail).push(contents[to - 1]) =~= head + tail.push(contents[to - 1]));
        }
    } else {
        assert(gathered(contents, spans, from, mid) + Seq::<u8>::empty() =~= gathered(
            contents,
            spans,
            from,
            mid,
        ));
    }
}

/// The byte of one span of bytes at `address`, if the span holds it.
fn span_byte(data: &Vec<u8>, start: u32, address: u32) -> (r: Option<u8>)
    ensures
        match r {
            Some(byte) => start <= address < start + data@.len() && byte == data@[address - start],
            None => !(start <= address < start + data@.len()),
        },
{
    if address >= start && ((address - start) as u64) < data.len() as u64 {
        Some(data[(address - start) as usize])
    } else {
        None
    }
}

/// The byte that the ranges hold at `address`, if any does: that of the
/// last range that holds the address, and of its CRC before its payload.
pub fn byte_at(ranges: &[DataRange], address: u32) -> (r: Option<u8>)
    ensures
        match r {
            Some(byte) => stored(ranges_view(ranges@), ranges@.len() as int).dom().contains(
                address as int,
            ) && stored(ranges_view(ranges@), ranges@.len() as int)[address as int] == byte,
            None => !stored(ranges_view(ranges@), ranges@.len() as int).dom().contains(
                address as int,
            ),
        },
{
    let ghost views = ranges_view(ranges@);
    let ghost all = stored(views, ranges@.len() as int);
    let mut upto: usize = ranges.len();
    while upto > 0
        invariant
            upto <= ranges@.len(),
            views == ranges_view(ranges@),
            all == stored(views, ranges@.len() as int),
            all.dom().contains(address as int) == stored(views, upto as int).dom().contains(
                address as int,
            ),
            all.dom().contains(address as int) ==> all[address as int] == stored(
                views,
                upto as int,
            )[address as int],
        decreases upto,
    {
        let range = &ranges[upto - 1];
        proof {
            assert(views[upto - 1] == range@);
        }
        match span_byte(&range.crc_bytestream, range.crc_address, address) {
            Some(byte) => {
                return Some(byte);
            },
            None => {},
        }
        match span_byte(&range.bytestream, range.start_address, address) {
            Some(byte) => {
                return Some(byte);
            },
            None => {},
        }
        upto = upto - 1;
    }
    None
}

/// Whether one of the spans holds `address`.
fn address_in_spans(spans: &Vec<AddressRange>, address: u32) -> (r: bool)
    ensures
        r == in_spans(spans@, address as int),
{
    let mut i: usize = 0;
    while i < spans.len()
        invariant
            i <= spans@.len(),
            forall|k: int| 0 <= k < i ==> !((#[trigger] spans@[k]).start <= address < spans@[k].end),
        decreases spans@.len() - i,
    {
        if spans[i].start <= address && address < spans[i].end {
            return true;
        }
        i = i + 1;
    }
    false
}

/// Computes the CRC over the bytes that the assembled blocks hold at the
/// addresses of `spans`, and gives the range that carries it at
/// `destination`.
pub fn combined_crc(
    ranges: &[DataRange],
    spans: &Vec<AddressRange>,
    destination: u32,
    settings: &Settings,
) -> (range: DataRange)
    ensures
        range@ == combined_range(ranges_view(ranges@), spans@, destination, *settings),
{
    let ghost contents = stored(ranges_view(ranges@), ranges@.len() as int);
    // The stretch of addresses that the spans reach.
    let mut low: u64 = 0x1_0000_0000;
    let mut high: u64 = 0;
    let mut i: usize = 0;
    while i < spans.len()
        invariant
            i <= spans@.len(),
            low <= 0x1_0000_0000,
            high <= 0x1_0000_0000,
            forall|k: int|
                0 <= k < i && (#[trigger] spans@[k]).start < spans@[k].end ==> low
                    <= spans@[k].start && spans@[k].end <= high,
        decreases spans@.len() - i,
    {
        let span = spans[i];
        if span.start < span.end {
            if (span.start as u64) < low {
                low = span.start as u64;
            }
            if span.end as u64 > high {
                high = span.end as u64;
            }
        }
        i = i + 1;
    }
    if low > high {
        low = high;
    }
    let mut bytes: Vec<u8> = Vec::new();
    let mut address: u64 = low;
    proof {
        lemma_gathered_outside(contents, spans@, 0, low as int);
        assert(bytes@ =~= gathered(contents, spans@, 0, low as int));
    }
    while address < high
        invariant
            low <= address <= high <= 0x1_0000_0000,
            contents == stored(ranges_view(ranges@), ranges@.len() as int),
            bytes@ == gathered(contents, spans@, 0, address as int),
        decreases high - address,
    {
        if address_in_spans(spans, address as u32) {
            match byte_at(ranges, address as u32) {
                Some(byte) => {
                    bytes.push(byte);
                },
                None => {},
            }
        }
        address = address + 1;
    }
    proof {
        lemma_gathered_outside(contents, spans@, high as int, 0x1_0000_0000);
        lemma_gathered_split(contents, spans@, 0, high as int, 0x1_0000_0000);
        assert(bytes@ + Seq::<u8>::empty() =~= bytes@);
    }
    let crc = calculate_crc(bytes.as_slice(), &settings.crc);
    let mut crc_bytes = pattern_bytes(crc as u64, 4, &settings.endianness);
    if settings.byte_swap {
        byte_swap_inplace(&mut crc_bytes);
    }
    DataRange {
        start_address: destination,
        bytestream: Vec::new(),
        crc_address: destination,
        crc_bytestream: crc_bytes,
        used_size: 0,
        allocated_size: 0,
    }
}

} // verus!
