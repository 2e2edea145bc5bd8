//! A block written out as Intel HEX by the library's own chunking: the whole
//! block as one image with the CRC in it.

use crate::error::{NvmError, NvmErrorView};
use crate::layout::header::{Header, HeaderView};
use crate::layout::settings::Settings;
use crate::output::errors::{OutputError, OutputErrorView};
use crate::output::{assembled, bytestream_to_datarange, hex_error, record_width_message};
use crate::visuals::formatters::hex_digits;
use vstd::prelude::*;
use vstd::string::StringExecFns;

verus! {

/// One record of an Intel HEX file.
#[derive(Debug, Clone)]
pub enum HexRecord {
    /// Data at a 16-bit offset.
    Data { offset: u16, value: Vec<u8> },
    /// The end of the file.
    EndOfFile,
    /// The upper 16 bits of the addresses that follow.
    ExtendedLinearAddress(u16),
}

/// The mathematical content of a [`HexRecord`].
pub enum HexRecordView {
    Data { offset: u16, value: Seq<u8> },
    EndOfFile,
    ExtendedLinearAddress(u16),
}

impl View for HexRecord {
    type V = HexRecordView;

    open spec fn view(&self) -> HexRecordView {
        match self {
            HexRecord::Data { offset, value } => HexRecordView::Data {
                offset: *offset,
                value: value@,
            },
            HexRecord::EndOfFile => HexRecordView::EndOfFile,
            HexRecord::ExtendedLinearAddress(upper) => HexRecordView::ExtendedLinearAddress(*upper),
        }
    }
}

/// The contents of a list of records.
pub open spec fn records_view(records: Seq<HexRecord>) -> Seq<HexRecordView> {
    Seq::new(records.len(), |i: int| records[i]@)
}

/// `ihex::WriterError`: what the writer of object files refuses with, taken
/// as it is.
#[verifier::external_type_specification]
#[verifier::external_body]
pub struct ExWriterError(ihex::WriterError);

/// The sum of the bytes.
pub open spec fn byte_sum(bytes: Seq<u8>) -> nat
    decreases bytes.len(),
{
    if bytes.len() == 0 {
        0
    } else {
        byte_sum(bytes.drop_last()) + bytes.last() as nat
    }
}

/// The bytes in hexadecimal, two upper-case digits each.
pub open spec fn hex_bytes(bytes: Seq<u8>) -> Seq<char>
    decreases bytes.len(),
{
    if bytes.len() == 0 {
        Seq::empty()
    } else {
        hex_bytes(bytes.drop_last()) + hex_digits(bytes.last() as nat, 2)
    }
}

/// The bytes of a record before its checksum: length, offset, type, data.
pub open spec fn record_bytes(kind: u8, offset: u16, data: Seq<u8>) -> Seq<u8> {
    seq![(data.len() % 256) as u8, (offset / 256) as u8, (offset % 256) as u8, kind] + data
}

/// The text of one record: a colon, then the bytes of the record and their
/// checksum in hexadecimal. The checksum makes the sum of all bytes a
/// multiple of 256.
pub open spec fn record_text(kind: u8, offset: u16, data: Seq<u8>) -> Seq<char> {
    let bytes = record_bytes(kind, offset, data);
    let checksum = ((256 - byte_sum(bytes) % 256) % 256) as u8;
    seq![':'] + hex_bytes(bytes.push(checksum))
}

/// The line of a record.
pub open spec fn record_line(record: HexRecordView) -> Seq<char> {
    match record {
        HexRecordView::Data { offset, value } => record_text(0, offset, value),
        HexRecordView::EndOfFile => record_text(1, 0, Seq::empty()),
        HexRecordView::ExtendedLinearAddress(upper) => record_text(
            4,
            0,
            seq![(upper / 256) as u8, (upper % 256) as u8],
        ),
    }
}

/// The text of an object file: the first `upto` records, each on a line of
/// its own that ends with a line feed.
pub open spec fn object_text(records: Seq<HexRecordView>, upto: int) -> Seq<char>
    decreases upto,
{
    if upto <= 0 || upto > records.len() {
        Seq::empty()
    } else {
        object_text(records, upto - 1) + record_line(records[upto - 1]) + seq!['\n']
    }
}

/// Whether a list of records can be written as an object file: its data
/// records are short enough, and its one end-of-file record is the last.
pub open spec fn writable(records: Seq<HexRecordView>) -> bool {
    &&& records.len() > 0
    &&& records.last() is EndOfFile
    &&& forall|i: int| 0 <= i < records.len() - 1 ==> !((#[trigger] records[i]) is EndOfFile)
    &&& forall|i: int|
        0 <= i < records.len() ==> ((#[trigger] records[i]) matches HexRecordView::Data {
            value,
            ..
        } ==> value.len() <= 255)
}

/// `ihex::create_object_file_representation`: the text of the records, one
/// per line. The call refuses only records that are not writable: a data
/// record of more than 255 bytes, or an end-of-file record that is missing,
/// repeated or not the last.
#[verifier::external_body]
fn object_file_text(records: &Vec<HexRecord>) -> (r: Result<String, ihex::WriterError>)
    requires
        writable(records_view(records@)),
    ensures
        r is Ok,
        r matches Ok(text) ==> text@ == object_text(records_view(records@), records@.len() as int),
{
    let converted: Vec<ihex::Record> = records.iter().map(
        |record|
            match record {
                HexRecord::Data { offset, value } => ihex::Record::Data {
                    offset: *offset,
                    value: value.clone(),
                },
                HexRecord::EndOfFile => ihex::Record::EndOfFile,
                HexRecord::ExtendedLinearAddress(upper) => ihex::Record::ExtendedLinearAddress(
                    *upper,
                ),
            },
    ).collect();
    ihex::create_object_file_representation(&converted)
}

/// The smallest of three numbers.
pub open spec fn min3(a: int, b: int, c: int) -> int {
    if a <= b && a <= c {
        a
    } else if b <= c {
        b
    } else {
        c
    }
}

/// The data records of `data` from `address` on, before the end-of-file
/// record. A record holds at most `width` bytes and does not cross a 64 KiB
/// boundary; where the upper 16 bits of the address are not `upper` and not
/// zero, an extended linear address record goes first.
pub open spec fn data_records(address: nat, data: Seq<u8>, width: nat, upper: Option<nat>) -> Seq<
    HexRecordView,
>
    decreases data.len(),
{
    if data.len() == 0 || width == 0 {
        Seq::empty()
    } else {
        let hi = address / 0x1_0000;
        let lo = address % 0x1_0000;
        let n = min3(data.len() as int, width as int, 0x1_0000 - lo);
        let record = HexRecordView::Data { offset: lo as u16, value: data.take(n) };
        let rest = data_records((address + n) as nat, data.skip(n), width, Some(hi));
        if upper != Some(hi) && hi != 0 {
            seq![HexRecordView::ExtendedLinearAddress(hi as u16), record] + rest
        } else {
            seq![record] + rest
        }
    }
}

/// The records of an image that starts at `address`.
pub open spec fn image_records(address: nat, data: Seq<u8>, width: nat) -> Seq<HexRecordView> {
    data_records(address, data, width, None).push(HexRecordView::EndOfFile)
}

/// `image` with `patch` written over it from `at` on.
pub open spec fn overlaid(image: Seq<u8>, at: int, patch: Seq<u8>) -> Seq<u8> {
    Seq::new(
        image.len(),
        |i: int|
            if at <= i < at + patch.len() {
                patch[i - at]
            } else {
                image[i]
            },
    )
}

pub open spec fn output_error(e: OutputErrorView) -> NvmErrorView {
    NvmErrorView::Output(e)
}

/// The image of a block and the address at which it starts: the assembled
/// block, padded to its end, with the CRC written into its slot.
#[verifier::opaque]
pub open spec fn block_image(
    bytes: Seq<u8>,
    header: HeaderView,
    settings: Settings,
    offset: u32,
    byte_swap: bool,
) -> Result<(u32, Seq<u8>), OutputErrorView> {
    let biased = Settings { virtual_offset: offset, ..settings };
    match assembled(bytes, header, biased, byte_swap, true, 0) {
        Err(e) => Err(e),
        Ok(range) => if header.start_address + offset + header.length > 0x1_0000_0000 {
            Err(hex_error("Block lies outside the 32-bit address space."@))
        } else {
            Ok(
                (
                    range.start_address,
                    overlaid(
                        range.bytestream,
                        range.crc_address - range.start_address,
                        range.crc_bytestream,
                    ),
                ),
            )
        },
    }
}

/// The Intel HEX text of a block, or the error that refuses it.
pub open spec fn hex_string(
    bytes: Seq<u8>,
    header: HeaderView,
    settings: Settings,
    offset: u32,
    byte_swap: bool,
    record_width: usize,
) -> Result<Seq<char>, NvmErrorView> {
    match block_image(bytes, header, settings, offset, byte_swap) {
        Err(e) => Err(output_error(e)),
        Ok((start, image)) => if !(1 <= record_width <= 128) {
            Err(output_error(hex_error(record_width_message())))
        } else {
            let records = image_records(start as nat, image, record_width as nat);
            Ok(object_text(records, records.len() as int))
        },
    }
}

fn output_failure(message: &str) -> (e: NvmError)
    ensures
        e@ == output_error(hex_error(message@)),
{
    NvmError::Output(OutputError::HexOutputError(String::from_str(message)))
}

/// Copies `n` bytes from position `from` on.
pub fn copy_span(bytes: &Vec<u8>, from: usize, n: usize) -> (span: Vec<u8>)
    requires
        from + n <= bytes@.len(),
    ensures
        span@ == bytes@.skip(from as int).take(n as int),
{
    let mut span: Vec<u8> = Vec::new();
    let total = bytes.len();
    let mut k: usize = 0;
    while k < n
        invariant
            k <= n,
            total == bytes@.len(),
            from + n <= total,
            span@ == bytes@.subrange(from as int, from + k),
        decreases n - k,
    {
        span.push(bytes[from + k]);
        k = k + 1;
        assert(span@ =~= bytes@.subrange(from as int, from + k));
    }
    assert(span@ =~= bytes@.skip(from as int).take(n as int));
    span
}

/// Writes an image that starts at `start_address` as Intel HEX records.
fn emit_hex(start_address: u32, bytestream: &Vec<u8>, record_width: usize) -> (text: String)
    requires
        1 <= record_width <= 128,
        start_address + bytestream@.len() <= 0x1_0000_0000,
    ensures
        text@ == object_text(
            image_records(start_address as nat, bytestream@, record_width as nat),
            image_records(start_address as nat, bytestream@, record_width as nat).len() as int,
        ),
{
    let mut records: Vec<HexRecord> = Vec::new();
    let mut addr: u64 = start_address as u64;
    let mut idx: usize = 0;
    let mut upper: Option<u64> = None;
    let ghost whole = data_records(start_address as nat, bytestream@, record_width as nat, None);
    proof {
        assert(bytestream@.skip(0) =~= bytestream@);
        assert(records_view(records@) =~= Seq::<HexRecordView>::empty());
        assert(Seq::<HexRecordView>::empty() + whole =~= whole);
    }
    while idx < bytestream.len()
        invariant
            1 <= record_width <= 128,
            idx <= bytestream@.len(),
            addr == start_address + idx,
            start_address + bytestream@.len() <= 0x1_0000_0000,
            whole == data_records(start_address as nat, bytestream@, record_width as nat, None),
            whole == records_view(records@) + data_records(
                addr as nat,
                bytestream@.skip(idx as int),
                record_width as nat,
                match upper {
                    Some(u) => Some(u as nat),
                    None => None,
                },
            ),
            forall|i: int| 0 <= i < records@.len() ==> !((#[trigger] records_view(records@)[i]) is EndOfFile),
            forall|i: int|
                0 <= i < records@.len() ==> ((#[trigger] records_view(
                    records@,
                )[i]) matches HexRecordView::Data { value, .. } ==> value.len() <= 255),
        decreases bytestream@.len() - idx,
    {
        let ghost before = records_view(records@);
        let ghost rest_before = bytestream@.skip(idx as int);
        let hi = addr / 0x1_0000;
        let lo = addr % 0x1_0000;
        let extend = match upper {
            Some(u) => u != hi,
            None => true,
        } && hi != 0;
        if extend {
            records.push(HexRecord::ExtendedLinearAddress(hi as u16));
        }
        upper = Some(hi);
        let seg_rem: u64 = 0x1_0000 - lo;
        let left = bytestream.len() - idx;
        let mut n: usize = if left < record_width {
            left
        } else {
            record_width
        };
        if seg_rem < n as u64 {
            n = seg_rem as usize;
        }
        let value = copy_span(bytestream, idx, n);
        records.push(HexRecord::Data { offset: lo as u16, value });
        proof {
            assert(rest_before.len() == left);
            assert(n == min3(rest_before.len() as int, record_width as int, 0x1_0000 - lo));
            assert(rest_before.skip(n as int) =~= bytestream@.skip(idx + n));
            let record = HexRecordView::Data { offset: lo as u16, value: rest_before.take(n as int) };
            let tail = data_records(
                (addr + n) as nat,
                bytestream@.skip(idx + n),
                record_width as nat,
                Some(hi as nat),
            );
            if extend {
                assert(records_view(records@) =~= before + seq![
                    HexRecordView::ExtendedLinearAddress(hi as u16),
                    record,
                ]);
                assert(before + (seq![HexRecordView::ExtendedLinearAddress(hi as u16), record]
                    + tail) =~= records_view(records@) + tail);
            } else {
                assert(records_view(records@) =~= before + seq![record]);
                assert(before + (seq![record] + tail) =~= records_view(records@) + tail);
            }
        }
        idx = idx + n;
        addr = addr + n as u64;
    }
    records.push(HexRecord::EndOfFile);
    proof {
        assert(bytestream@.skip(idx as int).len() == 0);
        let done = records_view(records@);
        assert(done =~= whole.push(HexRecordView::EndOfFile));
        assert(writable(done));
    }
    match object_file_text(&records) {
        Ok(text) => text,
        Err(_) => String::new(),
    }
}

/// Assembles a block and writes the CRC into it.
fn build_image(
    bytes: Vec<u8>,
    header: &Header,
    settings: &Settings,
    offset: u32,
    byte_swap: bool,
) -> (r: Result<(u32, Vec<u8>), OutputError>)
    ensures
        match r {
            Ok((start, image)) => block_image(bytes@, header@, *settings, offset, byte_swap)
                == Ok::<(u32, Seq<u8>), OutputErrorView>((start, image@)) && start + image@.len()
                <= 0x1_0000_0000,
            Err(e) => block_image(bytes@, header@, *settings, offset, byte_swap) == Err::<
                (u32, Seq<u8>),
                OutputErrorView,
            >(e@),
        },
{
    reveal(block_image);
    let biased = Settings {
        endianness: settings.endianness,
        virtual_offset: offset,
        byte_swap: settings.byte_swap,
        pad_to_end: settings.pad_to_end,
        crc: settings.crc,
    };
    let range = match bytestream_to_datarange(bytes, header, &biased, byte_swap, true, 0) {
        Err(e) => {
            return Err(e);
        },
        Ok(range) => range,
    };
    if header.start_address as u64 + offset as u64 + header.length as u64 > 0x1_0000_0000 {
        return Err(OutputError::HexOutputError(
            String::from_str("Block lies outside the 32-bit address space."),
        ));
    }
    proof {
        crate::output::lemma_assembled_shape(bytes@, header@, biased, byte_swap, true, 0);
    }
    let start = range.start_address;
    let at = (range.crc_address - range.start_address) as usize;
    let mut image = range.bytestream;
    let ghost base = image@;
    let crc_bytes = range.crc_bytestream;
    let size = image.len();
    let mut k: usize = 0;
    while k < crc_bytes.len()
        invariant
            k <= crc_bytes@.len(),
            at + crc_bytes@.len() <= size,
            size == base.len(),
            image@.len() == base.len(),
            forall|i: int|
                0 <= i < base.len() ==> image@[i] == if at <= i < at + k {
                    crc_bytes@[i - at]
                } else {
                    base[i]
                },
        decreases crc_bytes@.len() - k,
    {
        image.set(at + k, crc_bytes[k]);
        k = k + 1;
    }
    assert(image@ =~= overlaid(base, at as int, crc_bytes@));
    Ok((start, image))
}

/// Assembles a block, writes the CRC into it and gives its Intel HEX text.
/// `bytestream` ends up as the image of the whole block, and stays as it was
/// where the call fails; `offset` is added to every address of the text.
pub fn bytestream_to_hex_string(
    bytestream: &mut Vec<u8>,
    header: &Header,
    settings: &Settings,
    offset: u32,
    byte_swap: bool,
    record_width: usize,
) -> (r: Result<String, NvmError>)
    ensures
        match r {
            Ok(text) => {
                &&& hex_string(
                    old(bytestream)@,
                    header@,
                    *settings,
                    offset,
                    byte_swap,
                    record_width,
                ) == Ok::<Seq<char>, NvmErrorView>(text@)
                &&& block_image(old(bytestream)@, header@, *settings, offset, byte_swap) == Ok::<
                    (u32, Seq<u8>),
                    OutputErrorView,
                >(((header.start_address + offset) as u32, final(bytestream)@))
            },
            Err(e) => {
                &&& hex_string(
                    old(bytestream)@,
                    header@,
                    *settings,
                    offset,
                    byte_swap,
                    record_width,
                ) == Err::<Seq<char>, NvmErrorView>(e@)
                &&& final(bytestream)@ == old(bytestream)@
            },
        },
{
    let copy = copy_span(bytestream, 0, bytestream.len());
    assert(copy@ =~= bytestream@);
    let (start, mut image) = match build_image(copy, header, settings, offset, byte_swap) {
        Err(e) => {
            return Err(NvmError::Output(e));
        },
        Ok(found) => found,
    };
    proof {
        lemma_image_start(old(bytestream)@, header@, *settings, offset, byte_swap);
    }
    if !(1 <= record_width && record_width <= 128) {
        return Err(output_failure("Record width must be between 1 and 128"));
    }
    let text = emit_hex(start, &image, record_width);
    let ghost whole = image@;
    bytestream.clear();
    bytestream.append(&mut image);
    assert(final(bytestream)@ =~= whole);
    Ok(text)
}

/// The image of a block starts at the start address of the block plus the
/// offset.
pub proof fn lemma_image_start(
    bytes: Seq<u8>,
    header: HeaderView,
    settings: Settings,
    offset: u32,
    byte_swap: bool,
)
    ensures
        block_image(bytes, header, settings, offset, byte_swap) matches Ok((start, image)) ==> {
            &&& start == header.start_address + offset
            &&& image.len() == header.length
        },
{
    reveal(block_image);
    let biased = Settings { virtual_offset: offset, ..settings };
    crate::output::lemma_assembled_shape(bytes, header, biased, byte_swap, true, 0);
}

} // verus!
