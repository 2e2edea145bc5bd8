use indexmap::IndexMap;
use nvmbuilder::commands::generate::build_block_single;
use nvmbuilder::commands::stats::{BlockStat, BuildStats};
use nvmbuilder::commands::{build_single_file, check_overlaps, check_shared_settings, BlockSpan};
use nvmbuilder::error::NvmError;
use nvmbuilder::layout::args::BlockNames;
use nvmbuilder::layout::block::{Block, Branch, Config, Entry};
use nvmbuilder::layout::entry::{EntrySource, LeafEntry, ScalarType, SizeKeys, SizeSource};
use nvmbuilder::layout::errors::LayoutError;
use nvmbuilder::layout::header::{CrcLocation, Header};
use nvmbuilder::layout::settings::{CrcArea, CrcData, Endianness, Settings};
use nvmbuilder::layout::value::{DataValue, ValueSource};
use nvmbuilder::output::args::OutputFormat;
use nvmbuilder::output::checksum::calculate_crc;
use nvmbuilder::output::combined::{byte_at, combined_crc, AddressRange};
use nvmbuilder::output::errors::OutputError;
use nvmbuilder::output::{bytestream_to_datarange, emit_hex, DataRange};
use nvmbuilder::variant::{Cell, DataSheet, Sheet};

fn crc() -> CrcData {
    CrcData {
        polynomial: 0x04C11DB7,
        start: 0xFFFFFFFF,
        xor_out: 0xFFFFFFFF,
        ref_in: true,
        ref_out: true,
        area: CrcArea::Data,
    }
}

fn settings(endianness: Endianness, virtual_offset: u32, byte_swap: bool, pad_to_end: bool) -> Settings {
    Settings { endianness, virtual_offset, byte_swap, pad_to_end, crc: crc() }
}

fn leaf(ty: ScalarType, size: Option<usize>, source: EntrySource) -> Entry {
    Entry::Leaf(LeafEntry {
        scalar_type: ty,
        size_keys: SizeKeys { size: size.map(SizeSource::OneD), strict_size: None },
        source,
    })
}

fn value(v: DataValue) -> EntrySource {
    EntrySource::Value(ValueSource::Single(v))
}

fn array(values: Vec<DataValue>) -> EntrySource {
    EntrySource::Value(ValueSource::Array(values))
}

fn group(fields: Vec<(&str, Entry)>) -> Entry {
    let mut branch = Branch::new();
    for (name, entry) in fields {
        assert!(branch.insert(name.to_string(), entry).is_none());
    }
    Entry::Branch(branch)
}

fn pairs(inputs: Vec<BlockNames>, layouts: Vec<Config>) -> Vec<(BlockNames, Config)> {
    inputs.into_iter().zip(layouts).collect()
}

fn input(name: &str, file: &str) -> BlockNames {
    BlockNames { name: name.to_string(), file: file.to_string() }
}

/// Big endian, swapped, padded to the end, CRC at an address.
fn layout_be() -> Config {
    let data = group(vec![
        (
            "nums",
            group(vec![(
                "u16_be",
                leaf(
                    ScalarType::U16,
                    Some(4),
                    array(vec![
                        DataValue::U64(1),
                        DataValue::U64(2),
                        DataValue::U64(3),
                        DataValue::U64(4),
                    ]),
                ),
            )]),
        ),
        (
            "txt",
            group(vec![(
                "ascii",
                leaf(ScalarType::U8, Some(8), value(DataValue::Str("HELLO".to_string()))),
            )]),
        ),
        ("single", group(vec![("i32", leaf(ScalarType::I32, None, value(DataValue::U64(42))))])),
    ]);
    let mut blocks = IndexMap::new();
    blocks.insert(
        "block".to_string(),
        Block {
            header: Header {
                start_address: 0x10000,
                length: 0x80,
                crc_location: CrcLocation::Address(0x10060),
                padding: 0xAA,
            },
            data,
        },
    );
    Config { settings: settings(Endianness::Big, 0, true, true), blocks }
}

/// Little endian, CRC at the end, moved by a virtual offset.
fn layout_le() -> Config {
    let data = group(vec![
        (
            "arr",
            group(vec![(
                "f32",
                leaf(
                    ScalarType::F32,
                    Some(2),
                    array(vec![
                        DataValue::F64(1.0f64.to_bits(), 1.0f64.to_string()),
                        DataValue::F64(2.5f64.to_bits(), 2.5f64.to_string()),
                    ]),
                ),
            )]),
        ),
        (
            "arr2",
            group(vec![(
                "i16",
                leaf(
                    ScalarType::I16,
                    Some(4),
                    array(vec![
                        DataValue::U64(10),
                        DataValue::I64(-20),
                        DataValue::U64(30),
                        DataValue::I64(-40),
                    ]),
                ),
            )]),
        ),
    ]);
    let mut blocks = IndexMap::new();
    blocks.insert(
        "block".to_string(),
        Block {
            header: Header {
                start_address: 0x90000,
                length: 0x40,
                crc_location: CrcLocation::Keyword("end".to_string()),
                padding: 0x00,
            },
            data,
        },
    );
    Config { settings: settings(Endianness::Little, 0x20000, false, false), blocks }
}

fn be_image() -> Vec<u8> {
    // u16 1..4 big endian, "HELLO" padded to 8, i32 42 big endian
    let mut bytes = vec![0, 1, 0, 2, 0, 3, 0, 4];
    bytes.extend(b"HELLO\xAA\xAA\xAA");
    bytes.extend([0, 0, 0, 42]);
    for pair in bytes.chunks_exact_mut(2) {
        pair.swap(0, 1);
    }
    bytes
}

#[test]
fn mixed_feature_matrix() {
    let be = layout_be();
    let le = layout_le();

    // Big endian, swap, pad to end, CRC at explicit address, HEX with width 64
    let (text, stat) =
        build_block_single(&input("block", "mixed_be"), &be, None, false, 64, OutputFormat::Hex)
            .expect("be-hex");
    let payload = be_image();
    let crc_value = calculate_crc(&payload, &crc());
    let be_crc = crc_value.to_be_bytes();
    let swapped_crc = [be_crc[1], be_crc[0], be_crc[3], be_crc[2]];
    let mut image = payload.clone();
    image.resize(0x80, 0xAA);
    image[0x60..0x64].copy_from_slice(&swapped_crc);
    let mut expected = vec![":020000040001F9".to_string()];
    for (i, chunk) in image.chunks(64).enumerate() {
        let mut record = vec![chunk.len() as u8, 0, (i * 64) as u8, 0];
        record.extend(chunk);
        let sum = record.iter().fold(0u8, |a, b| a.wrapping_add(*b));
        record.push(0u8.wrapping_sub(sum));
        expected.push(format!(
            ":{}",
            record.iter().map(|b| format!("{:02X}", b)).collect::<String>()
        ));
    }
    expected.push(":00000001FF".to_string());
    assert_eq!(text.lines().collect::<Vec<_>>(), expected);
    assert_eq!(stat.name, "block");
    assert_eq!(stat.start_address, 0x10000);
    assert_eq!(stat.allocated_size, 0x80);
    assert_eq!(stat.used_size, 20 + 4);
    // the reported CRC is the checksum itself, not its swapped bytes
    assert_eq!(stat.crc_value, crc_value);
    assert_ne!(stat.crc_value, u32::from_be_bytes(swapped_crc));

    // Big endian, swap, pad to end, explicit CRC, MOT with width 16
    let (text, _) =
        build_block_single(&input("block", "mixed_be"), &be, None, false, 16, OutputFormat::Mot)
            .expect("be-mot");
    let lines: Vec<&str> = text.lines().collect();
    assert_eq!(lines.len(), 8 + 1);
    assert!(lines[0].starts_with("S214010000"), "{}", lines[0]);
    assert_eq!(lines[8], "S5030008F4");

    // Little endian, no swap, no pad to end, CRC at end, HEX width 16, virtual_offset applied
    let (text, stat) =
        build_block_single(&input("block", "mixed_le"), &le, None, true, 16, OutputFormat::Hex)
            .expect("le-hex");
    let mut payload: Vec<u8> = Vec::new();
    payload.extend(1.0f32.to_le_bytes());
    payload.extend(2.5f32.to_le_bytes());
    for v in [10i16, -20, 30, -40] {
        payload.extend(v.to_le_bytes());
    }
    let crc_value = calculate_crc(&payload, &crc());
    let mut image = payload.clone();
    image.extend(crc_value.to_le_bytes());
    let lines: Vec<&str> = text.lines().collect();
    assert_eq!(lines.len(), 4);
    assert_eq!(lines[0], ":02000004000BEF");
    assert!(lines[1].starts_with(":10000000"));
    assert!(lines[1][9..].starts_with(
        &image[..16].iter().map(|b| format!("{:02X}", b)).collect::<String>()
    ));
    assert!(lines[2].starts_with(":04001000"));
    assert_eq!(lines[3], ":00000001FF");
    assert_eq!(stat.start_address, 0xB0000);
    assert_eq!(stat.used_size, 20);
    assert_eq!(stat.crc_value, crc_value);

    // Little endian, no swap, no pad, CRC at end, MOT width 64
    let (text, _) =
        build_block_single(&input("block", "mixed_le"), &le, None, true, 64, OutputFormat::Mot)
            .expect("le-mot");
    let lines: Vec<&str> = text.lines().collect();
    assert_eq!(lines.len(), 2);
    assert!(lines[0].starts_with("S2180B0000"), "{}", lines[0]);
}

fn simple_layout() -> Config {
    let mut blocks = IndexMap::new();
    blocks.insert(
        "simple_block".to_string(),
        Block {
            header: Header {
                start_address: 0x8000,
                length: 0x20,
                crc_location: CrcLocation::Keyword("end".to_string()),
                padding: 0xFF,
            },
            data: group(vec![
                ("version", leaf(ScalarType::U16, None, value(DataValue::U64(0x0102)))),
                ("flag", leaf(ScalarType::U8, None, value(DataValue::U64(1)))),
                ("gain", leaf(ScalarType::U32, None, value(DataValue::U64(0xAABBCCDD)))),
            ]),
        },
    );
    blocks.insert(
        "block".to_string(),
        Block {
            header: Header {
                start_address: 0x9000,
                length: 0x20,
                crc_location: CrcLocation::Keyword("end".to_string()),
                padding: 0xFF,
            },
            data: group(vec![
                ("version", leaf(ScalarType::U16, None, value(DataValue::U64(3)))),
                ("gain", leaf(ScalarType::I32, None, EntrySource::Name("Gain".to_string()))),
                ("label", leaf(ScalarType::U8, Some(6), EntrySource::Name("Label".to_string()))),
                ("curve", leaf(ScalarType::U16, Some(4), EntrySource::Name("Curve".to_string()))),
            ]),
        },
    );
    Config { settings: settings(Endianness::Little, 0, false, false), blocks }
}

fn data_sheet() -> DataSheet {
    DataSheet {
        names: vec!["Gain".to_string(), "Label".to_string(), "Curve".to_string()],
        default_values: vec![
            Cell::Int(-2),
            Cell::Text("abc".to_string()),
            Cell::Text("#CurveSheet".to_string()),
        ],
        debug_values: None,
        variant_values: None,
        sheets: vec![Sheet {
            name: "CurveSheet".to_string(),
            rows: vec![
                vec![Cell::Text("v".to_string())],
                vec![Cell::Int(1)],
                vec![Cell::Int(2)],
                vec![Cell::Float(3.0f64.to_bits(), "3".to_string())],
            ],
        }],
    }
}

#[test]
fn test_build_without_excel() {
    let layout = simple_layout();
    // This should succeed since all values are inline
    let (text, stat) = build_block_single(
        &input("simple_block", "block_no_excel.toml"),
        &layout,
        None,
        false,
        32,
        OutputFormat::Hex,
    )
    .expect("build should succeed without Excel file");
    let payload = vec![0x02, 0x01, 0x01, 0xFF, 0xDD, 0xCC, 0xBB, 0xAA];
    let crc_value = calculate_crc(&payload, &crc());
    let mut image = payload.clone();
    image.extend(crc_value.to_le_bytes());
    let mut record = vec![12u8, 0x80, 0x00, 0x00];
    record.extend(&image);
    let sum = record.iter().fold(0u8, |a, b| a.wrapping_add(*b));
    record.push(0u8.wrapping_sub(sum));
    let line = format!(":{}", record.iter().map(|b| format!("{:02X}", b)).collect::<String>());
    assert_eq!(text, format!("{}\n:00000001FF", line));
    assert_eq!(stat.used_size, 8 + 4 - 1);
    assert_eq!(stat.allocated_size, 0x20);
    assert_eq!(stat.crc_value, crc_value);
}

#[test]
fn test_error_when_name_without_excel() {
    let layout = simple_layout();
    // This should fail with MissingDataSheet error
    let result =
        build_block_single(&input("block", "block.toml"), &layout, None, false, 32, OutputFormat::Hex);
    assert!(
        result.is_err(),
        "Expected error when using 'name' without Excel file"
    );

    let err = result.unwrap_err();
    let err_str = err.message();
    assert!(
        err_str.contains("Missing datasheet")
            || err_str.contains("requires a value from the Excel datasheet"),
        "Error should mention missing datasheet, got: {}",
        err_str
    );
    assert_eq!(
        err_str,
        "While building block 'block' from 'block.toml': In field 'gain': Missing datasheet: Field 'Gain' requires a value from the Excel datasheet, but no datasheet was provided. Use -x to specify an Excel file."
    );
}

#[test]
fn names_are_looked_up_in_the_data_sheet() {
    let layout = simple_layout();
    let ds = data_sheet();
    let block = layout.block("block").unwrap();
    let (bytes, padding) = block.build_bytestream(Some(&ds), &layout.settings, false).unwrap();
    let mut expected = vec![3u8, 0, 0xFF, 0xFF];
    expected.extend((-2i32).to_le_bytes());
    expected.extend(b"abc\xFF\xFF\xFF");
    expected.extend([1, 0, 2, 0, 3, 0, 0xFF, 0xFF]);
    expected.extend([0xFF, 0xFF]);
    assert_eq!(bytes, expected);
    assert_eq!(padding, 4);
    let mut bad = data_sheet();
    bad.default_values[0] = Cell::Text("x".to_string());
    let err = block.build_bytestream(Some(&bad), &layout.settings, false).unwrap_err();
    assert_eq!(
        err.message(),
        "In field 'gain': While retrieving 'Gain': Excel retrieval error: Found non-numeric single value."
    );
    assert!(matches!(
        err,
        LayoutError::InField { source, .. } if matches!(*source, LayoutError::Variant(_))
    ));
}

#[test]
fn unknown_blocks_are_reported() {
    let layout = simple_layout();
    let err = build_block_single(&input("nope", "f.toml"), &layout, None, false, 32, OutputFormat::Hex)
        .unwrap_err();
    assert_eq!(err.message(), "While building block 'nope' from 'f.toml': Block not found: nope.");
    assert!(matches!(layout.block("nope"), Err(LayoutError::BlockNotFound(name)) if name == "nope"));
    let err = build_block_single(
        &input("simple_block", "f.toml"),
        &layout,
        None,
        false,
        0,
        OutputFormat::Hex,
    )
    .unwrap_err();
    assert_eq!(
        err.message(),
        "While building block 'simple_block' from 'f.toml': Hex output error: Record width must be between 1 and 128."
    );
}

#[test]
fn smoke_build_examples_all_formats_and_options() {
    let ds = data_sheet();
    let layout = simple_layout();
    for blk in ["simple_block", "block"] {
        for format in [OutputFormat::Hex, OutputFormat::Mot] {
            let (text, stat) =
                build_block_single(&input(blk, "block.toml"), &layout, Some(&ds), false, 32, format)
                    .expect("build");
            assert!(!text.is_empty());
            assert_eq!(stat.name, blk);
        }
    }
    let inputs = vec![input("simple_block", "block.toml"), input("block", "block.toml")];
    let layouts = vec![simple_layout(), simple_layout()];
    let (text, stats) =
        build_single_file(&pairs(inputs.clone(), layouts), Some(&ds), false, 32, OutputFormat::Hex)
            .expect("build combined");
    assert_eq!(stats.blocks_processed, 2);
    assert_eq!(text.lines().count(), 3);
}

#[test]
fn test_block_stat_collection() {
    let ds = data_sheet();
    let layout = simple_layout();
    let (_, block_stat) =
        build_block_single(&input("block", "block.toml"), &layout, Some(&ds), false, 32, OutputFormat::Hex)
            .expect("build should succeed");

    assert_eq!(block_stat.name, "block");
    assert!(block_stat.start_address > 0 || block_stat.start_address == 0);
    assert!(block_stat.allocated_size > 0);
    assert!(block_stat.used_size > 0);
    assert!(block_stat.used_size <= block_stat.allocated_size);
    assert_eq!(block_stat.start_address, 0x9000);
    assert_eq!(block_stat.allocated_size, 0x20);
    assert_eq!(block_stat.used_size, 24 + 4 - 4);
}

#[test]
fn test_build_stats_aggregation() {
    let ds = data_sheet();
    let block_inputs = vec![input("simple_block", "block.toml"), input("block", "block.toml")];
    let layouts = vec![simple_layout(), simple_layout()];

    let (_, stats) =
        build_single_file(&pairs(block_inputs.clone(), layouts), Some(&ds), false, 32, OutputFormat::Hex)
            .expect("build should succeed");

    assert_eq!(stats.blocks_processed, block_inputs.len());
    assert!(stats.total_allocated > 0);
    assert!(stats.total_used > 0);
    assert!(stats.total_used <= stats.total_allocated);
    assert_eq!(stats.block_stats.len(), block_inputs.len());

    let manual_total_allocated: usize = stats
        .block_stats
        .iter()
        .map(|b| b.allocated_size as usize)
        .sum();
    let manual_total_used: usize = stats.block_stats.iter().map(|b| b.used_size as usize).sum();

    assert_eq!(stats.total_allocated, manual_total_allocated);
    assert_eq!(stats.total_used, manual_total_used);
    assert_eq!(stats.total_allocated, 0x40);
    assert_eq!(stats.total_used, 11 + 24);
}

#[test]
fn test_space_efficiency_calculation() {
    let mut stats = BuildStats::new();

    stats.add_block(BlockStat {
        name: "test1".to_string(),
        start_address: 0x1000,
        allocated_size: 100,
        used_size: 80,
        crc_value: 0x12345678,
    });

    stats.add_block(BlockStat {
        name: "test2".to_string(),
        start_address: 0x2000,
        allocated_size: 200,
        used_size: 120,
        crc_value: 0x9ABCDEF0,
    });

    assert_eq!(stats.blocks_processed, 2);
    assert_eq!(stats.total_allocated, 300);
    assert_eq!(stats.total_used, 200);

    let efficiency = f64::from_bits(stats.space_efficiency());
    let expected = (200.0 / 300.0) * 100.0;
    assert!((efficiency - expected).abs() < 0.01);
    assert_eq!(stats.block_stats.len(), 2);
    assert_eq!(stats.block_stats[1].name, "test2");
    assert_eq!(stats.total_duration, std::time::Duration::from_secs(0));
}

#[test]
fn test_combined_mode_stats() {
    let ds = data_sheet();
    let block_inputs = vec![input("simple_block", "block.toml"), input("block", "block.toml")];
    let layouts = vec![simple_layout(), simple_layout()];

    let (_, stats) =
        build_single_file(&pairs(block_inputs.clone(), layouts), Some(&ds), false, 32, OutputFormat::Hex)
            .expect("build should succeed");

    assert_eq!(stats.blocks_processed, block_inputs.len());

    for block_stat in &stats.block_stats {
        assert!(block_stat.allocated_size > 0);
        assert!(block_stat.used_size > 0);
        assert!(block_stat.used_size <= block_stat.allocated_size);
    }
}

#[test]
fn combined_statistics_undo_the_byte_swap() {
    let be = layout_be();
    let (_, stats) = build_single_file(
        &pairs(vec![input("block", "mixed_be")], vec![layout_be()]),
        None,
        false,
        32,
        OutputFormat::Hex,
    )
    .unwrap();
    assert_eq!(stats.block_stats[0].crc_value, calculate_crc(&be_image(), &be.settings.crc));
}

fn span(name: &str, start: u32, end: u32) -> BlockSpan {
    BlockSpan { name: name.to_string(), start, end }
}

#[test]
fn overlapping_blocks_are_refused() {
    let spans = vec![span("a", 0x1000, 0x1010), span("b", 0x1008, 0x1020)];
    match check_overlaps(&spans) {
        Err(OutputError::BlockOverlapError(m)) => assert_eq!(
            m,
            "Block 'a' (0x00001000-0x0000100F) overlaps with block 'b' (0x00001008-0x0000101F). Overlap: 0x00001008-0x0000100F (8 bytes)"
        ),
        other => panic!("unexpected {:?}", other),
    }
    // touching is no overlap
    assert!(check_overlaps(&vec![span("a", 0x1000, 0x1010), span("b", 0x1010, 0x1020)]).is_ok());
    assert!(check_overlaps(&vec![span("b", 0x1010, 0x1020), span("a", 0x1000, 0x1010)]).is_ok());
    assert!(check_overlaps(&vec![]).is_ok());
    assert!(check_overlaps(&vec![span("a", 0, u32::MAX)]).is_ok());
    // the first pair in the order of the blocks is named
    let spans = vec![
        span("a", 0, 0x10),
        span("b", 0x20, 0x30),
        span("c", 0x28, 0x2C),
        span("d", 0x8, 0x9),
    ];
    match check_overlaps(&spans) {
        Err(OutputError::BlockOverlapError(m)) => assert_eq!(
            m,
            "Block 'a' (0x00000000-0x0000000F) overlaps with block 'd' (0x00000008-0x00000008). Overlap: 0x00000008-0x00000008 (1 bytes)"
        ),
        other => panic!("unexpected {:?}", other),
    }
}

#[test]
fn combined_builds_check_blocks_and_settings() {
    let mut moved = simple_layout();
    moved.settings.virtual_offset = 0x1000 - 0x10;
    // simple_block moved to 0x8FF0..0x9010 meets block at 0x9000
    let err = build_single_file(
        &pairs(vec![input("block", "a.toml"), input("simple_block", "b.toml")], vec![simple_layout(), moved]),
        Some(&data_sheet()),
        false,
        32,
        OutputFormat::Hex,
    )
    .unwrap_err();
    assert_eq!(
        err.message(),
        "Block memory overlap detected: Block 'block' (0x00009000-0x0000901F) overlaps with block 'simple_block' (0x00008FF0-0x0000900F). Overlap: 0x00009000-0x0000900F (16 bytes)"
    );

    let mut other = simple_layout();
    other.settings.endianness = Endianness::Big;
    let err = build_single_file(
        &pairs(vec![input("block", "a.toml"), input("simple_block", "b.toml")], vec![simple_layout(), other]),
        Some(&data_sheet()),
        false,
        32,
        OutputFormat::Hex,
    )
    .unwrap_err();
    assert!(matches!(err, NvmError::Output(OutputError::HexOutputError(_))));
    assert_eq!(
        err.message(),
        "Hex output error: Blocks of a combined output must share their settings."
    );
    let mut shifted = simple_layout();
    shifted.settings.virtual_offset = 4;
    assert!(check_shared_settings(&vec![simple_layout(), shifted]).is_ok());
    let mut swapped = simple_layout();
    swapped.settings.byte_swap = true;
    assert!(check_shared_settings(&vec![simple_layout(), swapped]).is_err());
    let mut area = simple_layout();
    area.settings.crc.area = CrcArea::Block;
    assert!(check_shared_settings(&vec![simple_layout(), simple_layout(), area]).is_err());
    assert!(check_shared_settings(&vec![]).is_ok());

    let err = build_single_file(
        &pairs(vec![input("simple_block", "a.toml"), input("gone", "b.toml")], vec![simple_layout(), simple_layout()]),
        None,
        false,
        32,
        OutputFormat::Hex,
    )
    .unwrap_err();
    assert_eq!(err.message(), "While building block 'gone' from 'b.toml': Block not found: gone.");

    let mut high = simple_layout();
    high.settings.virtual_offset = 0xFFFF_7FF0;
    let err = build_single_file(
        &pairs(vec![input("simple_block", "a.toml")], vec![high]),
        None,
        false,
        32,
        OutputFormat::Hex,
    )
    .unwrap_err();
    assert_eq!(
        err.message(),
        "While building block 'simple_block' from 'a.toml': Invalid block argument: start + length overflow."
    );
}

fn assembled(start: u32, bytes: Vec<u8>, length: u32) -> DataRange {
    let header = Header {
        start_address: start,
        length,
        crc_location: CrcLocation::Keyword("end".to_string()),
        padding: 0xFF,
    };
    bytestream_to_datarange(bytes, &header, &settings(Endianness::Little, 0, false, false), false, false, 0)
        .unwrap()
}

#[test]
fn combined_crc_over_several_blocks() {
    let first = assembled(0x100, vec![1, 2, 3, 4], 0x10);
    let second = assembled(0x200, vec![0xAA, 0xBB, 0xCC, 0xDD], 0x10);
    let ranges = vec![first, second];
    let rules = settings(Endianness::Little, 0, false, false);

    assert_eq!(byte_at(&ranges, 0x100), Some(1));
    assert_eq!(byte_at(&ranges, 0x103), Some(4));
    assert_eq!(byte_at(&ranges, 0x104), Some(0xCD));
    assert_eq!(byte_at(&ranges, 0x108), None);
    assert_eq!(byte_at(&ranges, 0xFF), None);
    assert_eq!(byte_at(&ranges, 0x201), Some(0xBB));

    // spans in any order, overlapping each other, and reaching into gaps
    let spans = vec![
        AddressRange { start: 0x200, end: 0x202 },
        AddressRange { start: 0xF0, end: 0x104 },
        AddressRange { start: 0x102, end: 0x104 },
        AddressRange { start: 0x300, end: 0x300 },
        AddressRange { start: 0x10, end: 0x8 },
    ];
    let range = combined_crc(&ranges, &spans, 0x400, &rules);
    assert_eq!(range.start_address, 0x400);
    assert!(range.bytestream.is_empty());
    assert_eq!(range.crc_address, 0x400);
    assert_eq!(range.crc_bytestream, 0x1DB91833u32.to_le_bytes());
    assert_eq!(range.used_size, 0);
    assert_eq!(range.allocated_size, 0);

    // a later block wins where two hold an address
    let over = DataRange {
        start_address: 0x102,
        bytestream: vec![0x33, 0x44, 0xAA],
        crc_address: 0x102,
        crc_bytestream: vec![3, 4],
        used_size: 0,
        allocated_size: 0,
    };
    let ranges = vec![assembled(0x100, vec![1, 2, 9, 9], 0x10), over];
    let spans = vec![AddressRange { start: 0x102, end: 0x105 }];
    let big = settings(Endianness::Big, 0, true, false);
    let range = combined_crc(&ranges, &spans, 0x400, &big);
    let be = 0xAF68E8B9u32.to_be_bytes();
    assert_eq!(range.crc_bytestream, vec![be[1], be[0], be[3], be[2]]);

    // nothing to gather
    // at any destination, the last address too
    for destination in [0xFFFF_FFFCu32, 0xFFFF_FFFF] {
        let range = combined_crc(&ranges, &vec![], destination, &rules);
        assert_eq!(range.crc_address, destination);
        assert_eq!(range.crc_bytestream, calculate_crc(&[], &rules.crc).to_le_bytes());
    }

    // the range goes out with the blocks
    let mut all = vec![assembled(0x100, vec![1, 2, 3, 4], 0x10)];
    all.push(combined_crc(&all, &vec![AddressRange { start: 0x100, end: 0x104 }], 0x108, &rules));
    let text = emit_hex(&all, 32, OutputFormat::Hex).unwrap();
    assert_eq!(text, ":0C01000001020304CDFB3CB6CDFB3CB675\n:00000001FF");
}

#[test]
fn touching_blocks_are_built_together() {
    let mut below = simple_layout();
    below.settings.virtual_offset = 0x1000 - 0x20;
    // simple_block moved to 0x8FE0..0x9000 ends where block begins
    let (text, stats) = build_single_file(
        &pairs(vec![input("block", "a.toml"), input("simple_block", "b.toml")], vec![simple_layout(), below]),
        Some(&data_sheet()),
        false,
        32,
        OutputFormat::Hex,
    )
    .expect("touching blocks");
    assert_eq!(stats.blocks_processed, 2);
    assert_eq!(stats.block_stats[0].name, "block");
    assert_eq!(stats.block_stats[1].name, "simple_block");
    assert_eq!(stats.block_stats[1].start_address, 0x8FE0);
    assert_eq!(stats.total_allocated, 0x40);
    let lines: Vec<&str> = text.lines().collect();
    assert_eq!(
        lines,
        vec![
            ":0C8FE000020101FFDDCCBBAA6CF4F1FD26",
            ":1C9000000300FFFFFEFFFFFF616263FFFFFF010002000300FFFFFFFF4FE4812956",
            ":00000001FF",
        ]
    );

    // one address more and the two overlap
    let mut below = simple_layout();
    below.settings.virtual_offset = 0x1000 - 0x1F;
    let err = build_single_file(
        &pairs(vec![input("block", "a.toml"), input("simple_block", "b.toml")], vec![simple_layout(), below]),
        Some(&data_sheet()),
        false,
        32,
        OutputFormat::Hex,
    )
    .unwrap_err();
    assert_eq!(
        err.message(),
        "Block memory overlap detected: Block 'block' (0x00009000-0x0000901F) overlaps with block 'simple_block' (0x00008FE1-0x00009000). Overlap: 0x00009000-0x00009000 (1 bytes)"
    );
}

#[test]
fn separate_and_combined_builds_report_the_same_checksum() {
    let be = layout_be();
    let (_, single) =
        build_block_single(&input("block", "mixed_be"), &be, None, false, 32, OutputFormat::Hex)
            .expect("single");
    let (_, stats) = build_single_file(
        &pairs(vec![input("block", "mixed_be")], vec![layout_be()]),
        None,
        false,
        32,
        OutputFormat::Hex,
    )
    .expect("combined");
    assert_eq!(single.crc_value, stats.block_stats[0].crc_value);
    assert_eq!(single.crc_value, calculate_crc(&be_image(), &be.settings.crc));
}

#[test]
fn the_first_block_of_a_name_is_built() {
    let layout = simple_layout();
    assert_eq!(layout.block("block").unwrap().header.start_address, 0x9000);
    assert_eq!(layout.block("simple_block").unwrap().header.start_address, 0x8000);
    assert_eq!(layout.block("Block").unwrap_err().message(), "Block not found: Block.");
}
