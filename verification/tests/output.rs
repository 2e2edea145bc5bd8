use nvmbuilder::layout::header::{CrcLocation, Header};
use nvmbuilder::layout::settings::{CrcArea, CrcData, Endianness, Settings};
use nvmbuilder::output::args::OutputFormat;
use nvmbuilder::output::checksum::calculate_crc;
use nvmbuilder::output::errors::OutputError;
use nvmbuilder::output::{
    byte_swap_inplace, bytestream_to_datarange, emit_hex, validate_crc_location, DataRange,
};

fn sample_settings() -> Settings {
    Settings {
        endianness: Endianness::Little,
        virtual_offset: 0,
        crc: CrcData {
            polynomial: 0x04C11DB7,
            start: 0xFFFF_FFFF,
            xor_out: 0xFFFF_FFFF,
            ref_in: true,
            ref_out: true,
            area: CrcArea::Data,
        },
        byte_swap: false,
        pad_to_end: false,
    }
}

fn sample_header(len: u32) -> Header {
    Header {
        start_address: 0,
        length: len,
        crc_location: CrcLocation::Keyword("end".to_string()),
        padding: 0xFF,
    }
}

fn hex_reason(r: Result<DataRange, OutputError>) -> String {
    match r {
        Err(OutputError::HexOutputError(m)) => m,
        other => panic!("expected a hex output error, got {:?}", other),
    }
}

#[test]
fn pad_to_end_false_resizes_to_crc_end_only() {
    let settings = sample_settings();
    let header = sample_header(16);

    let bytestream = vec![1u8, 2, 3, 4];
    let dr = bytestream_to_datarange(bytestream.clone(), &header, &settings, false, false, 0)
        .expect("data range generation failed");
    let hex = emit_hex(&[dr], 16, OutputFormat::Hex).expect("hex generation failed");

    // No in-memory resize when pad_to_end=false; CRC is emitted separately
    assert_eq!(bytestream.len(), 4);

    // And the emitted hex should contain the CRC bytes (endianness applied)
    let crc_location = validate_crc_location(4usize, &header).expect("crc loc");
    assert_eq!(crc_location as usize, 4, "crc should follow payload end");
    let crc_val = calculate_crc(&bytestream[..crc_location as usize], &settings.crc);
    let crc_bytes = match settings.endianness {
        Endianness::Big => crc_val.to_be_bytes(),
        Endianness::Little => crc_val.to_le_bytes(),
    };
    // No byte swap in this test
    let expected_crc_ascii = crc_bytes
        .iter()
        .map(|b| format!("{:02X}", b))
        .collect::<String>();
    assert!(
        hex.to_uppercase().contains(&expected_crc_ascii),
        "hex should contain CRC bytes"
    );
}

#[test]
fn pad_to_end_true_resizes_to_full_block() {
    let settings = sample_settings();
    let header = sample_header(32);

    let bytestream = vec![1u8, 2, 3, 4];
    let dr = bytestream_to_datarange(bytestream, &header, &settings, false, true, 0)
        .expect("data range generation failed");

    assert_eq!(dr.bytestream.len(), header.length as usize);
}

#[test]
fn assembled_range_has_every_field() {
    let mut settings = sample_settings();
    settings.virtual_offset = 0x2_0000;
    let mut header = sample_header(0x40);
    header.start_address = 0x9_0000;
    let dr = bytestream_to_datarange(vec![1, 2, 3, 4, 5], &header, &settings, false, false, 3)
        .unwrap();
    assert_eq!(dr.start_address, 0xB_0000);
    assert_eq!(dr.bytestream, vec![1, 2, 3, 4, 5, 0xFF, 0xFF, 0xFF]);
    assert_eq!(dr.crc_address, 0xB_0008);
    assert_eq!(dr.crc_bytestream, 0x7A63CC90u32.to_le_bytes());
    assert_eq!(dr.used_size, 5 + 4 - 3);
    assert_eq!(dr.allocated_size, 0x40);
}

#[test]
fn pad_to_end_false_ends_at_the_crc() {
    // payload rounded up to the CRC boundary, plus the four CRC bytes
    let settings = sample_settings();
    for len in 0..12usize {
        let payload: Vec<u8> = (0..len as u8).collect();
        let dr =
            bytestream_to_datarange(payload, &sample_header(64), &settings, false, false, 0)
                .unwrap();
        assert_eq!(dr.bytestream.len() + dr.crc_bytestream.len(), (len + 3) / 4 * 4 + 4);
        let dr = bytestream_to_datarange(
            (0..len as u8).collect(),
            &sample_header(64),
            &settings,
            true,
            true,
            0,
        )
        .unwrap();
        assert_eq!(dr.bytestream.len(), 64);
    }
}

#[test]
fn big_endian_crc_bytes() {
    let mut settings = sample_settings();
    settings.endianness = Endianness::Big;
    let dr = bytestream_to_datarange(vec![1, 2, 3, 4], &sample_header(16), &settings, false, false, 0)
        .unwrap();
    assert_eq!(dr.crc_bytestream, vec![0xB6, 0x3C, 0xFB, 0xCD]);
}

#[test]
fn byte_swap_exchanges_pairs_of_payload_and_crc() {
    let settings = sample_settings();
    let header = sample_header(32);
    let plain =
        bytestream_to_datarange(vec![1, 2, 3, 4, 5], &header, &settings, false, false, 0).unwrap();
    let swapped =
        bytestream_to_datarange(vec![1, 2, 3, 4, 5], &header, &settings, true, false, 0).unwrap();
    assert_eq!(plain.bytestream, vec![1, 2, 3, 4, 5, 0xFF, 0xFF, 0xFF]);
    assert_eq!(swapped.bytestream, vec![2, 1, 4, 3, 0xFF, 5, 0xFF, 0xFF]);
    let mut twice = swapped.bytestream.clone();
    byte_swap_inplace(&mut twice);
    assert_eq!(twice, plain.bytestream);
    // The CRC is that of the swapped bytes, its bytes swapped in pairs.
    let crc = calculate_crc(&swapped.bytestream, &settings.crc);
    assert_eq!(crc, 0x3BA93D83);
    let le = crc.to_le_bytes();
    assert_eq!(swapped.crc_bytestream, vec![le[1], le[0], le[3], le[2]]);
    assert_eq!(swapped.crc_address, plain.crc_address);
    // the odd byte counts as used
    assert_eq!(swapped.used_size, 6 + 4);
}

#[test]
fn byte_swap_twice_restores() {
    for len in 0..9u8 {
        let before: Vec<u8> = (10..10 + len).collect();
        let mut bytes = before.clone();
        byte_swap_inplace(&mut bytes);
        if len >= 2 {
            assert_eq!(bytes[0], before[1]);
            assert_eq!(bytes[1], before[0]);
        }
        if len % 2 == 1 {
            assert_eq!(bytes[len as usize - 1], before[len as usize - 1]);
        }
        byte_swap_inplace(&mut bytes);
        assert_eq!(bytes, before);
    }
}

#[test]
fn crc_over_the_whole_block() {
    let mut settings = sample_settings();
    settings.crc.area = CrcArea::Block;
    let dr = bytestream_to_datarange(vec![1, 2, 3, 4], &sample_header(16), &settings, false, false, 0)
        .unwrap();
    let mut expected = vec![1u8, 2, 3, 4, 0, 0, 0, 0];
    expected.extend([0xFF; 8]);
    assert_eq!(dr.bytestream, expected);
    assert_eq!(dr.crc_bytestream, 0x12EB246Du32.to_le_bytes());
    assert_eq!(dr.crc_address, 4);
    assert_eq!(dr.used_size, 8);
}

#[test]
fn crc_at_an_address() {
    let settings = sample_settings();
    let mut header = sample_header(0x80);
    header.start_address = 0x1_0000;
    header.crc_location = CrcLocation::Address(0x1_0060);
    let dr = bytestream_to_datarange(vec![9; 5], &header, &settings, false, false, 0).unwrap();
    assert_eq!(dr.bytestream, vec![9; 5]);
    assert_eq!(dr.crc_address, 0x1_0060);
    assert_eq!(dr.crc_bytestream, calculate_crc(&[9; 5], &settings.crc).to_le_bytes());
    let padded = bytestream_to_datarange(vec![9; 5], &header, &settings, false, true, 0).unwrap();
    assert_eq!(padded.bytestream.len(), 0x80);
    assert_eq!(&padded.bytestream[..5], &[9; 5]);
    assert!(padded.bytestream[5..].iter().all(|b| *b == 0xFF));

    header.crc_location = CrcLocation::Address(0x1_0005);
    assert!(bytestream_to_datarange(vec![9; 5], &header, &settings, false, false, 0).is_ok());
    header.crc_location = CrcLocation::Address(0x1_0004);
    assert_eq!(
        hex_reason(bytestream_to_datarange(vec![9; 5], &header, &settings, false, false, 0)),
        "CRC overlaps with payload."
    );
    header.crc_location = CrcLocation::Address(0xFFFF);
    assert_eq!(
        hex_reason(bytestream_to_datarange(vec![9; 5], &header, &settings, false, false, 0)),
        "CRC address before block start."
    );
    header.crc_location = CrcLocation::Address(0x1_007C);
    assert!(bytestream_to_datarange(vec![9; 5], &header, &settings, false, false, 0).is_ok());
    header.crc_location = CrcLocation::Address(0x1_007D);
    assert_eq!(
        hex_reason(bytestream_to_datarange(vec![9; 5], &header, &settings, false, false, 0)),
        "CRC location would overrun block."
    );
}

#[test]
fn assembler_refusals() {
    let settings = sample_settings();
    assert_eq!(
        hex_reason(bytestream_to_datarange(vec![0; 17], &sample_header(16), &settings, false, false, 0)),
        "Bytestream length exceeds block length."
    );
    // 13 bytes round up to 16, and the CRC would end at 20
    assert_eq!(
        hex_reason(bytestream_to_datarange(vec![0; 13], &sample_header(16), &settings, false, false, 0)),
        "CRC location would overrun block."
    );
    assert!(bytestream_to_datarange(vec![0; 12], &sample_header(16), &settings, false, false, 0).is_ok());
    let mut header = sample_header(16);
    header.crc_location = CrcLocation::Keyword("start".to_string());
    assert_eq!(
        hex_reason(bytestream_to_datarange(vec![0; 4], &header, &settings, false, false, 0)),
        "Invalid CRC location: start"
    );
    let mut header = sample_header(16);
    header.start_address = 0xFFFF_FFF8;
    assert_eq!(
        hex_reason(bytestream_to_datarange(vec![0; 8], &header, &settings, false, false, 0)),
        "Block lies outside the 32-bit address space."
    );
    assert!(bytestream_to_datarange(vec![0; 4], &header, &settings, false, false, 0).is_ok());
    // a CRC that starts at the last addresses is placed, though it ends behind them
    let mut header = sample_header(8);
    header.start_address = 0xFFFF_FFFA;
    let last = bytestream_to_datarange(vec![1, 2, 3, 4], &header, &settings, false, false, 0).unwrap();
    assert_eq!(last.start_address, 0xFFFF_FFFA);
    assert_eq!(last.crc_address, 0xFFFF_FFFE);
    assert_eq!(last.bytestream.len() + last.crc_bytestream.len(), 8);
    header.start_address = 0xFFFF_FFFC;
    assert_eq!(
        hex_reason(bytestream_to_datarange(vec![1, 2, 3, 4], &header, &settings, false, false, 0)),
        "Block lies outside the 32-bit address space."
    );
    assert_eq!(
        OutputError::HexOutputError("x".to_string()).message(),
        "Hex output error: x."
    );
    assert_eq!(
        OutputError::BlockOverlapError("y".to_string()).message(),
        "Block memory overlap detected: y"
    );
    assert_eq!(OutputError::FileError("z".to_string()).message(), "File error: z.");
}

#[test]
fn used_size_does_not_go_below_zero() {
    let dr = bytestream_to_datarange(vec![0; 4], &sample_header(16), &sample_settings(), false, false, 100)
        .unwrap();
    assert_eq!(dr.used_size, 0);
}

fn range(start: u32, bytes: Vec<u8>, crc_address: u32) -> DataRange {
    DataRange {
        start_address: start,
        bytestream: bytes,
        crc_address,
        crc_bytestream: vec![0xDE, 0xAD, 0xBE, 0xEF],
        used_size: 0,
        allocated_size: 0,
    }
}

#[test]
fn record_width_is_validated() {
    for width in [0usize, 129, 1000] {
        for format in [OutputFormat::Hex, OutputFormat::Mot] {
            match emit_hex(&[range(0, vec![1], 4)], width, format) {
                Err(OutputError::HexOutputError(m)) => {
                    assert_eq!(m, "Record width must be between 1 and 128")
                }
                other => panic!("unexpected {:?}", other),
            }
        }
    }
    assert!(emit_hex(&[range(0, vec![1], 4)], 1, OutputFormat::Hex).is_ok());
    assert!(emit_hex(&[range(0, vec![1], 4)], 128, OutputFormat::Mot).is_ok());
}

#[test]
fn intel_hex_text() {
    let dr = bytestream_to_datarange(vec![1, 2, 3, 4], &sample_header(16), &sample_settings(), false, false, 0)
        .unwrap();
    let text = emit_hex(&[dr], 16, OutputFormat::Hex).unwrap();
    assert_eq!(text, ":0800000001020304CDFB3CB634\n:00000001FF");
}

#[test]
fn s_record_text() {
    let dr = bytestream_to_datarange(vec![1, 2, 3, 4], &sample_header(16), &sample_settings(), false, false, 0)
        .unwrap();
    let text = emit_hex(&[dr], 16, OutputFormat::Mot).unwrap();
    assert_eq!(text, "S10B000001020304CDFB3CB630\nS5030001FB");
}

#[test]
fn records_are_chunked_and_gaps_stay_empty() {
    let text = emit_hex(&[range(0x100, (0..10).collect(), 0x200)], 4, OutputFormat::Hex).unwrap();
    let lines: Vec<&str> = text.lines().collect();
    assert_eq!(
        lines,
        vec![
            ":0401000000010203F5",
            ":0401040004050607E1",
            ":020108000809E4",
            ":04020000DEADBEEFC2",
            ":00000001FF",
        ]
    );
}

#[test]
fn address_width_follows_the_largest_end() {
    // an end up to 0xFFFF: 16-bit records
    let text = emit_hex(&[range(0xFFF0, vec![0; 11], 0xFFFB)], 32, OutputFormat::Mot).unwrap();
    assert!(text.starts_with("S1"), "{text}");
    let text = emit_hex(&[range(0xFFF0, vec![0; 12], 0xFFFC)], 32, OutputFormat::Hex).unwrap();
    assert!(!text.contains(":02000004"), "{text}");
    // an end at 0x10000 is an address of 24 bits
    let text = emit_hex(&[range(0xFFF0, vec![0; 12], 0xFFFC)], 32, OutputFormat::Mot).unwrap();
    assert_eq!(
        text,
        "S21400FFF0000000000000000000000000DEADBEEFC4\nS5030001FB"
    );
    // above: 24-bit records, extended linear addresses
    let text = emit_hex(&[range(0xFFF0, vec![0; 13], 0x1_0000)], 32, OutputFormat::Mot).unwrap();
    assert!(text.starts_with("S2"), "{text}");
    let text = emit_hex(&[range(0xFFF0, vec![0; 13], 0x1_0000)], 32, OutputFormat::Hex).unwrap();
    assert!(text.contains(":020000040001F9"), "{text}");
    let text = emit_hex(&[range(0xFF_FFF0, vec![0; 11], 0xFF_FFFB)], 32, OutputFormat::Mot).unwrap();
    assert!(text.starts_with("S2"), "{text}");
    // an end at 0x1000000 is an address of 32 bits
    let text = emit_hex(&[range(0xFF_FFF0, vec![0; 12], 0xFF_FFFC)], 32, OutputFormat::Mot).unwrap();
    assert!(text.starts_with("S31500FFFFF0"), "{text}");
    let text = emit_hex(&[range(0xFF_FFF0, vec![0; 13], 0x100_0000)], 32, OutputFormat::Mot).unwrap();
    assert!(text.starts_with("S3"), "{text}");
}

#[test]
fn later_ranges_and_the_crc_win() {
    // the CRC is written over the payload of its own range
    let text = emit_hex(&[range(0, vec![0x11; 8], 2)], 16, OutputFormat::Hex).unwrap();
    assert_eq!(text.lines().next().unwrap(), ":080000001111DEADBEEF11117C");
    // an empty payload stores nothing
    let text = emit_hex(&[range(0x40, vec![], 0x10)], 16, OutputFormat::Hex).unwrap();
    assert_eq!(text, ":04001000DEADBEEFB4\n:00000001FF");
    // no ranges at all
    assert_eq!(emit_hex(&[], 16, OutputFormat::Hex).unwrap(), ":00000001FF");
}

#[test]
fn ranges_that_share_no_address_are_all_stored() {
    // touching ranges, lower one first
    let up = emit_hex(
        &[range(0x100, vec![0x11; 12], 0x108), range(0x10C, vec![0x22; 8], 0x110)],
        32,
        OutputFormat::Hex,
    )
    .unwrap();
    assert_eq!(
        up,
        ":140100001111111111111111DEADBEEF22222222DEADBEEF6B\n:00000001FF"
    );
    // and higher one first
    let down = emit_hex(
        &[range(0x10C, vec![0x22; 8], 0x110), range(0x100, vec![0x11; 12], 0x108)],
        32,
        OutputFormat::Hex,
    )
    .unwrap();
    assert_eq!(down, up);
    // a range between two others, touching both
    let text = emit_hex(
        &[
            range(0x100, vec![0x11; 4], 0x100),
            range(0x10C, vec![0x33; 4], 0x10C),
            range(0x104, vec![0x22; 8], 0x104),
        ],
        32,
        OutputFormat::Hex,
    )
    .unwrap();
    assert_eq!(text.lines().count(), 2, "{text}");
    assert!(text.starts_with(":10010000DEADBEEFDEADBEEF22222222DEADBEEF"), "{text}");
}

#[test]
fn payloads_that_meet_are_refused() {
    match emit_hex(
        &[range(0x100, vec![0x11; 8], 0x100), range(0x120, vec![0; 4], 0x120), range(0x104, vec![0x22; 8], 0x104)],
        32,
        OutputFormat::Hex,
    ) {
        Err(OutputError::HexOutputError(m)) => {
            assert!(m.starts_with("Failed to add bytes: "), "{m}")
        },
        other => panic!("unexpected {:?}", other),
    }
}

#[test]
fn records_reach_the_end_of_the_address_space() {
    let text = emit_hex(&[range(0xFFFF_FFF0, vec![0; 12], 0xFFFF_FFFC)], 32, OutputFormat::Hex)
        .unwrap();
    assert_eq!(
        text,
        ":02000004FFFFFC\n:10FFF000000000000000000000000000DEADBEEFC9\n:00000001FF"
    );
    let text = emit_hex(&[range(0xFFFF_FFF0, vec![0; 11], 0xFFFF_FFFB)], 32, OutputFormat::Mot)
        .unwrap();
    assert!(text.starts_with("S314FFFFFFF0"), "{text}");
    // S-records stop one address short of the 32-bit space
    match emit_hex(&[range(0xFFFF_FFF0, vec![0; 12], 0xFFFF_FFFC)], 32, OutputFormat::Mot) {
        Err(OutputError::HexOutputError(m)) => assert_eq!(
            m,
            "Failed to generate S-Record: Address too big for selected format"
        ),
        other => panic!("unexpected {:?}", other),
    }
}
