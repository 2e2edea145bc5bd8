use nvmbuilder::error::NvmError;
use nvmbuilder::hex::bytestream_to_hex_string;
use nvmbuilder::layout::header::{CrcLocation, Header};
use nvmbuilder::layout::settings::{CrcArea, CrcData, Endianness, Settings};
use nvmbuilder::output::errors::OutputError;

fn settings() -> Settings {
    Settings {
        endianness: Endianness::Little,
        virtual_offset: 0,
        byte_swap: false,
        pad_to_end: false,
        crc: CrcData {
            polynomial: 0x04C11DB7,
            start: 0xFFFF_FFFF,
            xor_out: 0xFFFF_FFFF,
            ref_in: true,
            ref_out: true,
            area: CrcArea::Data,
        },
    }
}

fn header(start: u32, length: u32) -> Header {
    Header {
        start_address: start,
        length,
        crc_location: CrcLocation::Keyword("end".to_string()),
        padding: 0xFF,
    }
}

fn reason(r: Result<String, NvmError>) -> String {
    match r {
        Err(NvmError::Output(OutputError::HexOutputError(m))) => m,
        other => panic!("unexpected {:?}", other),
    }
}

#[test]
fn block_image_as_intel_hex() {
    let mut bytes = vec![1u8, 2, 3, 4, 5];
    let text =
        bytestream_to_hex_string(&mut bytes, &header(0xFFF8, 16), &settings(), 0, false, 4).unwrap();
    assert_eq!(
        text,
        ":04FFF80001020304FB\n:04FFFC0005FFFFFFFF\n:020000040001F9\n:0400000090CC637AC3\n:04000400FFFFFFFFFC\n:00000001FF\n"
    );
    // the buffer is left as the image of the whole block
    assert_eq!(
        bytes,
        vec![1, 2, 3, 4, 5, 0xFF, 0xFF, 0xFF, 0x90, 0xCC, 0x63, 0x7A, 0xFF, 0xFF, 0xFF, 0xFF]
    );
}

#[test]
fn records_stop_at_the_segment_boundary() {
    let mut bytes = vec![1u8, 2, 3, 4, 5];
    let text =
        bytestream_to_hex_string(&mut bytes, &header(0xFFF8, 16), &settings(), 0, false, 6).unwrap();
    let lines: Vec<&str> = text.lines().collect();
    assert_eq!(
        lines,
        vec![
            ":06FFF8000102030405FFF5",
            ":02FFFE00FFFF03",
            ":020000040001F9",
            ":0600000090CC637AFFFFC3",
            ":02000600FFFFFA",
            ":00000001FF",
        ]
    );
}

#[test]
fn the_offset_moves_every_address() {
    let mut bytes = vec![1u8, 2, 3, 4];
    let text =
        bytestream_to_hex_string(&mut bytes, &header(0x100, 8), &settings(), 0x2_0000, false, 16)
            .unwrap();
    let lines: Vec<&str> = text.lines().collect();
    assert_eq!(lines, vec![":020000040002F8", ":0801000001020304CDFB3CB633", ":00000001FF"]);
}

#[test]
fn hex_string_refusals() {
    let mut bytes = vec![7u8; 9];
    assert_eq!(
        reason(bytestream_to_hex_string(&mut bytes, &header(0, 8), &settings(), 0, false, 16)),
        "Bytestream length exceeds block length."
    );
    assert_eq!(bytes, vec![7u8; 9]);
    for width in [0usize, 129] {
        let mut bytes = vec![1u8, 2, 3];
        assert_eq!(
            reason(bytestream_to_hex_string(&mut bytes, &header(0, 8), &settings(), 0, true, width)),
            "Record width must be between 1 and 128"
        );
        assert_eq!(bytes, vec![1u8, 2, 3]);
    }
    let mut bytes = vec![0u8; 4];
    assert_eq!(
        reason(bytestream_to_hex_string(
            &mut bytes,
            &header(0xFFFF_FFF0, 0x20),
            &settings(),
            0,
            false,
            16
        )),
        "Block lies outside the 32-bit address space."
    );
    let mut bytes = vec![0u8; 4];
    assert_eq!(
        reason(bytestream_to_hex_string(&mut bytes, &header(0xFFFF_FFF0, 8), &settings(), 0x10, false, 16)),
        "Block lies outside the 32-bit address space."
    );
    let mut bytes = vec![0u8; 4];
    assert!(
        bytestream_to_hex_string(&mut bytes, &header(0xFFFF_FFF0, 0x10), &settings(), 0, false, 16)
            .is_ok()
    );
}
