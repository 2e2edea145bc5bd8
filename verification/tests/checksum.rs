use nvmbuilder::layout::settings::{CrcArea, CrcData};
use nvmbuilder::output::checksum::calculate_crc;

// Verify our CRC32 implementation against the well-known test vector
// This tests the standard CRC32 settings used in all project examples
#[test]
fn test_crc32_standard_test_vector() {
    let crc_settings = CrcData {
        polynomial: 0x04C11DB7,
        start: 0xFFFF_FFFF,
        xor_out: 0xFFFF_FFFF,
        ref_in: true,
        ref_out: true,
        area: CrcArea::Data,
    };

    // The standard CRC32 test vector - "123456789" should produce 0xCBF43926
    // This is the well-known test vector for CRC-32 (used in ZIP, PNG, etc.)
    let test_str = b"123456789";
    let result = calculate_crc(test_str, &crc_settings);
    assert_eq!(
        result, 0xCBF43926,
        "Standard CRC32 test vector failed (expected 0xCBF43926 for \"123456789\")"
    );

    // Test with simple data to ensure the implementation is stable
    let simple_data = vec![0x01, 0x02, 0x03, 0x04];
    let simple_result = calculate_crc(&simple_data, &crc_settings);
    assert_eq!(simple_result, 0xB63CFBCD, "CRC32 for [1,2,3,4] failed");
}

#[test]
fn test_crc32_mpeg2_non_reflected_vector() {
    let crc_settings = CrcData {
        polynomial: 0x04C11DB7,
        start: 0xFFFF_FFFF,
        xor_out: 0x0000_0000,
        ref_in: false,
        ref_out: false,
        area: CrcArea::Data,
    };

    // CRC-32/MPEG-2 parameters (non-reflected) over "123456789" should produce 0x0376E6E7
    let test_str = b"123456789";
    let result = calculate_crc(test_str, &crc_settings);
    assert_eq!(
        result, 0x0376E6E7,
        "CRC32/MPEG-2 test vector failed (expected 0x0376E6E7 for \"123456789\")"
    );
}

#[test]
fn crc_of_nothing_is_start_xor_out() {
    let crc_settings = CrcData {
        polynomial: 0x04C11DB7,
        start: 0x1234_5678,
        xor_out: 0x0F0F_0F0F,
        ref_in: false,
        ref_out: false,
        area: CrcArea::Data,
    };
    assert_eq!(calculate_crc(&[], &crc_settings), 0x1234_5678 ^ 0x0F0F_0F0F);
}

#[test]
fn crc_reflected_output_only() {
    // CRC-32/BZIP2 parameters with the output reflected: the bit reversal of
    // the plain register, then the final XOR.
    let plain = CrcData {
        polynomial: 0x04C11DB7,
        start: 0xFFFF_FFFF,
        xor_out: 0,
        ref_in: false,
        ref_out: false,
        area: CrcArea::Data,
    };
    let mixed = CrcData { ref_out: true, ..plain };
    let data = b"123456789";
    assert_eq!(calculate_crc(data, &mixed), calculate_crc(data, &plain).reverse_bits());
}

#[test]
fn crc_bzip2_vector() {
    let crc_settings = CrcData {
        polynomial: 0x04C11DB7,
        start: 0xFFFF_FFFF,
        xor_out: 0xFFFF_FFFF,
        ref_in: false,
        ref_out: false,
        area: CrcArea::Data,
    };
    assert_eq!(calculate_crc(b"123456789", &crc_settings), 0xFC891918);
}

#[test]
fn crc_jamcrc_vector() {
    let crc_settings = CrcData {
        polynomial: 0x04C11DB7,
        start: 0xFFFF_FFFF,
        xor_out: 0,
        ref_in: true,
        ref_out: true,
        area: CrcArea::Data,
    };
    assert_eq!(calculate_crc(b"123456789", &crc_settings), 0x340BC6D9);
}
